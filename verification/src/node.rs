use vstd::prelude::*;
use vstd::utf8::encode_utf8;
use std::collections::HashSet;

verus! {

broadcast use vstd::std_specs::hash::group_hash_axioms;

/// Mathematical model of a format node: texts are character sequences.
pub enum Doc {
    Group(usize, Seq<Doc>),
    Nodes(Seq<Doc>),
    IfWrap(usize, Box<Doc>, Box<Doc>),
    Text(Seq<char>),
    Unicode(Seq<char>, usize),
    SpaceOrLine,
    Line,
    Indent(Seq<Doc>),
    RequiredLine,
}

/// A node of the document tree handed to the layout engine.
pub enum FormatNode {
    /// Children laid out on one line when they fit, or wrapped otherwise.
    Group(usize, Vec<FormatNode>),
    Nodes(Vec<FormatNode>),
    /// The first node when the group with this id wrapped, else the second.
    IfWrap(usize, Box<FormatNode>, Box<FormatNode>),
    /// Text whose width is its length in bytes.
    Text(String),
    /// Text with its width in characters.
    Unicode(String, usize),
    SpaceOrLine,
    Line,
    Indent(Vec<FormatNode>),
    RequiredLine,
}

pub open spec fn doc_of(n: FormatNode) -> Doc
    decreases n,
{
    match n {
        FormatNode::Group(id, ns) => Doc::Group(id, docs_of(ns@)),
        FormatNode::Nodes(ns) => Doc::Nodes(docs_of(ns@)),
        FormatNode::IfWrap(id, a, b) => Doc::IfWrap(id, Box::new(doc_of(*a)), Box::new(doc_of(*b))),
        FormatNode::Text(s) => Doc::Text(s@),
        FormatNode::Unicode(s, n) => Doc::Unicode(s@, n),
        FormatNode::SpaceOrLine => Doc::SpaceOrLine,
        FormatNode::Line => Doc::Line,
        FormatNode::Indent(ns) => Doc::Indent(docs_of(ns@)),
        FormatNode::RequiredLine => Doc::RequiredLine,
    }
}

pub open spec fn docs_of(ns: Seq<FormatNode>) -> Seq<Doc>
    decreases ns,
{
    if ns.len() == 0 {
        Seq::empty()
    } else {
        docs_of(ns.drop_last()).push(doc_of(ns.last()))
    }
}

impl View for FormatNode {
    type V = Doc;

    open spec fn view(&self) -> Doc {
        doc_of(*self)
    }
}


/// Width of a text in bytes, as `str::len` counts it.
pub open spec fn byte_len(s: Seq<char>) -> int {
    encode_utf8(s).len() as int
}

/// The width a node takes when laid out on one line, given which groups wrapped.
pub open spec fn width_of(d: Doc, wrapped: Set<usize>) -> int
    decreases d,
{
    match d {
        Doc::Group(_, ds) => widths(ds, wrapped),
        Doc::Nodes(ds) => widths(ds, wrapped),
        Doc::Indent(ds) => widths(ds, wrapped),
        Doc::IfWrap(id, a, b) => if wrapped.contains(id) {
            width_of(*a, wrapped)
        } else {
            width_of(*b, wrapped)
        },
        Doc::Text(s) => byte_len(s),
        Doc::Unicode(_, n) => n as int,
        Doc::SpaceOrLine => 1,
        Doc::Line => 0,
        Doc::RequiredLine => 0,
    }
}

/// Sum of the widths of a sequence of nodes.
pub open spec fn widths(ds: Seq<Doc>, wrapped: Set<usize>) -> int
    decreases ds,
{
    if ds.len() == 0 {
        0
    } else {
        widths(ds.drop_last(), wrapped) + width_of(ds.last(), wrapped)
    }
}

/// An upper bound of every width and of every advance of the layout engine:
/// all text widths of both branches of each `IfWrap`, plus the indentation.
pub open spec fn bound_of(d: Doc) -> int
    decreases d,
{
    match d {
        Doc::Group(_, ds) => bounds(ds),
        Doc::Nodes(ds) => bounds(ds),
        Doc::Indent(ds) => 4 + bounds(ds),
        Doc::IfWrap(_, a, b) => bound_of(*a) + bound_of(*b),
        Doc::Text(s) => byte_len(s),
        Doc::Unicode(_, n) => n as int,
        Doc::SpaceOrLine => 1,
        Doc::Line => 0,
        Doc::RequiredLine => 0,
    }
}

pub open spec fn bounds(ds: Seq<Doc>) -> int
    decreases ds,
{
    if ds.len() == 0 {
        0
    } else {
        bounds(ds.drop_last()) + bound_of(ds.last())
    }
}

/// How deeply `Indent` nodes nest.
pub open spec fn depth_of(d: Doc) -> int
    decreases d,
{
    match d {
        Doc::Group(_, ds) => depths(ds),
        Doc::Nodes(ds) => depths(ds),
        Doc::Indent(ds) => 1 + depths(ds),
        Doc::IfWrap(_, a, b) => {
            let x = depth_of(*a);
            let y = depth_of(*b);
            if x < y { y } else { x }
        },
        _ => 0,
    }
}

pub open spec fn depths(ds: Seq<Doc>) -> int
    decreases ds,
{
    if ds.len() == 0 {
        0
    } else {
        let x = depths(ds.drop_last());
        let y = depth_of(ds.last());
        if x < y { y } else { x }
    }
}

/// The node holds no `RequiredLine`.
pub open spec fn no_required_line(d: Doc) -> bool
    decreases d,
{
    match d {
        Doc::Group(_, ds) => all_no_required_line(ds),
        Doc::Nodes(ds) => all_no_required_line(ds),
        Doc::Indent(ds) => all_no_required_line(ds),
        Doc::IfWrap(_, a, b) => no_required_line(*a) && no_required_line(*b),
        Doc::RequiredLine => false,
        _ => true,
    }
}

pub open spec fn all_no_required_line(ds: Seq<Doc>) -> bool
    decreases ds,
{
    if ds.len() == 0 {
        true
    } else {
        all_no_required_line(ds.drop_last()) && no_required_line(ds.last())
    }
}

/// The node printed on one line: texts in order, `SpaceOrLine` as one
/// space, `Line` and `RequiredLine` as nothing.
pub open spec fn flat(d: Doc, wrapped: Set<usize>) -> Seq<char>
    decreases d,
{
    match d {
        Doc::Group(_, ds) => flats(ds, wrapped),
        Doc::Nodes(ds) => flats(ds, wrapped),
        Doc::Indent(ds) => flats(ds, wrapped),
        Doc::IfWrap(id, a, b) => if wrapped.contains(id) {
            flat(*a, wrapped)
        } else {
            flat(*b, wrapped)
        },
        Doc::Text(s) => s,
        Doc::Unicode(s, _) => s,
        Doc::SpaceOrLine => seq![' '],
        Doc::Line => Seq::empty(),
        Doc::RequiredLine => Seq::empty(),
    }
}

pub open spec fn flats(ds: Seq<Doc>, wrapped: Set<usize>) -> Seq<char>
    decreases ds,
{
    if ds.len() == 0 {
        Seq::empty()
    } else {
        flats(ds.drop_last(), wrapped) + flat(ds.last(), wrapped)
    }
}

/// The node holds no `IfWrap`.
pub open spec fn no_if_wrap(d: Doc) -> bool
    decreases d,
{
    match d {
        Doc::Group(_, ds) => all_no_if_wrap(ds),
        Doc::Nodes(ds) => all_no_if_wrap(ds),
        Doc::Indent(ds) => all_no_if_wrap(ds),
        Doc::IfWrap(_, _, _) => false,
        _ => true,
    }
}

pub open spec fn all_no_if_wrap(ds: Seq<Doc>) -> bool
    decreases ds,
{
    if ds.len() == 0 {
        true
    } else {
        all_no_if_wrap(ds.drop_last()) && no_if_wrap(ds.last())
    }
}

/// Every `Unicode` node counts its characters and every `Text` node is ASCII,
/// so that widths count printed characters.
pub open spec fn well_counted(d: Doc) -> bool
    decreases d,
{
    match d {
        Doc::Group(_, ds) => all_well_counted(ds),
        Doc::Nodes(ds) => all_well_counted(ds),
        Doc::Indent(ds) => all_well_counted(ds),
        Doc::IfWrap(_, a, b) => well_counted(*a) && well_counted(*b),
        Doc::Text(s) => vstd::utf8::is_ascii_chars(s),
        Doc::Unicode(s, n) => n == s.len(),
        _ => true,
    }
}

pub open spec fn all_well_counted(ds: Seq<Doc>) -> bool
    decreases ds,
{
    if ds.len() == 0 {
        true
    } else {
        all_well_counted(ds.drop_last()) && well_counted(ds.last())
    }
}


/// The model of a list of nodes lists the models of the nodes.
pub proof fn lemma_docs_index(ns: Seq<FormatNode>)
    ensures
        docs_of(ns).len() == ns.len(),
        forall|k: int| 0 <= k < ns.len() ==> #[trigger] docs_of(ns)[k] == doc_of(ns[k]),
    decreases ns.len(),
{
    if ns.len() > 0 {
        lemma_docs_index(ns.drop_last());
    }
}

/// The model of a short list of nodes, spelled out.
pub proof fn lemma_docs_small(ns: Seq<FormatNode>)
    requires
        1 <= ns.len() <= 6,
    ensures
        ns.len() == 1 ==> docs_of(ns) == seq![doc_of(ns[0])],
        ns.len() == 2 ==> docs_of(ns) == seq![doc_of(ns[0]), doc_of(ns[1])],
        ns.len() == 3 ==> docs_of(ns) == seq![doc_of(ns[0]), doc_of(ns[1]), doc_of(ns[2])],
        ns.len() == 4 ==> docs_of(ns) == seq![doc_of(ns[0]), doc_of(ns[1]), doc_of(ns[2]), doc_of(ns[3])],
        ns.len() == 6 ==> docs_of(ns) == seq![
            doc_of(ns[0]),
            doc_of(ns[1]),
            doc_of(ns[2]),
            doc_of(ns[3]),
            doc_of(ns[4]),
            doc_of(ns[5]),
        ],
{
    lemma_docs_index(ns);
    if ns.len() == 1 {
        assert(docs_of(ns) =~= seq![doc_of(ns[0])]);
    } else if ns.len() == 2 {
        assert(docs_of(ns) =~= seq![doc_of(ns[0]), doc_of(ns[1])]);
    } else if ns.len() == 3 {
        assert(docs_of(ns) =~= seq![doc_of(ns[0]), doc_of(ns[1]), doc_of(ns[2])]);
    } else if ns.len() == 4 {
        assert(docs_of(ns) =~= seq![doc_of(ns[0]), doc_of(ns[1]), doc_of(ns[2]), doc_of(ns[3])]);
    } else if ns.len() == 6 {
        assert(docs_of(ns) =~= seq![
            doc_of(ns[0]),
            doc_of(ns[1]),
            doc_of(ns[2]),
            doc_of(ns[3]),
            doc_of(ns[4]),
            doc_of(ns[5]),
        ]);
    }
}

pub proof fn lemma_docs_take(ns: Seq<FormatNode>, k: int)
    requires
        0 <= k <= ns.len(),
    ensures
        docs_of(ns.take(k)) == docs_of(ns).take(k),
{
    lemma_docs_index(ns);
    lemma_docs_index(ns.take(k));
    assert(docs_of(ns.take(k)) =~= docs_of(ns).take(k));
}

pub proof fn lemma_width_le_bound(d: Doc, wrapped: Set<usize>)
    ensures
        0 <= width_of(d, wrapped) <= bound_of(d),
        0 <= depth_of(d),
    decreases d,
{
    match d {
        Doc::Group(_, ds) => lemma_widths_le_bounds(ds, wrapped),
        Doc::Nodes(ds) => lemma_widths_le_bounds(ds, wrapped),
        Doc::Indent(ds) => lemma_widths_le_bounds(ds, wrapped),
        Doc::IfWrap(_, a, b) => {
            lemma_width_le_bound(*a, wrapped);
            lemma_width_le_bound(*b, wrapped);
        },
        _ => {},
    }
}

pub proof fn lemma_widths_le_bounds(ds: Seq<Doc>, wrapped: Set<usize>)
    ensures
        0 <= widths(ds, wrapped) <= bounds(ds),
        0 <= depths(ds),
        forall|k: int| 0 <= k < ds.len() ==> #[trigger] bound_of(ds[k]) <= bounds(ds),
        forall|k: int| 0 <= k < ds.len() ==> #[trigger] depth_of(ds[k]) <= depths(ds),
    decreases ds,
{
    if ds.len() > 0 {
        lemma_widths_le_bounds(ds.drop_last(), wrapped);
        lemma_width_le_bound(ds.last(), wrapped);
        assert forall|k: int| 0 <= k < ds.len() implies #[trigger] bound_of(ds[k]) <= bounds(ds) by {
            if k < ds.len() - 1 {
                assert(ds.drop_last()[k] == ds[k]);
            }
        }
        assert forall|k: int| 0 <= k < ds.len() implies #[trigger] depth_of(ds[k]) <= depths(ds) by {
            if k < ds.len() - 1 {
                assert(ds.drop_last()[k] == ds[k]);
            }
        }
    }
}

pub proof fn lemma_widths_prefix(ds: Seq<Doc>, k: int, wrapped: Set<usize>)
    requires
        0 <= k <= ds.len(),
    ensures
        widths(ds.take(k), wrapped) <= widths(ds, wrapped),
    decreases ds.len(),
{
    if k == ds.len() {
        assert(ds.take(k) =~= ds);
    } else {
        lemma_widths_prefix(ds.drop_last(), k, wrapped);
        assert(ds.drop_last().take(k) =~= ds.take(k));
        lemma_width_le_bound(ds.last(), wrapped);
    }
}

/// Whether line breaks of a group are taken or left out.
pub enum Wrap {
    Enable,
    Detect,
}

impl Wrap {
    pub open spec fn enabled(&self) -> bool {
        match self {
            Wrap::Enable => true,
            Wrap::Detect => false,
        }
    }

    #[verifier::when_used_as_spec(enabled)]
    pub fn enable(&self) -> (r: bool)
        ensures
            r == self.enabled(),
    {
        match self {
            Wrap::Enable => true,
            Wrap::Detect => false,
        }
    }
}

impl FormatNode {
    /// A node for text that may hold any character; its width is its number of characters.
    pub fn from_unicode(value: &str) -> (r: FormatNode)
        ensures
            r@ == Doc::Unicode(value@, value@.len() as usize),
            value@.len() <= usize::MAX,
    {
        let len = value.unicode_len();
        FormatNode::Unicode(value.to_owned(), len)
    }

    /// A node for text whose width is its length in bytes.
    pub fn from_ascii(value: &str) -> (r: FormatNode)
        ensures
            r@ == Doc::Text(value@),
    {
        FormatNode::Text(value.to_owned())
    }

    /// The width of the node on one line, given the groups that wrapped.
    pub fn width(&self, wrapped: &HashSet<usize>) -> (w: usize)
        requires
            width_of(self@, wrapped@) <= usize::MAX,
        ensures
            w == width_of(self@, wrapped@),
        decreases self,
    {
        proof {
            lemma_width_le_bound(self@, wrapped@);
        }
        match self {
            FormatNode::Group(_, nodes) => Self::width_list(nodes, wrapped),
            FormatNode::Nodes(nodes) => Self::width_list(nodes, wrapped),
            FormatNode::Indent(nodes) => Self::width_list(nodes, wrapped),
            FormatNode::IfWrap(wrap_id, wrap_case, no_wrap_case) => {
                proof {
                    lemma_width_le_bound(doc_of(**wrap_case), wrapped@);
                    lemma_width_le_bound(doc_of(**no_wrap_case), wrapped@);
                }
                if wrapped.contains(wrap_id) {
                    wrap_case.width(wrapped)
                } else {
                    no_wrap_case.width(wrapped)
                }
            },
            FormatNode::Text(str) => str.as_str().len(),
            FormatNode::Unicode(_, len) => *len,
            FormatNode::SpaceOrLine => 1,
            FormatNode::Line => 0,
            FormatNode::RequiredLine => 0,
        }
    }

    pub(crate) fn width_list(nodes: &Vec<FormatNode>, wrapped: &HashSet<usize>) -> (w: usize)
        requires
            widths(docs_of(nodes@), wrapped@) <= usize::MAX,
        ensures
            w == widths(docs_of(nodes@), wrapped@),
        decreases nodes,
    {
        let mut sum: usize = 0;
        let mut i: usize = 0;
        while i < nodes.len()
            invariant
                i <= nodes.len(),
                widths(docs_of(nodes@), wrapped@) <= usize::MAX,
                sum == widths(docs_of(nodes@.take(i as int)), wrapped@),
            decreases nodes.len() - i,
        {
            proof {
                assert(decreases_to!(nodes => nodes@[i as int]));
                lemma_docs_take(nodes@, i + 1);
                lemma_docs_index(nodes@);
                lemma_widths_prefix(docs_of(nodes@), i + 1, wrapped@);
                let ds = docs_of(nodes@.take(i + 1));
                lemma_widths_le_bounds(ds, wrapped@);
                lemma_widths_le_bounds(ds.drop_last(), wrapped@);
                assert(nodes@.take(i + 1).drop_last() =~= nodes@.take(i as int));
                assert(ds.last() == nodes@[i as int]@);
                assert(ds.drop_last() =~= docs_of(nodes@.take(i as int)));
            }
            let w = nodes[i].width(wrapped);
            sum = sum + w;
            i = i + 1;
        }
        proof {
            assert(nodes@.take(i as int) =~= nodes@);
        }
        sum
    }
}

impl FormatNode {
    /// A deep copy of the node.
    pub fn deep_clone(&self) -> (r: FormatNode)
        ensures
            r@ == self@,
        decreases self,
    {
        match self {
            FormatNode::Group(id, ns) => FormatNode::Group(*id, Self::clone_list(ns)),
            FormatNode::Nodes(ns) => FormatNode::Nodes(Self::clone_list(ns)),
            FormatNode::IfWrap(id, a, b) => FormatNode::IfWrap(
                *id,
                Box::new((**a).deep_clone()),
                Box::new((**b).deep_clone()),
            ),
            FormatNode::Text(s) => FormatNode::Text(s.clone()),
            FormatNode::Unicode(s, n) => FormatNode::Unicode(s.clone(), *n),
            FormatNode::SpaceOrLine => FormatNode::SpaceOrLine,
            FormatNode::Line => FormatNode::Line,
            FormatNode::Indent(ns) => FormatNode::Indent(Self::clone_list(ns)),
            FormatNode::RequiredLine => FormatNode::RequiredLine,
        }
    }

    fn clone_list(ns: &Vec<FormatNode>) -> (r: Vec<FormatNode>)
        ensures
            docs_of(r@) == docs_of(ns@),
        decreases ns,
    {
        let mut r: Vec<FormatNode> = Vec::new();
        let mut i: usize = 0;
        while i < ns.len()
            invariant
                i <= ns.len(),
                r@.len() == i,
                docs_of(r@) == docs_of(ns@.take(i as int)),
            decreases ns.len() - i,
        {
            proof {
                assert(decreases_to!(ns => ns@[i as int]));
            }
            let c = ns[i].deep_clone();
            let ghost old_r = r@;
            r.push(c);
            proof {
                assert(r@.drop_last() =~= old_r);
                assert(ns@.take(i + 1).drop_last() =~= ns@.take(i as int));
            }
            i = i + 1;
        }
        proof {
            assert(ns@.take(i as int) =~= ns@);
        }
        r
    }
}

impl Clone for FormatNode {
    fn clone(&self) -> (r: FormatNode)
        ensures
            r@ == self@,
    {
        self.deep_clone()
    }
}

} // verus!
