use vstd::prelude::*;
use std::collections::HashSet;
use crate::node::{
    bound_of, bounds, depth_of, depths, doc_of, docs_of, lemma_docs_index, lemma_width_le_bound,
    lemma_widths_le_bounds, widths, Doc, FormatNode, Wrap,
};

verus! {

broadcast use vstd::std_specs::hash::group_hash_axioms;

/// One level of indentation.
pub const INDENT: &'static str = "    ";

/// The state of the layout engine: what was printed, the indentation level,
/// the width of the current line and the groups that wrapped.
pub struct Layout {
    pub buffer: Seq<char>,
    pub indent: nat,
    pub size: int,
    pub wrapped: Set<usize>,
}

/// The state of a layout engine that printed nothing.
pub open spec fn fresh_layout() -> Layout {
    Layout { buffer: Seq::empty(), indent: 0, size: 0, wrapped: Set::empty() }
}

/// `n` levels of indentation, four spaces each.
pub open spec fn indentation(n: nat) -> Seq<char> {
    Seq::new(4 * n, |i: int| ' ')
}

pub open spec fn put_text(st: Layout, s: Seq<char>, width: int) -> Layout {
    Layout { buffer: st.buffer + s, size: st.size + width, ..st }
}

pub open spec fn put_new_line(st: Layout) -> Layout {
    Layout {
        buffer: st.buffer + seq!['\n'] + indentation(st.indent),
        size: 4 * st.indent as int,
        ..st
    }
}

/// The layout engine on one node: `wrap` tells whether the enclosing group
/// wrapped, `max` is the line width.
pub open spec fn render(d: Doc, wrap: bool, st: Layout, max: int) -> Layout
    decreases d,
{
    match d {
        Doc::Group(id, ds) => if st.size + widths(ds, st.wrapped) > max {
            render_seq(ds, true, Layout { wrapped: st.wrapped.insert(id), ..st }, max)
        } else {
            render_seq(ds, false, st, max)
        },
        Doc::Nodes(ds) => render_seq(ds, wrap, st, max),
        Doc::IfWrap(id, a, b) => if st.wrapped.contains(id) {
            render(*a, wrap, st, max)
        } else {
            render(*b, wrap, st, max)
        },
        Doc::Text(s) => put_text(st, s, crate::node::byte_len(s)),
        Doc::Unicode(s, n) => put_text(st, s, n as int),
        Doc::SpaceOrLine => if wrap {
            put_new_line(st)
        } else {
            put_text(st, seq![' '], 1)
        },
        Doc::Line => if wrap {
            put_new_line(st)
        } else {
            st
        },
        Doc::Indent(ds) => if wrap {
            let inner = Layout {
                buffer: st.buffer + indentation(1),
                indent: st.indent + 1,
                size: st.size + 4,
                wrapped: st.wrapped,
            };
            let after = render_seq(ds, wrap, inner, max);
            Layout { indent: (after.indent - 1) as nat, ..after }
        } else {
            render_seq(ds, wrap, st, max)
        },
        Doc::RequiredLine => put_new_line(st),
    }
}

/// The layout engine on the nodes of a sequence, in order.
pub open spec fn render_seq(ds: Seq<Doc>, wrap: bool, st: Layout, max: int) -> Layout
    decreases ds,
{
    if ds.len() == 0 {
        st
    } else {
        render(ds.last(), wrap, render_seq(ds.drop_last(), wrap, st, max), max)
    }
}

pub open spec fn max2(a: int, b: int) -> int {
    if a < b { b } else { a }
}

/// The machine words of the engine cannot overflow while it lays out `d` from `st`.
pub open spec fn fits_machine(d: Doc, st: Layout) -> bool {
    max2(st.size, 4 * (st.indent + depth_of(d))) + bound_of(d) <= usize::MAX
}

pub open spec fn fits_machine_seq(ds: Seq<Doc>, st: Layout) -> bool {
    max2(st.size, 4 * (st.indent + depths(ds))) + bounds(ds) <= usize::MAX
}

/// No machine word of the engine overflows while it lays out `d` from `st`:
/// every line width and indentation level it computes fits in a `usize`.
pub open spec fn render_ok(d: Doc, wrap: bool, st: Layout, max: int) -> bool
    decreases d,
{
    match d {
        Doc::Group(id, ds) => {
            let w = widths(ds, st.wrapped);
            &&& st.size + w <= usize::MAX
            &&& if st.size + w > max {
                render_seq_ok(ds, true, Layout { wrapped: st.wrapped.insert(id), ..st }, max)
            } else {
                render_seq_ok(ds, false, st, max)
            }
        },
        Doc::Nodes(ds) => render_seq_ok(ds, wrap, st, max),
        Doc::IfWrap(id, a, b) => if st.wrapped.contains(id) {
            render_ok(*a, wrap, st, max)
        } else {
            render_ok(*b, wrap, st, max)
        },
        Doc::Text(s) => st.size + crate::node::byte_len(s) <= usize::MAX,
        Doc::Unicode(_, n) => st.size + n <= usize::MAX,
        Doc::SpaceOrLine => if wrap {
            4 * st.indent <= usize::MAX
        } else {
            st.size + 1 <= usize::MAX
        },
        Doc::Line => wrap ==> 4 * st.indent <= usize::MAX,
        Doc::Indent(ds) => if wrap {
            let inner = Layout {
                buffer: st.buffer + indentation(1),
                indent: st.indent + 1,
                size: st.size + 4,
                wrapped: st.wrapped,
            };
            &&& st.size + 4 <= usize::MAX
            &&& st.indent + 1 <= usize::MAX
            &&& render_seq_ok(ds, wrap, inner, max)
        } else {
            render_seq_ok(ds, wrap, st, max)
        },
        Doc::RequiredLine => 4 * st.indent <= usize::MAX,
    }
}

/// `render_ok` for each node of a sequence, from the state the nodes
/// before it leave.
pub open spec fn render_seq_ok(ds: Seq<Doc>, wrap: bool, st: Layout, max: int) -> bool
    decreases ds,
{
    ds.len() == 0 || (render_seq_ok(ds.drop_last(), wrap, st, max) && render_ok(
        ds.last(),
        wrap,
        render_seq(ds.drop_last(), wrap, st, max),
        max,
    ))
}

pub proof fn lemma_render_seq_ok_prefix(ds: Seq<Doc>, wrap: bool, st: Layout, max: int, k: int)
    requires
        0 <= k <= ds.len(),
        render_seq_ok(ds, wrap, st, max),
    ensures
        render_seq_ok(ds.take(k), wrap, st, max),
    decreases ds.len(),
{
    if k == ds.len() {
        assert(ds.take(k) =~= ds);
    } else {
        lemma_render_seq_ok_prefix(ds.drop_last(), wrap, st, max, k);
        assert(ds.drop_last().take(k) =~= ds.take(k));
    }
}

/// A document whose widths, bounded as `fits_machine` bounds them, fit in
/// a machine word is laid out without overflow.
pub proof fn lemma_fits_machine_render_ok(d: Doc, wrap: bool, st: Layout, max: int)
    requires
        st.size >= 0,
        fits_machine(d, st),
    ensures
        render_ok(d, wrap, st, max),
    decreases d,
{
    lemma_width_le_bound(d, st.wrapped);
    match d {
        Doc::Group(id, ds) => {
            lemma_widths_le_bounds(ds, st.wrapped);
            lemma_fits_machine_render_seq_ok(ds, true, Layout { wrapped: st.wrapped.insert(id), ..st }, max);
            lemma_fits_machine_render_seq_ok(ds, false, st, max);
        },
        Doc::Nodes(ds) => lemma_fits_machine_render_seq_ok(ds, wrap, st, max),
        Doc::IfWrap(id, a, b) => {
            lemma_width_le_bound(*a, st.wrapped);
            lemma_width_le_bound(*b, st.wrapped);
            lemma_fits_machine_render_ok(*a, wrap, st, max);
            lemma_fits_machine_render_ok(*b, wrap, st, max);
        },
        Doc::Indent(ds) => {
            lemma_widths_le_bounds(ds, st.wrapped);
            let inner = Layout {
                buffer: st.buffer + indentation(1),
                indent: st.indent + 1,
                size: st.size + 4,
                wrapped: st.wrapped,
            };
            lemma_fits_machine_render_seq_ok(ds, wrap, inner, max);
            lemma_fits_machine_render_seq_ok(ds, wrap, st, max);
        },
        _ => {},
    }
}

pub proof fn lemma_fits_machine_render_seq_ok(ds: Seq<Doc>, wrap: bool, st: Layout, max: int)
    requires
        st.size >= 0,
        fits_machine_seq(ds, st),
    ensures
        render_seq_ok(ds, wrap, st, max),
    decreases ds,
{
    lemma_widths_le_bounds(ds, st.wrapped);
    if ds.len() > 0 {
        let init = ds.drop_last();
        lemma_widths_le_bounds(init, st.wrapped);
        lemma_width_le_bound(ds.last(), st.wrapped);
        lemma_fits_machine_render_seq_ok(init, wrap, st, max);
        lemma_render_seq_bounds(init, wrap, st, max);
        let mid = render_seq(init, wrap, st, max);
        lemma_fits_machine_render_ok(ds.last(), wrap, mid, max);
    }
}

/// The engine keeps the indentation level of each node, and its line width
/// grows by no more than the node's bound.
pub proof fn lemma_render_bounds(d: Doc, wrap: bool, st: Layout, max: int)
    requires
        st.size >= 0,
    ensures
        render(d, wrap, st, max).indent == st.indent,
        0 <= render(d, wrap, st, max).size <= max2(st.size, 4 * (st.indent + depth_of(d)))
            + bound_of(d),
    decreases d,
{
    lemma_width_le_bound(d, st.wrapped);
    match d {
        Doc::Group(id, ds) => {
            lemma_render_seq_bounds(ds, true, Layout { wrapped: st.wrapped.insert(id), ..st }, max);
            lemma_render_seq_bounds(ds, false, st, max);
        },
        Doc::Nodes(ds) => lemma_render_seq_bounds(ds, wrap, st, max),
        Doc::IfWrap(id, a, b) => {
            lemma_render_bounds(*a, wrap, st, max);
            lemma_render_bounds(*b, wrap, st, max);
            lemma_width_le_bound(*a, st.wrapped);
            lemma_width_le_bound(*b, st.wrapped);
        },
        Doc::Indent(ds) => {
            let inner = Layout {
                buffer: st.buffer + indentation(1),
                indent: st.indent + 1,
                size: st.size + 4,
                wrapped: st.wrapped,
            };
            lemma_render_seq_bounds(ds, wrap, inner, max);
            lemma_render_seq_bounds(ds, wrap, st, max);
        },
        _ => {},
    }
}

pub proof fn lemma_render_seq_bounds(ds: Seq<Doc>, wrap: bool, st: Layout, max: int)
    requires
        st.size >= 0,
    ensures
        render_seq(ds, wrap, st, max).indent == st.indent,
        0 <= render_seq(ds, wrap, st, max).size <= max2(st.size, 4 * (st.indent + depths(ds)))
            + bounds(ds),
    decreases ds,
{
    lemma_widths_le_bounds(ds, st.wrapped);
    if ds.len() > 0 {
        lemma_render_seq_bounds(ds.drop_last(), wrap, st, max);
        let mid = render_seq(ds.drop_last(), wrap, st, max);
        lemma_render_bounds(ds.last(), wrap, mid, max);
        lemma_widths_le_bounds(ds.drop_last(), st.wrapped);
        lemma_width_le_bound(ds.last(), st.wrapped);
    }
}

/// Lays out format nodes within a line width.
pub struct Generator {
    buffer: String,
    indent: usize,
    size: usize,
    max: usize,
    wrapped: HashSet<usize>,
}

impl Generator {
    /// The state of the engine.
    pub closed spec fn layout(&self) -> Layout {
        Layout {
            buffer: self.buffer@,
            indent: self.indent as nat,
            size: self.size as int,
            wrapped: self.wrapped@,
        }
    }

    /// The line width the engine fills.
    pub closed spec fn max_width(&self) -> usize {
        self.max
    }

    /// An engine that printed nothing, for lines of `max` columns.
    pub fn new(max: usize) -> (g: Generator)
        ensures
            g.layout() == fresh_layout(),
            g.max_width() == max,
    {
        let g = Generator {
            buffer: String::new(),
            indent: 0,
            size: 0,
            max: max,
            wrapped: HashSet::new(),
        };
        assert(g.layout().wrapped =~= Set::<usize>::empty());
        g
    }

    /// Lays out `node` after what was printed, returns all that was printed,
    /// and leaves the engine as `new` makes it.
    pub fn generate(&mut self, node: FormatNode) -> (r: String)
        requires
            render_ok(node@, false, old(self).layout(), old(self).max_width() as int),
        ensures
            r@ == render(node@, false, old(self).layout(), old(self).max_width() as int).buffer,
            final(self).layout() == fresh_layout(),
            final(self).max_width() == old(self).max_width(),
    {
        self.node(&node, &Wrap::Detect);
        let result = self.buffer.clone();
        self.buffer = String::new();
        self.indent = 0;
        self.size = 0;
        self.wrapped.clear();
        assert(self.layout().wrapped =~= Set::<usize>::empty());
        result
    }

    fn node(&mut self, node: &FormatNode, wrap: &Wrap)
        requires
            render_ok(node@, wrap.enabled(), old(self).layout(), old(self).max as int),
        ensures
            final(self).layout() == render(
                node@,
                wrap.enabled(),
                old(self).layout(),
                old(self).max as int,
            ),
            final(self).max == old(self).max,
        decreases node,
    {
        match node {
            FormatNode::Group(id, nodes) => {
                let width = node.width(&self.wrapped);
                let wrap = if self.size + width > self.max {
                    self.wrapped.insert(*id);
                    Wrap::Enable
                } else {
                    Wrap::Detect
                };
                self.nodes(nodes, &wrap);
            },
            FormatNode::Nodes(nodes) => self.nodes(nodes, wrap),
            FormatNode::IfWrap(id, wrap_node, no_wrap_node) => {
                if self.wrapped.contains(id) {
                    self.node(wrap_node, wrap)
                } else {
                    self.node(no_wrap_node, wrap)
                }
            },
            FormatNode::Text(str) => self.text(str.as_str(), str.as_str().len()),
            FormatNode::Unicode(str, width) => self.text(str.as_str(), *width),
            FormatNode::SpaceOrLine if wrap.enable() => self.new_line(),
            FormatNode::Line if wrap.enable() => self.new_line(),
            FormatNode::SpaceOrLine => {
                proof {
                    reveal_strlit(" ");
                    assert(" "@ =~= seq![' ']);
                }
                self.text(" ", 1)
            },
            FormatNode::Line => {},
            FormatNode::Indent(nodes) if wrap.enable() => {
                proof {
                    assert(node@ == Doc::Indent(docs_of(nodes@)));
                    reveal_strlit("    ");
                    assert(INDENT@ =~= indentation(1));
                }
                self.size = self.size + 4;
                self.indent = self.indent + 1;
                self.buffer.append(INDENT);
                self.nodes(nodes, wrap);
                proof {
                    let ghost inner = Layout {
                        buffer: old(self).buffer@ + indentation(1),
                        indent: (old(self).indent + 1) as nat,
                        size: old(self).size + 4,
                        wrapped: old(self).wrapped@,
                    };
                    lemma_render_seq_bounds(docs_of(nodes@), true, inner, old(self).max as int);
                }
                self.indent = self.indent - 1;
            },
            FormatNode::Indent(nodes) => self.nodes(nodes, wrap),
            FormatNode::RequiredLine => self.new_line(),
        }
    }

    fn nodes(&mut self, nodes: &Vec<FormatNode>, wrap: &Wrap)
        requires
            render_seq_ok(docs_of(nodes@), wrap.enabled(), old(self).layout(), old(self).max as int),
        ensures
            final(self).layout() == render_seq(
                docs_of(nodes@),
                wrap.enabled(),
                old(self).layout(),
                old(self).max as int,
            ),
            final(self).max == old(self).max,
        decreases nodes,
    {
        let ghost st = self.layout();
        let ghost all = docs_of(nodes@);
        proof {
            lemma_docs_index(nodes@);
        }
        let mut i: usize = 0;
        while i < nodes.len()
            invariant
                i <= nodes.len(),
                st.size >= 0,
                all == docs_of(nodes@),
                all.len() == nodes@.len(),
                forall|k: int| 0 <= k < nodes@.len() ==> #[trigger] all[k] == doc_of(nodes@[k]),
                render_seq_ok(all, wrap.enabled(), st, self.max as int),
                self.layout() == render_seq(all.take(i as int), wrap.enabled(), st, self.max as int),
                self.max == old(self).max,
            decreases nodes.len() - i,
        {
            proof {
                assert(decreases_to!(nodes => nodes@[i as int]));
                lemma_render_seq_ok_prefix(all, wrap.enabled(), st, self.max as int, i + 1);
                let pre = all.take(i + 1);
                assert(pre.drop_last() =~= all.take(i as int));
                assert(pre.last() == all[i as int]);
            }
            self.node(&nodes[i], wrap);
            i = i + 1;
        }
        proof {
            assert(all.take(i as int) =~= all);
        }
    }

    fn text(&mut self, value: &str, chars: usize)
        requires
            old(self).size + chars <= usize::MAX,
        ensures
            final(self).layout() == put_text(old(self).layout(), value@, chars as int),
            final(self).max == old(self).max,
    {
        self.size = self.size + chars;
        self.buffer.append(value);
    }

    fn new_line(&mut self)
        requires
            4 * old(self).indent <= usize::MAX,
        ensures
            final(self).layout() == put_new_line(old(self).layout()),
            final(self).max == old(self).max,
    {
        self.size = 4 * self.indent;
        proof {
            reveal_strlit("\n");
            reveal_strlit("    ");
        }
        self.buffer.append("\n");
        let mut k: usize = 0;
        while k < self.indent
            invariant
                k <= self.indent,
                self.indent == old(self).indent,
                self.size == 4 * old(self).indent,
                self.max == old(self).max,
                self.wrapped@ == old(self).wrapped@,
                self.buffer@ == old(self).buffer@ + seq!['\n'] + indentation(k as nat),
            decreases self.indent - k,
        {
            proof {
                reveal_strlit("    ");
                assert(INDENT@ =~= indentation(1));
            }
            self.buffer.append(INDENT);
            k = k + 1;
            assert(self.buffer@ =~= old(self).buffer@ + seq!['\n'] + indentation(k as nat));
        }
    }
}

} // verus!
