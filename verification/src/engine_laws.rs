use vstd::prelude::*;
use crate::node::{
    all_well_counted, flat, flats, no_required_line, well_counted, width_of, widths, Doc,
};
use crate::generator::{
    indentation, put_new_line, render, render_ok, render_seq, render_seq_ok, Layout,
};
use crate::laws::{
    group_ids, group_ids_seq, law_width_counts_printed_chars, lemma_fitting_node_is_flat,
};

verus! {

broadcast use vstd::utf8::group_utf8_lib;

// ---- widths ----

/// Widths add over concatenation, and a group or an indentation is as wide
/// as the plain list of its nodes.
pub proof fn law_widths_add(a: Seq<Doc>, b: Seq<Doc>, id: usize, wrapped: Set<usize>)
    ensures
        widths(a + b, wrapped) == widths(a, wrapped) + widths(b, wrapped),
        width_of(Doc::Group(id, a), wrapped) == width_of(Doc::Nodes(a), wrapped),
        width_of(Doc::Indent(a), wrapped) == width_of(Doc::Nodes(a), wrapped),
    decreases b.len(),
{
    if b.len() == 0 {
        assert(a + b =~= a);
    } else {
        law_widths_add(a, b.drop_last(), id, wrapped);
        assert((a + b).drop_last() =~= a + b.drop_last());
        assert((a + b).last() == b.last());
    }
}

// ---- laying out a list ----

/// Laying out a list is laying out its nodes in order: the two halves of a
/// list are laid out one after the other.
pub proof fn law_render_seq_concat(a: Seq<Doc>, b: Seq<Doc>, wrap: bool, st: Layout, max: int)
    ensures
        render_seq(a + b, wrap, st, max) == render_seq(b, wrap, render_seq(a, wrap, st, max), max),
        render_seq_ok(a + b, wrap, st, max) == (render_seq_ok(a, wrap, st, max) && render_seq_ok(
            b,
            wrap,
            render_seq(a, wrap, st, max),
            max,
        )),
    decreases b.len(),
{
    if b.len() == 0 {
        assert(a + b =~= a);
    } else {
        law_render_seq_concat(a, b.drop_last(), wrap, st, max);
        assert((a + b).drop_last() =~= a + b.drop_last());
        assert((a + b).last() == b.last());
    }
}

// ---- the engine only appends ----

/// `pre` is a prefix of `s`.
pub open spec fn is_prefix(pre: Seq<char>, s: Seq<char>) -> bool {
    pre.len() <= s.len() && s.subrange(0, pre.len() as int) == pre
}

proof fn lemma_prefix_trans(a: Seq<char>, b: Seq<char>, c: Seq<char>)
    requires
        is_prefix(a, b),
        is_prefix(b, c),
    ensures
        is_prefix(a, c),
{
    assert(c.subrange(0, a.len() as int) =~= b.subrange(0, a.len() as int));
}

proof fn lemma_prefix_add(a: Seq<char>, t: Seq<char>)
    ensures
        is_prefix(a, a + t),
{
    assert((a + t).subrange(0, a.len() as int) =~= a);
}

/// Laying out a node keeps the indentation level and the line width bound,
/// only appends to what was printed and only adds to the wrapped groups.
pub proof fn law_render_only_appends(d: Doc, wrap: bool, st: Layout, max: int)
    ensures
        is_prefix(st.buffer, render(d, wrap, st, max).buffer),
        st.wrapped.subset_of(render(d, wrap, st, max).wrapped),
        render(d, wrap, st, max).indent == st.indent,
    decreases d,
{
    match d {
        Doc::Group(id, ds) => {
            let st2 = Layout { wrapped: st.wrapped.insert(id), ..st };
            lemma_render_seq_only_appends(ds, true, st2, max);
            lemma_render_seq_only_appends(ds, false, st, max);
        },
        Doc::Nodes(ds) => lemma_render_seq_only_appends(ds, wrap, st, max),
        Doc::IfWrap(_, a, b) => {
            law_render_only_appends(*a, wrap, st, max);
            law_render_only_appends(*b, wrap, st, max);
        },
        Doc::Indent(ds) => {
            let inner = Layout {
                buffer: st.buffer + indentation(1),
                indent: st.indent + 1,
                size: st.size + 4,
                wrapped: st.wrapped,
            };
            lemma_render_seq_only_appends(ds, wrap, inner, max);
            lemma_render_seq_only_appends(ds, wrap, st, max);
            lemma_prefix_add(st.buffer, indentation(1));
            lemma_prefix_trans(st.buffer, inner.buffer, render_seq(ds, wrap, inner, max).buffer);
        },
        Doc::Text(s) => lemma_prefix_add(st.buffer, s),
        Doc::Unicode(s, _) => lemma_prefix_add(st.buffer, s),
        Doc::SpaceOrLine => {
            lemma_prefix_add(st.buffer, seq![' ']);
            lemma_prefix_add(st.buffer, seq!['\n'] + indentation(st.indent));
            assert(st.buffer + seq!['\n'] + indentation(st.indent) =~= st.buffer + (seq!['\n']
                + indentation(st.indent)));
        },
        Doc::Line | Doc::RequiredLine => {
            lemma_prefix_add(st.buffer, Seq::empty());
            assert(st.buffer + Seq::<char>::empty() =~= st.buffer);
            lemma_prefix_add(st.buffer, seq!['\n'] + indentation(st.indent));
            assert(st.buffer + seq!['\n'] + indentation(st.indent) =~= st.buffer + (seq!['\n']
                + indentation(st.indent)));
        },
    }
}

/// The sequence form of `law_render_only_appends`.
pub proof fn lemma_render_seq_only_appends(ds: Seq<Doc>, wrap: bool, st: Layout, max: int)
    ensures
        is_prefix(st.buffer, render_seq(ds, wrap, st, max).buffer),
        st.wrapped.subset_of(render_seq(ds, wrap, st, max).wrapped),
        render_seq(ds, wrap, st, max).indent == st.indent,
    decreases ds,
{
    if ds.len() == 0 {
        lemma_prefix_add(st.buffer, Seq::empty());
        assert(st.buffer + Seq::<char>::empty() =~= st.buffer);
    } else {
        lemma_render_seq_only_appends(ds.drop_last(), wrap, st, max);
        let mid = render_seq(ds.drop_last(), wrap, st, max);
        law_render_only_appends(ds.last(), wrap, mid, max);
        lemma_prefix_trans(st.buffer, mid.buffer, render(ds.last(), wrap, mid, max).buffer);
    }
}

// ---- the line width is the column ----

/// The number of characters after the last line feed (all of them if none).
pub open spec fn column(b: Seq<char>) -> int
    decreases b.len(),
{
    if b.len() == 0 {
        0
    } else if b.last() == '\n' {
        0
    } else {
        column(b.drop_last()) + 1
    }
}

/// The text holds no line feed.
pub open spec fn no_line_feed(s: Seq<char>) -> bool {
    forall|i: int| 0 <= i < s.len() ==> s[i] != '\n'
}

/// No text of the node holds a line feed.
pub open spec fn texts_without_line_feed(d: Doc) -> bool
    decreases d,
{
    match d {
        Doc::Group(_, ds) => all_texts_without_line_feed(ds),
        Doc::Nodes(ds) => all_texts_without_line_feed(ds),
        Doc::Indent(ds) => all_texts_without_line_feed(ds),
        Doc::IfWrap(_, a, b) => texts_without_line_feed(*a) && texts_without_line_feed(*b),
        Doc::Text(s) => no_line_feed(s),
        Doc::Unicode(s, _) => no_line_feed(s),
        _ => true,
    }
}

pub open spec fn all_texts_without_line_feed(ds: Seq<Doc>) -> bool
    decreases ds,
{
    if ds.len() == 0 {
        true
    } else {
        all_texts_without_line_feed(ds.drop_last()) && texts_without_line_feed(ds.last())
    }
}

proof fn lemma_column_add(b: Seq<char>, s: Seq<char>)
    requires
        no_line_feed(s),
    ensures
        column(b + s) == column(b) + s.len(),
    decreases s.len(),
{
    if s.len() == 0 {
        assert(b + s =~= b);
    } else {
        lemma_column_add(b, s.drop_last());
        assert((b + s).drop_last() =~= b + s.drop_last());
        assert((b + s).last() == s.last());
        assert(s.last() == s[s.len() - 1]);
    }
}

proof fn lemma_column_new_line(b: Seq<char>, n: nat)
    ensures
        column(b + seq!['\n'] + indentation(n)) == 4 * n,
{
    let nl = b + seq!['\n'];
    assert(nl.drop_last() =~= b);
    assert(column(nl) == 0);
    assert forall|i: int| 0 <= i < indentation(n).len() implies indentation(n)[i] != '\n' by {}
    lemma_column_add(nl, indentation(n));
}

/// When the line width starts as the column of what was printed, and texts
/// are counted as they print and hold no line feed, the engine's line width
/// stays the column: the number of characters after the last line feed.
pub proof fn law_size_is_column(d: Doc, wrap: bool, st: Layout, max: int)
    requires
        st.size == column(st.buffer),
        well_counted(d),
        texts_without_line_feed(d),
    ensures
        render(d, wrap, st, max).size == column(render(d, wrap, st, max).buffer),
    decreases d,
{
    match d {
        Doc::Group(id, ds) => {
            lemma_seq_size_is_column(ds, true, Layout { wrapped: st.wrapped.insert(id), ..st }, max);
            lemma_seq_size_is_column(ds, false, st, max);
        },
        Doc::Nodes(ds) => lemma_seq_size_is_column(ds, wrap, st, max),
        Doc::IfWrap(_, a, b) => {
            law_size_is_column(*a, wrap, st, max);
            law_size_is_column(*b, wrap, st, max);
        },
        Doc::Indent(ds) => {
            let inner = Layout {
                buffer: st.buffer + indentation(1),
                indent: st.indent + 1,
                size: st.size + 4,
                wrapped: st.wrapped,
            };
            assert forall|i: int| 0 <= i < indentation(1).len() implies indentation(1)[i] != '\n' by {}
            lemma_column_add(st.buffer, indentation(1));
            lemma_seq_size_is_column(ds, wrap, inner, max);
            lemma_seq_size_is_column(ds, wrap, st, max);
        },
        Doc::Text(s) => {
            vstd::utf8::is_ascii_chars_encode_utf8(s);
            lemma_column_add(st.buffer, s);
        },
        Doc::Unicode(s, _) => lemma_column_add(st.buffer, s),
        Doc::SpaceOrLine => {
            lemma_column_new_line(st.buffer, st.indent);
            lemma_column_add(st.buffer, seq![' ']);
        },
        Doc::Line => lemma_column_new_line(st.buffer, st.indent),
        Doc::RequiredLine => lemma_column_new_line(st.buffer, st.indent),
    }
}

/// The sequence form of `law_size_is_column`.
pub proof fn lemma_seq_size_is_column(ds: Seq<Doc>, wrap: bool, st: Layout, max: int)
    requires
        st.size == column(st.buffer),
        all_well_counted(ds),
        all_texts_without_line_feed(ds),
    ensures
        render_seq(ds, wrap, st, max).size == column(render_seq(ds, wrap, st, max).buffer),
    decreases ds,
{
    if ds.len() > 0 {
        lemma_seq_size_is_column(ds.drop_last(), wrap, st, max);
        law_size_is_column(ds.last(), wrap, render_seq(ds.drop_last(), wrap, st, max), max);
    }
}

// ---- a fitting group prints one line ----

proof fn lemma_flat_no_line_feed(d: Doc, wrapped: Set<usize>)
    requires
        texts_without_line_feed(d),
    ensures
        no_line_feed(flat(d, wrapped)),
    decreases d,
{
    match d {
        Doc::Group(_, ds) => lemma_flats_no_line_feed(ds, wrapped),
        Doc::Nodes(ds) => lemma_flats_no_line_feed(ds, wrapped),
        Doc::Indent(ds) => lemma_flats_no_line_feed(ds, wrapped),
        Doc::IfWrap(_, a, b) => {
            lemma_flat_no_line_feed(*a, wrapped);
            lemma_flat_no_line_feed(*b, wrapped);
        },
        _ => {},
    }
}

proof fn lemma_flats_no_line_feed(ds: Seq<Doc>, wrapped: Set<usize>)
    requires
        all_texts_without_line_feed(ds),
    ensures
        no_line_feed(flats(ds, wrapped)),
    decreases ds,
{
    if ds.len() > 0 {
        lemma_flats_no_line_feed(ds.drop_last(), wrapped);
        lemma_flat_no_line_feed(ds.last(), wrapped);
        let a = flats(ds.drop_last(), wrapped);
        let b = flat(ds.last(), wrapped);
        assert forall|i: int| 0 <= i < (a + b).len() implies (a + b)[i] != '\n' by {
            if i < a.len() {
                assert((a + b)[i] == a[i]);
            } else {
                assert((a + b)[i] == b[i - a.len()]);
            }
        }
    }
}

/// A group that fits on the rest of the line, holds no required line break,
/// counts its texts as they print and has no line feed in them, is printed
/// on the current line: the text it adds holds no line feed and is exactly
/// as wide as `width` says, and no group wraps.
pub proof fn law_fitting_group_prints_one_line(id: usize, ds: Seq<Doc>, st: Layout, max: int, wrap: bool)
    requires
        no_required_line(Doc::Group(id, ds)),
        well_counted(Doc::Group(id, ds)),
        texts_without_line_feed(Doc::Group(id, ds)),
        st.size + width_of(Doc::Group(id, ds), st.wrapped) <= max,
    ensures
        ({
            let d = Doc::Group(id, ds);
            let r = render(d, wrap, st, max);
            let t = flat(d, st.wrapped);
            &&& r.buffer == st.buffer + t
            &&& no_line_feed(t)
            &&& t.len() == width_of(d, st.wrapped)
            &&& r.size == st.size + width_of(d, st.wrapped)
            &&& r.wrapped == st.wrapped
        }),
{
    let d = Doc::Group(id, ds);
    lemma_fitting_node_is_flat(d, st, max);
    assert(render(d, wrap, st, max) == render(d, false, st, max));
    law_width_counts_printed_chars(d, st.wrapped);
    lemma_flat_no_line_feed(d, st.wrapped);
}

// ---- layouts without groups do not depend on the line width ----

proof fn lemma_ids_seq_parts_empty(ds: Seq<Doc>)
    requires
        ds.len() > 0,
        group_ids_seq(ds) == Seq::<usize>::empty(),
    ensures
        group_ids_seq(ds.drop_last()) == Seq::<usize>::empty(),
        group_ids(ds.last()) == Seq::<usize>::empty(),
{
    assert(group_ids_seq(ds) == group_ids_seq(ds.drop_last()) + group_ids(ds.last()));
    assert(group_ids_seq(ds.drop_last()).len() == 0);
    assert(group_ids_seq(ds.drop_last()) =~= Seq::<usize>::empty());
    assert(group_ids(ds.last()) =~= Seq::<usize>::empty());
}

/// A node without groups is laid out the same way, and overflows or not
/// the same way, whatever the line width.
pub proof fn law_no_groups_width_independent(d: Doc, wrap: bool, st: Layout, max1: int, max2: int)
    requires
        group_ids(d) == Seq::<usize>::empty(),
    ensures
        render(d, wrap, st, max1) == render(d, wrap, st, max2),
        render_ok(d, wrap, st, max1) == render_ok(d, wrap, st, max2),
    decreases d,
{
    match d {
        Doc::Group(id, ds) => {
            assert(group_ids(d).len() > 0);
        },
        Doc::Nodes(ds) => lemma_seq_no_groups_width_independent(ds, wrap, st, max1, max2),
        Doc::Indent(ds) => {
            let inner = Layout {
                buffer: st.buffer + indentation(1),
                indent: st.indent + 1,
                size: st.size + 4,
                wrapped: st.wrapped,
            };
            lemma_seq_no_groups_width_independent(ds, wrap, inner, max1, max2);
            lemma_seq_no_groups_width_independent(ds, wrap, st, max1, max2);
        },
        Doc::IfWrap(_, a, b) => {
            assert(group_ids(*a) =~= Seq::<usize>::empty());
            assert(group_ids(*b) =~= Seq::<usize>::empty());
            law_no_groups_width_independent(*a, wrap, st, max1, max2);
            law_no_groups_width_independent(*b, wrap, st, max1, max2);
        },
        _ => {},
    }
}

/// The sequence form of `law_no_groups_width_independent`.
pub proof fn lemma_seq_no_groups_width_independent(
    ds: Seq<Doc>,
    wrap: bool,
    st: Layout,
    max1: int,
    max2: int,
)
    requires
        group_ids_seq(ds) == Seq::<usize>::empty(),
    ensures
        render_seq(ds, wrap, st, max1) == render_seq(ds, wrap, st, max2),
        render_seq_ok(ds, wrap, st, max1) == render_seq_ok(ds, wrap, st, max2),
    decreases ds,
{
    if ds.len() > 0 {
        lemma_ids_seq_parts_empty(ds);
        lemma_seq_no_groups_width_independent(ds.drop_last(), wrap, st, max1, max2);
        let mid = render_seq(ds.drop_last(), wrap, st, max1);
        law_no_groups_width_independent(ds.last(), wrap, mid, max1, max2);
    }
}

// ---- line breaks ----

/// Every line feed at or after position `from` of `b` is followed by at
/// least `n` spaces.
pub open spec fn breaks_followed_by(b: Seq<char>, from: int, n: nat) -> bool {
    forall|i: int|
        #![trigger b[i]]
        from <= i < b.len() && b[i] == '\n' ==> i + 1 + n <= b.len() && (forall|j: int|
            1 <= j <= n ==> #[trigger] b[i + j] == ' ')
}

/// A line break the engine takes is a line feed followed by the current
/// indentation, four spaces a level, and it starts the column there: this
/// holds of a required line break always and of the breakable nodes when
/// their group wrapped.
pub proof fn law_line_break_indents(d: Doc, wrap: bool, st: Layout, max: int)
    requires
        d == Doc::RequiredLine || (wrap && (d == Doc::SpaceOrLine || d == Doc::Line)),
    ensures
        render(d, wrap, st, max).buffer == st.buffer + seq!['\n'] + Seq::new(
            4 * st.indent,
            |i: int| ' ',
        ),
        render(d, wrap, st, max).size == 4 * st.indent,
        render(d, wrap, st, max).indent == st.indent,
        render(d, wrap, st, max).wrapped == st.wrapped,
{
    assert(indentation(st.indent) =~= Seq::new(4 * st.indent, |i: int| ' '));
}

proof fn lemma_breaks_weaken(b: Seq<char>, from: int, n: nat, m: nat)
    requires
        breaks_followed_by(b, from, n),
        m <= n,
    ensures
        breaks_followed_by(b, from, m),
{
}

/// Breaks before a prefix's end stay followed by their spaces when more is
/// appended.
proof fn lemma_breaks_join(b1: Seq<char>, b2: Seq<char>, from: int, n: nat)
    requires
        0 <= from,
        breaks_followed_by(b1, from, n),
        is_prefix(b1, b2),
        breaks_followed_by(b2, b1.len() as int, n),
    ensures
        breaks_followed_by(b2, from, n),
{
    assert forall|i: int|
        #![trigger b2[i]]
        from <= i < b2.len() && b2[i] == '\n' implies i + 1 + n <= b2.len() && (forall|j: int|
            1 <= j <= n ==> #[trigger] b2[i + j] == ' ') by {
        if i < b1.len() {
            assert(b2.subrange(0, b1.len() as int) == b1);
            assert(b2.subrange(0, b1.len() as int)[i] == b2[i]);
            assert(b1[i] == '\n');
            assert forall|j: int| 1 <= j <= n implies #[trigger] b2[i + j] == ' ' by {
                assert(b1[i + j] == ' ');
                assert(b2.subrange(0, b1.len() as int)[i + j] == b2[i + j]);
            }
        }
    }
}

/// Appending text without line feeds adds no break.
proof fn lemma_breaks_append_plain(b: Seq<char>, t: Seq<char>, from: int, n: nat)
    requires
        0 <= from,
        breaks_followed_by(b, from, n),
        no_line_feed(t),
    ensures
        breaks_followed_by(b + t, from, n),
{
    lemma_prefix_add(b, t);
    assert forall|i: int|
        #![trigger (b + t)[i]]
        b.len() <= i < (b + t).len() && (b + t)[i] == '\n' implies i + 1 + n <= (b + t).len() && (
        forall|j: int| 1 <= j <= n ==> #[trigger] (b + t)[i + j] == ' ') by {
        assert((b + t)[i] == t[i - b.len()]);
    }
    lemma_breaks_join(b, b + t, from, n);
}

/// Appending a line feed and `m >= n` spaces adds a break followed by them.
proof fn lemma_breaks_append_new_line(b: Seq<char>, m: nat, from: int, n: nat)
    requires
        0 <= from,
        breaks_followed_by(b, from, n),
        n <= m,
    ensures
        breaks_followed_by(b + seq!['\n'] + Seq::new(m, |i: int| ' '), from, n),
{
    let t = seq!['\n'] + Seq::new(m, |i: int| ' ');
    assert(b + seq!['\n'] + Seq::new(m, |i: int| ' ') =~= b + t);
    lemma_prefix_add(b, t);
    assert forall|i: int|
        #![trigger (b + t)[i]]
        b.len() <= i < (b + t).len() && (b + t)[i] == '\n' implies i + 1 + n <= (b + t).len() && (
        forall|j: int| 1 <= j <= n ==> #[trigger] (b + t)[i + j] == ' ') by {
        assert((b + t)[i] == t[i - b.len()]);
        if i > b.len() {
            assert(t[i - b.len()] == ' ');
        }
        assert forall|j: int| 1 <= j <= n implies #[trigger] (b + t)[i + j] == ' ' by {
            assert((b + t)[i + j] == t[j]);
        }
    }
    lemma_breaks_join(b, b + t, from, n);
}

proof fn lemma_breaks_empty(b: Seq<char>, n: nat)
    ensures
        breaks_followed_by(b, b.len() as int, n),
{
}

/// Every line break the engine prints is followed by at least the
/// indentation of the state it lays the node out from, when no text of the
/// node holds a line feed of its own.
pub proof fn law_line_breaks_are_indented(d: Doc, wrap: bool, st: Layout, max: int)
    requires
        texts_without_line_feed(d),
    ensures
        breaks_followed_by(render(d, wrap, st, max).buffer, st.buffer.len() as int, 4 * st.indent),
    decreases d, 0nat,
{
    let b = st.buffer;
    let n: nat = 4 * st.indent;
    lemma_breaks_empty(b, n);
    assert(indentation(st.indent) =~= Seq::new(n, |i: int| ' '));
    match d {
        Doc::Group(id, ds) => {
            lemma_seq_line_breaks_are_indented(ds, true, Layout { wrapped: st.wrapped.insert(id), ..st }, max);
            lemma_seq_line_breaks_are_indented(ds, false, st, max);
        },
        Doc::Nodes(ds) => lemma_seq_line_breaks_are_indented(ds, wrap, st, max),
        Doc::IfWrap(_, x, y) => {
            law_line_breaks_are_indented(*x, wrap, st, max);
            law_line_breaks_are_indented(*y, wrap, st, max);
        },
        Doc::Indent(ds) => {
            if wrap {
                law_indent_breaks_one_level_deeper(ds, st, max);
                lemma_breaks_weaken(
                    render(d, wrap, st, max).buffer,
                    b.len() as int,
                    4 * (st.indent + 1),
                    n,
                );
            } else {
                lemma_seq_line_breaks_are_indented(ds, wrap, st, max);
            }
        },
        Doc::Text(t) => lemma_breaks_append_plain(b, t, b.len() as int, n),
        Doc::Unicode(t, _) => lemma_breaks_append_plain(b, t, b.len() as int, n),
        Doc::SpaceOrLine => {
            lemma_breaks_append_new_line(b, n, b.len() as int, n);
            assert forall|i: int| 0 <= i < seq![' '].len() implies seq![' '][i] != '\n' by {}
            lemma_breaks_append_plain(b, seq![' '], b.len() as int, n);
        },
        Doc::Line => {
            lemma_breaks_append_new_line(b, n, b.len() as int, n);
        },
        Doc::RequiredLine => {
            lemma_breaks_append_new_line(b, n, b.len() as int, n);
        },
    }
}

/// The sequence form of `law_line_breaks_are_indented`.
pub proof fn lemma_seq_line_breaks_are_indented(ds: Seq<Doc>, wrap: bool, st: Layout, max: int)
    requires
        all_texts_without_line_feed(ds),
    ensures
        breaks_followed_by(render_seq(ds, wrap, st, max).buffer, st.buffer.len() as int, 4 * st.indent),
    decreases ds, 0nat,
{
    if ds.len() == 0 {
        lemma_breaks_empty(st.buffer, 4 * st.indent);
    } else {
        lemma_seq_line_breaks_are_indented(ds.drop_last(), wrap, st, max);
        let mid = render_seq(ds.drop_last(), wrap, st, max);
        lemma_render_seq_only_appends(ds.drop_last(), wrap, st, max);
        law_line_breaks_are_indented(ds.last(), wrap, mid, max);
        law_render_only_appends(ds.last(), wrap, mid, max);
        lemma_breaks_join(
            mid.buffer,
            render(ds.last(), wrap, mid, max).buffer,
            st.buffer.len() as int,
            4 * st.indent,
        );
    }
}

/// In a wrapped `Indent` every line break is followed by one level more
/// indentation than outside it: four more spaces per level of nesting.
pub proof fn law_indent_breaks_one_level_deeper(ds: Seq<Doc>, st: Layout, max: int)
    requires
        all_texts_without_line_feed(ds),
    ensures
        breaks_followed_by(
            render(Doc::Indent(ds), true, st, max).buffer,
            st.buffer.len() as int,
            4 * (st.indent + 1),
        ),
    decreases ds, 1nat,
{
    let inner = Layout {
        buffer: st.buffer + indentation(1),
        indent: st.indent + 1,
        size: st.size + 4,
        wrapped: st.wrapped,
    };
    let n: nat = 4 * (st.indent + 1);
    lemma_seq_line_breaks_are_indented(ds, true, inner, max);
    lemma_render_seq_only_appends(ds, true, inner, max);
    lemma_breaks_empty(st.buffer, n);
    assert forall|i: int| 0 <= i < indentation(1).len() implies indentation(1)[i] != '\n' by {}
    lemma_breaks_append_plain(st.buffer, indentation(1), st.buffer.len() as int, n);
    lemma_breaks_join(
        inner.buffer,
        render_seq(ds, true, inner, max).buffer,
        st.buffer.len() as int,
        n,
    );
}

/// A line break right inside a wrapped `Indent` is followed by exactly one
/// level more indentation than outside it, and the line goes on from there.
pub proof fn law_indented_break_is_one_level_deeper(d: Doc, st: Layout, max: int)
    requires
        d == Doc::SpaceOrLine || d == Doc::Line || d == Doc::RequiredLine,
    ensures
        render(Doc::Indent(seq![d]), true, st, max).buffer == st.buffer + Seq::new(4, |i: int| ' ')
            + seq!['\n'] + Seq::new(4 * (st.indent + 1), |i: int| ' '),
        render(Doc::Indent(seq![d]), true, st, max).size == 4 * (st.indent + 1),
        render(Doc::Indent(seq![d]), true, st, max).indent == st.indent,
{
    let inner = Layout {
        buffer: st.buffer + indentation(1),
        indent: st.indent + 1,
        size: st.size + 4,
        wrapped: st.wrapped,
    };
    let one = seq![d];
    assert(one.drop_last() =~= Seq::<Doc>::empty());
    assert(one.last() == d);
    assert(render_seq(one.drop_last(), true, inner, max) == inner);
    assert(render(d, true, inner, max) == put_new_line(inner));
    assert(render_seq(one, true, inner, max) == put_new_line(inner));
    assert(indentation(1) =~= Seq::new(4, |i: int| ' '));
    assert(indentation(st.indent + 1) =~= Seq::new(4 * (st.indent + 1), |i: int| ' '));
}

// ---- groups that do not fit ----

/// A group that does not fit on the rest of the current line wraps: when it
/// has a breakable node among its own nodes, laying it out prints a line feed.
pub proof fn law_overflowing_group_breaks(id: usize, ds: Seq<Doc>, k: int, wrap: bool, st: Layout, max: int)
    requires
        st.size + width_of(Doc::Group(id, ds), st.wrapped) > max,
        0 <= k < ds.len(),
        ds[k] == Doc::SpaceOrLine || ds[k] == Doc::Line,
    ensures
        exists|i: int|
            st.buffer.len() <= i < render(Doc::Group(id, ds), wrap, st, max).buffer.len()
                && render(Doc::Group(id, ds), wrap, st, max).buffer[i] == '\n',
{
    let st2 = Layout { wrapped: st.wrapped.insert(id), ..st };
    let pre = ds.take(k);
    let tail = ds.skip(k);
    assert(ds =~= pre + tail);
    law_render_seq_concat(pre, tail, true, st2, max);
    let mid = render_seq(pre, true, st2, max);
    lemma_render_seq_only_appends(pre, true, st2, max);
    let one = seq![ds[k]];
    let rest = ds.skip(k + 1);
    assert(tail =~= one + rest);
    law_render_seq_concat(one, rest, true, mid, max);
    assert(one.drop_last() =~= Seq::<Doc>::empty());
    assert(one.last() == ds[k]);
    assert(render_seq(one.drop_last(), true, mid, max) == mid);
    let after = render_seq(one, true, mid, max);
    assert(after == render(ds[k], true, mid, max));
    assert(after == put_new_line(mid));
    lemma_render_seq_only_appends(rest, true, after, max);
    let fin = render_seq(rest, true, after, max);
    let i = mid.buffer.len() as int;
    assert(after.buffer[i] == '\n');
    assert(fin.buffer.subrange(0, after.buffer.len() as int)[i] == after.buffer[i]);
    assert(render(Doc::Group(id, ds), wrap, st, max) == render_seq(ds, true, st2, max));
    assert(st.buffer.len() <= i < fin.buffer.len() && fin.buffer[i] == '\n');
}

} // verus!
