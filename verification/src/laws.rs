use vstd::prelude::*;
use crate::ast::Statement;
use crate::node::{
    all_no_if_wrap, all_no_required_line, all_well_counted, flat, flats, lemma_width_le_bound,
    lemma_widths_le_bounds, no_if_wrap, no_required_line, well_counted, width_of, widths, Doc,
};
use crate::generator::{
    fresh_layout, indentation, lemma_render_seq_bounds, render, render_ok, render_seq, Layout,
};
use crate::builder::{
    comment_doc, initial_state, spec_build, spec_build_expression, spec_build_statement,
    spec_build_statements, spec_condition, spec_prefixed, spec_with_comments, unicode_doc,
    BuildState,
};
use crate::ast::{Expression, UnaryOperator};
use crate::text::{intersperse, lines_of, repeat_char, slice_ok, slice_text, trim_chars};

verus! {

broadcast use vstd::utf8::group_utf8_lib;

/// A node without required line breaks that fits on the rest of the line is
/// printed there as its flat rendering, and the line grows by its width.
pub proof fn lemma_fitting_node_is_flat(d: Doc, st: Layout, max: int)
    requires
        no_required_line(d),
        st.size + width_of(d, st.wrapped) <= max,
    ensures
        render(d, false, st, max) == (Layout {
            buffer: st.buffer + flat(d, st.wrapped),
            size: st.size + width_of(d, st.wrapped),
            ..st
        }),
    decreases d,
{
    match d {
        Doc::Group(_, ds) => lemma_fitting_nodes_are_flat(ds, st, max),
        Doc::Nodes(ds) => lemma_fitting_nodes_are_flat(ds, st, max),
        Doc::Indent(ds) => lemma_fitting_nodes_are_flat(ds, st, max),
        Doc::IfWrap(id, a, b) => {
            if st.wrapped.contains(id) {
                lemma_fitting_node_is_flat(*a, st, max);
            } else {
                lemma_fitting_node_is_flat(*b, st, max);
            }
        },
        Doc::Line => {
            assert(st.buffer + flat(d, st.wrapped) =~= st.buffer);
        },
        _ => {},
    }
}

/// The sequence form of `lemma_fitting_node_is_flat`.
pub proof fn lemma_fitting_nodes_are_flat(ds: Seq<Doc>, st: Layout, max: int)
    requires
        all_no_required_line(ds),
        st.size + widths(ds, st.wrapped) <= max,
    ensures
        render_seq(ds, false, st, max) == (Layout {
            buffer: st.buffer + flats(ds, st.wrapped),
            size: st.size + widths(ds, st.wrapped),
            ..st
        }),
    decreases ds,
{
    if ds.len() == 0 {
        assert(st.buffer + flats(ds, st.wrapped) =~= st.buffer);
    } else {
        lemma_widths_le_bounds(ds.drop_last(), st.wrapped);
        lemma_width_le_bound(ds.last(), st.wrapped);
        lemma_fitting_nodes_are_flat(ds.drop_last(), st, max);
        let mid = render_seq(ds.drop_last(), false, st, max);
        lemma_fitting_node_is_flat(ds.last(), mid, max);
        assert(st.buffer + flats(ds.drop_last(), st.wrapped) + flat(ds.last(), st.wrapped)
            =~= st.buffer + flats(ds, st.wrapped));
    }
}

/// A document without required line breaks whose one-line width fits
/// within the line width is printed as one line: its flat rendering.
pub proof fn law_fitting_document_prints_flat(d: Doc, max: int)
    requires
        no_required_line(d),
        width_of(d, Set::empty()) <= max,
    ensures
        render(d, false, fresh_layout(), max).buffer == flat(d, Set::empty()),
{
    lemma_fitting_node_is_flat(d, fresh_layout(), max);
    assert(Seq::<char>::empty() + flat(d, Set::empty()) =~= flat(d, Set::empty()));
}

/// When `Unicode` nodes count their characters and `Text` nodes are ASCII,
/// the width the engine measures is the number of characters it prints.
pub proof fn law_width_counts_printed_chars(d: Doc, wrapped: Set<usize>)
    requires
        well_counted(d),
    ensures
        width_of(d, wrapped) == flat(d, wrapped).len(),
    decreases d,
{
    match d {
        Doc::Group(_, ds) => lemma_widths_count_chars(ds, wrapped),
        Doc::Nodes(ds) => lemma_widths_count_chars(ds, wrapped),
        Doc::Indent(ds) => lemma_widths_count_chars(ds, wrapped),
        Doc::IfWrap(_, a, b) => {
            law_width_counts_printed_chars(*a, wrapped);
            law_width_counts_printed_chars(*b, wrapped);
        },
        Doc::Text(s) => {
            vstd::utf8::is_ascii_chars_encode_utf8(s);
        },
        _ => {},
    }
}

/// The sequence form of `law_width_counts_printed_chars`.
pub proof fn lemma_widths_count_chars(ds: Seq<Doc>, wrapped: Set<usize>)
    requires
        all_well_counted(ds),
    ensures
        widths(ds, wrapped) == flats(ds, wrapped).len(),
    decreases ds,
{
    if ds.len() > 0 {
        lemma_widths_count_chars(ds.drop_last(), wrapped);
        law_width_counts_printed_chars(ds.last(), wrapped);
    }
}

/// A character that is neither a space nor a line feed.
pub open spec fn is_ink(c: char) -> bool {
    c != ' ' && c != '\n'
}

/// The text without its spaces and line feeds.
pub open spec fn ink(s: Seq<char>) -> Seq<char> {
    s.filter(|c: char| is_ink(c))
}

pub proof fn lemma_ink_add(a: Seq<char>, b: Seq<char>)
    ensures
        ink(a + b) == ink(a) + ink(b),
{
    Seq::filter_distributes_over_add(a, b, |c: char| is_ink(c));
}

pub proof fn lemma_ink_blank(s: Seq<char>)
    requires
        forall|i: int| 0 <= i < s.len() ==> !is_ink(#[trigger] s[i]),
    ensures
        ink(s) == Seq::<char>::empty(),
    decreases s.len(),
{
    reveal_with_fuel(Seq::filter, 1);
    if s.len() > 0 {
        lemma_ink_blank(s.drop_last());
        assert(!is_ink(s.last()));
    }
    assert(ink(s) =~= Seq::<char>::empty());
}

proof fn lemma_ink_line_break(st: Layout)
    ensures
        ink(st.buffer + seq!['\n'] + indentation(st.indent)) == ink(st.buffer),
{
    lemma_ink_add(st.buffer + seq!['\n'], indentation(st.indent));
    lemma_ink_add(st.buffer, seq!['\n']);
    lemma_ink_blank(seq!['\n']);
    lemma_ink_blank(indentation(st.indent));
    assert(ink(st.buffer) + Seq::<char>::empty() + Seq::<char>::empty() =~= ink(st.buffer));
}

/// The layout engine only chooses whitespace: without spaces and line
/// feeds, what it prints of a node is the node's flat rendering.
pub proof fn law_layout_changes_only_whitespace(d: Doc, wrap: bool, st: Layout, max: int)
    requires
        no_if_wrap(d),
    ensures
        ink(render(d, wrap, st, max).buffer) == ink(st.buffer) + ink(flat(d, Set::empty())),
    decreases d,
{
    match d {
        Doc::Group(id, ds) => {
            lemma_layout_seq_changes_only_whitespace(ds, true, Layout { wrapped: st.wrapped.insert(id), ..st }, max);
            lemma_layout_seq_changes_only_whitespace(ds, false, st, max);
        },
        Doc::Nodes(ds) => lemma_layout_seq_changes_only_whitespace(ds, wrap, st, max),
        Doc::Indent(ds) => {
            let inner = Layout {
                buffer: st.buffer + indentation(1),
                indent: st.indent + 1,
                size: st.size + 4,
                wrapped: st.wrapped,
            };
            lemma_layout_seq_changes_only_whitespace(ds, wrap, inner, max);
            lemma_layout_seq_changes_only_whitespace(ds, wrap, st, max);
            lemma_ink_add(st.buffer, indentation(1));
            lemma_ink_blank(indentation(1));
            assert(ink(st.buffer) + Seq::<char>::empty() =~= ink(st.buffer));
        },
        Doc::Text(s) => lemma_ink_add(st.buffer, s),
        Doc::Unicode(s, _) => lemma_ink_add(st.buffer, s),
        Doc::SpaceOrLine => {
            lemma_ink_line_break(st);
            lemma_ink_add(st.buffer, seq![' ']);
            lemma_ink_blank(seq![' ']);
        },
        Doc::Line => {
            lemma_ink_line_break(st);
            lemma_ink_blank(Seq::<char>::empty());
            assert(ink(st.buffer) + Seq::<char>::empty() =~= ink(st.buffer));
        },
        Doc::RequiredLine => {
            lemma_ink_line_break(st);
            lemma_ink_blank(Seq::<char>::empty());
            assert(ink(st.buffer) + Seq::<char>::empty() =~= ink(st.buffer));
        },
        Doc::IfWrap(_, _, _) => {},
    }
}

/// The sequence form of `law_layout_changes_only_whitespace`.
pub proof fn lemma_layout_seq_changes_only_whitespace(ds: Seq<Doc>, wrap: bool, st: Layout, max: int)
    requires
        all_no_if_wrap(ds),
    ensures
        ink(render_seq(ds, wrap, st, max).buffer) == ink(st.buffer) + ink(flats(ds, Set::empty())),
    decreases ds,
{
    if ds.len() == 0 {
        lemma_ink_blank(Seq::<char>::empty());
        assert(ink(st.buffer) + Seq::<char>::empty() =~= ink(st.buffer));
    } else {
        lemma_layout_seq_changes_only_whitespace(ds.drop_last(), wrap, st, max);
        let mid = render_seq(ds.drop_last(), wrap, st, max);
        law_layout_changes_only_whitespace(ds.last(), wrap, mid, max);
        lemma_ink_add(flats(ds.drop_last(), Set::empty()), flat(ds.last(), Set::empty()));
        assert(ink(st.buffer) + ink(flats(ds.drop_last(), Set::empty())) + ink(
            flat(ds.last(), Set::empty()),
        ) =~= ink(st.buffer) + ink(flats(ds, Set::empty())));
    }
}

/// A formatted program ends with a line feed.
pub proof fn law_formatted_program_ends_with_line_feed(src: Seq<u8>, ast: Seq<Statement>, max: int)
    requires
        spec_build(src, ast, initial_state()) is Some,
    ensures
        ({
            let out = render(spec_build(src, ast, initial_state())->0, false, fresh_layout(), max).buffer;
            out.len() > 0 && out.last() == '\n'
        }),
{
    let d = spec_build(src, ast, initial_state())->0;
    if let Doc::Nodes(ds) = d {
        assert(ds.len() == 4);
        let first3 = ds.drop_last();
        lemma_render_seq_bounds(first3, false, fresh_layout(), max);
        let mid = render_seq(first3, false, fresh_layout(), max);
        assert(mid.indent == 0);
        assert(indentation(0) =~= Seq::<char>::empty());
        assert(ds.last() == Doc::RequiredLine);
        assert(render(d, false, fresh_layout(), max) == render_seq(ds, false, fresh_layout(), max));
        assert(render_seq(ds, false, fresh_layout(), max) == render(ds.last(), false, mid, max));
        let out = render(d, false, fresh_layout(), max).buffer;
        assert(out == mid.buffer + seq!['\n'] + indentation(0));
        assert(out.last() == '\n');
    }
}

pub proof fn lemma_all_no_if_wrap(ds: Seq<Doc>)
    ensures
        all_no_if_wrap(ds) <==> forall|i: int| 0 <= i < ds.len() ==> #[trigger] no_if_wrap(ds[i]),
    decreases ds.len(),
{
    if ds.len() > 0 {
        let init = ds.drop_last();
        lemma_all_no_if_wrap(init);
        assert(ds[ds.len() - 1] == ds.last());
        if forall|i: int| 0 <= i < ds.len() ==> #[trigger] no_if_wrap(ds[i]) {
            assert(no_if_wrap(ds[ds.len() - 1]));
            assert forall|i: int| 0 <= i < init.len() implies #[trigger] no_if_wrap(init[i]) by {
                assert(init[i] == ds[i]);
            }
            assert(all_no_if_wrap(ds));
        }
        if all_no_if_wrap(ds) {
            assert forall|i: int| 0 <= i < ds.len() implies #[trigger] no_if_wrap(ds[i]) by {
                if i < ds.len() - 1 {
                    assert(init[i] == ds[i]);
                }
            }
        }
    }
}

/// Each item of an interspersed sequence is the separator or one of the items.
pub proof fn lemma_intersperse_items<A>(xs: Seq<A>, sep: A)
    ensures
        forall|i: int|
            0 <= i < intersperse(xs, sep).len() ==> #[trigger] intersperse(xs, sep)[i] == sep
                || xs.contains(intersperse(xs, sep)[i]),
    decreases xs.len(),
{
    if xs.len() > 1 {
        lemma_intersperse_items(xs.drop_last(), sep);
        let prev = intersperse(xs.drop_last(), sep);
        assert forall|i: int|
            0 <= i < intersperse(xs, sep).len() implies #[trigger] intersperse(xs, sep)[i] == sep
                || xs.contains(intersperse(xs, sep)[i]) by {
            if i < prev.len() {
                assert(intersperse(xs, sep)[i] == prev[i]);
                if prev[i] != sep {
                    let j = choose|j: int| 0 <= j < xs.drop_last().len() && xs.drop_last()[j] == prev[i];
                    assert(xs[j] == prev[i]);
                }
            } else if i == prev.len() + 1 {
                assert(xs[xs.len() - 1] == xs.last());
            }
        }
    } else {
        assert forall|i: int| 0 <= i < intersperse(xs, sep).len() implies #[trigger] intersperse(
            xs,
            sep,
        )[i] == sep || xs.contains(intersperse(xs, sep)[i]) by {
            assert(xs[i] == intersperse(xs, sep)[i]);
        }
    }
}

proof fn lemma_intersperse_no_if_wrap(ds: Seq<Doc>, sep: Doc)
    requires
        all_no_if_wrap(ds),
        no_if_wrap(sep),
    ensures
        all_no_if_wrap(intersperse(ds, sep)),
{
    lemma_all_no_if_wrap(ds);
    lemma_all_no_if_wrap(intersperse(ds, sep));
    lemma_intersperse_items(ds, sep);
    assert forall|i: int| 0 <= i < intersperse(ds, sep).len() implies #[trigger] no_if_wrap(
        intersperse(ds, sep)[i],
    ) by {
        if intersperse(ds, sep)[i] != sep {
            let j = choose|j: int| 0 <= j < ds.len() && ds[j] == intersperse(ds, sep)[i];
        }
    }
}

proof fn lemma_comment_no_if_wrap(text: Seq<char>)
    ensures
        no_if_wrap(comment_doc(text)),
{
    let ds = lines_of(text).map_values(|l: Seq<char>| unicode_doc(l));
    lemma_all_no_if_wrap(ds);
    lemma_intersperse_no_if_wrap(ds, Doc::SpaceOrLine);
}

proof fn lemma_with_comments_no_if_wrap(src: Seq<u8>, st: BuildState, cur: crate::ast::Span, node: Doc)
    requires
        no_if_wrap(node),
        spec_with_comments(src, st, cur, node) is Some,
    ensures
        no_if_wrap((spec_with_comments(src, st, cur, node)->0).0),
{
    let r = (spec_with_comments(src, st, cur, node)->0).0;
    if r != node {
        let from = st.prev.end.0 as int;
        let to = cur.start.0 as int;
        let text = crate::text::trim_chars(crate::text::slice_text(src, from, to));
        lemma_comment_no_if_wrap(text);
        let ds = seq![Doc::Line, comment_doc(text), Doc::RequiredLine, node];
        lemma_all_no_if_wrap(ds);
    }
}

/// The builder makes no `IfWrap` nodes.
#[verifier::rlimit(60)]
#[verifier::spinoff_prover]
pub proof fn lemma_built_expression_no_if_wrap(src: Seq<u8>, e: Expression, st: BuildState)
    requires
        spec_build_expression(src, e, st) is Some,
    ensures
        no_if_wrap((spec_build_expression(src, e, st)->0).0),
    decreases e, 1nat,
{
    match e {
        Expression::Scalar(span, pretty) => {
            let a = span.start.0 as int;
            let b = span.end.0 as int;
            let num = src.subrange(a, b);
            let node = if num.len() > 1 && (num[1] == 120u8 || num[1] == 111u8 || num[1] == 98u8) {
                Doc::Text(vstd::utf8::decode_utf8(num))
            } else {
                Doc::Text(pretty@)
            };
            lemma_with_comments_no_if_wrap(src, st, span, node);
        },
        Expression::Identifier(span, name) => lemma_with_comments_no_if_wrap(src, st, span, unicode_doc(name@)),
        Expression::UnitIdentifier(span, prefix, name, _) => lemma_with_comments_no_if_wrap(
            src,
            st,
            span,
            unicode_doc(prefix@ + name@),
        ),
        Expression::TypedHole(span) => {
            let text = crate::text::trim_chars(crate::text::slice_text(src, span.end.0 as int, span.start.0 as int));
            lemma_with_comments_no_if_wrap(src, st, span, unicode_doc(text));
        },
        Expression::UnaryOperator { op, expr, span_op } => {
            match op {
                UnaryOperator::Factorial(count) => {
                    lemma_built_expression_no_if_wrap(src, *expr, st);
                    let (n, st1) = spec_build_expression(src, *expr, st)->0;
                    let ds = seq![n, Doc::Text(crate::text::repeat_char('!', count as nat))];
                    lemma_all_no_if_wrap(ds);
                    lemma_with_comments_no_if_wrap(src, st1, span_op, Doc::Nodes(ds));
                },
                UnaryOperator::Negate => lemma_prefixed_no_if_wrap(src, st, e, "-"@),
                UnaryOperator::LogicalNeg => lemma_prefixed_no_if_wrap(src, st, e, "!"@),
            }
        },
        Expression::BinaryOperator { op, lhs, rhs, span_op } => {
            lemma_built_expression_no_if_wrap(src, *lhs, st);
            let (l, st1) = spec_build_expression(src, *lhs, st)->0;
            let st2 = match span_op {
                Some(s) => BuildState { prev: s, ..st1 },
                None => st1,
            };
            lemma_built_expression_no_if_wrap(src, *rhs, st2);
            let (r, st3) = spec_build_expression(src, *rhs, st2)->0;
            let ds = seq![l, Doc::Text(crate::builder::op_text(op)), r];
            lemma_all_no_if_wrap(ds);
            let ls = crate::ast::spec_full_span(*lhs)->0;
            let rs = crate::ast::spec_full_span(*rhs)->0;
            lemma_with_comments_no_if_wrap(src, st3, crate::ast::spec_extend(ls, rs), Doc::Nodes(ds));
        },
        Expression::Boolean(span, b) => {
            lemma_with_comments_no_if_wrap(src, st, span, Doc::Text(if b { "true"@ } else { "false"@ }));
        },
        Expression::Condition(..) => lemma_condition_no_if_wrap(src, st, e),
        _ => {},
    }
}

proof fn lemma_prefixed_no_if_wrap(src: Seq<u8>, st: BuildState, e: Expression, op: Seq<char>)
    requires
        spec_prefixed(src, st, e, op) is Some,
    ensures
        no_if_wrap((spec_prefixed(src, st, e, op)->0).0),
    decreases e, 0nat,
{
    if let Expression::UnaryOperator { op: _, expr, span_op } = e {
        let empty = Doc::Nodes(Seq::empty());
        lemma_all_no_if_wrap(Seq::<Doc>::empty());
        lemma_with_comments_no_if_wrap(src, st, span_op, empty);
        let (c, st1) = spec_with_comments(src, st, span_op, empty)->0;
        lemma_built_expression_no_if_wrap(src, *expr, st1);
        let (n, st2) = spec_build_expression(src, *expr, st1)->0;
        lemma_all_no_if_wrap(seq![c, Doc::Text(op), n]);
    }
}

proof fn lemma_condition_no_if_wrap(src: Seq<u8>, st: BuildState, e: Expression)
    requires
        spec_condition(src, st, e) is Some,
    ensures
        no_if_wrap((spec_condition(src, st, e)->0).0),
    decreases e, 0nat,
{
    if let Expression::Condition(span, c, t, f) = e {
        let empty = Doc::Nodes(Seq::empty());
        lemma_all_no_if_wrap(Seq::<Doc>::empty());
        let at_if = crate::ast::Span { start: span.start, end: span.start, code_source_id: span.code_source_id };
        lemma_with_comments_no_if_wrap(src, st, at_if, empty);
        let (comment, st1) = spec_with_comments(src, st, at_if, empty)->0;
        let st2 = crate::builder::spec_skip(src, st1, "if"@)->0;
        lemma_built_expression_no_if_wrap(src, *c, st2);
        let (cn, st3) = spec_build_expression(src, *c, st2)->0;
        let st4 = crate::builder::spec_skip(src, st3, "then"@)->0;
        lemma_built_expression_no_if_wrap(src, *t, st4);
        let (tn, st5) = spec_build_expression(src, *t, st4)->0;
        let st6 = crate::builder::spec_skip(src, st5, "else"@)->0;
        lemma_built_expression_no_if_wrap(src, *f, st6);
        let (en, st7) = spec_build_expression(src, *f, st6)->0;
        let then_group = seq![Doc::Text("then"@), Doc::SpaceOrLine, Doc::Indent(seq![tn])];
        let else_group = seq![Doc::Text("else"@), Doc::SpaceOrLine, Doc::Indent(seq![en])];
        lemma_all_no_if_wrap(seq![tn]);
        lemma_all_no_if_wrap(seq![en]);
        lemma_all_no_if_wrap(then_group);
        lemma_all_no_if_wrap(else_group);
        let outer = seq![
            Doc::Text("if "@),
            cn,
            Doc::SpaceOrLine,
            Doc::Group((st7.id + 2) as usize, then_group),
            Doc::SpaceOrLine,
            Doc::Group((st7.id + 3) as usize, else_group),
        ];
        lemma_all_no_if_wrap(outer);
        lemma_all_no_if_wrap(seq![comment, Doc::Group((st7.id + 1) as usize, outer)]);
    }
}

/// The builder makes no `IfWrap` nodes for a program.
pub proof fn lemma_built_program_no_if_wrap(src: Seq<u8>, ast: Seq<Statement>, st: BuildState)
    requires
        spec_build(src, ast, st) is Some,
    ensures
        no_if_wrap(spec_build(src, ast, st)->0),
{
    lemma_built_statements_no_if_wrap(src, ast, st);
    let (ds, st1) = spec_build_statements(src, ast, st)->0;
    let sep = Doc::Nodes(seq![Doc::RequiredLine, Doc::RequiredLine]);
    lemma_all_no_if_wrap(seq![Doc::RequiredLine, Doc::RequiredLine]);
    lemma_intersperse_no_if_wrap(ds, sep);
    let from = st1.prev.end.0 as int;
    let rest = crate::text::trim_chars(crate::text::slice_text(src, from, src.len() as int));
    lemma_all_no_if_wrap(
        seq![Doc::Nodes(intersperse(ds, sep)), Doc::RequiredLine, unicode_doc(rest), Doc::RequiredLine],
    );
}

proof fn lemma_built_statements_no_if_wrap(src: Seq<u8>, ss: Seq<Statement>, st: BuildState)
    requires
        spec_build_statements(src, ss, st) is Some,
    ensures
        all_no_if_wrap((spec_build_statements(src, ss, st)->0).0),
    decreases ss.len(),
{
    if ss.len() > 0 {
        lemma_built_statements_no_if_wrap(src, ss.drop_last(), st);
        let (ds, st1) = spec_build_statements(src, ss.drop_last(), st)->0;
        if let Statement::Expression(e) = ss.last() {
            lemma_built_expression_no_if_wrap(src, e, st1);
        }
        let (d, st2) = spec_build_statement(src, ss.last(), st1)->0;
        assert(ds.push(d).drop_last() =~= ds);
    }
}

/// Formatting a program changes only whitespace: without spaces and line
/// feeds, the output is the document's flat rendering.
pub proof fn law_formatting_changes_only_whitespace(src: Seq<u8>, ast: Seq<Statement>, max: int)
    requires
        spec_build(src, ast, initial_state()) is Some,
    ensures
        ink(render(spec_build(src, ast, initial_state())->0, false, fresh_layout(), max).buffer)
            == ink(flat(spec_build(src, ast, initial_state())->0, Set::empty())),
{
    let d = spec_build(src, ast, initial_state())->0;
    lemma_built_program_no_if_wrap(src, ast, initial_state());
    law_layout_changes_only_whitespace(d, false, fresh_layout(), max);
    lemma_ink_blank(Seq::<char>::empty());
    assert(Seq::<char>::empty() + ink(flat(d, Set::empty())) =~= ink(flat(d, Set::empty())));
}

/// The ids of the groups in a node, outermost first, in order.
pub open spec fn group_ids(d: Doc) -> Seq<usize>
    decreases d,
{
    match d {
        Doc::Group(id, ds) => seq![id] + group_ids_seq(ds),
        Doc::Nodes(ds) => group_ids_seq(ds),
        Doc::Indent(ds) => group_ids_seq(ds),
        Doc::IfWrap(_, a, b) => group_ids(*a) + group_ids(*b),
        _ => Seq::empty(),
    }
}

pub open spec fn group_ids_seq(ds: Seq<Doc>) -> Seq<usize>
    decreases ds,
{
    if ds.len() == 0 {
        Seq::empty()
    } else {
        group_ids_seq(ds.drop_last()) + group_ids(ds.last())
    }
}

/// The ids are distinct and lie in `lo + 1 ..= hi`.
pub open spec fn ids_fresh(ids: Seq<usize>, lo: int, hi: int) -> bool {
    &&& ids.no_duplicates()
    &&& forall|i: int| 0 <= i < ids.len() ==> lo < #[trigger] ids[i] <= hi
}

proof fn lemma_ids_concat(a: Seq<usize>, b: Seq<usize>, lo1: int, hi1: int, lo2: int, hi2: int)
    requires
        ids_fresh(a, lo1, hi1),
        ids_fresh(b, lo2, hi2),
        hi1 <= lo2 || hi2 <= lo1,
    ensures
        (a + b).no_duplicates(),
        forall|i: int| 0 <= i < (a + b).len() ==> #[trigger] (a + b)[i] == (a + b)[i] && (
            (lo1 < (a + b)[i] <= hi1) || (lo2 < (a + b)[i] <= hi2)),
{
    assert forall|i: int, j: int| 0 <= i < a.len() && 0 <= j < b.len() implies a[i] != b[j] by {
        assert(lo1 < a[i] <= hi1);
        assert(lo2 < b[j] <= hi2);
    }
    vstd::seq_lib::lemma_no_dup_in_concat(a, b);
    assert forall|i: int| 0 <= i < (a + b).len() implies #[trigger] (a + b)[i] == (a + b)[i] && (
        (lo1 < (a + b)[i] <= hi1) || (lo2 < (a + b)[i] <= hi2)) by {
        if i < a.len() {
            assert((a + b)[i] == a[i]);
        } else {
            assert((a + b)[i] == b[i - a.len()]);
        }
    }
}

/// Joining ids from consecutive ranges keeps them fresh in the joined range.
proof fn lemma_ids_join(a: Seq<usize>, b: Seq<usize>, lo: int, mid: int, hi: int)
    requires
        ids_fresh(a, lo, mid),
        ids_fresh(b, mid, hi),
        lo <= mid <= hi,
    ensures
        ids_fresh(a + b, lo, hi),
{
    lemma_ids_concat(a, b, lo, mid, mid, hi);
}

pub proof fn lemma_ids_seq_add(a: Seq<Doc>, b: Seq<Doc>)
    ensures
        group_ids_seq(a + b) == group_ids_seq(a) + group_ids_seq(b),
    decreases b.len(),
{
    if b.len() == 0 {
        assert(a + b =~= a);
        assert(group_ids_seq(a) + Seq::<usize>::empty() =~= group_ids_seq(a));
    } else {
        lemma_ids_seq_add(a, b.drop_last());
        assert((a + b).drop_last() =~= a + b.drop_last());
        assert((a + b).last() == b.last());
        assert(group_ids_seq(a) + group_ids_seq(b.drop_last()) + group_ids(b.last()) =~= group_ids_seq(
            a,
        ) + (group_ids_seq(b.drop_last()) + group_ids(b.last())));
    }
}

proof fn lemma_ids_seq_one(d: Doc)
    ensures
        group_ids_seq(seq![d]) == group_ids(d),
{
    let one = seq![d];
    assert(one.drop_last() =~= Seq::<Doc>::empty());
    assert(one.last() == d);
    assert(group_ids_seq(one) == group_ids_seq(one.drop_last()) + group_ids(one.last()));
    assert(group_ids_seq(Seq::<Doc>::empty()) == Seq::<usize>::empty());
    assert(Seq::<usize>::empty() + group_ids(d) =~= group_ids(d));
}

proof fn lemma_ids_seq_none(ds: Seq<Doc>)
    requires
        forall|i: int| 0 <= i < ds.len() ==> #[trigger] group_ids(ds[i]) == Seq::<usize>::empty(),
    ensures
        group_ids_seq(ds) == Seq::<usize>::empty(),
    decreases ds.len(),
{
    if ds.len() > 0 {
        assert(forall|i: int| 0 <= i < ds.drop_last().len() ==> ds.drop_last()[i] == ds[i]);
        lemma_ids_seq_none(ds.drop_last());
        assert(ds.last() == ds[ds.len() - 1]);
        assert(group_ids(ds[ds.len() - 1]) == Seq::<usize>::empty());
        assert(Seq::<usize>::empty() + Seq::<usize>::empty() =~= Seq::<usize>::empty());
    }
}

proof fn lemma_comment_no_groups(text: Seq<char>)
    ensures
        group_ids(comment_doc(text)) == Seq::<usize>::empty(),
{
    let ds = lines_of(text).map_values(|l: Seq<char>| unicode_doc(l));
    let xs = intersperse(ds, Doc::SpaceOrLine);
    lemma_intersperse_items(ds, Doc::SpaceOrLine);
    assert forall|i: int| 0 <= i < xs.len() implies #[trigger] group_ids(xs[i]) == Seq::<usize>::empty() by {
        if xs[i] != Doc::SpaceOrLine {
            let j = choose|j: int| 0 <= j < ds.len() && ds[j] == xs[i];
        }
    }
    lemma_ids_seq_none(xs);
}

proof fn lemma_with_comments_ids(src: Seq<u8>, st: BuildState, cur: crate::ast::Span, node: Doc)
    requires
        spec_with_comments(src, st, cur, node) is Some,
    ensures
        group_ids((spec_with_comments(src, st, cur, node)->0).0) == group_ids(node),
        (spec_with_comments(src, st, cur, node)->0).1.id == st.id,
{
    let r = (spec_with_comments(src, st, cur, node)->0).0;
    if r != node {
        let from = st.prev.end.0 as int;
        let to = cur.start.0 as int;
        let text = crate::text::trim_chars(crate::text::slice_text(src, from, to));
        lemma_comment_no_groups(text);
        let ds = seq![Doc::Line, comment_doc(text), Doc::RequiredLine, node];
        assert(ds =~= seq![Doc::Line, comment_doc(text), Doc::RequiredLine] + seq![node]);
        lemma_ids_seq_add(seq![Doc::Line, comment_doc(text), Doc::RequiredLine], seq![node]);
        lemma_ids_seq_one(node);
        lemma_ids_seq_none(seq![Doc::Line, comment_doc(text), Doc::RequiredLine]);
        assert(Seq::<usize>::empty() + group_ids(node) =~= group_ids(node));
    }
}

proof fn lemma_ids_empty_nodes()
    ensures
        group_ids(Doc::Nodes(Seq::empty())) == Seq::<usize>::empty(),
{
    let none = Seq::<Doc>::empty();
    assert(group_ids(Doc::Nodes(none)) == group_ids_seq(none));
    assert(group_ids_seq(none) == Seq::<usize>::empty());
}

proof fn lemma_ids_seq_two(a: Doc, b: Doc)
    ensures
        group_ids_seq(seq![a, b]) == group_ids(a) + group_ids(b),
{
    assert(seq![a, b] =~= seq![a] + seq![b]);
    lemma_ids_seq_add(seq![a], seq![b]);
    lemma_ids_seq_one(a);
    lemma_ids_seq_one(b);
}

proof fn lemma_ids_seq_three(a: Doc, b: Doc, c: Doc)
    ensures
        group_ids_seq(seq![a, b, c]) == group_ids(a) + group_ids(b) + group_ids(c),
{
    assert(seq![a, b, c] =~= seq![a, b] + seq![c]);
    lemma_ids_seq_add(seq![a, b], seq![c]);
    lemma_ids_seq_two(a, b);
    lemma_ids_seq_one(c);
}

proof fn lemma_ids_seq_six(a: Doc, b: Doc, c: Doc, d: Doc, e: Doc, f: Doc)
    ensures
        group_ids_seq(seq![a, b, c, d, e, f]) == group_ids(a) + group_ids(b) + group_ids(c) + group_ids(
            d,
        ) + group_ids(e) + group_ids(f),
{
    assert(seq![a, b, c, d, e, f] =~= seq![a, b, c] + seq![d, e, f]);
    lemma_ids_seq_add(seq![a, b, c], seq![d, e, f]);
    lemma_ids_seq_three(a, b, c);
    lemma_ids_seq_three(d, e, f);
    assert(group_ids(a) + group_ids(b) + group_ids(c) + (group_ids(d) + group_ids(e) + group_ids(f))
        =~= group_ids(a) + group_ids(b) + group_ids(c) + group_ids(d) + group_ids(e) + group_ids(f));
}

/// Two sequences of ids without duplicates and without common ids join
/// into one without duplicates.
proof fn lemma_ids_disjoint_join(a: Seq<usize>, b: Seq<usize>)
    requires
        a.no_duplicates(),
        b.no_duplicates(),
        forall|i: int, j: int| 0 <= i < a.len() && 0 <= j < b.len() ==> a[i] != b[j],
    ensures
        (a + b).no_duplicates(),
        forall|k: int| 0 <= k < a.len() ==> #[trigger] (a + b)[k] == a[k],
        forall|k: int| a.len() <= k < a.len() + b.len() ==> #[trigger] (a + b)[k] == b[k - a.len()],
{
    vstd::seq_lib::lemma_no_dup_in_concat(a, b);
}

/// What the builder builds for an expression holds its group ids from
/// fresh ones.
pub open spec fn built_fresh(r: (Doc, BuildState), st: BuildState) -> bool {
    st.id <= r.1.id && ids_fresh(group_ids(r.0), st.id as int, r.1.id as int)
}

/// The builder gives each group an id that no other group of the program
/// has: the group ids of what it builds are distinct and come after every
/// id handed out before.
#[verifier::rlimit(60)]
#[verifier::spinoff_prover]
pub proof fn law_built_group_ids_fresh(src: Seq<u8>, e: Expression, st: BuildState)
    requires
        spec_build_expression(src, e, st) is Some,
    ensures
        built_fresh(spec_build_expression(src, e, st)->0, st),
    decreases e, 1nat,
{
    let r = spec_build_expression(src, e, st)->0;
    match e {
        Expression::Scalar(span, pretty) => {
            let a = span.start.0 as int;
            let b = span.end.0 as int;
            let num = src.subrange(a, b);
            let node = if num.len() > 1 && (num[1] == 120u8 || num[1] == 111u8 || num[1] == 98u8) {
                Doc::Text(vstd::utf8::decode_utf8(num))
            } else {
                Doc::Text(pretty@)
            };
            lemma_with_comments_ids(src, st, span, node);
        },
        Expression::Identifier(span, name) => lemma_with_comments_ids(src, st, span, unicode_doc(name@)),
        Expression::UnitIdentifier(span, prefix, name, _) => lemma_with_comments_ids(
            src,
            st,
            span,
            unicode_doc(prefix@ + name@),
        ),
        Expression::TypedHole(span) => {
            let text = crate::text::trim_chars(crate::text::slice_text(src, span.end.0 as int, span.start.0 as int));
            lemma_with_comments_ids(src, st, span, unicode_doc(text));
        },
        Expression::UnaryOperator { op, expr, span_op } => {
            match op {
                UnaryOperator::Factorial(count) => {
                    law_built_group_ids_fresh(src, *expr, st);
                    let (n, st1) = spec_build_expression(src, *expr, st)->0;
                    let bangs = Doc::Text(crate::text::repeat_char('!', count as nat));
                    lemma_ids_seq_two(n, bangs);
                    assert(group_ids(n) + group_ids(bangs) =~= group_ids(n));
                    lemma_with_comments_ids(src, st1, span_op, Doc::Nodes(seq![n, bangs]));
                },
                UnaryOperator::Negate => lemma_prefixed_ids(src, st, e, "-"@),
                UnaryOperator::LogicalNeg => lemma_prefixed_ids(src, st, e, "!"@),
            }
        },
        Expression::BinaryOperator { op, lhs, rhs, span_op } => {
            law_built_group_ids_fresh(src, *lhs, st);
            let (l, st1) = spec_build_expression(src, *lhs, st)->0;
            let st2 = match span_op {
                Some(s) => BuildState { prev: s, ..st1 },
                None => st1,
            };
            law_built_group_ids_fresh(src, *rhs, st2);
            let (rn, st3) = spec_build_expression(src, *rhs, st2)->0;
            let t = Doc::Text(crate::builder::op_text(op));
            lemma_ids_seq_three(l, t, rn);
            assert(group_ids(l) + group_ids(t) + group_ids(rn) =~= group_ids(l) + group_ids(rn));
            lemma_ids_join(group_ids(l), group_ids(rn), st.id as int, st1.id as int, st3.id as int);
            let ls = crate::ast::spec_full_span(*lhs)->0;
            let rs = crate::ast::spec_full_span(*rhs)->0;
            lemma_with_comments_ids(src, st3, crate::ast::spec_extend(ls, rs), Doc::Nodes(seq![l, t, rn]));
        },
        Expression::Boolean(span, b) => {
            lemma_with_comments_ids(src, st, span, Doc::Text(if b { "true"@ } else { "false"@ }));
        },
        Expression::Condition(..) => lemma_condition_ids(src, st, e),
        _ => {},
    }
}

proof fn lemma_prefixed_ids(src: Seq<u8>, st: BuildState, e: Expression, op: Seq<char>)
    requires
        spec_prefixed(src, st, e, op) is Some,
    ensures
        built_fresh(spec_prefixed(src, st, e, op)->0, st),
    decreases e, 0nat,
{
    if let Expression::UnaryOperator { op: _, expr, span_op } = e {
        let empty = Doc::Nodes(Seq::empty());
        lemma_with_comments_ids(src, st, span_op, empty);
        lemma_ids_empty_nodes();
        let (c, st1) = spec_with_comments(src, st, span_op, empty)->0;
        law_built_group_ids_fresh(src, *expr, st1);
        let (n, st2) = spec_build_expression(src, *expr, st1)->0;
        lemma_ids_seq_three(c, Doc::Text(op), n);
        assert(group_ids(c) + group_ids(Doc::Text(op)) + group_ids(n) =~= group_ids(n));
    }
}

proof fn lemma_condition_ids(src: Seq<u8>, st: BuildState, e: Expression)
    requires
        spec_condition(src, st, e) is Some,
    ensures
        built_fresh(spec_condition(src, st, e)->0, st),
    decreases e, 0nat,
{
    if let Expression::Condition(span, c, t, f) = e {
        let empty = Doc::Nodes(Seq::empty());
        let at_if = crate::ast::Span { start: span.start, end: span.start, code_source_id: span.code_source_id };
        lemma_with_comments_ids(src, st, at_if, empty);
        lemma_ids_empty_nodes();
        let (comment, st1) = spec_with_comments(src, st, at_if, empty)->0;
        let st2 = crate::builder::spec_skip(src, st1, "if"@)->0;
        law_built_group_ids_fresh(src, *c, st2);
        let (cn, st3) = spec_build_expression(src, *c, st2)->0;
        let st4 = crate::builder::spec_skip(src, st3, "then"@)->0;
        law_built_group_ids_fresh(src, *t, st4);
        let (tn, st5) = spec_build_expression(src, *t, st4)->0;
        let st6 = crate::builder::spec_skip(src, st5, "else"@)->0;
        law_built_group_ids_fresh(src, *f, st6);
        let (en, st7) = spec_build_expression(src, *f, st6)->0;
        let id1 = (st7.id + 1) as usize;
        let id2 = (st7.id + 2) as usize;
        let id3 = (st7.id + 3) as usize;
        let then_group = seq![Doc::Text("then"@), Doc::SpaceOrLine, Doc::Indent(seq![tn])];
        let else_group = seq![Doc::Text("else"@), Doc::SpaceOrLine, Doc::Indent(seq![en])];
        lemma_ids_seq_one(tn);
        lemma_ids_seq_one(en);
        lemma_ids_seq_three(Doc::Text("then"@), Doc::SpaceOrLine, Doc::Indent(seq![tn]));
        lemma_ids_seq_three(Doc::Text("else"@), Doc::SpaceOrLine, Doc::Indent(seq![en]));
        let ti = group_ids(tn);
        let ei = group_ids(en);
        let ci = group_ids(cn);
        assert(group_ids_seq(then_group) =~= ti);
        assert(group_ids_seq(else_group) =~= ei);
        let g2 = Doc::Group(id2, then_group);
        let g3 = Doc::Group(id3, else_group);
        let outer = seq![Doc::Text("if "@), cn, Doc::SpaceOrLine, g2, Doc::SpaceOrLine, g3];
        lemma_ids_seq_six(Doc::Text("if "@), cn, Doc::SpaceOrLine, g2, Doc::SpaceOrLine, g3);
        let p1 = seq![id2] + ti;
        let p2 = seq![id3] + ei;
        assert(group_ids_seq(outer) =~= ci + (p1 + p2));
        let g1 = Doc::Group(id1, outer);
        lemma_ids_seq_two(comment, g1);
        let all = group_ids(Doc::Nodes(seq![comment, g1]));
        let p5 = seq![id1] + (ci + (p1 + p2));
        assert(group_ids(comment) =~= Seq::<usize>::empty());
        assert(group_ids(g1) == seq![id1] + group_ids_seq(outer));
        assert(all =~= p5);
        // the parts come from consecutive ranges of ids
        let s0 = st.id as int;
        let s3 = st3.id as int;
        let s5 = st5.id as int;
        let s7 = st7.id as int;
        lemma_ids_disjoint_join(seq![id2], ti);
        assert forall|k: int| 0 <= k < p1.len() implies p1[k] == id2 || s3 < #[trigger] p1[k] <= s5 by {
            if k > 0 {
                assert(p1[k] == ti[k - 1]);
            }
        }
        lemma_ids_disjoint_join(seq![id3], ei);
        assert forall|k: int| 0 <= k < p2.len() implies p2[k] == id3 || s5 < #[trigger] p2[k] <= s7 by {
            if k > 0 {
                assert(p2[k] == ei[k - 1]);
            }
        }
        lemma_ids_disjoint_join(p1, p2);
        let p3 = p1 + p2;
        assert forall|k: int| 0 <= k < p3.len() implies p3[k] == id2 || p3[k] == id3 || s3
            < #[trigger] p3[k] <= s7 by {
            if k < p1.len() {
                assert(p3[k] == p1[k]);
            } else {
                assert(p3[k] == p2[k - p1.len()]);
            }
        }
        lemma_ids_disjoint_join(ci, p3);
        let p4 = ci + p3;
        assert forall|k: int| 0 <= k < p4.len() implies p4[k] == id2 || p4[k] == id3 || s0
            < #[trigger] p4[k] <= s7 by {
            if k < ci.len() {
                assert(p4[k] == ci[k]);
            } else {
                assert(p4[k] == p3[k - ci.len()]);
            }
        }
        lemma_ids_disjoint_join(seq![id1], p4);
        assert forall|k: int| 0 <= k < p5.len() implies s0 < #[trigger] p5[k] <= s7 + 3 by {
            if k > 0 {
                assert(p5[k] == p4[k - 1]);
            }
        }
    }
}

proof fn lemma_intersperse_ids(ds: Seq<Doc>, sep: Doc)
    requires
        group_ids(sep) == Seq::<usize>::empty(),
    ensures
        group_ids_seq(intersperse(ds, sep)) == group_ids_seq(ds),
    decreases ds.len(),
{
    if ds.len() > 1 {
        lemma_intersperse_ids(ds.drop_last(), sep);
        let prev = intersperse(ds.drop_last(), sep);
        let mid = prev.push(sep);
        assert(mid.drop_last() =~= prev);
        let whole = intersperse(ds, sep);
        assert(whole == mid.push(ds.last()));
        assert(whole.drop_last() =~= mid);
        assert(whole.last() == ds.last());
        assert(group_ids_seq(whole) == group_ids_seq(mid) + group_ids(ds.last()));
        assert(mid.last() == sep);
        assert(group_ids_seq(mid) == group_ids_seq(prev) + group_ids(sep));
        assert(group_ids_seq(prev) + Seq::<usize>::empty() =~= group_ids_seq(prev));
        assert(group_ids_seq(ds) == group_ids_seq(ds.drop_last()) + group_ids(ds.last()));
    }
}

proof fn lemma_statements_ids_fresh(src: Seq<u8>, ss: Seq<Statement>, st: BuildState)
    requires
        spec_build_statements(src, ss, st) is Some,
    ensures
        ({
            let (ds, st1) = spec_build_statements(src, ss, st)->0;
            st.id <= st1.id && ids_fresh(group_ids_seq(ds), st.id as int, st1.id as int)
        }),
    decreases ss.len(),
{
    if ss.len() == 0 {
    } else {
        lemma_statements_ids_fresh(src, ss.drop_last(), st);
        let (ds, st1) = spec_build_statements(src, ss.drop_last(), st)->0;
        if let Statement::Expression(e) = ss.last() {
            law_built_group_ids_fresh(src, e, st1);
        }
        let (d, st2) = spec_build_statement(src, ss.last(), st1)->0;
        assert(ds.push(d).drop_last() =~= ds);
        lemma_ids_join(group_ids_seq(ds), group_ids(d), st.id as int, st1.id as int, st2.id as int);
    }
}

/// The group ids of a program's document are those of its statements.
proof fn lemma_program_ids(src: Seq<u8>, ast: Seq<Statement>)
    requires
        spec_build(src, ast, initial_state()) is Some,
    ensures
        group_ids(spec_build(src, ast, initial_state())->0) == group_ids_seq(
            (spec_build_statements(src, ast, initial_state())->0).0,
        ),
{
    let st = initial_state();
    let (ds, st1) = spec_build_statements(src, ast, st)->0;
    let sep = Doc::Nodes(seq![Doc::RequiredLine, Doc::RequiredLine]);
    lemma_ids_seq_two(Doc::RequiredLine, Doc::RequiredLine);
    assert(group_ids(sep) =~= Seq::<usize>::empty());
    lemma_intersperse_ids(ds, sep);
    let from = st1.prev.end.0 as int;
    let rest = crate::text::trim_chars(crate::text::slice_text(src, from, src.len() as int));
    let top = seq![Doc::Nodes(intersperse(ds, sep)), Doc::RequiredLine, unicode_doc(rest), Doc::RequiredLine];
    assert(top =~= seq![Doc::Nodes(intersperse(ds, sep))] + seq![Doc::RequiredLine, unicode_doc(rest), Doc::RequiredLine]);
    lemma_ids_seq_add(seq![Doc::Nodes(intersperse(ds, sep))], seq![Doc::RequiredLine, unicode_doc(rest), Doc::RequiredLine]);
    lemma_ids_seq_one(Doc::Nodes(intersperse(ds, sep)));
    lemma_ids_seq_three(Doc::RequiredLine, unicode_doc(rest), Doc::RequiredLine);
    assert(group_ids_seq(top) =~= group_ids_seq(ds));
}

/// No two groups of a formatted program share an id.
pub proof fn law_program_group_ids_distinct(src: Seq<u8>, ast: Seq<Statement>)
    requires
        spec_build(src, ast, initial_state()) is Some,
    ensures
        group_ids(spec_build(src, ast, initial_state())->0).no_duplicates(),
{
    lemma_statements_ids_fresh(src, ast, initial_state());
    lemma_program_ids(src, ast);
}

proof fn lemma_fresh_in_empty_range(ids: Seq<usize>, lo: int)
    requires
        ids_fresh(ids, lo, lo),
    ensures
        ids.len() == 0,
{
    if ids.len() > 0 {
        let x = ids[0];
        assert(lo < x);
        assert(x <= lo);
    }
}

/// The number of conditionals in an expression, at any depth.
pub open spec fn condition_count(e: Expression) -> nat
    decreases e,
{
    match e {
        Expression::UnaryOperator { op: _, expr, span_op: _ } => condition_count(*expr),
        Expression::BinaryOperator { op: _, lhs, rhs, span_op: _ } => condition_count(*lhs)
            + condition_count(*rhs),
        Expression::Condition(_, c, t, f) => 1 + condition_count(*c) + condition_count(*t)
            + condition_count(*f),
        _ => 0,
    }
}

/// The number of conditionals in the expression statements of a program.
pub open spec fn statements_condition_count(ss: Seq<Statement>) -> nat
    decreases ss.len(),
{
    if ss.len() == 0 {
        0
    } else {
        statements_condition_count(ss.drop_last()) + match ss.last() {
            Statement::Expression(e) => condition_count(e),
            _ => 0,
        }
    }
}

/// Each conditional takes exactly three group ids: building an expression
/// advances the id counter by three times its number of conditionals.
#[verifier::rlimit(60)]
#[verifier::spinoff_prover]
pub proof fn law_built_id_count(src: Seq<u8>, e: Expression, st: BuildState)
    requires
        spec_build_expression(src, e, st) is Some,
    ensures
        (spec_build_expression(src, e, st)->0).1.id == st.id + 3 * condition_count(e),
    decreases e, 1nat,
{
    match e {
        Expression::Scalar(span, pretty) => {
            let a = span.start.0 as int;
            let b = span.end.0 as int;
            let num = src.subrange(a, b);
            let node = if num.len() > 1 && (num[1] == 120u8 || num[1] == 111u8 || num[1] == 98u8) {
                Doc::Text(vstd::utf8::decode_utf8(num))
            } else {
                Doc::Text(pretty@)
            };
            lemma_with_comments_ids(src, st, span, node);
        },
        Expression::Identifier(span, name) => lemma_with_comments_ids(src, st, span, unicode_doc(name@)),
        Expression::UnitIdentifier(span, prefix, name, _) => lemma_with_comments_ids(
            src,
            st,
            span,
            unicode_doc(prefix@ + name@),
        ),
        Expression::TypedHole(span) => {
            let text = crate::text::trim_chars(crate::text::slice_text(src, span.end.0 as int, span.start.0 as int));
            lemma_with_comments_ids(src, st, span, unicode_doc(text));
        },
        Expression::UnaryOperator { op, expr, span_op } => {
            match op {
                UnaryOperator::Factorial(count) => {
                    law_built_id_count(src, *expr, st);
                    let (n, st1) = spec_build_expression(src, *expr, st)->0;
                    let bangs = Doc::Text(crate::text::repeat_char('!', count as nat));
                    lemma_with_comments_ids(src, st1, span_op, Doc::Nodes(seq![n, bangs]));
                },
                UnaryOperator::Negate => lemma_prefixed_id_count(src, st, e, "-"@),
                UnaryOperator::LogicalNeg => lemma_prefixed_id_count(src, st, e, "!"@),
            }
        },
        Expression::BinaryOperator { op, lhs, rhs, span_op } => {
            law_built_id_count(src, *lhs, st);
            let (l, st1) = spec_build_expression(src, *lhs, st)->0;
            let st2 = match span_op {
                Some(s) => BuildState { prev: s, ..st1 },
                None => st1,
            };
            law_built_id_count(src, *rhs, st2);
            let (rn, st3) = spec_build_expression(src, *rhs, st2)->0;
            let t = Doc::Text(crate::builder::op_text(op));
            let ls = crate::ast::spec_full_span(*lhs)->0;
            let rs = crate::ast::spec_full_span(*rhs)->0;
            lemma_with_comments_ids(src, st3, crate::ast::spec_extend(ls, rs), Doc::Nodes(seq![l, t, rn]));
        },
        Expression::Boolean(span, b) => {
            lemma_with_comments_ids(src, st, span, Doc::Text(if b { "true"@ } else { "false"@ }));
        },
        Expression::Condition(..) => lemma_condition_id_count(src, st, e),
        _ => {},
    }
}

proof fn lemma_prefixed_id_count(src: Seq<u8>, st: BuildState, e: Expression, op: Seq<char>)
    requires
        spec_prefixed(src, st, e, op) is Some,
    ensures
        (spec_prefixed(src, st, e, op)->0).1.id == st.id + 3 * condition_count(e),
    decreases e, 0nat,
{
    if let Expression::UnaryOperator { op: _, expr, span_op } = e {
        let empty = Doc::Nodes(Seq::empty());
        lemma_with_comments_ids(src, st, span_op, empty);
        let (c, st1) = spec_with_comments(src, st, span_op, empty)->0;
        law_built_id_count(src, *expr, st1);
    }
}

proof fn lemma_condition_id_count(src: Seq<u8>, st: BuildState, e: Expression)
    requires
        spec_condition(src, st, e) is Some,
    ensures
        (spec_condition(src, st, e)->0).1.id == st.id + 3 * condition_count(e),
    decreases e, 0nat,
{
    if let Expression::Condition(span, c, t, f) = e {
        let empty = Doc::Nodes(Seq::empty());
        let at_if = crate::ast::Span { start: span.start, end: span.start, code_source_id: span.code_source_id };
        lemma_with_comments_ids(src, st, at_if, empty);
        let (comment, st1) = spec_with_comments(src, st, at_if, empty)->0;
        let st2 = crate::builder::spec_skip(src, st1, "if"@)->0;
        law_built_id_count(src, *c, st2);
        let (cn, st3) = spec_build_expression(src, *c, st2)->0;
        let st4 = crate::builder::spec_skip(src, st3, "then"@)->0;
        law_built_id_count(src, *t, st4);
        let (tn, st5) = spec_build_expression(src, *t, st4)->0;
        let st6 = crate::builder::spec_skip(src, st5, "else"@)->0;
        law_built_id_count(src, *f, st6);
    }
}

/// Building the statements of a program advances the id counter by three
/// times their number of conditionals.
pub proof fn law_statements_id_count(src: Seq<u8>, ss: Seq<Statement>, st: BuildState)
    requires
        spec_build_statements(src, ss, st) is Some,
    ensures
        (spec_build_statements(src, ss, st)->0).1.id == st.id + 3 * statements_condition_count(ss),
    decreases ss.len(),
{
    if ss.len() > 0 {
        law_statements_id_count(src, ss.drop_last(), st);
        let (ds, st1) = spec_build_statements(src, ss.drop_last(), st)->0;
        if let Statement::Expression(e) = ss.last() {
            law_built_id_count(src, e, st1);
        }
    }
}

/// A program without conditionals has no groups, so it is formatted the
/// same way, and overflows or not the same way, whatever the line width.
pub proof fn law_program_without_conditions_ignores_width(
    src: Seq<u8>,
    ast: Seq<Statement>,
    max1: int,
    max2: int,
)
    requires
        spec_build(src, ast, initial_state()) is Some,
        statements_condition_count(ast) == 0,
    ensures
        render(spec_build(src, ast, initial_state())->0, false, fresh_layout(), max1) == render(
            spec_build(src, ast, initial_state())->0,
            false,
            fresh_layout(),
            max2,
        ),
        render_ok(spec_build(src, ast, initial_state())->0, false, fresh_layout(), max1)
            == render_ok(spec_build(src, ast, initial_state())->0, false, fresh_layout(), max2),
{
    let st = initial_state();
    let d = spec_build(src, ast, st)->0;
    lemma_statements_ids_fresh(src, ast, st);
    law_statements_id_count(src, ast, st);
    lemma_program_ids(src, ast);
    let (ds, st1) = spec_build_statements(src, ast, st)->0;
    assert(st1.id == 0);
    let ids = group_ids(d);
    assert(ids == group_ids_seq(ds));
    lemma_fresh_in_empty_range(ids, 0);
    assert(ids =~= Seq::<usize>::empty());
    crate::engine_laws::law_no_groups_width_independent(d, false, fresh_layout(), max1, max2);
}


// ---- comments ----

/// Lines joined by single spaces.
pub open spec fn joined(ls: Seq<Seq<char>>) -> Seq<char>
    decreases ls.len(),
{
    if ls.len() == 0 {
        Seq::empty()
    } else if ls.len() == 1 {
        ls[0]
    } else {
        joined(ls.drop_last()) + seq![' '] + ls.last()
    }
}

/// The trimmed source text between the text consumed and byte `at`: the
/// comments that stand there.
pub open spec fn comment_before(src: Seq<u8>, st: BuildState, at: int) -> Seq<char> {
    trim_chars(slice_text(src, st.prev.end.0 as int, at))
}

proof fn lemma_lines_flat(ls: Seq<Seq<char>>, wrapped: Set<usize>)
    ensures
        flats(intersperse(ls.map_values(|l: Seq<char>| unicode_doc(l)), Doc::SpaceOrLine), wrapped)
            == joined(ls),
    decreases ls.len(),
{
    let xs = ls.map_values(|l: Seq<char>| unicode_doc(l));
    let s = intersperse(xs, Doc::SpaceOrLine);
    if ls.len() == 0 {
        assert(s =~= Seq::<Doc>::empty());
    } else if ls.len() == 1 {
        assert(s =~= seq![unicode_doc(ls[0])]);
        lemma_flats_one(unicode_doc(ls[0]), wrapped);
    } else {
        let init = ls.drop_last();
        lemma_lines_flat(init, wrapped);
        assert(xs.drop_last() =~= init.map_values(|l: Seq<char>| unicode_doc(l)));
        let p = intersperse(xs.drop_last(), Doc::SpaceOrLine);
        assert(s == p.push(Doc::SpaceOrLine).push(xs.last()));
        assert(s.drop_last() =~= p.push(Doc::SpaceOrLine));
        assert(p.push(Doc::SpaceOrLine).drop_last() =~= p);
        assert(xs.last() == unicode_doc(ls.last()));
        lemma_flats_push(p.push(Doc::SpaceOrLine), xs.last(), wrapped);
        lemma_flats_push(p, Doc::SpaceOrLine, wrapped);
        assert(flats(s, wrapped) =~= joined(ls));
    }
}

/// A comment prints, on one line, its lines joined by single spaces.
pub proof fn law_comment_prints_its_lines(text: Seq<char>, wrapped: Set<usize>)
    ensures
        flat(comment_doc(text), wrapped) == joined(lines_of(text)),
{
    lemma_lines_flat(lines_of(text), wrapped);
}

/// Comments are kept: the node built after the comments that stand between
/// the text consumed and `cur` prints them, line by line, before the node,
/// and nothing more.
pub proof fn law_with_comments_keeps_comment(
    src: Seq<u8>,
    st: BuildState,
    cur: crate::ast::Span,
    node: Doc,
    wrapped: Set<usize>,
)
    requires
        st.prev.end.0 <= cur.start.0,
        slice_ok(src, st.prev.end.0 as int, cur.start.0 as int),
    ensures
        spec_with_comments(src, st, cur, node) is Some,
        comment_before(src, st, cur.start.0 as int).len() > 0 ==> flat(
            (spec_with_comments(src, st, cur, node)->0).0,
            wrapped,
        ) == joined(lines_of(comment_before(src, st, cur.start.0 as int))) + flat(node, wrapped),
        comment_before(src, st, cur.start.0 as int).len() == 0 ==> flat(
            (spec_with_comments(src, st, cur, node)->0).0,
            wrapped,
        ) == flat(node, wrapped),
{
    let text = comment_before(src, st, cur.start.0 as int);
    if text.len() > 0 {
        law_comment_prints_its_lines(text, wrapped);
        let cm = comment_doc(text);
        lemma_flats_one(Doc::Line, wrapped);
        lemma_flats_push(seq![Doc::Line], cm, wrapped);
        lemma_flats_push(seq![Doc::Line, cm], Doc::RequiredLine, wrapped);
        lemma_flats_push(seq![Doc::Line, cm, Doc::RequiredLine], node, wrapped);
        assert(seq![Doc::Line].push(cm) =~= seq![Doc::Line, cm]);
        assert(seq![Doc::Line, cm].push(Doc::RequiredLine) =~= seq![Doc::Line, cm, Doc::RequiredLine]);
        assert(seq![Doc::Line, cm, Doc::RequiredLine].push(node) =~= seq![Doc::Line, cm, Doc::RequiredLine, node]);
        assert(flat(Doc::Nodes(seq![Doc::Line, cm, Doc::RequiredLine, node]), wrapped)
            =~= joined(lines_of(text)) + flat(node, wrapped));
    }
}

/// A conditional keeps the comments that stand before its `if`: what it
/// prints starts with them, line by line.
pub proof fn law_condition_keeps_comment(
    src: Seq<u8>,
    st: BuildState,
    span: crate::ast::Span,
    c: Box<Expression>,
    t: Box<Expression>,
    e: Box<Expression>,
    wrapped: Set<usize>,
)
    requires
        spec_build_expression(src, Expression::Condition(span, c, t, e), st) is Some,
        st.prev.end.0 <= span.start.0,
        comment_before(src, st, span.start.0 as int).len() > 0,
    ensures
        crate::engine_laws::is_prefix(
            joined(lines_of(comment_before(src, st, span.start.0 as int))),
            flat((spec_build_expression(src, Expression::Condition(span, c, t, e), st)->0).0, wrapped),
        ),
{
    let cond = Expression::Condition(span, c, t, e);
    let at_if = crate::ast::Span { start: span.start, end: span.start, code_source_id: span.code_source_id };
    let empty = Doc::Nodes(Seq::empty());
    assert(spec_build_expression(src, cond, st) == spec_condition(src, st, cond));
    law_with_comments_keeps_comment(src, st, at_if, empty, wrapped);
    let (comment, st1) = spec_with_comments(src, st, at_if, empty)->0;
    let st2 = crate::builder::spec_skip(src, st1, "if"@)->0;
    let (cn, st3) = spec_build_expression(src, *c, st2)->0;
    let st4 = crate::builder::spec_skip(src, st3, "then"@)->0;
    let (tn, st5) = spec_build_expression(src, *t, st4)->0;
    let st6 = crate::builder::spec_skip(src, st5, "else"@)->0;
    let (en, st7) = spec_build_expression(src, *e, st6)->0;
    let g = Doc::Group(
        (st7.id + 1) as usize,
        seq![
            Doc::Text("if "@),
            cn,
            Doc::SpaceOrLine,
            Doc::Group((st7.id + 2) as usize, seq![Doc::Text("then"@), Doc::SpaceOrLine, Doc::Indent(seq![tn])]),
            Doc::SpaceOrLine,
            Doc::Group((st7.id + 3) as usize, seq![Doc::Text("else"@), Doc::SpaceOrLine, Doc::Indent(seq![en])]),
        ],
    );
    let d = (spec_build_expression(src, cond, st)->0).0;
    assert(d == Doc::Nodes(seq![comment, g]));
    let j = joined(lines_of(comment_before(src, st, span.start.0 as int)));
    lemma_flats_empty(wrapped);
    assert(flat(comment, wrapped) == j);
    lemma_flats_two(comment, g, wrapped);
    assert((j + flat(g, wrapped)).subrange(0, j.len() as int) =~= j);
}

/// The span of a literal, an identifier or a hole.
pub open spec fn token_span(e: Expression) -> crate::ast::Span
    recommends
        is_token(e),
{
    match e {
        Expression::Scalar(span, _) => span,
        Expression::Identifier(span, _) => span,
        Expression::UnitIdentifier(span, _, _, _) => span,
        Expression::Boolean(span, _) => span,
        Expression::TypedHole(span) => span,
        _ => arbitrary(),
    }
}

/// A literal, an identifier or a hole: an expression printed as one token.
pub open spec fn is_token(e: Expression) -> bool {
    ||| e is Scalar
    ||| e is Identifier
    ||| e is UnitIdentifier
    ||| e is Boolean
    ||| e is TypedHole
}

/// A literal, an identifier or a hole keeps the comments that stand before
/// it: what it prints starts with them, line by line.
pub proof fn law_token_keeps_comment(src: Seq<u8>, st: BuildState, e: Expression, wrapped: Set<usize>)
    requires
        is_token(e),
        spec_build_expression(src, e, st) is Some,
        st.prev.end.0 <= token_span(e).start.0,
        comment_before(src, st, token_span(e).start.0 as int).len() > 0,
    ensures
        crate::engine_laws::is_prefix(
            joined(lines_of(comment_before(src, st, token_span(e).start.0 as int))),
            flat((spec_build_expression(src, e, st)->0).0, wrapped),
        ),
{
    let span = token_span(e);
    let to = span.start.0 as int;
    let j = joined(lines_of(comment_before(src, st, to)));
    let node: Doc = match e {
        Expression::Scalar(_, pretty) => {
            let num = src.subrange(span.start.0 as int, span.end.0 as int);
            if num.len() > 1 && (num[1] == 120u8 || num[1] == 111u8 || num[1] == 98u8) {
                Doc::Text(vstd::utf8::decode_utf8(num))
            } else {
                Doc::Text(pretty@)
            }
        },
        Expression::Identifier(_, name) => unicode_doc(name@),
        Expression::UnitIdentifier(_, prefix, name, _) => unicode_doc(prefix@ + name@),
        Expression::Boolean(_, b) => Doc::Text(if b { "true"@ } else { "false"@ }),
        _ => unicode_doc(trim_chars(slice_text(src, span.end.0 as int, span.start.0 as int))),
    };
    assert(spec_build_expression(src, e, st) == spec_with_comments(src, st, span, node));
    law_with_comments_keeps_comment(src, st, span, node, wrapped);
    assert((j + flat(node, wrapped)).subrange(0, j.len() as int) =~= j);
}

/// A negation or a logical not keeps the comments that stand before its
/// operator: what it prints starts with them, line by line, and then the
/// operator.
pub proof fn law_prefix_operator_keeps_comment(
    src: Seq<u8>,
    st: BuildState,
    op: UnaryOperator,
    expr: Box<Expression>,
    span_op: crate::ast::Span,
    wrapped: Set<usize>,
)
    requires
        op == UnaryOperator::Negate || op == UnaryOperator::LogicalNeg,
        spec_build_expression(src, Expression::UnaryOperator { op, expr, span_op }, st) is Some,
        st.prev.end.0 <= span_op.start.0,
        comment_before(src, st, span_op.start.0 as int).len() > 0,
    ensures
        crate::engine_laws::is_prefix(
            joined(lines_of(comment_before(src, st, span_op.start.0 as int)))
                + (if op == UnaryOperator::Negate { "-"@ } else { "!"@ }),
            flat((spec_build_expression(src, Expression::UnaryOperator { op, expr, span_op }, st)->0).0, wrapped),
        ),
{
    let e = Expression::UnaryOperator { op, expr, span_op };
    let sign: Seq<char> = if op == UnaryOperator::Negate { "-"@ } else { "!"@ };
    let empty = Doc::Nodes(Seq::empty());
    assert(spec_build_expression(src, e, st) == spec_prefixed(src, st, e, sign));
    law_with_comments_keeps_comment(src, st, span_op, empty, wrapped);
    let (comment, st1) = spec_with_comments(src, st, span_op, empty)->0;
    let (n, st2) = spec_build_expression(src, *expr, st1)->0;
    let d = (spec_build_expression(src, e, st)->0).0;
    assert(d == Doc::Nodes(seq![comment, Doc::Text(sign), n]));
    let j = joined(lines_of(comment_before(src, st, span_op.start.0 as int)));
    lemma_flats_empty(wrapped);
    assert(flat(comment, wrapped) == j);
    lemma_flats_one(comment, wrapped);
    lemma_flats_push(seq![comment], Doc::Text(sign), wrapped);
    lemma_flats_push(seq![comment, Doc::Text(sign)], n, wrapped);
    assert(seq![comment].push(Doc::Text(sign)) =~= seq![comment, Doc::Text(sign)]);
    assert(seq![comment, Doc::Text(sign)].push(n) =~= seq![comment, Doc::Text(sign), n]);
    assert(flat(d, wrapped) == j + sign + flat(n, wrapped));
    assert((j + sign + flat(n, wrapped)).subrange(0, (j + sign).len() as int) =~= j + sign);
}

proof fn lemma_flats_empty(wrapped: Set<usize>)
    ensures
        flats(Seq::empty(), wrapped) == Seq::<char>::empty(),
{
}

proof fn lemma_flats_push(ds: Seq<Doc>, d: Doc, wrapped: Set<usize>)
    ensures
        flats(ds.push(d), wrapped) == flats(ds, wrapped) + flat(d, wrapped),
{
    assert(ds.push(d).drop_last() =~= ds);
}

proof fn lemma_flats_one(a: Doc, wrapped: Set<usize>)
    ensures
        flats(seq![a], wrapped) == flat(a, wrapped),
{
    lemma_flats_push(Seq::empty(), a, wrapped);
    assert(Seq::<Doc>::empty().push(a) =~= seq![a]);
    assert(Seq::<char>::empty() + flat(a, wrapped) =~= flat(a, wrapped));
}

proof fn lemma_flats_two(a: Doc, b: Doc, wrapped: Set<usize>)
    ensures
        flat(Doc::Nodes(seq![a, b]), wrapped) == flat(a, wrapped) + flat(b, wrapped),
{
    lemma_flats_one(a, wrapped);
    lemma_flats_push(seq![a], b, wrapped);
    assert(seq![a].push(b) =~= seq![a, b]);
}

// ---- factorials ----

/// `repeat_char(c, n)` is exactly `n` characters, each of them `c`.
pub proof fn law_repeat_char_exact(c: char, n: nat)
    ensures
        repeat_char(c, n).len() == n,
        forall|i: int| 0 <= i < n ==> #[trigger] repeat_char(c, n)[i] == c,
{
}

/// A factorial applied `count` times prints its operand and then exactly
/// `count` exclamation marks, at the end of what it prints.
pub proof fn law_factorial_prints_its_marks(
    src: Seq<u8>,
    st: BuildState,
    count: usize,
    expr: Box<Expression>,
    span_op: crate::ast::Span,
    wrapped: Set<usize>,
)
    requires
        spec_build_expression(
            src,
            Expression::UnaryOperator { op: UnaryOperator::Factorial(count), expr, span_op },
            st,
        ) is Some,
    ensures
        ({
            let printed = flat(
                (spec_build_expression(
                    src,
                    Expression::UnaryOperator { op: UnaryOperator::Factorial(count), expr, span_op },
                    st,
                )->0).0,
                wrapped,
            );
            let tail = flat((spec_build_expression(src, *expr, st)->0).0, wrapped) + Seq::new(
                count as nat,
                |i: int| '!',
            );
            &&& tail.len() <= printed.len()
            &&& printed.subrange(printed.len() - tail.len(), printed.len() as int) == tail
        }),
{
    let e = Expression::UnaryOperator { op: UnaryOperator::Factorial(count), expr, span_op };
    let (n, st1) = spec_build_expression(src, *expr, st)->0;
    let bangs = Seq::new(count as nat, |i: int| '!');
    assert(repeat_char('!', count as nat) =~= bangs);
    let node = Doc::Nodes(seq![n, Doc::Text(repeat_char('!', count as nat))]);
    lemma_flats_two(n, Doc::Text(repeat_char('!', count as nat)), wrapped);
    assert(flat(node, wrapped) == flat(n, wrapped) + bangs);
    let tail = flat(n, wrapped) + bangs;
    let d = (spec_build_expression(src, e, st)->0).0;
    assert(spec_with_comments(src, st1, span_op, node) is Some);
    assert(d == (spec_with_comments(src, st1, span_op, node)->0).0);
    let from = st1.prev.end.0 as int;
    let to = span_op.start.0 as int;
    if from <= to {
        law_with_comments_keeps_comment(src, st1, span_op, node, wrapped);
        if comment_before(src, st1, to).len() > 0 {
            let j = joined(lines_of(comment_before(src, st1, to)));
            assert(flat(d, wrapped) == j + tail);
            assert((j + tail).subrange(j.len() as int, (j + tail).len() as int) =~= tail);
        } else {
            assert(flat(d, wrapped) == tail);
            assert(tail.subrange(0, tail.len() as int) =~= tail);
        }
    } else {
        assert(d == node);
        assert(tail.subrange(0, tail.len() as int) =~= tail);
    }
}

} // verus!
