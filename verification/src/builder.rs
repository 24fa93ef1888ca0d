use vstd::prelude::*;
use vstd::string::StringSliceAdditionalSpecFns;
use vstd::utf8::{decode_utf8, encode_utf8, is_char_boundary};
use crate::ast::{
    spec_extend, spec_full_span, BinaryOperator, ByteIndex, Expression, Span, Statement,
    UnaryOperator,
};
use crate::node::{docs_of, lemma_docs_index, lemma_docs_small, Doc, FormatNode};
use crate::outside::{intersperse_nodes, usize_to_u32};
use crate::text::{
    intersperse, lines, lines_of, repeat_char, repeat_str, slice_ok, slice_text, substr, trim,
    trim_chars,
};

verus! {

broadcast use vstd::utf8::group_utf8_lib;

/// What the builder carries from node to node: the last group id handed out
/// and the span of source text already consumed.
pub struct BuildState {
    pub id: usize,
    pub prev: Span,
}

/// The state of a builder that built nothing.
pub open spec fn initial_state() -> BuildState {
    BuildState {
        id: 0,
        prev: Span { start: ByteIndex(0), end: ByteIndex(0), code_source_id: 0 },
    }
}

/// A text node whose width is its number of characters.
pub open spec fn unicode_doc(s: Seq<char>) -> Doc {
    Doc::Unicode(s, s.len() as usize)
}

/// A comment text as a node: its lines, joined by spaces or line breaks.
pub open spec fn comment_doc(text: Seq<char>) -> Doc {
    Doc::Nodes(intersperse(lines_of(text).map_values(|l: Seq<char>| unicode_doc(l)), Doc::SpaceOrLine))
}

/// The node preceded by the comments that stand between the text consumed
/// and `cur`, which then counts as consumed; `None` where the text between
/// them cannot be cut out of the source.
pub open spec fn spec_with_comments(src: Seq<u8>, st: BuildState, cur: Span, node: Doc) -> Option<
    (Doc, BuildState),
> {
    let from = st.prev.end.0 as int;
    let to = cur.start.0 as int;
    if from <= to {
        if !slice_ok(src, from, to) {
            None
        } else {
            let text = trim_chars(slice_text(src, from, to));
            let next = BuildState { prev: cur, ..st };
            if text.len() > 0 {
                Some((Doc::Nodes(seq![Doc::Line, comment_doc(text), Doc::RequiredLine, node]), next))
            } else {
                Some((node, next))
            }
        }
    } else {
        Some((node, st))
    }
}

/// The text of the bytes `span.end..span.start`, trimmed, after its comments.
pub open spec fn spec_text_from_span(src: Seq<u8>, st: BuildState, span: Span) -> Option<
    (Doc, BuildState),
> {
    let from = span.end.0 as int;
    let to = span.start.0 as int;
    if slice_ok(src, from, to) {
        spec_with_comments(src, st, span, unicode_doc(trim_chars(slice_text(src, from, to))))
    } else {
        None
    }
}

/// The first position at or after `p` where `tok` starts, moving one byte at
/// a time; `None` where the search runs off the end, steps into the middle
/// of a character or past what a `u32` offset holds.
pub open spec fn find_from(src: Seq<u8>, tok: Seq<u8>, p: int) -> Option<int>
    decreases src.len() - p,
{
    if p < 0 || p > src.len() {
        None
    } else if p + tok.len() <= src.len() && src.subrange(p, p + tok.len()) == tok {
        Some(p)
    } else if p < src.len() && is_char_boundary(src, p + 1) && p + 1 <= u32::MAX {
        find_from(src, tok, p + 1)
    } else {
        None
    }
}

/// The state after consuming source text up to and including the next
/// occurrence of `token`.
pub open spec fn spec_skip(src: Seq<u8>, st: BuildState, token: Seq<char>) -> Option<BuildState> {
    let tok = encode_utf8(token);
    let p = st.prev.end.0 as int;
    if p <= src.len() && is_char_boundary(src, p) {
        match find_from(src, tok, p) {
            Some(k) => if k + tok.len() <= u32::MAX {
                Some(
                    BuildState {
                        prev: Span {
                            start: st.prev.end,
                            end: ByteIndex((k + tok.len()) as u32),
                            code_source_id: st.prev.code_source_id,
                        },
                        ..st
                    },
                )
            } else {
                None
            },
            None => None,
        }
    } else {
        None
    }
}

/// How a binary operator is printed.
pub open spec fn op_text(op: BinaryOperator) -> Seq<char> {
    match op {
        BinaryOperator::Add => " + "@,
        BinaryOperator::Sub => " - "@,
        BinaryOperator::Mul => " * "@,
        BinaryOperator::Div => " / "@,
        BinaryOperator::Power => " ^ "@,
        BinaryOperator::ConvertTo => " -> "@,
        BinaryOperator::LessThan => " < "@,
        BinaryOperator::GreaterThan => " > "@,
        BinaryOperator::LessOrEqual => " <= "@,
        BinaryOperator::GreaterOrEqual => " >= "@,
        BinaryOperator::Equal => " == "@,
        BinaryOperator::NotEqual => " != "@,
        BinaryOperator::LogicalAnd => " && "@,
        BinaryOperator::LogicalOr => " || "@,
    }
}

/// The node of a prefix operator: the comments before the operator, the
/// operator, the operand.
pub open spec fn spec_prefixed(src: Seq<u8>, st: BuildState, e: Expression, op: Seq<char>) -> Option<
    (Doc, BuildState),
>
    decreases e, 0nat,
{
    match e {
        Expression::UnaryOperator { op: _, expr, span_op } => match spec_with_comments(
            src,
            st,
            span_op,
            Doc::Nodes(Seq::empty()),
        ) {
            Some((comment, st1)) => match spec_build_expression(src, *expr, st1) {
                Some((n, st2)) => Some((Doc::Nodes(seq![comment, Doc::Text(op), n]), st2)),
                None => None,
            },
            None => None,
        },
        _ => None,
    }
}

/// The node of `if c then t else e` built from the parts' nodes: three
/// groups with fresh ids, the branches indented.
pub open spec fn condition_doc(
    comment: Doc,
    c: Doc,
    t: Doc,
    e: Doc,
    id1: usize,
    id2: usize,
    id3: usize,
) -> Doc {
    Doc::Nodes(
        seq![
            comment,
            Doc::Group(
                id1,
                seq![
                    Doc::Text("if "@),
                    c,
                    Doc::SpaceOrLine,
                    Doc::Group(id2, seq![Doc::Text("then"@), Doc::SpaceOrLine, Doc::Indent(seq![t])]),
                    Doc::SpaceOrLine,
                    Doc::Group(id3, seq![Doc::Text("else"@), Doc::SpaceOrLine, Doc::Indent(seq![e])]),
                ],
            ),
        ],
    )
}

/// The node built for a condition: comments before `if`, then each keyword
/// consumed before the part that follows it.
pub open spec fn spec_condition(src: Seq<u8>, st: BuildState, cond: Expression) -> Option<
    (Doc, BuildState),
>
    decreases cond, 0nat,
{
    match cond {
        Expression::Condition(span, c, t, e) => {
            let at_if = Span { start: span.start, end: span.start, code_source_id: span.code_source_id };
            match spec_with_comments(src, st, at_if, Doc::Nodes(Seq::empty())) {
                None => None,
                Some((comment, st1)) => match spec_skip(src, st1, "if"@) {
                    None => None,
                    Some(st2) => match spec_build_expression(src, *c, st2) {
                        None => None,
                        Some((cn, st3)) => match spec_skip(src, st3, "then"@) {
                            None => None,
                            Some(st4) => match spec_build_expression(src, *t, st4) {
                                None => None,
                                Some((tn, st5)) => match spec_skip(src, st5, "else"@) {
                                    None => None,
                                    Some(st6) => match spec_build_expression(src, *e, st6) {
                                        None => None,
                                        Some((en, st7)) => if st7.id + 3 <= usize::MAX {
                                            Some(
                                                (
                                                    condition_doc(
                                                        comment,
                                                        cn,
                                                        tn,
                                                        en,
                                                        (st7.id + 1) as usize,
                                                        (st7.id + 2) as usize,
                                                        (st7.id + 3) as usize,
                                                    ),
                                                    BuildState { id: (st7.id + 3) as usize, ..st7 },
                                                ),
                                            )
                                        } else {
                                            None
                                        },
                                    },
                                },
                            },
                        },
                    },
                },
            }
        },
        _ => None,
    }
}

/// The node built for an expression and the state after it; `None` for the
/// expressions that are not formatted and where the source text cannot be
/// cut as the builder cuts it.
pub open spec fn spec_build_expression(src: Seq<u8>, e: Expression, st: BuildState) -> Option<
    (Doc, BuildState),
>
    decreases e, 1nat,
{
    match e {
        Expression::Scalar(span, pretty) => {
            let a = span.start.0 as int;
            let b = span.end.0 as int;
            if !slice_ok(src, a, b) {
                None
            } else {
                let num = src.subrange(a, b);
                if num.len() < 1 || !is_char_boundary(num, 1) {
                    None
                } else {
                    let node = if num.len() > 1 && (num[1] == 120u8 || num[1] == 111u8 || num[1]
                        == 98u8) {
                        Doc::Text(decode_utf8(num))
                    } else {
                        Doc::Text(pretty@)
                    };
                    spec_with_comments(src, st, span, node)
                }
            }
        },
        Expression::Identifier(span, name) => spec_with_comments(src, st, span, unicode_doc(name@)),
        Expression::UnitIdentifier(span, prefix, name, _) => spec_with_comments(
            src,
            st,
            span,
            unicode_doc(prefix@ + name@),
        ),
        Expression::TypedHole(span) => spec_text_from_span(src, st, span),
        Expression::UnaryOperator { op, expr, span_op } => match op {
            UnaryOperator::Factorial(count) => match spec_build_expression(src, *expr, st) {
                Some((n, st1)) => spec_with_comments(
                    src,
                    st1,
                    span_op,
                    Doc::Nodes(seq![n, Doc::Text(repeat_char('!', count as nat))]),
                ),
                None => None,
            },
            UnaryOperator::Negate => spec_prefixed(src, st, e, "-"@),
            UnaryOperator::LogicalNeg => spec_prefixed(src, st, e, "!"@),
        },
        Expression::BinaryOperator { op, lhs, rhs, span_op } => match spec_build_expression(
            src,
            *lhs,
            st,
        ) {
            Some((l, st1)) => {
                let st2 = match span_op {
                    Some(s) => BuildState { prev: s, ..st1 },
                    None => st1,
                };
                match spec_build_expression(src, *rhs, st2) {
                    Some((r, st3)) => match (spec_full_span(*lhs), spec_full_span(*rhs)) {
                        (Some(ls), Some(rs)) => if ls.code_source_id == rs.code_source_id {
                            spec_with_comments(
                                src,
                                st3,
                                spec_extend(ls, rs),
                                Doc::Nodes(seq![l, Doc::Text(op_text(op)), r]),
                            )
                        } else {
                            None
                        },
                        _ => None,
                    },
                    None => None,
                }
            },
            None => None,
        },
        Expression::Boolean(span, b) => spec_with_comments(
            src,
            st,
            span,
            Doc::Text(
                if b {
                    "true"@
                } else {
                    "false"@
                },
            ),
        ),
        Expression::Condition(_, _, _, _) => spec_condition(src, st, e),
        _ => None,
    }
}

/// The node built for a statement: only expression statements are formatted.
pub open spec fn spec_build_statement(src: Seq<u8>, s: Statement, st: BuildState) -> Option<
    (Doc, BuildState),
> {
    match s {
        Statement::Expression(e) => spec_build_expression(src, e, st),
        _ => None,
    }
}

/// The nodes built for the statements in order, and the state after them.
pub open spec fn spec_build_statements(
    src: Seq<u8>,
    ss: Seq<Statement>,
    st: BuildState,
) -> Option<(Seq<Doc>, BuildState)>
    decreases ss.len(),
{
    if ss.len() == 0 {
        Some((Seq::empty(), st))
    } else {
        match spec_build_statements(src, ss.drop_last(), st) {
            Some((ds, st1)) => match spec_build_statement(src, ss.last(), st1) {
                Some((d, st2)) => Some((ds.push(d), st2)),
                None => None,
            },
            None => None,
        }
    }
}

/// The document of a program: its statements separated by blank lines,
/// then the trimmed text after the last one, each on a line of its own.
pub open spec fn spec_build(src: Seq<u8>, ast: Seq<Statement>, st: BuildState) -> Option<Doc> {
    match spec_build_statements(src, ast, st) {
        Some((ds, st1)) => {
            let from = st1.prev.end.0 as int;
            if slice_ok(src, from, src.len() as int) {
                let rest = trim_chars(slice_text(src, from, src.len() as int));
                Some(
                    Doc::Nodes(
                        seq![
                            Doc::Nodes(
                                intersperse(
                                    ds,
                                    Doc::Nodes(seq![Doc::RequiredLine, Doc::RequiredLine]),
                                ),
                            ),
                            Doc::RequiredLine,
                            unicode_doc(rest),
                            Doc::RequiredLine,
                        ],
                    ),
                )
            } else {
                None
            }
        },
        None => None,
    }
}


/// A prefix of statements that builds builds the same way when more follow.
pub proof fn lemma_statements_prefix(src: Seq<u8>, ss: Seq<Statement>, st: BuildState, k: int)
    requires
        0 <= k <= ss.len(),
        spec_build_statements(src, ss, st) is Some,
    ensures
        spec_build_statements(src, ss.take(k), st) is Some,
    decreases ss.len(),
{
    if k == ss.len() {
        assert(ss.take(k) =~= ss);
    } else {
        lemma_statements_prefix(src, ss.drop_last(), st, k);
        assert(ss.drop_last().take(k) =~= ss.take(k));
    }
}

/// Builds the document of a program from its syntax tree and its source
/// text, which holds the comments.
pub struct Builder<'a> {
    id: usize,
    source: &'a str,
    prev_span: Span,
}

impl<'a> Builder<'a> {
    /// The last group id handed out and the span of source text consumed.
    pub closed spec fn state(&self) -> BuildState {
        BuildState { id: self.id, prev: self.prev_span }
    }

    /// The source text.
    pub closed spec fn source_text(&self) -> Seq<char> {
        self.source@
    }

    /// The bytes of the source text, in which spans count.
    pub open spec fn src(&self) -> Seq<u8> {
        encode_utf8(self.source_text())
    }

    /// A builder for a program with this source text.
    pub fn new(source: &'a str) -> (b: Builder<'a>)
        ensures
            b.state() == initial_state(),
            b.source_text() == source@,
    {
        Builder {
            id: 0,
            source,
            prev_span: Span { start: ByteIndex(0), end: ByteIndex(0), code_source_id: 0 },
        }
    }

    /// The next group id.
    pub fn new_id(&mut self) -> (r: usize)
        requires
            old(self).state().id < usize::MAX,
        ensures
            r == old(self).state().id + 1,
            final(self).state() == (BuildState { id: r, ..old(self).state() }),
            final(self).source_text() == old(self).source_text(),
    {
        self.id = self.id + 1;
        self.id
    }

    /// The node preceded by the comments between the source text consumed
    /// and `current_span`, which then counts as consumed.
    pub fn with_comments(&mut self, current_span: Span, node: FormatNode) -> (r: FormatNode)
        requires
            spec_with_comments(old(self).src(), old(self).state(), current_span, node@) is Some,
        ensures
            (r@, final(self).state()) == spec_with_comments(
                old(self).src(),
                old(self).state(),
                current_span,
                node@,
            )->0,
            final(self).source_text() == old(self).source_text(),
    {
        if self.prev_span.end.as_usize() <= current_span.start.as_usize() {
            let text = trim(
                substr(self.source, self.prev_span.end.as_usize(), current_span.start.as_usize()),
            );
            self.prev_span = current_span;
            if !text.is_empty() {
                let line_texts = lines(text);
                let ghost ls = lines_of(text@);
                let mut line_nodes: Vec<FormatNode> = Vec::new();
                let mut i: usize = 0;
                while i < line_texts.len()
                    invariant
                        i <= line_texts@.len(),
                        line_texts@.len() == ls.len(),
                        forall|j: int| 0 <= j < ls.len() ==> #[trigger] line_texts@[j]@ == ls[j],
                        docs_of(line_nodes@) == ls.take(i as int).map_values(
                            |l: Seq<char>| unicode_doc(l),
                        ),
                    decreases line_texts@.len() - i,
                {
                    let n = FormatNode::from_unicode(line_texts[i]);
                    let ghost old_nodes = line_nodes@;
                    line_nodes.push(n);
                    proof {
                        assert(line_nodes@.drop_last() =~= old_nodes);
                        assert(ls.take(i + 1).map_values(|l: Seq<char>| unicode_doc(l)) =~= ls.take(
                            i as int,
                        ).map_values(|l: Seq<char>| unicode_doc(l)).push(unicode_doc(ls[i as int])));
                    }
                    i = i + 1;
                }
                proof {
                    assert(ls.take(i as int) =~= ls);
                }
                let nodes = intersperse_nodes(line_nodes, FormatNode::SpaceOrLine);
                let v = vec![FormatNode::Line, FormatNode::Nodes(nodes), FormatNode::RequiredLine, node];
                proof {
                    assert(docs_of(v@) =~= seq![
                        Doc::Line,
                        comment_doc(text@),
                        Doc::RequiredLine,
                        node@,
                    ]) by {
                        lemma_docs_index(v@);
                    }
                }
                let r = FormatNode::Nodes(v);
                let ghost res = spec_with_comments(
                    old(self).src(),
                    old(self).state(),
                    current_span,
                    node@,
                ).unwrap();
                assert(r@ == res.0 && self.state() == res.1);
                r
            } else {
                let ghost res = spec_with_comments(
                    old(self).src(),
                    old(self).state(),
                    current_span,
                    node@,
                ).unwrap();
                assert(node@ == res.0 && self.state() == res.1);
                node
            }
        } else {
            node
        }
    }

    /// The trimmed text of the bytes `span.end..span.start`, after its comments.
    pub fn build_text_from_span(&mut self, span: &Span) -> (r: FormatNode)
        requires
            spec_text_from_span(old(self).src(), old(self).state(), *span) is Some,
        ensures
            (r@, final(self).state()) == spec_text_from_span(
                old(self).src(),
                old(self).state(),
                *span,
            )->0,
            final(self).source_text() == old(self).source_text(),
    {
        let text = trim(substr(self.source, span.end.as_usize(), span.start.as_usize()));
        self.with_comments(*span, FormatNode::from_unicode(text))
    }

    /// Consumes the source text up to and including the next occurrence of `token`.
    pub fn skip(&mut self, token: &str)
        requires
            spec_skip(old(self).src(), old(self).state(), token@) is Some,
        ensures
            final(self).state() == spec_skip(old(self).src(), old(self).state(), token@)->0,
            final(self).source_text() == old(self).source_text(),
    {
        let bytes = self.source.as_bytes();
        let tok = token.as_bytes();
        let ghost start = self.prev_span.end.0 as int;
        let mut end = self.prev_span.end;
        while !starts_with_at(bytes, end.as_usize(), tok)
            invariant
                bytes@ == self.src(),
                tok@ == encode_utf8(token@),
                self.state() == old(self).state(),
                self.source_text() == old(self).source_text(),
                find_from(bytes@, tok@, end.0 as int) == find_from(bytes@, tok@, start),
                find_from(bytes@, tok@, start) is Some,
                end.0 <= bytes@.len(),
            decreases bytes@.len() - end.0,
        {
            end = ByteIndex(end.0 + 1);
        }
        let len = usize_to_u32(token.len()).unwrap();
        self.prev_span = Span {
            start: self.prev_span.end,
            end: ByteIndex(end.0 + len),
            code_source_id: self.prev_span.code_source_id,
        };
    }

    /// The node of an expression with the comments in its source text.
    pub fn build_expression(&mut self, expr: &Expression) -> (r: FormatNode)
        requires
            spec_build_expression(old(self).src(), *expr, old(self).state()) is Some,
        ensures
            (r@, final(self).state()) == spec_build_expression(
                old(self).src(),
                *expr,
                old(self).state(),
            )->0,
            final(self).source_text() == old(self).source_text(),
        decreases expr, 1nat,
    {
        match expr {
            Expression::Scalar(span, number) => {
                let num = substr(self.source, span.start.as_usize(), span.end.as_usize());
                let (_, rest) = num.split_at(1);
                let rest_bytes = rest.as_bytes();
                proof {
                    assert(rest_bytes@ =~= num.spec_bytes().subrange(1, num.spec_bytes().len() as int));
                }
                let scalar_node = if rest_bytes.len() > 0 && (rest_bytes[0] == 120u8
                    || rest_bytes[0] == 111u8 || rest_bytes[0] == 98u8) {
                    FormatNode::Text(num.to_owned())
                } else {
                    FormatNode::from_ascii(number.as_str())
                };
                self.with_comments(*span, scalar_node)
            },
            Expression::Identifier(span, name) => {
                self.with_comments(*span, FormatNode::from_unicode(name.as_str()))
            },
            Expression::UnitIdentifier(span, prefix, name, _) => {
                let mut full = prefix.clone();
                full.append(name.as_str());
                self.with_comments(*span, FormatNode::from_unicode(full.as_str()))
            },
            Expression::TypedHole(span) => self.build_text_from_span(span),
            Expression::UnaryOperator { .. } => self.build_unary(expr),
            Expression::BinaryOperator { .. } => self.build_binary(expr),
            Expression::Boolean(span, b) => self.with_comments(
                *span,
                if *b {
                    FormatNode::from_ascii("true")
                } else {
                    FormatNode::from_ascii("false")
                },
            ),
            Expression::Condition(..) => self.build_condition(expr),
            _ => vstd::pervasive::unreached(),
        }
    }

    /// The node of a prefix operator applied to an operand.
    #[verifier::rlimit(60)]
    fn build_unary(&mut self, expr: &Expression) -> (r: FormatNode)
        requires
            spec_build_expression(old(self).src(), *expr, old(self).state()) is Some,
            expr is UnaryOperator,
        ensures
            (r@, final(self).state()) == spec_build_expression(
                old(self).src(),
                *expr,
                old(self).state(),
            )->0,
            final(self).source_text() == old(self).source_text(),
        decreases expr, 0nat,
    {
        match expr {
            Expression::UnaryOperator { op, expr: operand, span_op } => match op {
                UnaryOperator::Factorial(count) => {
                    let expr_node = self.build_expression(operand);
                    proof {
                        reveal_strlit("!");
                    }
                    let bangs = repeat_str("!", *count);
                    let v = vec![expr_node, FormatNode::from_ascii(bangs.as_str())];
                    proof {
                        lemma_docs_small(v@);
                    }
                    self.with_comments(*span_op, FormatNode::Nodes(v))
                },
                UnaryOperator::Negate => {
                    proof {
                        assert(spec_build_expression(self.src(), *expr, self.state())
                            == spec_prefixed(self.src(), self.state(), *expr, "-"@));
                    }
                    let no_nodes: Vec<FormatNode> = Vec::new();
                    proof {
                        assert(docs_of(no_nodes@) =~= Seq::<Doc>::empty());
                    }
                    let comment = self.with_comments(*span_op, FormatNode::Nodes(no_nodes));
                    let sign = FormatNode::from_ascii("-");
                    let operand_node = self.build_expression(operand);
                    let v = vec![comment, sign, operand_node];
                    proof {
                        lemma_docs_small(v@);
                    }
                    FormatNode::Nodes(v)
                },
                UnaryOperator::LogicalNeg => {
                    proof {
                        assert(spec_build_expression(self.src(), *expr, self.state())
                            == spec_prefixed(self.src(), self.state(), *expr, "!"@));
                    }
                    let no_nodes: Vec<FormatNode> = Vec::new();
                    proof {
                        assert(docs_of(no_nodes@) =~= Seq::<Doc>::empty());
                    }
                    let comment = self.with_comments(*span_op, FormatNode::Nodes(no_nodes));
                    let sign = FormatNode::from_ascii("!");
                    let operand_node = self.build_expression(operand);
                    let v = vec![comment, sign, operand_node];
                    proof {
                        lemma_docs_small(v@);
                    }
                    FormatNode::Nodes(v)
                },
            },
            _ => vstd::pervasive::unreached(),
        }
    }

    /// The node of a binary operator: the operands with the operator between them.
    fn build_binary(&mut self, expr: &Expression) -> (r: FormatNode)
        requires
            spec_build_expression(old(self).src(), *expr, old(self).state()) is Some,
            expr is BinaryOperator,
        ensures
            (r@, final(self).state()) == spec_build_expression(
                old(self).src(),
                *expr,
                old(self).state(),
            )->0,
            final(self).source_text() == old(self).source_text(),
        decreases expr, 0nat,
    {
        match expr {
            Expression::BinaryOperator { op, lhs, rhs, span_op } => {
                let lhs_node = self.build_expression(lhs);
                let op_node = Builder::format_binary_operator(op);
                if let Some(span) = span_op {
                    self.prev_span = *span;
                }
                let rhs_node = self.build_expression(rhs);
                let full = lhs.full_span().extend(&rhs.full_span());
                let v = vec![lhs_node, op_node, rhs_node];
                proof {
                    lemma_docs_small(v@);
                }
                self.with_comments(full, FormatNode::Nodes(v))
            },
            _ => vstd::pervasive::unreached(),
        }
    }

    /// The node of `if c then t else e`: the keywords are consumed in the
    /// source text, the parts nest in three groups.
    fn build_condition(&mut self, expr: &Expression) -> (r: FormatNode)
        requires
            spec_build_expression(old(self).src(), *expr, old(self).state()) is Some,
            expr is Condition,
        ensures
            (r@, final(self).state()) == spec_build_expression(
                old(self).src(),
                *expr,
                old(self).state(),
            )->0,
            final(self).source_text() == old(self).source_text(),
        decreases expr, 0nat,
    {
        match expr {
            Expression::Condition(span, condition, then_expr, else_expr) => {
                let ghost src = self.src();
                let ghost st0 = self.state();
                proof {
                    assert(spec_build_expression(src, *expr, st0) == spec_condition(src, st0, *expr));
                }
                let no_nodes: Vec<FormatNode> = Vec::new();
                proof {
                    assert(docs_of(no_nodes@) =~= Seq::<Doc>::empty());
                }
                let comment_node = self.with_comments(
                    Span { start: span.start, end: span.start, code_source_id: span.code_source_id },
                    FormatNode::Nodes(no_nodes),
                );
                self.skip("if");
                let condition_node = self.build_expression(condition);
                self.skip("then");
                let then_expr_node = self.build_expression(then_expr);
                self.skip("else");
                let else_expr_node = self.build_expression(else_expr);
                let id1 = self.new_id();
                let if_text = FormatNode::from_ascii("if ");
                let id2 = self.new_id();
                let then_text = FormatNode::from_ascii("then");
                let then_body = vec![then_expr_node];
                let then_group = vec![then_text, FormatNode::SpaceOrLine, FormatNode::Indent(then_body)];
                let id3 = self.new_id();
                let else_text = FormatNode::from_ascii("else");
                let else_body = vec![else_expr_node];
                let else_group = vec![else_text, FormatNode::SpaceOrLine, FormatNode::Indent(else_body)];
                let outer = vec![
                    if_text,
                    condition_node,
                    FormatNode::SpaceOrLine,
                    FormatNode::Group(id2, then_group),
                    FormatNode::SpaceOrLine,
                    FormatNode::Group(id3, else_group),
                ];
                let v = vec![comment_node, FormatNode::Group(id1, outer)];
                let r = FormatNode::Nodes(v);
                proof {
                    lemma_docs_small(v@);
                    lemma_docs_small(outer@);
                    lemma_docs_small(then_group@);
                    lemma_docs_small(else_group@);
                    lemma_docs_small(then_body@);
                    lemma_docs_small(else_body@);
                    assert(r@ == condition_doc(
                        comment_node@,
                        condition_node@,
                        then_expr_node@,
                        else_expr_node@,
                        id1,
                        id2,
                        id3,
                    ));
                    assert((r@, self.state()) == spec_condition(src, st0, *expr)->0);
                }
                r
            },
            _ => vstd::pervasive::unreached(),
        }
    }

    /// The node of a statement; only expression statements are formatted.
    pub fn build_statement(&mut self, node: &Statement) -> (r: FormatNode)
        requires
            spec_build_statement(old(self).src(), *node, old(self).state()) is Some,
        ensures
            (r@, final(self).state()) == spec_build_statement(
                old(self).src(),
                *node,
                old(self).state(),
            )->0,
            final(self).source_text() == old(self).source_text(),
    {
        match node {
            Statement::Expression(expr) => self.build_expression(expr),
            _ => vstd::pervasive::unreached(),
        }
    }

    /// The document of a program: the statements separated by blank lines,
    /// then the text after the last one.
    pub fn build(&mut self, ast: Vec<Statement>) -> (r: FormatNode)
        requires
            spec_build(old(self).src(), ast@, old(self).state()) is Some,
        ensures
            r@ == spec_build(old(self).src(), ast@, old(self).state())->0,
            final(self).source_text() == old(self).source_text(),
    {
        let ghost src = self.src();
        let ghost st0 = self.state();
        let mut nodes: Vec<FormatNode> = Vec::new();
        let mut i: usize = 0;
        while i < ast.len()
            invariant
                i <= ast@.len(),
                src == self.src(),
                self.source_text() == old(self).source_text(),
                spec_build_statements(src, ast@, st0) is Some,
                spec_build_statements(src, ast@.take(i as int), st0) == Some(
                    (docs_of(nodes@), self.state()),
                ),
            decreases ast@.len() - i,
        {
            proof {
                lemma_statements_prefix(src, ast@, st0, i + 1);
                assert(ast@.take(i + 1).drop_last() =~= ast@.take(i as int));
            }
            let n = self.build_statement(&ast[i]);
            let ghost old_nodes = nodes@;
            nodes.push(n);
            proof {
                assert(nodes@.drop_last() =~= old_nodes);
            }
            i = i + 1;
        }
        proof {
            assert(ast@.take(i as int) =~= ast@);
        }
        let separator = vec![FormatNode::RequiredLine, FormatNode::RequiredLine];
        proof {
            lemma_docs_small(separator@);
        }
        let format_nodes = intersperse_nodes(nodes, FormatNode::Nodes(separator));
        let source_len = self.source.as_bytes().len();
        let remaining_text = trim(substr(self.source, self.prev_span.end.as_usize(), source_len));
        let v = vec![
            FormatNode::Nodes(format_nodes),
            FormatNode::RequiredLine,
            FormatNode::from_unicode(remaining_text),
            FormatNode::RequiredLine,
        ];
        proof {
            lemma_docs_small(v@);
        }
        FormatNode::Nodes(v)
    }

    /// How a binary operator is printed.
    pub fn format_binary_operator(op: &BinaryOperator) -> (r: FormatNode)
        ensures
            r@ == Doc::Text(op_text(*op)),
    {
        match op {
            BinaryOperator::Add => FormatNode::from_ascii(" + "),
            BinaryOperator::Sub => FormatNode::from_ascii(" - "),
            BinaryOperator::Mul => FormatNode::from_ascii(" * "),
            BinaryOperator::Div => FormatNode::from_ascii(" / "),
            BinaryOperator::Power => FormatNode::from_ascii(" ^ "),
            BinaryOperator::ConvertTo => FormatNode::from_ascii(" -> "),
            BinaryOperator::LessThan => FormatNode::from_ascii(" < "),
            BinaryOperator::GreaterThan => FormatNode::from_ascii(" > "),
            BinaryOperator::LessOrEqual => FormatNode::from_ascii(" <= "),
            BinaryOperator::GreaterOrEqual => FormatNode::from_ascii(" >= "),
            BinaryOperator::Equal => FormatNode::from_ascii(" == "),
            BinaryOperator::NotEqual => FormatNode::from_ascii(" != "),
            BinaryOperator::LogicalAnd => FormatNode::from_ascii(" && "),
            BinaryOperator::LogicalOr => FormatNode::from_ascii(" || "),
        }
    }

}

/// Whether `tok` occurs in `bytes` at `pos`.
fn starts_with_at(bytes: &[u8], pos: usize, tok: &[u8]) -> (r: bool)
    requires
        pos <= bytes@.len(),
    ensures
        r == (pos + tok@.len() <= bytes@.len() && bytes@.subrange(
            pos as int,
            pos + tok@.len(),
        ) == tok@),
{
    if tok.len() > bytes.len() - pos {
        return false;
    }
    let n = bytes.len();
    let mut i: usize = 0;
    while i < tok.len()
        invariant
            n == bytes@.len(),
            i <= tok@.len(),
            pos + tok@.len() <= bytes@.len(),
            forall|j: int| 0 <= j < i ==> bytes@[pos + j] == tok@[j],
        decreases tok@.len() - i,
    {
        if bytes[pos + i] != tok[i] {
            assert(bytes@.subrange(pos as int, pos + tok@.len())[i as int] != tok@[i as int]);
            return false;
        }
        i = i + 1;
    }
    assert(bytes@.subrange(pos as int, pos + tok@.len()) =~= tok@);
    true
}

} // verus!
