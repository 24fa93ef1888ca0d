use numbat_fmt::ast::{BinaryOperator, ByteIndex, Expression, Span};
use numbat_fmt::builder::Builder;
use numbat_fmt::{FormatNode, Generator, Wrap};

fn span(start: u32, end: u32) -> Span {
    Span { start: ByteIndex(start), end: ByteIndex(end), code_source_id: 0 }
}

#[test]
fn binary_operators_are_spaced() {
    let cases = vec![
        (BinaryOperator::Add, " + "),
        (BinaryOperator::Sub, " - "),
        (BinaryOperator::Mul, " * "),
        (BinaryOperator::Div, " / "),
        (BinaryOperator::Power, " ^ "),
        (BinaryOperator::ConvertTo, " -> "),
        (BinaryOperator::LessThan, " < "),
        (BinaryOperator::GreaterThan, " > "),
        (BinaryOperator::LessOrEqual, " <= "),
        (BinaryOperator::GreaterOrEqual, " >= "),
        (BinaryOperator::Equal, " == "),
        (BinaryOperator::NotEqual, " != "),
        (BinaryOperator::LogicalAnd, " && "),
        (BinaryOperator::LogicalOr, " || "),
    ];
    for (op, expected) in cases {
        let node = Builder::format_binary_operator(&op);
        assert_eq!(Generator::new(80).generate(node), expected);
    }
}

#[test]
fn wrap_enable() {
    assert!(Wrap::Enable.enable());
    assert!(!Wrap::Detect.enable());
}

#[test]
fn extend_covers_both_spans() {
    let s = span(3, 5).extend(&span(1, 4));
    assert_eq!((s.start.0, s.end.0), (1, 5));
}

#[test]
fn full_span_of_binary_expression() {
    let e = Expression::BinaryOperator {
        op: BinaryOperator::Add,
        lhs: Box::new(Expression::Identifier(span(0, 1), "a".to_string())),
        rhs: Box::new(Expression::Identifier(span(4, 5), "b".to_string())),
        span_op: Some(span(2, 3)),
    };
    let s = e.full_span();
    assert_eq!((s.start.0, s.end.0), (0, 5));
}

#[test]
fn skip_then_build_consumes_keyword() {
    let source = "if x";
    let mut b = Builder::new(source);
    b.skip("if");
    let node = b.build_expression(&Expression::Identifier(span(3, 4), "x".to_string()));
    assert_eq!(Generator::new(80).generate(node), "x");
}

#[test]
fn new_ids_count_up() {
    let mut b = Builder::new("");
    assert_eq!(b.new_id(), 1);
    assert_eq!(b.new_id(), 2);
    assert_eq!(b.new_id(), 3);
}

#[test]
fn text_from_span_trims() {
    // the text is taken from span.end to span.start, and the text before
    // span.start that was not consumed yet comes first as a comment
    let mut b = Builder::new("  ab  ");
    let node = b.build_text_from_span(&Span {
        start: ByteIndex(6),
        end: ByteIndex(0),
        code_source_id: 0,
    });
    assert_eq!(Generator::new(80).generate(node), "ab\nab");
}

fn collect_group_ids(node: &FormatNode, out: &mut Vec<usize>) {
    match node {
        FormatNode::Group(id, nodes) => {
            out.push(*id);
            for n in nodes {
                collect_group_ids(n, out);
            }
        }
        FormatNode::Nodes(nodes) | FormatNode::Indent(nodes) => {
            for n in nodes {
                collect_group_ids(n, out);
            }
        }
        FormatNode::IfWrap(_, a, b) => {
            collect_group_ids(a, out);
            collect_group_ids(b, out);
        }
        _ => {}
    }
}

#[test]
fn nested_conditions_get_distinct_group_ids() {
    // if a then if b then c else d else e
    let source = "if a then if b then c else d else e";
    let inner = Expression::Condition(
        span(10, 12),
        Box::new(Expression::Identifier(span(13, 14), "b".to_string())),
        Box::new(Expression::Identifier(span(20, 21), "c".to_string())),
        Box::new(Expression::Identifier(span(27, 28), "d".to_string())),
    );
    let outer = Expression::Condition(
        span(0, 2),
        Box::new(Expression::Identifier(span(3, 4), "a".to_string())),
        Box::new(inner),
        Box::new(Expression::Identifier(span(34, 35), "e".to_string())),
    );
    let mut b = Builder::new(source);
    let node = b.build_expression(&outer);
    let mut ids = Vec::new();
    collect_group_ids(&node, &mut ids);
    assert_eq!(ids, vec![4, 5, 1, 2, 3, 6]);
    // two conditionals took exactly six ids
    assert_eq!(b.new_id(), 7);
    assert_eq!(
        Generator::new(80).generate(node),
        "if a then if b then c else d else e"
    );
}
