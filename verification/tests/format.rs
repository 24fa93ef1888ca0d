use numbat_fmt::ast::{BinaryOperator, ByteIndex, Expression, Span, Statement, UnaryOperator};
use numbat_fmt::fmt;

fn span(start: u32, end: u32) -> Span {
    Span { start: ByteIndex(start), end: ByteIndex(end), code_source_id: 0 }
}

fn scalar(start: u32, end: u32, pretty: &str) -> Expression {
    Expression::Scalar(span(start, end), pretty.to_string())
}

fn ident(start: u32, end: u32, name: &str) -> Expression {
    Expression::Identifier(span(start, end), name.to_string())
}

fn stmt(e: Expression) -> Statement {
    Statement::Expression(e)
}

#[test]
fn sum_of_two_numbers() {
    let ast = vec![stmt(Expression::BinaryOperator {
        op: BinaryOperator::Add,
        lhs: Box::new(scalar(0, 1, "1")),
        rhs: Box::new(scalar(4, 5, "2")),
        span_op: Some(span(2, 3)),
    })];
    assert_eq!(fmt("1 + 2", ast, 80), "1 + 2\n\n");
}

#[test]
fn spacing_around_operator_is_normalised() {
    let ast = vec![stmt(Expression::BinaryOperator {
        op: BinaryOperator::Mul,
        lhs: Box::new(scalar(0, 1, "2")),
        rhs: Box::new(scalar(2, 3, "3")),
        span_op: Some(span(1, 2)),
    })];
    assert_eq!(fmt("2*3", ast, 80), "2 * 3\n\n");
}

#[test]
fn comment_before_expression_is_kept() {
    let ast = vec![stmt(scalar(8, 9, "1"))];
    assert_eq!(fmt("# hello\n1", ast, 80), "# hello\n1\n\n");
}

#[test]
fn comment_lines_are_joined_when_they_fit() {
    let ast = vec![stmt(scalar(8, 9, "1"))];
    assert_eq!(fmt("# a\n# b\n1", ast, 80), "# a # b\n1\n\n");
}

#[test]
fn comment_inside_expression_is_kept() {
    let ast = vec![stmt(Expression::BinaryOperator {
        op: BinaryOperator::Add,
        lhs: Box::new(scalar(0, 1, "1")),
        rhs: Box::new(scalar(10, 11, "2")),
        span_op: Some(span(2, 3)),
    })];
    assert_eq!(fmt("1 + # two\n2", ast, 80), "1 + # two\n2\n\n");
}

#[test]
fn text_after_last_statement_is_kept() {
    let ast = vec![stmt(scalar(0, 1, "1"))];
    assert_eq!(fmt("1 # end", ast, 80), "1\n# end\n");
}

#[test]
fn statements_are_separated_by_a_blank_line() {
    let ast = vec![stmt(scalar(0, 1, "1")), stmt(scalar(2, 3, "2"))];
    assert_eq!(fmt("1\n2", ast, 80), "1\n\n2\n\n");
}

#[test]
fn empty_program() {
    assert_eq!(fmt("", Vec::new(), 80), "\n\n");
}

#[test]
fn empty_program_keeps_its_comment() {
    assert_eq!(fmt("  # only a comment  ", Vec::new(), 80), "\n# only a comment\n");
}

#[test]
fn hexadecimal_literal_is_kept_as_written() {
    let ast = vec![stmt(scalar(0, 4, "31"))];
    assert_eq!(fmt("0x1F", ast, 80), "0x1F\n\n");
}

#[test]
fn octal_and_binary_literals_are_kept_as_written() {
    assert_eq!(fmt("0o17", vec![stmt(scalar(0, 4, "15"))], 80), "0o17\n\n");
    assert_eq!(fmt("0b11", vec![stmt(scalar(0, 4, "3"))], 80), "0b11\n\n");
}

#[test]
fn decimal_literal_is_printed_canonically() {
    let ast = vec![stmt(scalar(0, 4, "1.5"))];
    assert_eq!(fmt("1.50", ast, 80), "1.5\n\n");
}

#[test]
fn one_digit_literal_is_printed_canonically() {
    let ast = vec![stmt(scalar(0, 1, "7"))];
    assert_eq!(fmt("7", ast, 80), "7\n\n");
}

#[test]
fn factorial() {
    let ast = vec![stmt(Expression::UnaryOperator {
        op: UnaryOperator::Factorial(2),
        expr: Box::new(scalar(0, 1, "3")),
        span_op: span(1, 3),
    })];
    assert_eq!(fmt("3!!", ast, 80), "3!!\n\n");
}

#[test]
fn negation() {
    let ast = vec![stmt(Expression::UnaryOperator {
        op: UnaryOperator::Negate,
        expr: Box::new(ident(1, 2, "x")),
        span_op: span(0, 1),
    })];
    assert_eq!(fmt("-x", ast, 80), "-x\n\n");
}

#[test]
fn logical_negation() {
    let ast = vec![stmt(Expression::UnaryOperator {
        op: UnaryOperator::LogicalNeg,
        expr: Box::new(Expression::Boolean(span(2, 6), true)),
        span_op: span(0, 1),
    })];
    assert_eq!(fmt("! true", ast, 80), "!true\n\n");
}

#[test]
fn unit_with_prefix() {
    let ast = vec![stmt(Expression::UnitIdentifier(
        span(0, 2),
        "k".to_string(),
        "m".to_string(),
        "metre".to_string(),
    ))];
    assert_eq!(fmt("km", ast, 80), "km\n\n");
}

#[test]
fn booleans() {
    assert_eq!(fmt("true", vec![stmt(Expression::Boolean(span(0, 4), true))], 80), "true\n\n");
    assert_eq!(fmt("false", vec![stmt(Expression::Boolean(span(0, 5), false))], 80), "false\n\n");
}

#[test]
fn identifier_with_unicode_name() {
    let ast = vec![stmt(ident(0, 2, "π"))];
    assert_eq!(fmt("π", ast, 80), "π\n\n");
}

#[test]
fn typed_hole_with_empty_span() {
    let ast = vec![stmt(Expression::TypedHole(span(0, 0)))];
    assert_eq!(fmt("?", ast, 80), "\n?\n");
}

fn condition() -> Vec<Statement> {
    vec![stmt(Expression::Condition(
        span(0, 2),
        Box::new(ident(3, 4, "a")),
        Box::new(ident(10, 11, "b")),
        Box::new(ident(17, 18, "c")),
    ))]
}

#[test]
fn condition_that_fits_stays_on_one_line() {
    assert_eq!(fmt("if a then b else c", condition(), 80), "if a then b else c\n\n");
}

#[test]
fn condition_that_does_not_fit_breaks_before_branches() {
    assert_eq!(fmt("if a then b else c", condition(), 10), "if a\nthen b\nelse c\n\n");
}

#[test]
fn narrow_condition_indents_its_branches() {
    assert_eq!(
        fmt("if a then b else c", condition(), 5),
        "if a\nthen\n    b\nelse\n    c\n\n"
    );
}

#[test]
fn condition_keywords_are_found_across_extra_spaces() {
    let ast = vec![stmt(Expression::Condition(
        span(0, 2),
        Box::new(ident(4, 5, "a")),
        Box::new(ident(14, 15, "b")),
        Box::new(ident(24, 25, "c")),
    ))];
    assert_eq!(fmt("if  a   then  b   else  c", ast, 80), "if a then b else c\n\n");
}

#[test]
fn formatted_output_ends_with_line_feed() {
    let out = fmt("if a then b else c", condition(), 3);
    assert!(out.ends_with('\n'));
}

#[test]
fn formatting_changes_only_whitespace() {
    let out = fmt("if a then b else c", condition(), 3);
    let ink: String = out.chars().filter(|c| *c != ' ' && *c != '\n').collect();
    assert_eq!(ink, "ifathenbelsec");
}

#[test]
fn program_without_conditionals_ignores_width() {
    let ast = || {
        vec![stmt(Expression::BinaryOperator {
            op: BinaryOperator::Add,
            lhs: Box::new(scalar(0, 1, "1")),
            rhs: Box::new(scalar(10, 11, "2")),
            span_op: Some(span(2, 3)),
        })]
    };
    let narrow = fmt("1 + # two\n2", ast(), 1);
    let wide = fmt("1 + # two\n2", ast(), 1000);
    assert_eq!(narrow, wide);
    assert_eq!(narrow, "1 + # two\n2\n\n");
}
