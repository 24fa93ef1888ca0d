use numbat_fmt::{FormatNode, Generator};
use std::collections::HashSet;

fn text(s: &str) -> FormatNode {
    FormatNode::Text(s.to_string())
}

fn pair(id: usize) -> FormatNode {
    FormatNode::Group(id, vec![text("aa"), FormatNode::SpaceOrLine, text("bb")])
}

#[test]
fn group_that_fits_is_printed_flat() {
    let mut g = Generator::new(5);
    assert_eq!(g.generate(pair(1)), "aa bb");
}

#[test]
fn group_that_does_not_fit_breaks_its_lines() {
    let mut g = Generator::new(4);
    assert_eq!(g.generate(pair(1)), "aa\nbb");
}

#[test]
fn line_is_empty_unless_group_wraps() {
    let node = FormatNode::Group(1, vec![text("a"), FormatNode::Line, text("b")]);
    assert_eq!(Generator::new(10).generate(node), "ab");
    let node = FormatNode::Group(1, vec![text("a"), FormatNode::Line, text("b")]);
    assert_eq!(Generator::new(1).generate(node), "a\nb");
}

#[test]
fn required_line_always_breaks() {
    let node = FormatNode::Nodes(vec![text("a"), FormatNode::RequiredLine, text("b")]);
    assert_eq!(Generator::new(80).generate(node), "a\nb");
}

#[test]
fn indent_applies_only_when_wrapped() {
    let body = || vec![text("x"), FormatNode::SpaceOrLine, text("y")];
    let node = FormatNode::Group(1, vec![text("f"), FormatNode::Indent(body())]);
    assert_eq!(Generator::new(80).generate(node), "fx y");
    let node = FormatNode::Group(1, vec![text("f"), FormatNode::Indent(body())]);
    assert_eq!(Generator::new(2).generate(node), "f    x\n    y");
}

#[test]
fn if_wrap_follows_its_group() {
    let node = || {
        FormatNode::Group(
            7,
            vec![
                text("a"),
                FormatNode::IfWrap(7, Box::new(text(",")), Box::new(text(";"))),
                FormatNode::SpaceOrLine,
                text("b"),
            ],
        )
    };
    assert_eq!(Generator::new(80).generate(node()), "a; b");
    assert_eq!(Generator::new(2).generate(node()), "a,\nb");
}

#[test]
fn generator_starts_afresh_after_generate() {
    let mut g = Generator::new(4);
    let first = g.generate(pair(1));
    let second = g.generate(pair(1));
    assert_eq!(first, "aa\nbb");
    assert_eq!(first, second);
}

#[test]
fn unicode_text_is_measured_in_characters() {
    // "éé" is four bytes but two characters
    let node = FormatNode::Group(
        1,
        vec![FormatNode::from_unicode("éé"), FormatNode::SpaceOrLine, text("b")],
    );
    assert_eq!(Generator::new(4).generate(node), "éé b");
    let node = FormatNode::Group(
        1,
        vec![FormatNode::from_ascii("éé"), FormatNode::SpaceOrLine, text("b")],
    );
    assert_eq!(Generator::new(4).generate(node), "éé\nb");
}

#[test]
fn width_sums_the_children() {
    let wrapped = HashSet::new();
    assert_eq!(pair(1).width(&wrapped), 5);
    assert_eq!(FormatNode::Line.width(&wrapped), 0);
    assert_eq!(FormatNode::RequiredLine.width(&wrapped), 0);
    assert_eq!(FormatNode::Indent(vec![text("abc")]).width(&wrapped), 3);
    assert_eq!(FormatNode::from_unicode("πr²").width(&wrapped), 3);
    assert_eq!(FormatNode::from_ascii("πr²").width(&wrapped), 5);
}

#[test]
fn width_of_if_wrap_depends_on_wrapped_groups() {
    let node = FormatNode::IfWrap(3, Box::new(text("long")), Box::new(text("s")));
    let mut wrapped = HashSet::new();
    assert_eq!(node.width(&wrapped), 1);
    wrapped.insert(3);
    assert_eq!(node.width(&wrapped), 4);
}

#[test]
fn clone_keeps_the_node() {
    let mut g = Generator::new(4);
    let node = pair(2);
    let copy = node.clone();
    assert_eq!(g.generate(node), g.generate(copy));
}
