use bbcode::parse_bbcode;
use bbcode::BbcodeNode;
use bbcode::BbcodeTag;

#[test]
fn display_bold() {
    let node = BbcodeTag::new("b").with_text("test");
    assert_eq!(node.to_markup(), "[b]test[/b]");
}

#[test]
fn display_color() {
    let node = BbcodeTag::new("color").with_simple_param("#FF00FF").with_text("test");
    assert_eq!(node.to_markup(), "[color=#FF00FF]test[/color]");
}

#[test]
fn display_image() {
    let node = BbcodeTag::new("img").with_param("alt", "example image").with_text("test");
    assert_eq!(node.to_markup(), r#"[img alt="example image"]test[/img]"#);
}

#[test]
fn test_parse_simple() {
    let input = "[b]test[/b]";
    let expected_tag = BbcodeTag::new("b").with_text("test");

    assert_eq!(parse_bbcode(input), (String::new(), vec![BbcodeNode::Tag(expected_tag)]));
}

#[test]
fn test_parse_escaped_text() {
    let input = r#"[b]\[\]\\\"\t\n[/b]"#;
    let expected_tag = BbcodeTag::new("b").with_text("[]\\\"\t\n");

    assert_eq!(parse_bbcode(input), (String::new(), vec![BbcodeNode::Tag(expected_tag)]));
}

#[test]
fn test_parse_simple_param() {
    let input = "[c=#ff00ff]test[/c]";
    let expected_tag = BbcodeTag::new("c").with_simple_param("#ff00ff").with_text("test");

    assert_eq!(parse_bbcode(input), (String::new(), vec![BbcodeNode::Tag(expected_tag)]));
}

#[test]
fn test_parse_quoted_param() {
    let input = r#"[c="dark \"blue\" with yellow"]test[/c]"#;
    let expected_tag =
        BbcodeTag::new("c").with_simple_param(r#"dark "blue" with yellow"#).with_text("test");

    assert_eq!(parse_bbcode(input), (String::new(), vec![BbcodeNode::Tag(expected_tag)]));
}

#[test]
fn test_parse_nested() {
    let input = "[b]test [i]nested[/i][/b]";
    let expected_tag =
        BbcodeTag::new("b").with_text("test ").with_tag(BbcodeTag::new("i").with_text("nested"));

    assert_eq!(parse_bbcode(input), (String::new(), vec![BbcodeNode::Tag(expected_tag)]));
}

#[test]
fn plain_text_is_one_text_node() {
    let (rem, nodes) = parse_bbcode("hello, plain world!");
    assert_eq!(rem, "");
    assert_eq!(nodes, vec![BbcodeNode::Text("hello, plain world!".to_string())]);
}

#[test]
fn empty_input_parses_to_nothing() {
    let (rem, nodes) = parse_bbcode("");
    assert_eq!(rem, "");
    assert!(nodes.is_empty());
}

#[test]
fn round_trip_without_escapes_and_params() {
    let input = "[b]test [i]nested[/i][/b]after";
    let (rem, nodes) = parse_bbcode(input);
    assert_eq!(rem, "");
    let mut rendered = String::new();
    for node in &nodes {
        rendered.push_str(&node.to_markup());
    }
    assert_eq!(rendered, input);
}

#[test]
fn case_insensitive_close_keeps_opening_case() {
    let (rem, nodes) = parse_bbcode("[B]x[/b]");
    assert_eq!(rem, "");
    let expected_tag = BbcodeTag::new("B").with_text("x");
    assert_eq!(nodes, vec![BbcodeNode::Tag(expected_tag)]);
}

#[test]
fn unterminated_tag_leaves_remainder() {
    let (rem, nodes) = parse_bbcode("[b]x");
    assert_eq!(rem, "[b]x");
    assert!(nodes.is_empty());
}

#[test]
fn all_escape_codes_decode() {
    let input = r#"\"\/\[\]\\\n\r\t\b\f"#;
    let (rem, nodes) = parse_bbcode(input);
    assert_eq!(rem, "");
    assert_eq!(nodes, vec![BbcodeNode::Text("\"/[]\\\n\r\t\u{8}\u{c}".to_string())]);
}

#[test]
fn unknown_escape_stops_the_parse() {
    let (rem, nodes) = parse_bbcode("ab\\z");
    assert_eq!(rem, "\\z");
    assert_eq!(nodes, vec![BbcodeNode::Text("ab".to_string())]);
}

#[test]
fn empty_quoted_param() {
    let (rem, nodes) = parse_bbcode(r#"[c=""]x[/c]"#);
    assert_eq!(rem, "");
    let expected_tag = BbcodeTag::new("c").with_simple_param("").with_text("x");
    assert_eq!(nodes, vec![BbcodeNode::Tag(expected_tag)]);
}

#[test]
fn unquoted_param_stops_at_space() {
    let input = "[c=a b]x[/c]";
    let (rem, nodes) = parse_bbcode(input);
    assert_eq!(rem, input);
    assert!(nodes.is_empty());
}

#[test]
fn empty_unquoted_param_fails_the_tag() {
    let input = "[b=]x[/b]";
    let (rem, nodes) = parse_bbcode(input);
    assert_eq!(rem, input);
    assert!(nodes.is_empty());
}

#[test]
fn unterminated_quoted_param_fails_the_tag() {
    let input = r#"[c="abc]x[/c]"#;
    let (rem, nodes) = parse_bbcode(input);
    assert_eq!(rem, input);
    assert!(nodes.is_empty());
}

#[test]
fn mismatched_closing_tag_leaves_remainder() {
    let input = "[b]x[/i]";
    let (rem, nodes) = parse_bbcode(input);
    assert_eq!(rem, input);
    assert!(nodes.is_empty());
}

#[test]
fn text_after_tag_is_a_second_node() {
    let (rem, nodes) = parse_bbcode("[b]x[/b]tail");
    assert_eq!(rem, "");
    assert_eq!(
        nodes,
        vec![
            BbcodeNode::Tag(BbcodeTag::new("b").with_text("x")),
            BbcodeNode::Text("tail".to_string()),
        ]
    );
}

#[test]
fn serializer_quotes_param_with_space() {
    let tag = BbcodeTag::new("c").with_simple_param("two words").with_text("x");
    assert_eq!(tag.to_markup(), r#"[c="two words"]x[/c]"#);
}

#[test]
fn with_param_replaces_an_existing_key() {
    let tag = BbcodeTag::new("img")
        .with_param("alt", "first")
        .with_param("alt", "second")
        .with_text("x");
    assert_eq!(tag.to_markup(), "[img alt=second]x[/img]");
}

#[test]
fn tag_accessors() {
    let tag = BbcodeTag::new("c").with_simple_param("#fff").with_text("x");
    assert_eq!(tag.name(), "c");
    assert_eq!(tag.simple_param().clone(), Some("#fff".to_string()));
    assert_eq!(tag.children().len(), 1);
}

#[test]
fn adjacent_delimiters_with_nothing_between() {
    let (rem, nodes) = parse_bbcode("[]");
    assert_eq!(rem, "[]");
    assert!(nodes.is_empty());
}
