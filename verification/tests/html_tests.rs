use robinson::dom::{elem, text, AttrMap, ElementData, Node, NodeType};
use robinson::html::Parser;
use robinson::scan::ParseError;

fn parse(source: &str) -> Node {
    Parser::parse(source.to_string()).unwrap()
}

fn error(source: &str) -> Option<ParseError> {
    Parser::parse(source.to_string()).err()
}

fn element(node: &Node) -> &ElementData {
    match &node.node_type {
        NodeType::Element(e) => e,
        NodeType::Text(t) => panic!("text node: {}", t),
    }
}

fn text_of(node: &Node) -> &str {
    match &node.node_type {
        NodeType::Text(t) => t,
        NodeType::Element(e) => panic!("element: {}", e.tag_name),
    }
}

#[test]
fn parses_a_document() {
    let root = parse("<html><body>Hello, world!</body></html>");
    assert_eq!(element(&root).tag_name, "html");
    assert!(element(&root).attributes.is_empty());
    assert_eq!(root.children.len(), 1);
    let body = &root.children[0];
    assert_eq!(element(body).tag_name, "body");
    assert_eq!(body.children.len(), 1);
    assert_eq!(text_of(&body.children[0]), "Hello, world!");
    assert_eq!(body.children[0].children.len(), 0);
}

#[test]
fn parses_attributes_in_either_quotes() {
    let root = parse("<div id=\"main\" class='a b'  data1=\"it's\"><p>x</p></div>");
    let e = element(&root);
    assert_eq!(e.tag_name, "div");
    assert_eq!(e.attributes.len(), 3);
    assert_eq!(e.attributes.get("id"), Some(&"main".to_string()));
    assert_eq!(e.attributes.get("class"), Some(&"a b".to_string()));
    assert_eq!(e.attributes.get("data1"), Some(&"it's".to_string()));
    assert_eq!(e.attributes.get("other"), None);
    assert_eq!(e.id(), Some(&"main".to_string()));
    assert_eq!(e.classes(), vec!["a".to_string(), "b".to_string()]);
}

#[test]
fn of_two_attributes_of_one_name_the_later_stays() {
    let root = parse("<a x=\"1\" y=\"\" x=\"2\"></a>");
    let e = element(&root);
    assert_eq!(e.attributes.len(), 2);
    assert_eq!(e.attributes.get("x"), Some(&"2".to_string()));
    assert_eq!(e.attributes.get("y"), Some(&"".to_string()));
}

#[test]
fn several_roots_get_an_html_element_around_them() {
    let root = parse("<a></a><b></b>");
    assert_eq!(element(&root).tag_name, "html");
    assert!(element(&root).attributes.is_empty());
    assert_eq!(root.children.len(), 2);
    assert_eq!(element(&root.children[0]).tag_name, "a");
    assert_eq!(element(&root.children[1]).tag_name, "b");
}

#[test]
fn an_empty_text_is_an_empty_html_element() {
    let root = parse("");
    assert_eq!(element(&root).tag_name, "html");
    assert_eq!(root.children.len(), 0);
    let root = parse(" \n ");
    assert_eq!(element(&root).tag_name, "html");
    assert_eq!(root.children.len(), 0);
}

#[test]
fn a_single_text_is_the_root() {
    let root = parse("  just text ");
    assert_eq!(text_of(&root), "just text ");
}

#[test]
fn reading_stops_at_a_stray_closing_tag() {
    let root = parse("<a></a></b><c></c>");
    assert_eq!(element(&root).tag_name, "a");
    let root = parse("</b>");
    assert_eq!(element(&root).tag_name, "html");
    assert_eq!(root.children.len(), 0);
}

#[test]
fn white_space_before_a_node_is_passed_over() {
    let root = parse("<a> \n <b></b> \t </a>");
    assert_eq!(root.children.len(), 1);
    assert_eq!(element(&root.children[0]).tag_name, "b");
    let root = parse("<p>Hello <b>x</b> there </p>");
    assert_eq!(root.children.len(), 3);
    assert_eq!(text_of(&root.children[0]), "Hello ");
    assert_eq!(element(&root.children[1]).tag_name, "b");
    assert_eq!(text_of(&root.children[1].children[0]), "x");
    assert_eq!(text_of(&root.children[2]), "there ");
}

#[test]
fn text_may_hold_any_character_but_the_angle_bracket() {
    let root = parse("<p>é > \"ü\" &amp; 日本</p>");
    assert_eq!(text_of(&root.children[0]), "é > \"ü\" &amp; 日本");
    let root = parse("<p>é</p>");
    assert_eq!(text_of(&root.children[0]), "é");
}

#[test]
fn elements_nest() {
    let root = parse("<a><b><c></c></b><d></d></a>");
    assert_eq!(root.children.len(), 2);
    assert_eq!(element(&root.children[0]).tag_name, "b");
    assert_eq!(root.children[0].children.len(), 1);
    assert_eq!(element(&root.children[0].children[0]).tag_name, "c");
    assert_eq!(element(&root.children[1]).tag_name, "d");
}

#[test]
fn an_unclosed_element_is_an_error() {
    assert_eq!(error("<a>"), Some(ParseError::UnexpectedEnd));
    assert_eq!(error("<a><b></b>"), Some(ParseError::UnexpectedEnd));
    assert_eq!(error("<a"), Some(ParseError::UnexpectedEnd));
    assert_eq!(error("<"), Some(ParseError::UnexpectedEnd));
    assert_eq!(error("<a></a"), Some(ParseError::UnexpectedEnd));
    assert_eq!(error("<a>text"), Some(ParseError::UnexpectedEnd));
}

#[test]
fn a_closing_tag_of_another_name_is_an_error() {
    assert_eq!(error("<a></b>"), Some(ParseError::MismatchedClosingTag));
    assert_eq!(error("<a></A>"), Some(ParseError::MismatchedClosingTag));
    assert_eq!(error("<a><b></a></b>"), Some(ParseError::MismatchedClosingTag));
    assert_eq!(error("<a></>"), Some(ParseError::MismatchedClosingTag));
    assert_eq!(error("<a></"), Some(ParseError::MismatchedClosingTag));
}

#[test]
fn a_malformed_tag_is_an_error() {
    assert_eq!(error("<a></a x>"), Some(ParseError::MalformedTag));
    assert_eq!(error("<a></a </a>"), Some(ParseError::MalformedTag));
    let mut p = Parser::new("a>");
    assert_eq!(p.parse_element().err(), Some(ParseError::MalformedTag));
    assert_eq!(p.pos(), 0);
}

#[test]
fn a_malformed_attribute_is_an_error() {
    assert_eq!(error("<a b></a>"), Some(ParseError::MalformedAttribute));
    assert_eq!(error("<a b=c></a>"), Some(ParseError::MalformedAttribute));
    assert_eq!(error("<a b = \"c\"></a>"), Some(ParseError::MalformedAttribute));
    assert_eq!(error("<a/>"), Some(ParseError::MalformedAttribute));
    assert_eq!(error("<a b=\"c></a>"), Some(ParseError::UnexpectedEnd));
    assert_eq!(error("<a b="), Some(ParseError::UnexpectedEnd));
    assert_eq!(error("<a b"), Some(ParseError::UnexpectedEnd));
}

#[test]
fn the_html_parser_reads_character_by_character() {
    let mut p = Parser::new("ab<é");
    assert_eq!(p.pos(), 0);
    assert!(!p.eof());
    assert_eq!(p.next_char(), 'a');
    assert_eq!(p.consume_char(), 'a');
    assert_eq!(p.pos(), 1);
    assert!(p.start_with("b<"));
    assert!(!p.start_with("<"));
    assert!(!p.start_with("b<é!"));
    assert_eq!(p.consume_while(|c| c != '<'), "b");
    assert_eq!(p.pos(), 2);
    assert_eq!(p.consume_while(|_| true), "<é");
    assert_eq!(p.pos(), 4);
    assert!(p.eof());
    assert_eq!(p.consume_while(|_| true), "");
    assert!(p.start_with(""));
    assert!(!p.start_with("x"));
}

#[test]
fn html_white_space_is_what_the_standard_library_says() {
    let mut p = Parser::new("\u{3000} \n<");
    p.consume_whitespace();
    assert_eq!(p.pos(), 3);
    p.consume_whitespace();
    assert_eq!(p.pos(), 3);
}

#[test]
fn tag_names_are_letters_and_digits() {
    let mut p = Parser::new("h1-x");
    assert_eq!(p.parse_tag_name(), "h1");
    assert_eq!(p.pos(), 2);
    assert_eq!(p.parse_tag_name(), "");
    let mut p = Parser::new("Ab9_");
    assert_eq!(p.parse_tag_name(), "Ab9");
    let mut p = Parser::new("é");
    assert_eq!(p.parse_tag_name(), "");
}

#[test]
fn parse_text_reads_up_to_the_next_tag() {
    let mut p = Parser::new("one two<b>");
    let node = p.parse_text();
    assert_eq!(text_of(&node), "one two");
    assert_eq!(p.pos(), 7);
    let node = p.parse_text();
    assert_eq!(text_of(&node), "");
    assert_eq!(p.pos(), 7);
}

#[test]
fn parse_node_reads_an_element_or_a_text() {
    let mut p = Parser::new("<i>x</i>y");
    let node = p.parse_node().unwrap();
    assert_eq!(element(&node).tag_name, "i");
    assert_eq!(p.pos(), 8);
    let node = p.parse_node().unwrap();
    assert_eq!(text_of(&node), "y");
    assert_eq!(p.parse_node().err(), Some(ParseError::UnexpectedEnd));
}

#[test]
fn parse_attr_reads_one_pair() {
    let mut p = Parser::new("href=\"a b\" x");
    assert_eq!(p.parse_attr(), Ok(("href".to_string(), "a b".to_string())));
    assert_eq!(p.pos(), 10);
    let mut p = Parser::new("'it''s'");
    assert_eq!(p.parse_attr_value(), Ok("it".to_string()));
    assert_eq!(p.pos(), 4);
    assert_eq!(p.parse_attr_value(), Ok("s".to_string()));
    assert_eq!(p.parse_attr_value(), Err(ParseError::UnexpectedEnd));
    let mut p = Parser::new("x");
    assert_eq!(p.parse_attr_value(), Err(ParseError::MalformedAttribute));
    assert_eq!(p.pos(), 0);
}

#[test]
fn parse_attributes_stops_before_the_bracket() {
    let mut p = Parser::new(" a='1'  b=\"2\" >x");
    let attrs = p.parse_attributes().unwrap();
    assert_eq!(attrs.len(), 2);
    assert_eq!(attrs.get("a"), Some(&"1".to_string()));
    assert_eq!(attrs.get("b"), Some(&"2".to_string()));
    assert_eq!(p.pos(), 14);
    assert_eq!(p.next_char(), '>');
}

#[test]
fn parse_nodes_reads_siblings() {
    let mut p = Parser::new(" <a></a> text <b></b></c>");
    let nodes = p.parse_nodes().unwrap();
    assert_eq!(nodes.len(), 3);
    assert_eq!(text_of(&nodes[1]), "text ");
    assert!(p.start_with("</c>"));
}

#[test]
fn nodes_are_built_from_their_parts() {
    let mut attrs = AttrMap::new();
    attrs.insert("k".to_string(), "v".to_string());
    let node = elem("p".to_string(), attrs, vec![text("t".to_string())]);
    assert_eq!(element(&node).tag_name, "p");
    assert_eq!(element(&node).attributes.get("k"), Some(&"v".to_string()));
    assert_eq!(node.children.len(), 1);
    assert_eq!(text_of(&node.children[0]), "t");
    assert_eq!(node.children[0].children.len(), 0);
}
