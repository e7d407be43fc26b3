use benser::dom::{AttrMap, Node};
use benser::html_parser::Parser;
use benser::text::ParseError;

#[test]
fn basic_tests() {
    assert_eq!(
        Parser::from_string("<div></div>".to_string()).run().unwrap(),
        Node::elem("div".to_string(), AttrMap::new(), Vec::new())
    );

    assert_eq!(
        Parser::from_string("<html><body>Hello, world!</body></html>".to_string())
            .run()
            .unwrap(),
        Node::elem(
            "html".to_string(),
            AttrMap::new(),
            vec![Node::elem(
                "body".to_string(),
                AttrMap::new(),
                vec![Node::text("Hello, world!".to_string())]
            )]
        )
    );
}

#[test]
fn attributes() {
    let mut attribute_map = AttrMap::new();
    attribute_map.insert("height".to_string(), "3".to_string());
    attribute_map.insert("width".to_string(), "100%".to_string());

    assert_eq!(
        Parser::from_string(r#"<div height="3" width="100%"></div>"#.to_string())
            .run()
            .unwrap(),
        Node::elem("div".to_string(), attribute_map, Vec::new())
    );
}

#[test]
fn adds_root_node() {
    assert_eq!(
        Parser::from_string("<h1>Heading 1</h1> <h2>Heading 2</h2>".to_string())
            .run()
            .unwrap(),
        Node::elem(
            "html".to_string(),
            AttrMap::new(),
            vec![
                Node::elem(
                    "h1".to_string(),
                    AttrMap::new(),
                    vec![Node::text("Heading 1".to_string())]
                ),
                Node::elem(
                    "h2".to_string(),
                    AttrMap::new(),
                    vec![Node::text("Heading 2".to_string())]
                )
            ]
        )
    );
}

#[test]
fn repeated_attribute_keeps_last_value() {
    let mut attribute_map = AttrMap::new();
    attribute_map.insert("id".to_string(), "b".to_string());
    assert_eq!(
        Parser::from_string(r#"<div id="a" id="b"></div>"#.to_string())
            .run()
            .unwrap(),
        Node::elem("div".to_string(), attribute_map, Vec::new())
    );
}

#[test]
fn single_quoted_attribute_value() {
    let mut attribute_map = AttrMap::new();
    attribute_map.insert("class".to_string(), "note wide".to_string());
    assert_eq!(
        Parser::from_string("<div class='note wide'></div>".to_string())
            .run()
            .unwrap(),
        Node::elem("div".to_string(), attribute_map, Vec::new())
    );
}

#[test]
fn mismatched_close_tag_is_an_error() {
    assert_eq!(
        Parser::from_string("<div></span>".to_string()).run(),
        Err(ParseError::MismatchedCloseTag)
    );
}

#[test]
fn unterminated_element_is_an_error() {
    assert_eq!(
        Parser::from_string("<div>".to_string()).run(),
        Err(ParseError::UnexpectedEndOfInput)
    );
}

#[test]
fn missing_attribute_equals_is_an_error() {
    assert_eq!(
        Parser::from_string(r#"<div width "100%"></div>"#.to_string()).run(),
        Err(ParseError::UnexpectedCharacter)
    );
}

#[test]
fn from_bytes_utf8_accepts_valid_bytes() {
    let parser = Parser::from_bytes_utf8(b"<p>hi</p>".to_vec());
    assert_eq!(
        parser.unwrap().run().unwrap(),
        Node::elem(
            "p".to_string(),
            AttrMap::new(),
            vec![Node::text("hi".to_string())]
        )
    );
}

#[test]
fn from_bytes_utf8_rejects_invalid_bytes() {
    assert!(Parser::from_bytes_utf8(vec![0xff, 0xfe, 0x80]).is_none());
}

#[test]
fn from_bytes_utf16_accepts_valid_units() {
    let units: Vec<u16> = "<p>hi</p>".encode_utf16().collect();
    let parser = Parser::from_bytes_utf16(units);
    assert_eq!(
        parser.unwrap().run().unwrap(),
        Node::elem(
            "p".to_string(),
            AttrMap::new(),
            vec![Node::text("hi".to_string())]
        )
    );
}

#[test]
fn from_bytes_utf16_rejects_lone_surrogate() {
    assert!(Parser::from_bytes_utf16(vec![0xd800]).is_none());
}

#[test]
fn element_data_id_and_classes() {
    let root = Parser::from_string(r#"<div id="x" class="a b"></div>"#.to_string())
        .run()
        .unwrap();
    match root.node_type {
        benser::dom::NodeType::Element(elem) => {
            assert_eq!(elem.id(), Some(&"x".to_string()));
            assert_eq!(elem.classes(), vec!["a".to_string(), "b".to_string()]);
            assert_eq!(elem.tag_name, "div".to_string());
        }
        benser::dom::NodeType::Text(_) => panic!("expected an element"),
    }
}
