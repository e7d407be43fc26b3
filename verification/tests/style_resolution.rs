use benser::css::Value;
use benser::css_parser::Parser as CssParser;
use benser::html_parser::Parser as HtmlParser;
use benser::layout::Display;
use benser::style::{matching_rules, style_tree, PropertyMap, StyledNode};

fn styled(html: &str, css: &str) -> StyledNode {
    let root = HtmlParser::from_string(html.to_string()).run().unwrap();
    let sheet = CssParser::parse(css).unwrap();
    style_tree(&root, &sheet)
}

#[test]
fn class_specificity_beats_tag() {
    let node = styled(
        r#"<p class="foo"></p>"#,
        "p { color: red; } .foo { color: blue; }",
    );
    assert_eq!(
        node.value("color"),
        Some(Value::Keyword("blue".to_string()))
    );
}

#[test]
fn later_rule_wins_at_equal_specificity() {
    let node = styled("<p></p>", "p { color: red; } p { color: blue; }");
    assert_eq!(
        node.value("color"),
        Some(Value::Keyword("blue".to_string()))
    );
}

#[test]
fn id_specificity_beats_class() {
    let node = styled(
        r#"<p id="x" class="foo"></p>"#,
        "#x { color: green; } .foo { color: blue; }",
    );
    assert_eq!(
        node.value("color"),
        Some(Value::Keyword("green".to_string()))
    );
}

#[test]
fn non_matching_rules_leave_no_value() {
    let node = styled("<p></p>", "div { color: red; }");
    assert_eq!(node.value("color"), None);
}

#[test]
fn matching_rules_collects_exactly_the_matching_ones() {
    let root = HtmlParser::from_string(r#"<p class="foo"></p>"#.to_string())
        .run()
        .unwrap();
    let sheet =
        CssParser::parse("p { color: red; } div { color: green; } .foo { margin: auto; }")
            .unwrap();
    match root.node_type {
        benser::dom::NodeType::Element(elem) => {
            let matched = matching_rules(&elem, &sheet);
            // The tag rule and the class rule match; the div rule does not.
            assert_eq!(matched, vec![((0, 0, 1), 0usize), ((0, 1, 0), 2usize)]);
        }
        benser::dom::NodeType::Text(_) => panic!("expected an element"),
    }
}

#[test]
fn selector_components_must_all_match() {
    // The selector names a class the element lacks.
    let node = styled(r#"<p class="bar"></p>"#, "p.foo { color: red; }");
    assert_eq!(node.value("color"), None);
    // Tag and class both match.
    let node = styled(r#"<p class="foo bar"></p>"#, "p.foo { color: red; }");
    assert_eq!(node.value("color"), Some(Value::Keyword("red".to_string())));
}

#[test]
fn display_reads_the_display_property() {
    let mut values = PropertyMap::new();
    values.insert(
        "display".to_string(),
        Value::Keyword("block".to_string()),
    );
    let node = StyledNode {
        specified_values: values,
        children: Vec::new(),
    };
    assert_eq!(node.display(), Display::Block);

    let mut values = PropertyMap::new();
    values.insert("display".to_string(), Value::Keyword("none".to_string()));
    let node = StyledNode {
        specified_values: values,
        children: Vec::new(),
    };
    assert_eq!(node.display(), Display::Omitted);

    let node = StyledNode {
        specified_values: PropertyMap::new(),
        children: Vec::new(),
    };
    assert_eq!(node.display(), Display::Inline);
}

#[test]
fn lookup_falls_back_to_shorthand_then_default() {
    let node = styled("<p></p>", "p { margin: 7px; margin-left: 3px; }");
    let zero = Value::Length(0, benser::css::Unit::Px);
    assert_eq!(
        node.lookup("margin-left", "margin", &zero),
        Value::Length(3, benser::css::Unit::Px)
    );
    assert_eq!(
        node.lookup("margin-right", "margin", &zero),
        Value::Length(7, benser::css::Unit::Px)
    );
    assert_eq!(node.lookup("padding-left", "padding", &zero), zero);
}

#[test]
fn text_nodes_get_empty_style_and_children_mirror_order() {
    let node = styled(
        "<div><p></p>hello<span></span></div>",
        "p { color: red; }",
    );
    assert_eq!(node.children.len(), 3);
    assert_eq!(
        node.children[0].value("color"),
        Some(Value::Keyword("red".to_string()))
    );
    assert_eq!(node.children[1].value("color"), None);
    assert_eq!(node.children[1].specified_values.len(), 0);
}
