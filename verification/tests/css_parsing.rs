use benser::css::{Color, Declaration, Rule, Selector, SimpleSelector, Stylesheet, Unit, Value};
use benser::css_parser::Parser;
use benser::text::ParseError;

#[test]
fn one_line() {
    assert_eq!(
        Parser::parse("h1, h2, h3 { margin: auto; color: #cc0000; }").unwrap(),
        Stylesheet {
            rules: vec![Rule {
                selectors: vec![
                    Selector::Simple(SimpleSelector {
                        tag_name: Some("h1".to_string()),
                        id: None,
                        class: Vec::new()
                    }),
                    Selector::Simple(SimpleSelector {
                        tag_name: Some("h2".to_string()),
                        id: None,
                        class: Vec::new()
                    }),
                    Selector::Simple(SimpleSelector {
                        tag_name: Some("h3".to_string()),
                        id: None,
                        class: Vec::new()
                    })
                ],
                declarations: vec![
                    Declaration {
                        name: "margin".to_string(),
                        value: Value::Keyword("auto".to_string())
                    },
                    Declaration {
                        name: "color".to_string(),
                        value: Value::ColorValue(Color::new(204, 0, 0, 255))
                    }
                ]
            }]
        }
    );
}

#[test]
fn two_lines() {
    assert_eq!(
        Parser::parse(
            "div.note { margin-bottom: 20px; padding: 10px; }
                 #answer { display: none; }"
        )
        .unwrap(),
        Stylesheet {
            rules: vec![
                Rule {
                    selectors: vec![Selector::Simple(SimpleSelector {
                        tag_name: Some("div".to_string()),
                        id: None,
                        class: vec!["note".to_string()]
                    }),],
                    declarations: vec![
                        Declaration {
                            name: "margin-bottom".to_string(),
                            value: Value::Length(20, Unit::Px)
                        },
                        Declaration {
                            name: "padding".to_string(),
                            value: Value::Length(10, Unit::Px)
                        }
                    ]
                },
                Rule {
                    selectors: vec![Selector::Simple(SimpleSelector {
                        tag_name: None,
                        id: Some("answer".to_string()),
                        class: vec![]
                    }),],
                    declarations: vec![Declaration {
                        name: "display".to_string(),
                        value: Value::Keyword("none".to_string())
                    },]
                }
            ]
        }
    );
}

#[test]
fn selectors_sort_by_descending_specificity() {
    let sheet = Parser::parse("p, div.note { margin: auto; }").unwrap();
    assert_eq!(
        sheet.rules[0].selectors,
        vec![
            Selector::Simple(SimpleSelector {
                tag_name: Some("div".to_string()),
                id: None,
                class: vec!["note".to_string()]
            }),
            Selector::Simple(SimpleSelector {
                tag_name: Some("p".to_string()),
                id: None,
                class: Vec::new()
            }),
        ]
    );
}

#[test]
fn specificity_counts_id_class_tag() {
    let sel = Selector::Simple(SimpleSelector {
        tag_name: Some("div".to_string()),
        id: Some("x".to_string()),
        class: vec!["a".to_string(), "b".to_string()],
    });
    assert_eq!(sel.specificity(), (1, 2, 1));
}

#[test]
fn to_px_reads_lengths_only() {
    assert_eq!(Value::Length(42, Unit::Px).to_px(), 42);
    assert_eq!(Value::Keyword("auto".to_string()).to_px(), 0);
    assert_eq!(Value::ColorValue(Color::new(1, 2, 3, 4)).to_px(), 0);
}

#[test]
fn fractional_length_keeps_whole_pixels() {
    let sheet = Parser::parse("h1 { width: 10.5px; }").unwrap();
    assert_eq!(
        sheet.rules[0].declarations[0].value,
        Value::Length(10, Unit::Px)
    );
}

#[test]
fn uppercase_unit_is_accepted() {
    let sheet = Parser::parse("h1 { width: 3PX; }").unwrap();
    assert_eq!(
        sheet.rules[0].declarations[0].value,
        Value::Length(3, Unit::Px)
    );
}

#[test]
fn two_dots_in_a_number_are_an_error() {
    assert_eq!(
        Parser::parse("h1 { width: 1.2.3px; }"),
        Err(ParseError::UnexpectedCharacter)
    );
}

#[test]
fn unknown_unit_is_an_error() {
    assert_eq!(
        Parser::parse("h1 { width: 10em; }"),
        Err(ParseError::UnrecognizedUnit)
    );
}

#[test]
fn missing_semicolon_is_an_error() {
    assert_eq!(
        Parser::parse("h1 { color: red }"),
        Err(ParseError::UnexpectedCharacter)
    );
}

#[test]
fn unterminated_block_is_an_error() {
    assert_eq!(
        Parser::parse("h1 { color: red;"),
        Err(ParseError::UnexpectedEndOfInput)
    );
}

#[test]
fn bad_hex_digit_is_an_error() {
    assert_eq!(
        Parser::parse("h1 { color: #zz0000; }"),
        Err(ParseError::UnexpectedCharacter)
    );
}

#[test]
fn empty_stylesheet_parses() {
    assert_eq!(Parser::parse("  \n ").unwrap(), Stylesheet { rules: vec![] });
}
