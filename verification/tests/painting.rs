use benser::canvas::{paint, Canvas};
use benser::css::Color;
use benser::css_parser::Parser as CssParser;
use benser::geometry::Rect;
use benser::html_parser::Parser as HtmlParser;
use benser::layout::{layout_tree, LayoutBox};
use benser::paint::{build_display_list, DisplayCommand};
use benser::style::style_tree;

fn laid_out(html: &str, css: &str, width: i64, height: i64) -> LayoutBox {
    let root = HtmlParser::from_string(html.to_string()).run().unwrap();
    let sheet = CssParser::parse(css).unwrap();
    let styled = style_tree(&root, &sheet);
    let mut vp = benser::geometry::Dimensions::default();
    vp.content.width = width;
    vp.content.height = height;
    layout_tree(&styled, vp).unwrap()
}

#[test]
fn parent_background_precedes_the_child_background() {
    let root = laid_out(
        "<div><p></p></div>",
        "div { background: #ff0000; height: 4px; } p { background: #00ff00; height: 2px; }",
        8,
        8,
    );
    let list = build_display_list(&root);
    assert_eq!(
        list,
        vec![
            DisplayCommand::SolidColor(
                Color::new(255, 0, 0, 255),
                Rect { x: 0, y: 0, width: 8, height: 4 }
            ),
            DisplayCommand::SolidColor(
                Color::new(0, 255, 0, 255),
                Rect { x: 0, y: 0, width: 8, height: 2 }
            ),
        ]
    );
}

#[test]
fn boxes_without_background_emit_nothing() {
    let root = laid_out("<div><p></p></div>", "", 8, 8);
    assert_eq!(build_display_list(&root), vec![]);
}

#[test]
fn background_color_is_a_fallback_name() {
    let root = laid_out("<div></div>", "div { background-color: #102030; }", 8, 8);
    let list = build_display_list(&root);
    assert_eq!(list.len(), 1);
    assert_eq!(
        list[0],
        DisplayCommand::SolidColor(
            Color::new(16, 32, 48, 255),
            Rect { x: 0, y: 0, width: 8, height: 0 }
        )
    );
}

#[test]
fn canvas_starts_white_and_paint_overwrites_clipped() {
    let mut canvas = Canvas::new(4, 3);
    let white = Color::new(255, 255, 255, 255);
    assert_eq!(canvas.pixels.len(), 12);
    assert!(canvas.pixels.iter().all(|p| *p == white));

    let red = Color::new(255, 0, 0, 255);
    // A rectangle hanging off the right and bottom edges is clipped.
    canvas.paint_item(&DisplayCommand::SolidColor(
        red,
        Rect { x: 2, y: 1, width: 5, height: 5 },
    ));
    for y in 0..3usize {
        for x in 0..4usize {
            let expected = if x >= 2 && y >= 1 { red } else { white };
            assert_eq!(canvas.pixels[x + y * 4], expected, "pixel ({}, {})", x, y);
        }
    }
}

#[test]
fn later_commands_occlude_earlier_ones() {
    let mut canvas = Canvas::new(2, 1);
    let red = Color::new(255, 0, 0, 255);
    let blue = Color::new(0, 0, 255, 255);
    canvas.paint_item(&DisplayCommand::SolidColor(
        red,
        Rect { x: 0, y: 0, width: 2, height: 1 },
    ));
    canvas.paint_item(&DisplayCommand::SolidColor(
        blue,
        Rect { x: 1, y: 0, width: 1, height: 1 },
    ));
    assert_eq!(canvas.pixels, vec![red, blue]);
}

#[test]
fn paint_renders_the_whole_tree_onto_a_canvas() {
    let root = laid_out(
        "<div></div>",
        "div { background: #0000ff; width: 2px; height: 2px; }",
        3,
        2,
    );
    let canvas = paint(&root, Rect { x: 0, y: 0, width: 3, height: 2 });
    let blue = Color::new(0, 0, 255, 255);
    let white = Color::new(255, 255, 255, 255);
    assert_eq!(canvas.width, 3);
    assert_eq!(canvas.height, 2);
    assert_eq!(
        canvas.pixels,
        vec![blue, blue, white, blue, blue, white]
    );
}
