use benser::css_parser::Parser as CssParser;
use benser::geometry::{round_up_to_multiple, Dimensions, EdgeSizes, Rect};
use benser::html_parser::Parser as HtmlParser;
use benser::layout::{layout_tree, LayoutBox, LayoutError};
use benser::style::style_tree;

fn viewport(width: i64, height: i64) -> Dimensions {
    let mut v = Dimensions::default();
    v.content.width = width;
    v.content.height = height;
    v
}

fn laid_out(html: &str, css: &str, vp: Dimensions) -> LayoutBox {
    let root = HtmlParser::from_string(html.to_string()).run().unwrap();
    let sheet = CssParser::parse(css).unwrap();
    let styled = style_tree(&root, &sheet);
    layout_tree(&styled, vp).unwrap()
}

#[test]
fn test_rounding() {
    assert_eq!(round_up_to_multiple(128, 256), 256);
    assert_eq!(round_up_to_multiple(256, 256), 256);
    assert_eq!(round_up_to_multiple(500, 256), 512);
}

#[test]
fn margin_box_adds_all_three_edge_layers() {
    let d = Dimensions {
        content: Rect { x: 10, y: 20, width: 100, height: 50 },
        padding: EdgeSizes { left: 1, right: 2, top: 3, bottom: 4 },
        border: EdgeSizes { left: 5, right: 6, top: 7, bottom: 8 },
        margin: EdgeSizes { left: 9, right: 10, top: 11, bottom: 12 },
    };
    assert_eq!(d.padding_box(), Rect { x: 9, y: 17, width: 103, height: 57 });
    assert_eq!(d.border_box(), Rect { x: 4, y: 10, width: 114, height: 72 });
    assert_eq!(d.margin_box(), Rect { x: -5, y: -1, width: 133, height: 95 });
}

#[test]
fn auto_width_fills_containing_block() {
    // Containing block content width 800, width auto, no margin, border or
    // padding: the resolved content width is 800.
    let root = laid_out("<div></div>", "", viewport(800, 600));
    assert_eq!(root.dimensions.content.width, 800);
    assert_eq!(root.dimensions.margin.left, 0);
    assert_eq!(root.dimensions.margin.right, 0);
}

#[test]
fn note_box_width_and_margin_box_height() {
    // End to end: 10px padding on each side leaves 780 of the 800; the
    // margin box adds the paddings and the bottom margin.
    let root = laid_out(
        r#"<div class="note"></div>"#,
        "div.note { margin-bottom: 20px; padding: 10px; }",
        viewport(800, 600),
    );
    assert_eq!(root.dimensions.content.width, 780);
    assert_eq!(root.dimensions.padding.left, 10);
    assert_eq!(root.dimensions.padding.right, 10);
    assert_eq!(root.dimensions.content.height, 0);
    assert_eq!(root.dimensions.margin_box().height, 40);
}

#[test]
fn margin_bottom_moves_the_next_sibling_down() {
    let root = laid_out(
        r#"<html><div class="note"></div><div id="after"></div></html>"#,
        "div.note { margin-bottom: 20px; padding: 10px; }",
        viewport(800, 600),
    );
    assert_eq!(root.children.len(), 2);
    assert_eq!(root.children[0].dimensions.content.y, 10);
    // The next sibling starts below the note's margin box.
    assert_eq!(root.children[1].dimensions.content.y, 40);
    // The parent's content height sums the children's margin boxes.
    assert_eq!(root.dimensions.content.height, 40);
}

#[test]
fn auto_margins_split_leftover_space_equally() {
    let root = laid_out(
        "<div></div>",
        "div { width: 100px; margin-left: auto; margin-right: auto; }",
        viewport(800, 600),
    );
    assert_eq!(root.dimensions.content.width, 100);
    assert_eq!(root.dimensions.margin.left, 350);
    assert_eq!(root.dimensions.margin.right, 350);
    assert_eq!(root.dimensions.content.x, 350);
}

#[test]
fn overconstrained_box_adjusts_the_right_margin() {
    let root = laid_out(
        "<div></div>",
        "div { width: 700px; margin-left: 100px; margin-right: 100px; }",
        viewport(800, 600),
    );
    // 700 + 100 + 100 exceeds 800 by 100, absorbed by the right margin.
    assert_eq!(root.dimensions.margin.left, 100);
    assert_eq!(root.dimensions.margin.right, 0);
    assert_eq!(root.dimensions.content.x, 100);
}

#[test]
fn negative_leftover_space_shrinks_auto_width_to_zero() {
    let root = laid_out(
        "<div></div>",
        "div { padding-left: 500px; padding-right: 500px; }",
        viewport(800, 600),
    );
    assert_eq!(root.dimensions.content.width, 0);
    assert_eq!(root.dimensions.margin.right, -200);
}

#[test]
fn explicit_height_overrides_content_height() {
    let root = laid_out("<div></div>", "div { height: 37px; }", viewport(800, 600));
    assert_eq!(root.dimensions.content.height, 37);
}

#[test]
fn display_none_child_is_absent_from_the_box_tree() {
    let root = laid_out(
        r#"<div><span></span><p id="answer"><b></b></p></div>"#,
        "#answer { display: none; }",
        viewport(800, 600),
    );
    // Only the span is left; the none-display subtree is gone entirely.
    assert_eq!(root.children.len(), 1);
    assert_eq!(root.children[0].children.len(), 0);
}

#[test]
fn display_none_root_is_a_fatal_error() {
    let doc = HtmlParser::from_string("<html></html>".to_string())
        .run()
        .unwrap();
    let sheet = CssParser::parse("html { display: none; }").unwrap();
    let styled = style_tree(&doc, &sheet);
    assert_eq!(
        layout_tree(&styled, viewport(800, 600)),
        Err(LayoutError::UnsupportedRootDisplay)
    );
}

#[test]
fn inline_run_in_a_block_shares_one_anonymous_box() {
    let root = laid_out(
        "<div><p></p><span></span><em></em><p></p><b></b></div>",
        "div { display: block; } p { display: block; }",
        viewport(800, 600),
    );
    // block p, anonymous {span, em}, block p, anonymous {b}
    assert_eq!(root.children.len(), 4);
    assert_eq!(root.children[1].children.len(), 2);
    assert_eq!(root.children[3].children.len(), 1);
}

#[test]
fn viewport_height_is_not_an_input_to_layout() {
    let a = laid_out("<div></div>", "", viewport(800, 600));
    let b = laid_out("<div></div>", "", viewport(800, 0));
    assert_eq!(a.dimensions, b.dimensions);
}
