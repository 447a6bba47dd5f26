use robinson::css::{parse, Color};
use robinson::html::Parser;
use robinson::layout::{build_layout_tree, layout_tree, BoxType, Dimensions, LayoutBox, Rect};
use robinson::painting::{
    build_display_list, fits, get_color, paint, Canvas, DisplayCommand, DisplayList,
};
use robinson::style::style_tree;
use robinson::units::Px;

const WHITE: Color = Color { r: 255, g: 255, b: 255, a: 255 };
const RED: Color = Color { r: 255, g: 0, b: 0, a: 255 };
const GREEN: Color = Color { r: 0, g: 255, b: 0, a: 255 };
const BLUE: Color = Color { r: 0, g: 0, b: 255, a: 255 };

fn px(n: i32) -> Px {
    Px::from_pixels(n)
}

fn rect(x: i32, y: i32, width: i32, height: i32) -> Rect {
    Rect { x: px(x), y: px(y), width: px(width), height: px(height) }
}

fn units(x: i64, y: i64, width: i64, height: i64) -> Rect {
    Rect {
        x: Px::from_units(x),
        y: Px::from_units(y),
        width: Px::from_units(width),
        height: Px::from_units(height),
    }
}

/// The rows of a canvas, a letter for each pixel.
fn rows(canvas: &Canvas) -> Vec<String> {
    assert_eq!(canvas.pixels.len(), canvas.width * canvas.height);
    (0..canvas.height)
        .map(|y| {
            (0..canvas.width)
                .map(|x| {
                    let c = canvas.pixels[y * canvas.width + x];
                    if c == WHITE {
                        'W'
                    } else if c == RED {
                        'R'
                    } else if c == GREEN {
                        'G'
                    } else if c == BLUE {
                        'B'
                    } else {
                        '?'
                    }
                })
                .collect()
        })
        .collect()
}

fn painted(width: usize, height: usize, items: &[DisplayCommand]) -> Vec<String> {
    let mut canvas = Canvas::new(width, height);
    for item in items {
        canvas.paint_item(item);
    }
    rows(&canvas)
}

const HTML: &str = "<div><p></p></div>";
const CSS: &str = "div { display: block; background: #ff0000; width: 6px; padding: 1px; } \
                   p { display: block; height: 1px; border-width: 1px; \
                       border-color: #00ff00; background: #0000ff; }";

fn with_boxes<R>(html: &str, css: &str, check: impl for<'a> FnOnce(&LayoutBox<'a>) -> R) -> R {
    let doc = Parser::parse(html.to_string()).unwrap();
    let sheet = parse(css.to_string()).unwrap();
    let styled = style_tree(&doc, &sheet);
    let mut viewport = Dimensions::default();
    viewport.content.width = px(10);
    viewport.content.height = px(5);
    let root = layout_tree(&styled, viewport);
    check(&root)
}

#[test]
fn a_new_canvas_is_white() {
    let canvas = Canvas::new(3, 2);
    assert_eq!(canvas.width, 3);
    assert_eq!(canvas.height, 2);
    assert_eq!(canvas.pixels, vec![WHITE; 6]);
    assert_eq!(Canvas::new(0, 5).pixels.len(), 0);
    assert_eq!(Canvas::new(5, 0).pixels.len(), 0);
}

#[test]
fn a_command_fills_its_rectangle() {
    assert_eq!(
        painted(4, 3, &[DisplayCommand::SolidColor(RED, rect(1, 0, 2, 1))]),
        vec!["WRRW", "WWWW", "WWWW"]
    );
    assert_eq!(
        painted(4, 3, &[DisplayCommand::SolidColor(RED, rect(0, 1, 4, 2))]),
        vec!["WWWW", "RRRR", "RRRR"]
    );
    assert_eq!(
        painted(4, 3, &[DisplayCommand::SolidColor(RED, rect(3, 2, 1, 1))]),
        vec!["WWWW", "WWWW", "WWWR"]
    );
}

#[test]
fn a_rectangle_is_clipped_to_the_canvas() {
    assert_eq!(
        painted(4, 3, &[DisplayCommand::SolidColor(RED, rect(-2, -1, 4, 3))]),
        vec!["RRWW", "RRWW", "WWWW"]
    );
    assert_eq!(
        painted(4, 3, &[DisplayCommand::SolidColor(RED, rect(2, 1, 100, 100))]),
        vec!["WWWW", "WWRR", "WWRR"]
    );
    assert_eq!(
        painted(4, 3, &[DisplayCommand::SolidColor(RED, rect(-5, -5, 2, 2))]),
        vec!["WWWW", "WWWW", "WWWW"]
    );
    assert_eq!(
        painted(4, 3, &[DisplayCommand::SolidColor(RED, rect(4, 0, 2, 2))]),
        vec!["WWWW", "WWWW", "WWWW"]
    );
    let all = Rect {
        x: Px::from_units(i64::MIN),
        y: Px::from_units(i64::MIN),
        width: Px::from_units(i64::MAX),
        height: Px::from_units(i64::MAX),
    };
    assert_eq!(
        painted(2, 1, &[DisplayCommand::SolidColor(RED, all)]),
        vec!["WW"]
    );
    let far = Rect { x: px(1), y: px(0), width: Px::from_units(i64::MAX), height: px(1) };
    assert_eq!(painted(3, 1, &[DisplayCommand::SolidColor(RED, far)]), vec!["WRR"]);
}

#[test]
fn a_rectangle_of_no_or_negative_extent_paints_nothing() {
    assert_eq!(
        painted(3, 2, &[DisplayCommand::SolidColor(RED, rect(1, 0, 0, 2))]),
        vec!["WWW", "WWW"]
    );
    assert_eq!(
        painted(3, 2, &[DisplayCommand::SolidColor(RED, rect(2, 0, -1, 2))]),
        vec!["WWW", "WWW"]
    );
    assert_eq!(
        painted(3, 2, &[DisplayCommand::SolidColor(RED, rect(0, 1, 3, -1))]),
        vec!["WWW", "WWW"]
    );
}

#[test]
fn parts_of_a_pixel_are_left_off() {
    // From half a pixel to two and a half: pixels 0 and 1.
    assert_eq!(
        painted(4, 1, &[DisplayCommand::SolidColor(RED, units(500, 0, 2_000, 1_000))]),
        vec!["RRWW"]
    );
    assert_eq!(
        painted(4, 1, &[DisplayCommand::SolidColor(RED, units(1_999, 0, 1, 1_999))]),
        vec!["WRWW"]
    );
    assert_eq!(
        painted(4, 1, &[DisplayCommand::SolidColor(RED, units(1_000, 0, 999, 1_000))]),
        vec!["WWWW"]
    );
    assert_eq!(
        painted(4, 1, &[DisplayCommand::SolidColor(RED, units(0, 0, 4_000, 999))]),
        vec!["WWWW"]
    );
}

#[test]
fn a_later_command_paints_over_an_earlier_one() {
    assert_eq!(
        painted(
            4,
            2,
            &[
                DisplayCommand::SolidColor(RED, rect(0, 0, 3, 2)),
                DisplayCommand::SolidColor(BLUE, rect(1, 0, 3, 1)),
                DisplayCommand::SolidColor(GREEN, rect(2, 0, 1, 2)),
            ]
        ),
        vec!["RBGB", "RRGW"]
    );
}

#[test]
fn the_display_list_goes_from_the_root_down() {
    with_boxes(HTML, CSS, |root| {
        assert_eq!(root.dimensions.content, rect(1, 1, 6, 3));
        assert_eq!(root.children[0].dimensions.content, rect(2, 2, 4, 1));
        let list: DisplayList = build_display_list(root);
        assert_eq!(
            list,
            vec![
                DisplayCommand::SolidColor(RED, rect(0, 0, 8, 5)),
                DisplayCommand::SolidColor(BLUE, rect(1, 1, 6, 3)),
                DisplayCommand::SolidColor(GREEN, rect(1, 1, 1, 3)),
                DisplayCommand::SolidColor(GREEN, rect(6, 1, 1, 3)),
                DisplayCommand::SolidColor(GREEN, rect(1, 1, 6, 1)),
                DisplayCommand::SolidColor(GREEN, rect(1, 3, 6, 1)),
            ]
        );
    });
}

#[test]
fn paint_carries_out_the_display_list() {
    let picture = with_boxes(HTML, CSS, |root| rows(&paint(root, rect(0, 0, 10, 5))));
    assert_eq!(
        picture,
        vec!["RRRRRRRRWW", "RGGGGGGRWW", "RGBBBBGRWW", "RGGGGGGRWW", "RRRRRRRRWW"]
    );
    // The canvas has the size of the bounds, wherever they lie.
    let picture = with_boxes(HTML, CSS, |root| {
        rows(&paint(root, units(7_000, -3_000, 3_999, 2_000)))
    });
    assert_eq!(picture, vec!["RRR", "RGG"]);
    // Bounds of negative width make a canvas without columns.
    let picture = with_boxes(HTML, CSS, |root| rows(&paint(root, rect(0, 0, -4, 3))));
    assert_eq!(picture, vec!["", "", ""]);
}

#[test]
fn boxes_without_colours_paint_nothing() {
    with_boxes("<div>text<p></p></div>", "div, p { display: block; width: auto; }", |root| {
        assert_eq!(build_display_list(root), vec![]);
        assert_eq!(rows(&paint(root, rect(0, 0, 2, 1))), vec!["WW"]);
    });
    // A colour must be a colour.
    with_boxes("<div></div>", "div { display: block; background: red; }", |root| {
        assert_eq!(build_display_list(root), vec![]);
    });
}

#[test]
fn an_inline_box_is_painted_where_it_lies() {
    // Inline boxes are not laid out, so their rectangles are empty.
    with_boxes("<span></span>", "span { background: #ff0000; border-color: #00ff00; }", |root| {
        assert_eq!(build_display_list(root).len(), 5);
        assert_eq!(rows(&paint(root, rect(0, 0, 2, 2))), vec!["WW", "WW"]);
    });
}

#[test]
fn get_color_reads_a_colour_from_the_style() {
    let doc = Parser::parse("<div>x</div>".to_string()).unwrap();
    let sheet =
        parse("div { display: block; background: #0000ff; color: blue; }".to_string()).unwrap();
    let styled = style_tree(&doc, &sheet);
    let root = build_layout_tree(&styled);
    assert_eq!(get_color(&root, "background"), Some(BLUE));
    assert_eq!(get_color(&root, "color"), None);
    assert_eq!(get_color(&root, "border-color"), None);
    // The anonymous block around the text has no style.
    assert!(matches!(root.children[0].box_type, BoxType::AnonymousBlock));
    assert_eq!(get_color(&root.children[0], "background"), None);
    assert_eq!(get_color(&root.children[0].children[0], "background"), None);
}

#[test]
fn a_canvas_must_fit_the_machine() {
    assert!(fits(rect(0, 0, 800, 600)));
    assert!(fits(rect(-5, 99, 0, 0)));
    assert!(fits(rect(0, 0, -1, i32::MAX)));
    assert!(fits(units(0, 0, i64::MAX, 0)));
    assert!(fits(units(0, 0, i64::MAX, 999)));
    assert!(fits(units(0, 0, i64::MAX, 1_000)));
    assert!(!fits(units(0, 0, i64::MAX, i64::MAX)));
}
