use robinson::css::parse;
use robinson::html::Parser;
use robinson::layout::{
    build_layout_tree, layout_tree, BoxType, Dimensions, EdgeSizes, LayoutBox, Rect,
};
use robinson::style::style_tree;
use robinson::units::Px;

fn px(n: i32) -> Px {
    Px::from_pixels(n)
}

fn rect(x: i32, y: i32, width: i32, height: i32) -> Rect {
    Rect { x: px(x), y: px(y), width: px(width), height: px(height) }
}

fn edges(left: i32, right: i32, top: i32, bottom: i32) -> EdgeSizes {
    EdgeSizes { left: px(left), right: px(right), top: px(top), bottom: px(bottom) }
}

fn viewport(width: Px) -> Dimensions {
    let mut v = Dimensions::default();
    v.content.width = width;
    v.content.height = px(600);
    v
}

/// Parses, styles and lays out a document in a viewport of the given width,
/// and hands the root box to `check`.
fn with_layout<R>(
    html: &str,
    css: &str,
    width: Px,
    check: impl for<'a> FnOnce(&LayoutBox<'a>) -> R,
) -> R {
    let doc = Parser::parse(html.to_string()).unwrap();
    let sheet = parse(css.to_string()).unwrap();
    let styled = style_tree(&doc, &sheet);
    let root = layout_tree(&styled, viewport(width));
    check(&root)
}

/// The dimensions of a lone block `div` with the given declarations.
fn lone_block(declarations: &str, width: Px) -> Dimensions {
    let css = format!("div {{ display: block; {} }}", declarations);
    with_layout("<div></div>", &css, width, |root| root.dimensions)
}

fn is_block(b: &LayoutBox) -> bool {
    matches!(b.box_type, BoxType::BlockNode(_))
}

fn is_inline(b: &LayoutBox) -> bool {
    matches!(b.box_type, BoxType::InlineNode(_))
}

fn is_anonymous(b: &LayoutBox) -> bool {
    matches!(b.box_type, BoxType::AnonymousBlock)
}

const EXAMPLE_HTML: &str = "<div id=\"a\" class=\"w\"><p>x</p></div>";

#[test]
fn end_to_end_example_with_a_block_root() {
    let css = "#a { width: 100px; margin: auto; display: block; } \
               .w { background: #ff0000; } p { display: block; height: 20px; }";
    with_layout(EXAMPLE_HTML, css, px(800), |root| {
        assert!(is_block(root));
        assert_eq!(root.dimensions.content, rect(350, 0, 100, 20));
        assert_eq!(root.dimensions.margin, edges(350, 350, 0, 0));
        assert_eq!(root.dimensions.padding, edges(0, 0, 0, 0));
        assert_eq!(root.dimensions.border, edges(0, 0, 0, 0));
        assert_eq!(root.children.len(), 1);
        let p = &root.children[0];
        assert!(is_block(p));
        assert_eq!(p.dimensions.content, rect(350, 0, 100, 20));
        assert_eq!(p.dimensions.margin, edges(0, 0, 0, 0));
        // The text is an inline box inside an anonymous block.
        assert_eq!(p.children.len(), 1);
        assert!(is_anonymous(&p.children[0]));
        assert_eq!(p.children[0].children.len(), 1);
        assert!(is_inline(&p.children[0].children[0]));
        assert_eq!(p.children[0].dimensions, Dimensions::default());
    });
}

#[test]
fn end_to_end_example_as_written() {
    // Without a `display` declaration the outer element is inline, and
    // inline boxes get no geometry.
    let css = "#a { width: 100px; margin: auto; } .w { background: #ff0000; } \
               p { display: block; height: 20px; }";
    with_layout(EXAMPLE_HTML, css, px(800), |root| {
        assert!(is_inline(root));
        assert_eq!(root.dimensions, Dimensions::default());
        assert_eq!(root.children.len(), 1);
        assert!(is_block(&root.children[0]));
        assert_eq!(root.children[0].dimensions, Dimensions::default());
    });
}

#[test]
fn layout_starts_at_the_top_whatever_the_viewport_height() {
    let doc = Parser::parse("<div></div>".to_string()).unwrap();
    let sheet = parse("div { display: block; height: 7px; }".to_string()).unwrap();
    let styled = style_tree(&doc, &sheet);
    let mut v = viewport(px(100));
    v.content.x = px(3);
    v.content.y = px(4);
    let root = layout_tree(&styled, v);
    assert_eq!(root.dimensions.content, rect(3, 4, 100, 7));
    // Laid out directly, a box goes below the height that its container
    // already has.
    let mut other = build_layout_tree(&styled);
    assert_eq!(other.dimensions, Dimensions::default());
    other.layout(v);
    assert_eq!(other.dimensions.content, rect(3, 604, 100, 7));
}

#[test]
fn width_auto_takes_the_space_that_is_left() {
    let d = lone_block("margin-left: 10px; margin-right: auto; padding: 5px;", px(800));
    assert_eq!(d.content.width, px(780));
    assert_eq!(d.margin.left, px(10));
    assert_eq!(d.margin.right, px(0));
    assert_eq!(d.padding.left, px(5));
    assert_eq!(d.padding.right, px(5));
    assert_eq!(d.content.x, px(15));
    let d = lone_block("", px(800));
    assert_eq!(d.content, rect(0, 0, 800, 0));
    let d = lone_block("margin: auto;", px(800));
    assert_eq!(d.content.width, px(800));
    assert_eq!(d.margin, edges(0, 0, 0, 0));
}

#[test]
fn width_auto_that_does_not_fit_is_zero_and_the_right_margin_gives_way() {
    let d = lone_block("margin-left: 80px; margin-right: 50px;", px(100));
    assert_eq!(d.content.width, px(0));
    assert_eq!(d.margin.left, px(80));
    assert_eq!(d.margin.right, px(20));
    let d = lone_block("padding: 60px; margin-right: auto;", px(100));
    assert_eq!(d.content.width, px(0));
    assert_eq!(d.margin.right, px(-20));
    assert_eq!(d.padding.left, px(60));
    assert_eq!(d.padding.right, px(60));
}

#[test]
fn given_width_and_margins_let_the_right_margin_take_the_slack() {
    let d = lone_block("width: 100px; margin-left: 10px; margin-right: 20px;", px(800));
    assert_eq!(d.content.width, px(100));
    assert_eq!(d.margin.left, px(10));
    assert_eq!(d.margin.right, px(690));
    // Also where that makes it negative.
    let d = lone_block("width: 100px; margin-left: 10px; margin-right: 20px;", px(50));
    assert_eq!(d.content.width, px(100));
    assert_eq!(d.margin.left, px(10));
    assert_eq!(d.margin.right, px(-60));
}

#[test]
fn one_auto_margin_takes_the_space_that_is_left() {
    let d = lone_block("width: 100px; margin-left: 10px; margin-right: auto;", px(800));
    assert_eq!(d.margin.left, px(10));
    assert_eq!(d.margin.right, px(690));
    assert_eq!(d.content.x, px(10));
    let d = lone_block("width: 100px; margin-left: auto; margin-right: 20px;", px(800));
    assert_eq!(d.margin.left, px(680));
    assert_eq!(d.margin.right, px(20));
    assert_eq!(d.content.x, px(680));
}

#[test]
fn two_auto_margins_share_the_space_equally() {
    let d = lone_block("width: 100px; margin: auto;", px(800));
    assert_eq!(d.margin.left, px(350));
    assert_eq!(d.margin.right, px(350));
    assert_eq!(d.content.x, px(350));
    let d = lone_block(
        "width: 100px; margin-left: auto; margin-right: auto; border-width: 10px; padding: 5px;",
        px(800),
    );
    assert_eq!(d.margin.left, px(335));
    assert_eq!(d.margin.right, px(335));
    assert_eq!(d.content.x, px(350));
    // Half a pixel is a length like any other.
    let d = lone_block("width: 101px; margin: auto;", px(800));
    assert_eq!(d.margin.left, Px::from_units(349_500));
    assert_eq!(d.margin.right, Px::from_units(349_500));
    // An odd number of units leaves one over.
    let d = lone_block("width: 100px; margin: auto;", Px::from_units(800_001));
    assert_eq!(d.margin.left, px(350));
    assert_eq!(d.margin.right, px(350));
    // Nothing left over: both are zero.
    let d = lone_block("width: 800px; margin: auto;", px(800));
    assert_eq!(d.margin.left, px(0));
    assert_eq!(d.margin.right, px(0));
}

#[test]
fn auto_margins_of_a_box_that_is_too_wide_count_as_zero() {
    let d = lone_block("width: 900px; margin: auto;", px(800));
    assert_eq!(d.content.width, px(900));
    assert_eq!(d.margin.left, px(0));
    assert_eq!(d.margin.right, px(-100));
    let d = lone_block("width: 900px; margin-left: auto; margin-right: 5px;", px(800));
    assert_eq!(d.margin.left, px(0));
    assert_eq!(d.margin.right, px(-100));
    let d = lone_block("width: 900px; margin-left: 5px; margin-right: auto;", px(800));
    assert_eq!(d.margin.left, px(5));
    assert_eq!(d.margin.right, px(-105));
}

#[test]
fn the_solved_widths_fill_the_containing_block() {
    for declarations in [
        "width: 100px; margin-left: 10px; margin-right: 20px; padding: 3px; border-width: 2px;",
        "width: 100px; margin-left: 10px; margin-right: auto; padding: 3px;",
        "width: 100px; margin-left: auto; margin-right: 20px; border-width: 2px;",
        "width: 100px; margin: auto; padding-left: 4px;",
        "margin: auto; padding: 3px;",
        "margin-left: 500px; margin-right: 500px;",
        "width: 900px; margin: auto;",
        "width: 12.5px; margin-left: 1.25px; padding-right: 0.125px;",
    ] {
        let d = lone_block(declarations, px(800));
        let filled = d.content.width.units + d.margin.left.units + d.margin.right.units
            + d.border.left.units + d.border.right.units + d.padding.left.units
            + d.padding.right.units;
        assert_eq!(filled, 800_000);
        assert_eq!(d.margin_box().width, px(800));
    }
}

#[test]
fn a_side_of_its_own_goes_before_the_shorthand() {
    let d = lone_block(
        "margin: 1px; margin-left: 2px; margin-top: 3px; \
         border-width: 4px; border-right-width: 5px; border-bottom-width: 6px; \
         padding: 7px; padding-right: 8px; padding-top: 9px; width: 10px; height: 11px;",
        px(100),
    );
    assert_eq!(d.padding, edges(7, 8, 9, 7));
    assert_eq!(d.border, edges(4, 5, 4, 6));
    assert_eq!(d.margin.left, px(2));
    assert_eq!(d.margin.top, px(3));
    assert_eq!(d.margin.bottom, px(1));
    // The right margin takes the slack: 100 - (2 + 4 + 7 + 10 + 8 + 5).
    assert_eq!(d.margin.right, px(64));
    assert_eq!(d.content, rect(13, 16, 10, 11));
}

#[test]
fn an_auto_margin_above_or_below_is_zero() {
    let d = lone_block("margin: auto; height: 5px;", px(100));
    assert_eq!(d.margin.top, px(0));
    assert_eq!(d.margin.bottom, px(0));
    assert_eq!(d.content.y, px(0));
    let d = lone_block("margin-top: auto; margin-bottom: 2px;", px(100));
    assert_eq!(d.margin.top, px(0));
    assert_eq!(d.margin.bottom, px(2));
}

#[test]
fn a_height_that_is_no_length_is_ignored() {
    let d = lone_block("height: auto;", px(100));
    assert_eq!(d.content.height, px(0));
    let d = lone_block("height: 12.5px;", px(100));
    assert_eq!(d.content.height, Px::from_units(12_500));
}

const STACK_HTML: &str =
    "<div class=\"p\"><div class=\"a\"></div><div class=\"b\"></div><div class=\"c\"></div></div>";

#[test]
fn block_children_stack_from_top_to_bottom() {
    let css = "div { display: block; } .a { height: 10px; } .b { height: 20px; } \
               .c { height: 30px; }";
    with_layout(STACK_HTML, css, px(800), |root| {
        assert_eq!(root.children.len(), 3);
        assert_eq!(root.children[0].dimensions.content, rect(0, 0, 800, 10));
        assert_eq!(root.children[1].dimensions.content, rect(0, 10, 800, 20));
        assert_eq!(root.children[2].dimensions.content, rect(0, 30, 800, 30));
        assert_eq!(root.dimensions.content, rect(0, 0, 800, 60));
    });
}

#[test]
fn each_child_starts_where_the_margin_box_before_it_ends() {
    let css = "div { display: block; } \
               .a { height: 10px; margin: 5px; border-width: 1px; padding: 2px; } \
               .b { height: 20px; margin: 5px; border-width: 1px; padding: 2px; } \
               .c { height: 30px; margin-bottom: 4px; }";
    with_layout(STACK_HTML, css, px(800), |root| {
        let a = root.children[0].dimensions;
        let b = root.children[1].dimensions;
        let c = root.children[2].dimensions;
        assert_eq!(a.content, rect(8, 8, 784, 10));
        assert_eq!(a.margin_box(), rect(0, 0, 800, 26));
        assert_eq!(b.content, rect(8, 34, 784, 20));
        assert_eq!(b.margin_box(), rect(0, 26, 800, 36));
        assert_eq!(c.content, rect(0, 62, 800, 30));
        assert_eq!(c.margin_box(), rect(0, 62, 800, 34));
        // The same edges above: the content areas are one margin box apart.
        assert_eq!(b.content.y, a.content.y.plus(a.margin_box().height));
        // Always: the margin boxes follow one another.
        assert_eq!(b.margin_box().y, a.margin_box().y.plus(a.margin_box().height));
        assert_eq!(c.margin_box().y, b.margin_box().y.plus(b.margin_box().height));
        assert_eq!(root.dimensions.content, rect(0, 0, 800, 96));
    });
}

#[test]
fn a_hidden_child_adds_no_box_and_no_height() {
    let css = "div { display: block; } .a { height: 10px; } .b { display: none; height: 1000px; } \
               .c { height: 30px; }";
    let with = with_layout(STACK_HTML, css, px(800), |root| {
        assert_eq!(root.children.len(), 2);
        (
            root.dimensions,
            root.children[0].dimensions,
            root.children[1].dimensions,
        )
    });
    let without = with_layout(
        "<div class=\"p\"><div class=\"a\"></div><div class=\"c\"></div></div>",
        css,
        px(800),
        |root| {
            assert_eq!(root.children.len(), 2);
            (
                root.dimensions,
                root.children[0].dimensions,
                root.children[1].dimensions,
            )
        },
    );
    assert_eq!(with, without);
    assert_eq!(with.0.content.height, px(40));
    assert_eq!(with.2.content.y, px(10));
}

#[test]
fn what_is_below_a_hidden_child_is_left_out_too() {
    let css = "div { display: block; height: 5px; } .h { display: none; }";
    with_layout(
        "<div><div class=\"h\"><div></div><div></div></div></div>",
        css,
        px(100),
        |root| {
            assert_eq!(root.children.len(), 0);
            assert_eq!(root.dimensions.content.height, px(5));
        },
    );
}

#[test]
fn a_given_height_goes_before_the_height_of_the_children() {
    let css = "div { display: block; } .p { height: 5px; } .a { height: 10px; } \
               .b { height: 20px; } .c { height: 30px; }";
    with_layout(STACK_HTML, css, px(800), |root| {
        assert_eq!(root.dimensions.content.height, px(5));
        assert_eq!(root.children[2].dimensions.content.y, px(30));
    });
}

#[test]
fn children_are_laid_out_inside_the_content_area_of_their_parent() {
    let css = "div { display: block; } \
               .p { width: 200px; padding: 10px; margin-left: 30px; margin-top: 7px; } \
               .a { height: 10px; } .b { height: 20px; width: 50px; margin: auto; } \
               .c { display: none; }";
    with_layout(STACK_HTML, css, px(800), |root| {
        assert_eq!(root.dimensions.content, rect(40, 17, 200, 30));
        assert_eq!(root.dimensions.margin.right, px(550));
        let a = root.children[0].dimensions;
        let b = root.children[1].dimensions;
        assert_eq!(a.content, rect(40, 17, 200, 10));
        assert_eq!(b.content, rect(115, 27, 50, 20));
        assert_eq!(b.margin, edges(75, 75, 0, 0));
    });
}

#[test]
fn inline_children_of_a_block_are_gathered_in_anonymous_blocks() {
    let css = "div, p { display: block; }";
    with_layout(
        "<div><span></span><em></em><p></p><b></b>text<i></i><p></p><p></p></div>",
        css,
        px(100),
        |root| {
            assert!(is_block(root));
            assert_eq!(root.children.len(), 5);
            assert!(is_anonymous(&root.children[0]));
            assert_eq!(root.children[0].children.len(), 2);
            assert!(is_inline(&root.children[0].children[0]));
            assert!(is_inline(&root.children[0].children[1]));
            assert!(is_block(&root.children[1]));
            assert!(is_anonymous(&root.children[2]));
            assert_eq!(root.children[2].children.len(), 3);
            assert!(is_block(&root.children[3]));
            assert!(is_block(&root.children[4]));
            // Block and inline boxes are never siblings under a block.
            for child in &root.children {
                assert!(!is_inline(child));
            }
        },
    );
}

#[test]
fn an_inline_box_takes_its_children_as_they_come() {
    let css = "p { display: block; } .h { display: none; }";
    with_layout(
        "<span><b></b><p><i></i></p><u class=\"h\"></u><em><s></s></em></span>",
        css,
        px(100),
        |root| {
            assert!(is_inline(root));
            assert_eq!(root.children.len(), 3);
            assert!(is_inline(&root.children[0]));
            assert!(is_block(&root.children[1]));
            assert!(is_anonymous(&root.children[1].children[0]));
            assert!(is_inline(&root.children[2]));
            assert_eq!(root.children[2].children.len(), 1);
            assert!(is_inline(&root.children[2].children[0]));
        },
    );
}

#[test]
fn build_layout_tree_leaves_everything_at_zero() {
    let doc = Parser::parse("<div><p></p>x</div>".to_string()).unwrap();
    let sheet = parse("div, p { display: block; width: 5px; }".to_string()).unwrap();
    let styled = style_tree(&doc, &sheet);
    let root = build_layout_tree(&styled);
    assert_eq!(root.dimensions, Dimensions::default());
    assert_eq!(root.children.len(), 2);
    assert_eq!(root.children[0].dimensions, Dimensions::default());
    match root.box_type {
        BoxType::BlockNode(s) => assert!(std::ptr::eq(s, &styled)),
        _ => panic!("the root is a block"),
    }
    match root.children[0].box_type {
        BoxType::BlockNode(s) => assert!(std::ptr::eq(s, &styled.children[0])),
        _ => panic!("the first child is a block"),
    }
    match root.children[1].children[0].box_type {
        BoxType::InlineNode(s) => assert!(std::ptr::eq(s, &styled.children[1])),
        _ => panic!("the text is inline"),
    }
}

#[test]
fn an_anonymous_block_has_no_style_node() {
    let doc = Parser::parse("<div>x</div>".to_string()).unwrap();
    let sheet = parse("div { display: block; }".to_string()).unwrap();
    let styled = style_tree(&doc, &sheet);
    let root = build_layout_tree(&styled);
    assert!(std::ptr::eq(root.get_style_node().unwrap(), &styled));
    assert!(root.children[0].get_style_node().is_none());
    assert!(std::ptr::eq(
        root.children[0].children[0].get_style_node().unwrap(),
        &styled.children[0]
    ));
    let fresh = LayoutBox::new(BoxType::AnonymousBlock);
    assert!(fresh.get_style_node().is_none());
    assert_eq!(fresh.dimensions, Dimensions::default());
    assert_eq!(fresh.children.len(), 0);
}

#[test]
fn the_inline_container_of_a_block_is_its_last_anonymous_block() {
    let doc = Parser::parse("<div></div>".to_string()).unwrap();
    let sheet = parse("div { display: block; }".to_string()).unwrap();
    let styled = style_tree(&doc, &sheet);
    let mut root = LayoutBox::new(BoxType::BlockNode(&styled));
    assert!(is_anonymous(root.get_inline_container()));
    assert_eq!(root.children.len(), 1);
    // Asked again, it gives the same one.
    root.get_inline_container().dimensions.content.width = px(1);
    assert_eq!(root.children.len(), 1);
    assert_eq!(root.get_inline_container().dimensions.content.width, px(1));
    // After a block it starts a new one.
    root.children.push(LayoutBox::new(BoxType::BlockNode(&styled)));
    assert_eq!(root.get_inline_container().dimensions.content.width, px(0));
    assert_eq!(root.children.len(), 3);
    // An inline box and an anonymous block are their own containers.
    let mut inline = LayoutBox::new(BoxType::InlineNode(&styled));
    inline.dimensions.content.width = px(2);
    assert_eq!(inline.get_inline_container().dimensions.content.width, px(2));
    assert_eq!(inline.children.len(), 0);
    let mut anonymous = LayoutBox::new(BoxType::AnonymousBlock);
    anonymous.dimensions.content.width = px(3);
    assert_eq!(anonymous.get_inline_container().dimensions.content.width, px(3));
    assert_eq!(anonymous.children.len(), 0);
}

#[test]
fn the_steps_of_block_layout_one_by_one() {
    let doc = Parser::parse("<div><p></p></div>".to_string()).unwrap();
    let sheet = parse(
        "div { display: block; width: 50px; margin-top: 3px; padding: 1px; } \
         p { display: block; height: 9px; }"
            .to_string(),
    )
    .unwrap();
    let styled = style_tree(&doc, &sheet);
    let mut v = viewport(px(100));
    v.content.height = px(20);
    let mut b = build_layout_tree(&styled);
    b.calculate_block_width(v);
    assert_eq!(b.dimensions.content, rect(0, 0, 50, 0));
    assert_eq!(b.dimensions.padding, edges(1, 1, 0, 0));
    assert_eq!(b.dimensions.margin, edges(0, 48, 0, 0));
    b.calculate_block_position(v);
    assert_eq!(b.dimensions.content, rect(1, 24, 50, 0));
    assert_eq!(b.dimensions.padding, edges(1, 1, 1, 1));
    assert_eq!(b.dimensions.margin, edges(0, 48, 3, 0));
    b.layout_block_children();
    assert_eq!(b.dimensions.content, rect(1, 24, 50, 9));
    assert_eq!(b.children[0].dimensions.content, rect(1, 24, 50, 9));
    b.calculate_block_height();
    assert_eq!(b.dimensions.content, rect(1, 24, 50, 9));
    // The same in one step.
    let mut c = build_layout_tree(&styled);
    c.layout_block(v);
    assert_eq!(c.dimensions, b.dimensions);
    assert_eq!(c.children[0].dimensions, b.children[0].dimensions);
}

#[test]
fn lengths_out_of_range_saturate() {
    let d = lone_block(
        "width: 99999999999999999999px; margin-left: 99999999999999999999px; margin-right: 1px;",
        px(800),
    );
    let most = Px::from_units(i64::MAX);
    assert_eq!(d.content.width, most);
    assert_eq!(d.margin.left, most);
    // total saturates at the top, the underflow is 800px less the top, and
    // the right margin takes it.
    assert_eq!(d.margin.right, px(1).plus(px(800).minus(most)));
}
