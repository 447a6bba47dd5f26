//! Painting: from a tree of laid-out boxes to a list of coloured
//! rectangles, and from the list to the pixels of a canvas.

use vstd::prelude::*;
use crate::css::{Color, Value, ValueModel};
use crate::layout::{BoxTypeModel, LayoutBox, LayoutBoxModel, Rect, box_models, lemma_box_view};
use crate::style::{lemma_styled_view, value_of};
use crate::units::{Px, UNITS_PER_PIXEL};

verus! {

/// A rectangle of pixels, row after row from the top.
pub struct Canvas {
    pub pixels: Vec<Color>,
    pub width: usize,
    pub height: usize,
}

/// One step of painting.
#[derive(Clone, Copy, Debug, PartialEq, Eq, Structural)]
pub enum DisplayCommand {
    /// Fill a rectangle with a colour.
    SolidColor(Color, Rect),
}

/// The steps of painting, in the order in which they are carried out.
pub type DisplayList = Vec<DisplayCommand>;

// ---------------------------------------------------------------------------
// The display list
// ---------------------------------------------------------------------------

/// The colour that the style behind a box gives for `name`.  An anonymous
/// block has no style, and so no colour.
pub open spec fn color_of(box_type: BoxTypeModel, name: Seq<char>) -> Option<Color> {
    match box_type.style() {
        Some(values) => match value_of(values, name) {
            Some(ValueModel::ColorValue(c)) => Some(c),
            _ => None,
        },
        None => None,
    }
}

/// The background of a box: its border box in the colour of `background`,
/// where the style gives one.
pub open spec fn background_commands(b: LayoutBoxModel) -> Seq<DisplayCommand> {
    match color_of(b.box_type, "background"@) {
        Some(c) => seq![DisplayCommand::SolidColor(c, b.dimensions.spec_border_box())],
        None => Seq::empty(),
    }
}

/// The borders of a box: the left, right, top and bottom strips of its
/// border box in the colour of `border-color`, where the style gives one.
pub open spec fn border_commands(b: LayoutBoxModel) -> Seq<DisplayCommand> {
    match color_of(b.box_type, "border-color"@) {
        Some(c) => {
            let d = b.dimensions;
            let border_box = d.spec_border_box();
            seq![
                DisplayCommand::SolidColor(c, Rect { width: d.border.left, ..border_box }),
                DisplayCommand::SolidColor(
                    c,
                    Rect {
                        x: border_box.x.spec_plus(border_box.width).spec_minus(d.border.right),
                        width: d.border.right,
                        ..border_box
                    },
                ),
                DisplayCommand::SolidColor(c, Rect { height: d.border.top, ..border_box }),
                DisplayCommand::SolidColor(
                    c,
                    Rect {
                        y: border_box.y.spec_plus(border_box.height).spec_minus(d.border.bottom),
                        height: d.border.bottom,
                        ..border_box
                    },
                ),
            ]
        },
        None => Seq::empty(),
    }
}

/// The display list of a box: its background, then its borders, then the
/// display lists of its children in their order.
pub open spec fn display_list(b: LayoutBoxModel) -> Seq<DisplayCommand>
    decreases b, 0nat,
{
    background_commands(b) + border_commands(b) + children_display_list(
        b.children,
        b.children.len(),
    )
}

/// The display lists of the first `n` of `children`, one after the other.
pub open spec fn children_display_list(children: Seq<LayoutBoxModel>, n: nat) -> Seq<
    DisplayCommand,
>
    decreases children, n,
{
    if n == 0 || n > children.len() {
        Seq::empty()
    } else {
        children_display_list(children, (n - 1) as nat) + display_list(children[n - 1])
    }
}

/// The colour that a box's style gives for `name`.
pub fn get_color(layout_box: &LayoutBox, name: &str) -> (r: Option<Color>)
    ensures
        r == color_of(layout_box.box_type@, name@),
{
    match layout_box.get_style_node() {
        Some(style) => match style.value(name) {
            Some(Value::ColorValue(color)) => Some(color),
            _ => None,
        },
        None => None,
    }
}

/// Adds the background of `layout_box` to `list`.
pub fn render_background(list: &mut DisplayList, layout_box: &LayoutBox)
    ensures
        final(list)@ == old(list)@ + background_commands(layout_box@),
{
    proof {
        lemma_box_view(layout_box);
    }
    match get_color(layout_box, "background") {
        Some(color) => {
            list.push(DisplayCommand::SolidColor(color, layout_box.dimensions.border_box()));
            assert(list@ =~= old(list)@ + background_commands(layout_box@));
        },
        None => {
            assert(list@ =~= old(list)@ + background_commands(layout_box@));
        },
    }
}

/// Adds the borders of `layout_box` to `list`.
pub fn render_borders(list: &mut DisplayList, layout_box: &LayoutBox)
    ensures
        final(list)@ == old(list)@ + border_commands(layout_box@),
{
    proof {
        lemma_box_view(layout_box);
    }
    let color = match get_color(layout_box, "border-color") {
        Some(color) => color,
        None => {
            assert(list@ =~= old(list)@ + border_commands(layout_box@));
            return ;
        },
    };
    let d = layout_box.dimensions;
    let border_box = d.border_box();

    // Left border
    list.push(
        DisplayCommand::SolidColor(
            color,
            Rect {
                x: border_box.x,
                y: border_box.y,
                width: d.border.left,
                height: border_box.height,
            },
        ),
    );

    // Right border
    list.push(
        DisplayCommand::SolidColor(
            color,
            Rect {
                x: border_box.x.plus(border_box.width).minus(d.border.right),
                y: border_box.y,
                width: d.border.right,
                height: border_box.height,
            },
        ),
    );

    // Top border
    list.push(
        DisplayCommand::SolidColor(
            color,
            Rect {
                x: border_box.x,
                y: border_box.y,
                width: border_box.width,
                height: d.border.top,
            },
        ),
    );

    // Bottom border
    list.push(
        DisplayCommand::SolidColor(
            color,
            Rect {
                x: border_box.x,
                y: border_box.y.plus(border_box.height).minus(d.border.bottom),
                width: border_box.width,
                height: d.border.bottom,
            },
        ),
    );
    assert(list@ =~= old(list)@ + border_commands(layout_box@));
}

/// Adds the display list of `layout_box` to `list`.
pub fn render_layout_box(list: &mut DisplayList, layout_box: &LayoutBox)
    ensures
        final(list)@ == old(list)@ + display_list(layout_box@),
    decreases layout_box,
{
    proof {
        lemma_box_view(layout_box);
    }
    let ghost children = layout_box@.children;
    render_background(list, layout_box);
    render_borders(list, layout_box);
    let ghost own = old(list)@ + background_commands(layout_box@) + border_commands(layout_box@);
    assert(list@ =~= own + children_display_list(children, 0));
    let mut i: usize = 0;
    while i < layout_box.children.len()
        invariant
            i <= layout_box.children@.len(),
            children == box_models(layout_box.children@),
            list@ == own + children_display_list(children, i as nat),
        decreases layout_box.children@.len() - i,
    {
        let ghost before = list@;
        render_layout_box(list, &layout_box.children[i]);
        assert(children[i as int] == layout_box.children@[i as int]@);
        assert(list@ =~= own + children_display_list(children, (i + 1) as nat));
        i += 1;
    }
    assert(list@ =~= old(list)@ + display_list(layout_box@));
}

/// The display list of a tree of boxes.
pub fn build_display_list(layout_root: &LayoutBox) -> (r: DisplayList)
    ensures
        r@ == display_list(layout_root@),
{
    let mut list: DisplayList = Vec::new();
    render_layout_box(&mut list, layout_root);
    assert(list@ =~= display_list(layout_root@));
    list
}

// ---------------------------------------------------------------------------
// Pixels
// ---------------------------------------------------------------------------

/// The colour of a canvas before anything is painted on it.
pub open spec fn white() -> Color {
    Color { r: 255, g: 255, b: 255, a: 255 }
}

/// How many whole pixels a length covers; a negative length covers none.
pub open spec fn extent(length: Px) -> int {
    if length@ <= 0 {
        0
    } else {
        length@ / (UNITS_PER_PIXEL as int)
    }
}

/// The pixel that a coordinate falls on, held within `0..=limit`.
pub open spec fn clip(coordinate: Px, limit: int) -> int {
    if extent(coordinate) >= limit {
        limit
    } else {
        extent(coordinate)
    }
}

/// Whether a canvas for `bounds` can be held: its width, its height and
/// the number of its pixels all fit the machine's word.
pub open spec fn canvas_fits(bounds: Rect) -> bool {
    &&& extent(bounds.width) <= usize::MAX
    &&& extent(bounds.height) <= usize::MAX
    &&& extent(bounds.width) * extent(bounds.height) <= usize::MAX
}

/// Whether a command paints the pixel in column `x` and row `y` of a
/// canvas of the given size: the pixel lies inside the command's rectangle,
/// clipped to the canvas.
pub open spec fn covers(command: DisplayCommand, width: int, height: int, x: int, y: int)
    -> bool {
    match command {
        DisplayCommand::SolidColor(_, rect) => {
            &&& clip(rect.x, width) <= x < clip(rect.x.spec_plus(rect.width), width)
            &&& clip(rect.y, height) <= y < clip(rect.y.spec_plus(rect.height), height)
        },
    }
}

/// The colour that a command paints.
pub open spec fn color_painted(command: DisplayCommand) -> Color {
    match command {
        DisplayCommand::SolidColor(c, _) => c,
    }
}

/// The colour of a pixel after the first `n` commands of `list`: that of
/// the last of them that covers it, and white if none does.
pub open spec fn pixel_after(
    list: Seq<DisplayCommand>,
    n: nat,
    width: int,
    height: int,
    x: int,
    y: int,
) -> Color
    decreases n,
{
    if n == 0 || n > list.len() {
        white()
    } else if covers(list[n - 1], width, height, x, y) {
        color_painted(list[n - 1])
    } else {
        pixel_after(list, (n - 1) as nat, width, height, x, y)
    }
}

/// A pixel inside a canvas has its place among the canvas's pixels.
pub proof fn lemma_pixel_index(width: int, height: int, x: int, y: int)
    requires
        0 <= x < width,
        0 <= y < height,
    ensures
        0 <= y * width + x < width * height,
{
    assert(y * width + x < width * height) by (nonlinear_arith)
        requires
            0 <= x < width,
            0 <= y < height,
    {
        assert((y + 1) * width <= height * width);
    }
    assert(0 <= y * width) by (nonlinear_arith)
        requires
            0 <= width,
            0 <= y,
    ;
}

/// No two pixels of a canvas share a place.
pub proof fn lemma_pixel_index_unique(width: int, x: int, y: int, x2: int, y2: int)
    requires
        0 <= x < width,
        0 <= x2 < width,
        0 <= y,
        0 <= y2,
        y * width + x == y2 * width + x2,
    ensures
        x == x2,
        y == y2,
{
    assert(y == y2) by (nonlinear_arith)
        requires
            0 <= x < width,
            0 <= x2 < width,
            0 <= y,
            0 <= y2,
            y * width + x == y2 * width + x2,
    {
        if y < y2 {
            assert((y + 1) * width <= y2 * width);
        } else if y2 < y {
            assert((y2 + 1) * width <= y * width);
        }
    }
}

/// The whole pixels that a length covers.
fn extent_of(length: Px) -> (r: i64)
    ensures
        r == extent(length),
{
    if length.units <= 0 {
        0
    } else {
        length.units / UNITS_PER_PIXEL
    }
}

/// The pixel that a coordinate falls on, held within `0..=limit`.
fn clip_to(coordinate: Px, limit: usize) -> (r: usize)
    ensures
        r == clip(coordinate, limit as int),
{
    let whole = extent_of(coordinate);
    if whole as u64 >= limit as u64 {
        limit
    } else {
        whole as usize
    }
}

/// Whether a canvas for `bounds` can be held.
pub fn fits(bounds: Rect) -> (r: bool)
    ensures
        r == canvas_fits(bounds),
{
    let width = extent_of(bounds.width) as u128;
    let height = extent_of(bounds.height) as u128;
    assert(width * height <= 0x7fff_ffff_ffff_ffff * 0x7fff_ffff_ffff_ffff) by (nonlinear_arith)
        requires
            0 <= width <= 0x7fff_ffff_ffff_ffff,
            0 <= height <= 0x7fff_ffff_ffff_ffff,
    ;
    width <= usize::MAX as u128 && height <= usize::MAX as u128 && width * height
        <= usize::MAX as u128
}

impl Canvas {
    /// Whether the canvas has a pixel for every place in its rectangle.
    pub open spec fn well_formed(&self) -> bool {
        self.pixels@.len() == self.width * self.height
    }

    /// The pixel in column `x` of row `y`.
    pub open spec fn pixel(&self, x: int, y: int) -> Color {
        self.pixels@[y * self.width + x]
    }

    /// A blank canvas.
    pub fn new(width: usize, height: usize) -> (c: Canvas)
        requires
            width * height <= usize::MAX,
        ensures
            c.well_formed(),
            c.width == width,
            c.height == height,
            forall|k: int| 0 <= k < c.pixels@.len() ==> c.pixels@[k] == white(),
    {
        let white = Color { r: 255, g: 255, b: 255, a: 255 };
        let count = width * height;
        let mut pixels: Vec<Color> = Vec::new();
        let mut k: usize = 0;
        while k < count
            invariant
                k <= count,
                pixels@.len() == k,
                white == self::white(),
                forall|j: int| 0 <= j < k ==> pixels@[j] == self::white(),
            decreases count - k,
        {
            pixels.push(white);
            k += 1;
        }
        Canvas { pixels, width, height }
    }

    /// Carries out one command: every pixel that the command covers takes
    /// its colour, and the others stay as they are.
    pub fn paint_item(&mut self, item: &DisplayCommand)
        requires
            old(self).well_formed(),
        ensures
            final(self).well_formed(),
            final(self).width == old(self).width,
            final(self).height == old(self).height,
            forall|x: int, y: int|
                0 <= x < old(self).width && 0 <= y < old(self).height
                    ==> #[trigger] final(self).pixel(x, y) == if covers(
                    *item,
                    old(self).width as int,
                    old(self).height as int,
                    x,
                    y,
                ) {
                    color_painted(*item)
                } else {
                    old(self).pixel(x, y)
                },
    {
        match *item {
            DisplayCommand::SolidColor(color, rect) => {
                // Clip the rectangle to the canvas boundaries.
                let x0 = clip_to(rect.x, self.width);
                let y0 = clip_to(rect.y, self.height);
                let x1 = clip_to(rect.x.plus(rect.width), self.width);
                let y1 = clip_to(rect.y.plus(rect.height), self.height);
                let width = self.width;
                let height = self.height;
                let total = self.pixels.len();
                let mut y: usize = y0;
                while y < y1
                    invariant
                        y0 <= y,
                        y <= y1 || y == y0,
                        width * height == total,
                        y1 <= height,
                        x1 <= width,
                        self.width == width,
                        self.height == height,
                        self.well_formed(),
                        forall|px: int, py: int|
                            0 <= px < width && 0 <= py < height ==> #[trigger] self.pixel(px, py)
                                == if x0 <= px < x1 && y0 <= py < y {
                                color
                            } else {
                                old(self).pixel(px, py)
                            },
                    decreases y1 - y,
                {
                    let mut x: usize = x0;
                    while x < x1
                        invariant
                            x0 <= x,
                            y0 <= y < y1,
                            width * height == total,
                            y1 <= height,
                            x1 <= width,
                            self.width == width,
                            self.height == height,
                            self.well_formed(),
                            forall|px: int, py: int|
                                0 <= px < width && 0 <= py < height ==> #[trigger] self.pixel(
                                    px,
                                    py,
                                ) == if x0 <= px < x1 && (y0 <= py < y || (py == y && px < x)) {
                                    color
                                } else {
                                    old(self).pixel(px, py)
                                },
                        decreases x1 - x,
                    {
                        proof {
                            lemma_pixel_index(width as int, height as int, x as int, y as int);
                        }
                        let ghost prior = *self;
                        self.pixels[y * width + x] = color;
                        proof {
                            assert forall|px: int, py: int|
                                0 <= px < width && 0 <= py < height implies #[trigger] self.pixel(
                                px,
                                py,
                            ) == if x0 <= px < x1 && (y0 <= py < y || (py == y && px < x + 1)) {
                                color
                            } else {
                                old(self).pixel(px, py)
                            } by {
                                lemma_pixel_index(width as int, height as int, px, py);
                                if py * width + px == y * width + x {
                                    lemma_pixel_index_unique(
                                        width as int,
                                        px,
                                        py,
                                        x as int,
                                        y as int,
                                    );
                                } else {
                                    assert(self.pixel(px, py) == prior.pixel(px, py));
                                }
                            }
                        }
                        x += 1;
                    }
                    y += 1;
                }
            },
        }
    }
}

/// Paints a tree of boxes onto a canvas the size of `bounds`: every pixel
/// has the colour of the last command of the display list that covers it,
/// and is white where none does.
pub fn paint(layout_root: &LayoutBox, bounds: Rect) -> (c: Canvas)
    requires
        canvas_fits(bounds),
    ensures
        c.well_formed(),
        c.width == extent(bounds.width),
        c.height == extent(bounds.height),
        forall|x: int, y: int|
            0 <= x < c.width && 0 <= y < c.height ==> #[trigger] c.pixel(x, y) == pixel_after(
                display_list(layout_root@),
                display_list(layout_root@).len(),
                c.width as int,
                c.height as int,
                x,
                y,
            ),
{
    let display_list = build_display_list(layout_root);
    let width = extent_of(bounds.width) as usize;
    let height = extent_of(bounds.height) as usize;
    let mut canvas = Canvas::new(width, height);
    proof {
        assert forall|x: int, y: int|
            0 <= x < width && 0 <= y < height implies #[trigger] canvas.pixel(x, y) == white() by {
            lemma_pixel_index(width as int, height as int, x, y);
        }
    }
    let mut i: usize = 0;
    while i < display_list.len()
        invariant
            i <= display_list@.len(),
            canvas.well_formed(),
            canvas.width == width,
            canvas.height == height,
            forall|x: int, y: int|
                0 <= x < width && 0 <= y < height ==> #[trigger] canvas.pixel(x, y) == pixel_after(
                    display_list@,
                    i as nat,
                    width as int,
                    height as int,
                    x,
                    y,
                ),
        decreases display_list@.len() - i,
    {
        canvas.paint_item(&display_list[i]);
        i += 1;
    }
    canvas
}

} // verus!
