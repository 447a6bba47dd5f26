//! The box model and block layout.  All sizes are lengths in pixels.

use vstd::prelude::*;
use crate::css::{Unit, Value, ValueModel};
use crate::style::{
    Display, PropertyModel, StyledNode, StyledNodeModel, display_of, lemma_styled_view, lookup_of,
    styled_models, value_of,
};
use crate::units::Px;

verus! {

/// A box's content area and the edges around it.
#[derive(Clone, Copy, Debug, PartialEq, Eq, Structural)]
pub struct Dimensions {
    /// Position of the content area relative to the document origin.
    pub content: Rect,
    // Surrounding edges.
    pub padding: EdgeSizes,
    pub border: EdgeSizes,
    pub margin: EdgeSizes,
}

/// A rectangle: the position of its top left corner and its size.
#[derive(Clone, Copy, Debug, PartialEq, Eq, Structural)]
pub struct Rect {
    pub x: Px,
    pub y: Px,
    pub width: Px,
    pub height: Px,
}

/// The thickness of an edge on each of the four sides.
#[derive(Clone, Copy, Debug, PartialEq, Eq, Structural)]
pub struct EdgeSizes {
    pub left: Px,
    pub right: Px,
    pub top: Px,
    pub bottom: Px,
}

/// The rectangle at the origin with no extent.
pub open spec fn zero_rect() -> Rect {
    Rect { x: Px { units: 0 }, y: Px { units: 0 }, width: Px { units: 0 }, height: Px { units: 0 } }
}

/// Edges of no thickness.
pub open spec fn zero_edges() -> EdgeSizes {
    EdgeSizes {
        left: Px { units: 0 },
        right: Px { units: 0 },
        top: Px { units: 0 },
        bottom: Px { units: 0 },
    }
}

/// The dimensions a box has before layout: everything zero.
pub open spec fn zero_dimensions() -> Dimensions {
    Dimensions {
        content: zero_rect(),
        padding: zero_edges(),
        border: zero_edges(),
        margin: zero_edges(),
    }
}

impl Default for Rect {
    fn default() -> (r: Rect)
        ensures
            r == zero_rect(),
    {
        Rect { x: Px::zero(), y: Px::zero(), width: Px::zero(), height: Px::zero() }
    }
}

impl Default for EdgeSizes {
    fn default() -> (r: EdgeSizes)
        ensures
            r == zero_edges(),
    {
        EdgeSizes { left: Px::zero(), right: Px::zero(), top: Px::zero(), bottom: Px::zero() }
    }
}

impl Default for Dimensions {
    fn default() -> (r: Dimensions)
        ensures
            r == zero_dimensions(),
    {
        Dimensions {
            content: Rect::default(),
            padding: EdgeSizes::default(),
            border: EdgeSizes::default(),
            margin: EdgeSizes::default(),
        }
    }
}

impl Rect {
    /// The rectangle moved left and up by the left and top edges, and made
    /// wider and taller by the edges on both sides.
    pub open spec fn spec_expanded_by(self, edge: EdgeSizes) -> Rect {
        Rect {
            x: self.x.spec_minus(edge.left),
            y: self.y.spec_minus(edge.top),
            width: self.width.spec_plus(edge.left).spec_plus(edge.right),
            height: self.height.spec_plus(edge.top).spec_plus(edge.bottom),
        }
    }

    /// The rectangle grown outwards by `edge` on each side.
    #[verifier::when_used_as_spec(spec_expanded_by)]
    pub fn expanded_by(self, edge: EdgeSizes) -> (r: Rect)
        ensures
            r == self.spec_expanded_by(edge),
    {
        Rect {
            x: self.x.minus(edge.left),
            y: self.y.minus(edge.top),
            width: self.width.plus(edge.left).plus(edge.right),
            height: self.height.plus(edge.top).plus(edge.bottom),
        }
    }
}

impl Dimensions {
    /// The content area expanded by the padding.
    pub open spec fn spec_padding_box(self) -> Rect {
        self.content.spec_expanded_by(self.padding)
    }

    /// The padding box expanded by the border.
    pub open spec fn spec_border_box(self) -> Rect {
        self.spec_padding_box().spec_expanded_by(self.border)
    }

    /// The border box expanded by the margin.
    pub open spec fn spec_margin_box(self) -> Rect {
        self.spec_border_box().spec_expanded_by(self.margin)
    }

    /// The area covered by the content area plus its padding.
    #[verifier::when_used_as_spec(spec_padding_box)]
    pub fn padding_box(self) -> (r: Rect)
        ensures
            r == self.spec_padding_box(),
    {
        self.content.expanded_by(self.padding)
    }

    /// The area covered by the content area plus padding and borders.
    #[verifier::when_used_as_spec(spec_border_box)]
    pub fn border_box(self) -> (r: Rect)
        ensures
            r == self.spec_border_box(),
    {
        self.padding_box().expanded_by(self.border)
    }

    /// The area covered by the content area plus padding, borders and margin.
    #[verifier::when_used_as_spec(spec_margin_box)]
    pub fn margin_box(self) -> (r: Rect)
        ensures
            r == self.spec_margin_box(),
    {
        self.border_box().expanded_by(self.margin)
    }
}

/// The sum of `values`, taken from the left and starting at zero.
pub open spec fn sum_of(values: Seq<Px>) -> Px
    decreases values.len(),
{
    if values.len() == 0 {
        Px { units: 0 }
    } else {
        sum_of(values.drop_last()).spec_plus(values.last())
    }
}

/// Adds up lengths from left to right.
pub fn sum(values: &Vec<Px>) -> (r: Px)
    ensures
        r == sum_of(values@),
{
    let mut total = Px::zero();
    let mut i: usize = 0;
    assert(values@.subrange(0, 0) =~= Seq::<Px>::empty());
    while i < values.len()
        invariant
            i <= values@.len(),
            total == sum_of(values@.subrange(0, i as int)),
        decreases values@.len() - i,
    {
        assert(values@.subrange(0, i + 1).drop_last() =~= values@.subrange(0, i as int));
        total = total.plus(values[i]);
        i += 1;
    }
    assert(values@.subrange(0, i as int) =~= values@);
    total
}

// ---------------------------------------------------------------------------
// Boxes
// ---------------------------------------------------------------------------

/// A node of the layout tree.
pub struct LayoutBox<'a> {
    pub dimensions: Dimensions,
    pub box_type: BoxType<'a>,
    pub children: Vec<LayoutBox<'a>>,
}

/// What a box is: a block or an inline box made for a styled node, or an
/// anonymous block.
pub enum BoxType<'a> {
    BlockNode(&'a StyledNode<'a>),
    InlineNode(&'a StyledNode<'a>),
    /// A box with no styled node of its own, which holds a run of inline
    /// children of a block.
    AnonymousBlock,
}

/// What a box is, with the model of the styled node behind it.
pub enum BoxTypeModel {
    BlockNode(StyledNodeModel),
    InlineNode(StyledNodeModel),
    AnonymousBlock,
}

/// A box: its dimensions, what it is, and the models of its children.
pub struct LayoutBoxModel {
    pub dimensions: Dimensions,
    pub box_type: BoxTypeModel,
    pub children: Seq<LayoutBoxModel>,
}

impl<'a> View for BoxType<'a> {
    type V = BoxTypeModel;

    open spec fn view(&self) -> BoxTypeModel {
        match self {
            BoxType::BlockNode(s) => BoxTypeModel::BlockNode(s@),
            BoxType::InlineNode(s) => BoxTypeModel::InlineNode(s@),
            BoxType::AnonymousBlock => BoxTypeModel::AnonymousBlock,
        }
    }
}

/// A box's model: its dimensions, the model of its type, and the models of
/// its children.
pub open spec fn box_model(b: LayoutBox) -> LayoutBoxModel
    decreases b,
{
    LayoutBoxModel {
        dimensions: b.dimensions,
        box_type: b.box_type@,
        children: Seq::new(
            b.children@.len(),
            |i: int|
                if 0 <= i < b.children@.len() {
                    box_model(b.children@[i])
                } else {
                    arbitrary()
                },
        ),
    }
}

impl<'a> View for LayoutBox<'a> {
    type V = LayoutBoxModel;

    open spec fn view(&self) -> LayoutBoxModel {
        box_model(*self)
    }
}

/// The views of a list of boxes.
pub open spec fn box_models(v: Seq<LayoutBox>) -> Seq<LayoutBoxModel> {
    Seq::new(v.len(), |i: int| v[i]@)
}

/// A box's view holds its dimensions and the views of its parts.
pub proof fn lemma_box_view(b: &LayoutBox)
    ensures
        b@.dimensions == b.dimensions,
        b@.box_type == b.box_type@,
        b@.children == box_models(b.children@),
{
    assert(b@.children =~= box_models(b.children@));
}

impl BoxTypeModel {
    /// The values of the styled node behind the box; an anonymous block has
    /// none.
    pub open spec fn style(self) -> Option<PropertyModel> {
        match self {
            BoxTypeModel::BlockNode(s) => Some(s.specified_values),
            BoxTypeModel::InlineNode(s) => Some(s.specified_values),
            BoxTypeModel::AnonymousBlock => None,
        }
    }
}

// ---------------------------------------------------------------------------
// Width
// ---------------------------------------------------------------------------

/// The keyword `auto`.
pub open spec fn auto_keyword() -> ValueModel {
    ValueModel::Keyword("auto"@)
}

/// The length of zero pixels.
pub open spec fn zero_length() -> ValueModel {
    ValueModel::Length(Px { units: 0 }, Unit::Px)
}

/// The seven values that share out a containing block's width.
pub struct WidthInputs {
    pub width: ValueModel,
    pub margin_left: ValueModel,
    pub margin_right: ValueModel,
    pub border_left: ValueModel,
    pub border_right: ValueModel,
    pub padding_left: ValueModel,
    pub padding_right: ValueModel,
}

/// The seven lengths once the width equation is solved.
pub struct Widths {
    pub width: Px,
    pub margin_left: Px,
    pub margin_right: Px,
    pub border_left: Px,
    pub border_right: Px,
    pub padding_left: Px,
    pub padding_right: Px,
}

/// Which of the five ways of solving the width equation applies.
#[derive(Clone, Copy, Debug, PartialEq, Eq, Structural)]
pub enum WidthCase {
    /// Width and both margins are given: the right margin takes up the slack.
    Overconstrained,
    /// Only the right margin is `auto`.
    AutoMarginRight,
    /// Only the left margin is `auto`.
    AutoMarginLeft,
    /// The width is `auto`.
    AutoWidth,
    /// The width is given and both margins are `auto`.
    AutoMargins,
}

/// What a style says of the seven values: `width` is `auto` unless declared;
/// each margin, border and padding is its own property, else the shorthand
/// for all four sides, else zero.
pub open spec fn width_inputs(values: PropertyModel) -> WidthInputs {
    WidthInputs {
        width: match value_of(values, "width"@) {
            Some(v) => v,
            None => auto_keyword(),
        },
        margin_left: lookup_of(values, "margin-left"@, "margin"@, zero_length()),
        margin_right: lookup_of(values, "margin-right"@, "margin"@, zero_length()),
        border_left: lookup_of(values, "border-left-width"@, "border-width"@, zero_length()),
        border_right: lookup_of(values, "border-right-width"@, "border-width"@, zero_length()),
        padding_left: lookup_of(values, "padding-left"@, "padding"@, zero_length()),
        padding_right: lookup_of(values, "padding-right"@, "padding"@, zero_length()),
    }
}

/// The seven values in pixels, added up.
pub open spec fn total_width(inputs: WidthInputs) -> Px {
    sum_of(
        seq![
            inputs.margin_left.to_px(),
            inputs.margin_right.to_px(),
            inputs.border_left.to_px(),
            inputs.border_right.to_px(),
            inputs.padding_left.to_px(),
            inputs.padding_right.to_px(),
            inputs.width.to_px(),
        ],
    )
}

/// Whether the box has a width of its own and is wider, edges included,
/// than the block that contains it.
pub open spec fn too_wide(inputs: WidthInputs, containing_width: Px) -> bool {
    inputs.width != auto_keyword() && total_width(inputs)@ > containing_width@
}

/// The inputs as the equation is solved for them: in a box that is too wide
/// an `auto` margin counts as zero.
pub open spec fn settled_inputs(inputs: WidthInputs, containing_width: Px) -> WidthInputs {
    if too_wide(inputs, containing_width) {
        WidthInputs {
            margin_left: if inputs.margin_left == auto_keyword() {
                zero_length()
            } else {
                inputs.margin_left
            },
            margin_right: if inputs.margin_right == auto_keyword() {
                zero_length()
            } else {
                inputs.margin_right
            },
            ..inputs
        }
    } else {
        inputs
    }
}

/// The case that applies to settled inputs.  Every combination of `auto`
/// and given values falls under exactly one.
pub open spec fn width_case(settled: WidthInputs) -> WidthCase {
    if settled.width == auto_keyword() {
        WidthCase::AutoWidth
    } else if settled.margin_left == auto_keyword() {
        if settled.margin_right == auto_keyword() {
            WidthCase::AutoMargins
        } else {
            WidthCase::AutoMarginLeft
        }
    } else if settled.margin_right == auto_keyword() {
        WidthCase::AutoMarginRight
    } else {
        WidthCase::Overconstrained
    }
}

/// The space left over in the containing block; negative where the box
/// does not fit.
pub open spec fn underflow_of(inputs: WidthInputs, containing_width: Px) -> Px {
    containing_width.spec_minus(total_width(inputs))
}

/// The solution of the width equation.
pub open spec fn solve_width(inputs: WidthInputs, containing_width: Px) -> Widths {
    let settled = settled_inputs(inputs, containing_width);
    let underflow = underflow_of(inputs, containing_width);
    let given = Widths {
        width: settled.width.to_px(),
        margin_left: settled.margin_left.to_px(),
        margin_right: settled.margin_right.to_px(),
        border_left: settled.border_left.to_px(),
        border_right: settled.border_right.to_px(),
        padding_left: settled.padding_left.to_px(),
        padding_right: settled.padding_right.to_px(),
    };
    match width_case(settled) {
        WidthCase::Overconstrained => Widths {
            margin_right: given.margin_right.spec_plus(underflow),
            ..given
        },
        WidthCase::AutoMarginRight => Widths { margin_right: underflow, ..given },
        WidthCase::AutoMarginLeft => Widths { margin_left: underflow, ..given },
        WidthCase::AutoWidth => if underflow@ >= 0 {
            Widths { width: underflow, ..given }
        } else {
            Widths {
                width: Px { units: 0 },
                margin_right: given.margin_right.spec_plus(underflow),
                ..given
            }
        },
        WidthCase::AutoMargins => Widths {
            margin_left: underflow.spec_half(),
            margin_right: underflow.spec_half(),
            ..given
        },
    }
}

/// `d` with its horizontal sizes replaced by the solution for a box of the
/// given style inside a block of the given width.
pub open spec fn with_width(d: Dimensions, values: PropertyModel, containing_width: Px)
    -> Dimensions {
    let w = solve_width(width_inputs(values), containing_width);
    Dimensions {
        content: Rect { width: w.width, ..d.content },
        padding: EdgeSizes { left: w.padding_left, right: w.padding_right, ..d.padding },
        border: EdgeSizes { left: w.border_left, right: w.border_right, ..d.border },
        margin: EdgeSizes { left: w.margin_left, right: w.margin_right, ..d.margin },
    }
}

// ---------------------------------------------------------------------------
// Position and height
// ---------------------------------------------------------------------------

/// `d` with its vertical edges read from the style and its content area
/// placed inside `containing`: to the right of the left edges, and below
/// whatever height `containing` has already been given.  An `auto` margin
/// counts as zero here.
pub open spec fn with_position(d: Dimensions, values: PropertyModel, containing: Dimensions)
    -> Dimensions {
    let margin_top = lookup_of(values, "margin-top"@, "margin"@, zero_length()).to_px();
    let margin_bottom = lookup_of(values, "margin-bottom"@, "margin"@, zero_length()).to_px();
    let border_top = lookup_of(values, "border-top-width"@, "border-width"@, zero_length()).to_px();
    let border_bottom = lookup_of(
        values,
        "border-bottom-width"@,
        "border-width"@,
        zero_length(),
    ).to_px();
    let padding_top = lookup_of(values, "padding-top"@, "padding"@, zero_length()).to_px();
    let padding_bottom = lookup_of(values, "padding-bottom"@, "padding"@, zero_length()).to_px();
    Dimensions {
        content: Rect {
            x: containing.content.x.spec_plus(d.margin.left).spec_plus(d.border.left).spec_plus(
                d.padding.left,
            ),
            y: containing.content.height.spec_plus(containing.content.y).spec_plus(
                margin_top,
            ).spec_plus(border_top).spec_plus(padding_top),
            ..d.content
        },
        padding: EdgeSizes { top: padding_top, bottom: padding_bottom, ..d.padding },
        border: EdgeSizes { top: border_top, bottom: border_bottom, ..d.border },
        margin: EdgeSizes { top: margin_top, bottom: margin_bottom, ..d.margin },
    }
}

/// `d` with its content height replaced by the style's `height`, where that
/// is a length in pixels.
pub open spec fn with_height(d: Dimensions, values: PropertyModel) -> Dimensions {
    match value_of(values, "height"@) {
        Some(ValueModel::Length(h, Unit::Px)) => with_content_height(d, h),
        _ => d,
    }
}

/// `d` with its content height replaced.
pub open spec fn with_content_height(d: Dimensions, height: Px) -> Dimensions {
    Dimensions { content: Rect { height, ..d.content }, ..d }
}

/// `d` made taller by `extra`.
pub open spec fn grown_by(d: Dimensions, extra: Px) -> Dimensions {
    with_content_height(d, d.content.height.spec_plus(extra))
}

// ---------------------------------------------------------------------------
// Layout of a tree
// ---------------------------------------------------------------------------

/// The box after layout as a block inside `containing`, `values` being
/// its style: the width is solved first, since the children's widths depend
/// on it; then the box is placed; then the children are laid out one below
/// the other; and last the height is set, which depends on theirs.
pub open spec fn laid_out_block(
    b: LayoutBoxModel,
    values: PropertyModel,
    containing: Dimensions,
) -> LayoutBoxModel
    decreases b, 0nat,
{
    let placed = with_position(
        with_width(b.dimensions, values, containing.content.width),
        values,
        containing,
    );
    LayoutBoxModel {
        dimensions: with_height(dimensions_after(b.children, placed, b.children.len()), values),
        box_type: b.box_type,
        children: Seq::new(
            b.children.len(),
            |i: int|
                if 0 <= i < b.children.len() {
                    laid_out(b.children[i], dimensions_after(b.children, placed, i as nat))
                } else {
                    arbitrary()
                },
        ),
    }
}

/// The box after layout inside `containing`.  Only block boxes are laid
/// out; inline boxes and anonymous blocks are left as they are.
pub open spec fn laid_out(b: LayoutBoxModel, containing: Dimensions) -> LayoutBoxModel
    decreases b, 1nat,
{
    match b.box_type {
        BoxTypeModel::BlockNode(s) => laid_out_block(b, s.specified_values, containing),
        _ => b,
    }
}

/// A parent's dimensions once its first `n` children are laid out: each
/// child is laid out inside the parent as it then stands, and makes the
/// parent taller by the height of its margin box.
pub open spec fn dimensions_after(children: Seq<LayoutBoxModel>, parent: Dimensions, n: nat)
    -> Dimensions
    decreases children, n,
{
    if n == 0 || n > children.len() {
        parent
    } else {
        let before = dimensions_after(children, parent, (n - 1) as nat);
        grown_by(
            before,
            laid_out(children[n - 1], before).dimensions.spec_margin_box().height,
        )
    }
}

impl<'a> LayoutBox<'a> {
    /// A box of the given type, with no children and nothing laid out.
    pub fn new(box_type: BoxType<'a>) -> (r: LayoutBox<'a>)
        ensures
            r.dimensions == zero_dimensions(),
            r.box_type == box_type,
            r.children@.len() == 0,
    {
        LayoutBox { box_type, dimensions: Dimensions::default(), children: Vec::new() }
    }

    /// The styled node the box was made for; an anonymous block has none.
    pub fn get_style_node(&self) -> (r: Option<&'a StyledNode<'a>>)
        ensures
            match r {
                Some(s) => self.box_type == BoxType::BlockNode(s) || self.box_type
                    == BoxType::InlineNode(s),
                None => self.box_type is AnonymousBlock,
            },
    {
        match self.box_type {
            BoxType::BlockNode(node) => Some(node),
            BoxType::InlineNode(node) => Some(node),
            BoxType::AnonymousBlock => None,
        }
    }

    /// Solves the width equation for this box inside `containing_block` and
    /// stores the content width and the left and right edges.
    pub fn calculate_block_width(&mut self, containing_block: Dimensions)
        requires
            !(old(self).box_type is AnonymousBlock),
        ensures
            final(self).dimensions == with_width(
                old(self).dimensions,
                old(self).box_type@.style()->0,
                containing_block.content.width,
            ),
            final(self).box_type == old(self).box_type,
            final(self).children == old(self).children,
    {
        let style = match self.get_style_node() {
            Some(s) => s,
            None => {
                return ;
            },
        };
        let ghost inputs = width_inputs(style@.specified_values);

        // `width` has initial value `auto`.
        let auto = Value::Keyword(String::from_str("auto"));
        let mut width = match style.value("width") {
            Some(v) => v,
            None => auto.clone(),
        };

        // margin, border, and padding have initial value 0.
        let zero = Value::Length(Px::zero(), Unit::Px);

        let mut margin_left = style.lookup("margin-left", "margin", &zero);
        let mut margin_right = style.lookup("margin-right", "margin", &zero);

        let border_left = style.lookup("border-left-width", "border-width", &zero);
        let border_right = style.lookup("border-right-width", "border-width", &zero);

        let padding_left = style.lookup("padding-left", "padding", &zero);
        let padding_right = style.lookup("padding-right", "padding", &zero);

        let parts = vec![
            margin_left.to_px(),
            margin_right.to_px(),
            border_left.to_px(),
            border_right.to_px(),
            padding_left.to_px(),
            padding_right.to_px(),
            width.to_px(),
        ];
        assert(parts@ =~= seq![
            inputs.margin_left.to_px(),
            inputs.margin_right.to_px(),
            inputs.border_left.to_px(),
            inputs.border_right.to_px(),
            inputs.padding_left.to_px(),
            inputs.padding_right.to_px(),
            inputs.width.to_px(),
        ]);
        let total = sum(&parts);

        // If width is not auto and the total is wider than the container,
        // treat auto margins as 0.
        if !(width == auto) && total.exceeds(containing_block.content.width) {
            if margin_left == auto {
                margin_left = Value::Length(Px::zero(), Unit::Px);
            }
            if margin_right == auto {
                margin_right = Value::Length(Px::zero(), Unit::Px);
            }
        }
        let ghost settled = settled_inputs(inputs, containing_block.content.width);
        assert(margin_left@ == settled.margin_left);
        assert(margin_right@ == settled.margin_right);

        let underflow = containing_block.content.width.minus(total);

        let width_auto = width == auto;
        let left_auto = margin_left == auto;
        let right_auto = margin_right == auto;
        if !width_auto && !left_auto && !right_auto {
            // If the values are overconstrained, calculate margin_right.
            margin_right = Value::Length(margin_right.to_px().plus(underflow), Unit::Px);
        } else if !width_auto && !left_auto && right_auto {
            // If exactly one size is auto, its used value follows from the
            // equality.
            margin_right = Value::Length(underflow, Unit::Px);
        } else if !width_auto && left_auto && !right_auto {
            margin_left = Value::Length(underflow, Unit::Px);
        } else if width_auto {
            // If width is set to auto, any other auto values become 0.
            if left_auto {
                margin_left = Value::Length(Px::zero(), Unit::Px);
            }
            if right_auto {
                margin_right = Value::Length(Px::zero(), Unit::Px);
            }
            if underflow.is_non_negative() {
                // Expand width to fill the underflow.
                width = Value::Length(underflow, Unit::Px);
            } else {
                // Width can't be negative. Adjust the right margin instead.
                width = Value::Length(Px::zero(), Unit::Px);
                margin_right = Value::Length(margin_right.to_px().plus(underflow), Unit::Px);
            }
        } else {
            // If margin-left and margin-right are both auto, their used
            // values are equal.
            margin_left = Value::Length(underflow.half(), Unit::Px);
            margin_right = Value::Length(underflow.half(), Unit::Px);
        }

        self.dimensions.content.width = width.to_px();

        self.dimensions.padding.left = padding_left.to_px();
        self.dimensions.padding.right = padding_right.to_px();

        self.dimensions.border.left = border_left.to_px();
        self.dimensions.border.right = border_right.to_px();

        self.dimensions.margin.left = margin_left.to_px();
        self.dimensions.margin.right = margin_right.to_px();
    }

    /// Reads the vertical edges from the style and places the content area
    /// inside `containing_block`, below what is already there.
    pub fn calculate_block_position(&mut self, containing_block: Dimensions)
        requires
            !(old(self).box_type is AnonymousBlock),
        ensures
            final(self).dimensions == with_position(
                old(self).dimensions,
                old(self).box_type@.style()->0,
                containing_block,
            ),
            final(self).box_type == old(self).box_type,
            final(self).children == old(self).children,
    {
        let style = match self.get_style_node() {
            Some(s) => s,
            None => {
                return ;
            },
        };

        // margin, border, and padding have initial value 0.
        let zero = Value::Length(Px::zero(), Unit::Px);

        // If margin-top or margin-bottom is `auto`, the used value is zero.
        self.dimensions.margin.top = style.lookup("margin-top", "margin", &zero).to_px();
        self.dimensions.margin.bottom = style.lookup("margin-bottom", "margin", &zero).to_px();

        self.dimensions.border.top = style.lookup(
            "border-top-width",
            "border-width",
            &zero,
        ).to_px();
        self.dimensions.border.bottom = style.lookup(
            "border-bottom-width",
            "border-width",
            &zero,
        ).to_px();

        self.dimensions.padding.top = style.lookup("padding-top", "padding", &zero).to_px();
        self.dimensions.padding.bottom = style.lookup("padding-bottom", "padding", &zero).to_px();

        self.dimensions.content.x = containing_block.content.x.plus(
            self.dimensions.margin.left,
        ).plus(self.dimensions.border.left).plus(self.dimensions.padding.left);

        // Position the box below all the previous boxes in the container.
        self.dimensions.content.y = containing_block.content.height.plus(
            containing_block.content.y,
        ).plus(self.dimensions.margin.top).plus(self.dimensions.border.top).plus(
            self.dimensions.padding.top,
        );
    }

    /// Uses the style's `height` where it is a length in pixels; otherwise
    /// keeps the height that the children have given the box.
    pub fn calculate_block_height(&mut self)
        requires
            !(old(self).box_type is AnonymousBlock),
        ensures
            final(self).dimensions == with_height(
                old(self).dimensions,
                old(self).box_type@.style()->0,
            ),
            final(self).box_type == old(self).box_type,
            final(self).children == old(self).children,
    {
        let style = match self.get_style_node() {
            Some(s) => s,
            None => {
                return ;
            },
        };
        if let Some(Value::Length(h, Unit::Px)) = style.value("height") {
            self.dimensions.content.height = h;
        }
    }

    /// Lays out a box and its descendants inside `containing_block`.
    pub fn layout(&mut self, containing_block: Dimensions)
        ensures
            final(self)@ == laid_out(old(self)@, containing_block),
        decreases old(self).children, 2nat,
    {
        proof {
            lemma_box_view(self);
        }
        match self.box_type {
            BoxType::BlockNode(_) => self.layout_block(containing_block),
            BoxType::InlineNode(_) => {},
            BoxType::AnonymousBlock => {},
        }
    }

    /// Lays out a block box: its width first, since the children's widths
    /// depend on it; then its position; then its children; and last its
    /// height, which depends on theirs.
    pub fn layout_block(&mut self, containing_block: Dimensions)
        requires
            !(old(self).box_type is AnonymousBlock),
        ensures
            final(self)@ == laid_out_block(
                old(self)@,
                old(self).box_type@.style()->0,
                containing_block,
            ),
        decreases old(self).children, 1nat,
    {
        proof {
            lemma_box_view(self);
        }
        // Child width can depend on parent width, so we need to calculate
        // this box's width before laying out its children.
        self.calculate_block_width(containing_block);

        // Determine where the box is located within its container.
        self.calculate_block_position(containing_block);
        proof {
            lemma_box_view(self);
        }

        // Recursively lay out the children of this box.
        self.layout_block_children();

        // Parent height can depend on child height, so `calculate_height`
        // must be called after the children are laid out.
        self.calculate_block_height();
        proof {
            lemma_box_view(self);
            let want = laid_out_block(
                old(self)@,
                old(self).box_type@.style()->0,
                containing_block,
            );
            assert(self@.children =~= want.children);
        }
    }

    /// Lays out the children one below the other, and makes this box as
    /// tall as they are together.
    pub fn layout_block_children(&mut self)
        ensures
            final(self).box_type == old(self).box_type,
            final(self).dimensions == dimensions_after(
                old(self)@.children,
                old(self).dimensions,
                old(self)@.children.len(),
            ),
            final(self)@.children.len() == old(self)@.children.len(),
            forall|i: int|
                0 <= i < old(self)@.children.len() ==> #[trigger] final(self)@.children[i]
                    == laid_out(
                    old(self)@.children[i],
                    dimensions_after(old(self)@.children, old(self).dimensions, i as nat),
                ),
        decreases old(self).children, 0nat,
    {
        proof {
            lemma_box_view(self);
        }
        let ghost before = old(self)@.children;
        let ghost start = old(self).dimensions;
        let n = self.children.len();
        let mut i: usize = 0;
        while i < n
            invariant
                i <= n,
                n == self.children@.len(),
                n == old(self).children@.len(),
                before == box_models(old(self).children@),
                start == old(self).dimensions,
                self.box_type == old(self).box_type,
                self.dimensions == dimensions_after(before, start, i as nat),
                forall|j: int|
                    0 <= j < i ==> (#[trigger] self.children@[j])@ == laid_out(
                        before[j],
                        dimensions_after(before, start, j as nat),
                    ),
                forall|j: int| i <= j < n ==> self.children@[j] == old(self).children@[j],
            decreases n - i,
        {
            let d = self.dimensions;
            assert(self.children@[i as int] == old(self).children@[i as int]);
            self.children[i].layout(d);
            proof {
                lemma_box_view(&self.children@[i as int]);
            }
            // Track the height so each child is laid out below the previous
            // content.
            let h = self.children[i].dimensions.margin_box().height;
            self.dimensions.content.height = self.dimensions.content.height.plus(h);
            i += 1;
        }
        proof {
            lemma_box_view(self);
        }
    }
}

// ---------------------------------------------------------------------------
// Building the tree of boxes
// ---------------------------------------------------------------------------

/// A fresh box of the given type.
pub open spec fn new_box(box_type: BoxTypeModel) -> LayoutBoxModel {
    LayoutBoxModel { dimensions: zero_dimensions(), box_type, children: Seq::empty() }
}

/// `parent` with `child` added as its last child.
pub open spec fn with_child(parent: LayoutBoxModel, child: LayoutBoxModel) -> LayoutBoxModel {
    LayoutBoxModel { children: parent.children.push(child), ..parent }
}

/// Whether an inline child added to `parent` goes into the anonymous block
/// that is already its last child.
pub open spec fn ends_in_anonymous_block(parent: LayoutBoxModel) -> bool {
    parent.children.len() > 0 && parent.children.last().box_type is AnonymousBlock
}

/// `parent` with the inline box `child` added.  An inline box or an
/// anonymous block takes it directly.  A block takes it into an anonymous
/// block at its end: the one that is already there, or else a new one.
pub open spec fn with_inline_child(parent: LayoutBoxModel, child: LayoutBoxModel)
    -> LayoutBoxModel {
    match parent.box_type {
        BoxTypeModel::BlockNode(_) => {
            if ends_in_anonymous_block(parent) {
                LayoutBoxModel {
                    children: parent.children.update(
                        parent.children.len() - 1,
                        with_child(parent.children.last(), child),
                    ),
                    ..parent
                }
            } else {
                with_child(parent, with_child(new_box(BoxTypeModel::AnonymousBlock), child))
            }
        },
        _ => with_child(parent, child),
    }
}

/// The type of box a styled node gets: a block box where it is displayed
/// as a block, an inline box otherwise.
pub open spec fn box_type_for(s: StyledNodeModel) -> BoxTypeModel {
    if display_of(s.specified_values) == Display::Block {
        BoxTypeModel::BlockNode(s)
    } else {
        BoxTypeModel::InlineNode(s)
    }
}

/// The tree of boxes for a styled node that is not hidden.
pub open spec fn built(s: StyledNodeModel) -> LayoutBoxModel
    decreases s, 0nat,
{
    with_children(new_box(box_type_for(s)), s.children, s.children.len())
}

/// `root` after the first `n` of `kids` have been given their boxes: a
/// block child becomes a child of `root`, an inline child goes to the
/// inline container, and a hidden child is passed over with all that is
/// below it.
pub open spec fn with_children(root: LayoutBoxModel, kids: Seq<StyledNodeModel>, n: nat)
    -> LayoutBoxModel
    decreases kids, n,
{
    if n == 0 || n > kids.len() {
        root
    } else {
        let before = with_children(root, kids, (n - 1) as nat);
        let kid = kids[n - 1];
        match display_of(kid.specified_values) {
            Display::Block => with_child(before, built(kid)),
            Display::Inline => with_inline_child(before, built(kid)),
            Display::Hidden => before,
        }
    }
}

impl<'a> LayoutBox<'a> {
    /// Where a new inline child should go.
    pub fn get_inline_container(&mut self) -> (r: &mut LayoutBox<'a>)
        ensures
            match old(self).box_type {
                BoxType::BlockNode(_) => {
                    &&& final(self).dimensions == old(self).dimensions
                    &&& final(self).box_type == old(self).box_type
                    &&& r.box_type is AnonymousBlock
                    &&& if old(self).children@.len() > 0 && old(
                        self,
                    ).children@.last().box_type is AnonymousBlock {
                        &&& *r == old(self).children@.last()
                        &&& final(self).children@ == old(self).children@.update(
                            old(self).children@.len() - 1,
                            *final(r),
                        )
                    } else {
                        &&& r.dimensions == zero_dimensions()
                        &&& r.children@.len() == 0
                        &&& final(self).children@ == old(self).children@.push(*final(r))
                    }
                },
                _ => *r == *old(self) && *final(self) == *final(r),
            },
    {
        match self.box_type {
            BoxType::InlineNode(_) | BoxType::AnonymousBlock => self,
            BoxType::BlockNode(_) => {
                // If we've just generated an anonymous block box, keep using
                // it. Otherwise, create a new one.
                let n = self.children.len();
                let reuse = n > 0 && match self.children[n - 1].box_type {
                    BoxType::AnonymousBlock => true,
                    _ => false,
                };
                if !reuse {
                    self.children.push(LayoutBox::new(BoxType::AnonymousBlock));
                }
                let last = self.children.len() - 1;
                &mut self.children[last]
            },
        }
    }
}

/// Builds the tree of boxes for a styled node and everything below it.
/// The node itself must not be hidden: there would be no box to return.
pub fn build_layout_tree<'a>(style_node: &'a StyledNode<'a>) -> (r: LayoutBox<'a>)
    requires
        display_of(style_node@.specified_values) != Display::Hidden,
    ensures
        r@ == built(style_node@),
        r.box_type == if display_of(style_node@.specified_values) == Display::Block {
            BoxType::BlockNode(style_node)
        } else {
            BoxType::InlineNode(style_node)
        },
    decreases style_node,
{
    // Create the root box.
    let mut root = LayoutBox::new(
        match style_node.display() {
            Display::Block => BoxType::BlockNode(style_node),
            _ => BoxType::InlineNode(style_node),
        },
    );
    let ghost kids = style_node@.children;
    let ghost kind = root.box_type;
    let ghost fresh = new_box(box_type_for(style_node@));
    proof {
        lemma_styled_view(style_node);
        lemma_box_view(&root);
        assert(root@.children =~= fresh.children);
    }

    // Create the descendant boxes.
    let n = style_node.children.len();
    let mut i: usize = 0;
    while i < n
        invariant
            i <= n,
            n == style_node.children@.len(),
            kids == styled_models(style_node.children@),
            root@ == with_children(fresh, kids, i as nat),
            root.box_type == kind,
        decreases n - i,
    {
        let child = &style_node.children[i];
        let ghost before = root@;
        assert(kids[i as int] == child@);
        proof {
            lemma_box_view(&root);
        }
        match child.display() {
            Display::Block => {
                let built_child = build_layout_tree(child);
                root.children.push(built_child);
                proof {
                    lemma_box_view(&root);
                    assert(root@.children =~= before.children.push(built_child@));
                }
            },
            Display::Inline => {
                let built_child = build_layout_tree(child);
                let ghost old_root = root;
                let container = root.get_inline_container();
                let ghost old_container = *container;
                container.children.push(built_child);
                proof {
                    lemma_box_view(&old_container);
                    lemma_box_view(container);
                    assert(container@.children =~= old_container@.children.push(built_child@));
                    assert(container@ == with_child(old_container@, built_child@));
                }
                proof {
                    lemma_box_view(&root);
                    lemma_box_view(&old_root);
                    let want = with_inline_child(before, built_child@);
                    match old_root.box_type {
                        BoxType::BlockNode(_) => {
                            if ends_in_anonymous_block(before) {
                                assert(root@.children =~= want.children);
                            } else {
                                assert(old_container@.children =~= Seq::<
                                    LayoutBoxModel,
                                >::empty());
                                assert(old_container@ == new_box(BoxTypeModel::AnonymousBlock));
                                assert(root@.children =~= want.children);
                            }
                        },
                        _ => {},
                    }
                }
            },
            Display::Hidden => {},  // Don't lay out nodes with `display: none`.
        }
        i += 1;
    }
    root
}

/// Builds the boxes for a styled tree and lays them out inside a viewport.
/// Layout starts at the top of the viewport, whatever height it has: the
/// height says how much can be seen, not how much is already taken.
pub fn layout_tree<'a>(node: &'a StyledNode<'a>, containing_block: Dimensions) -> (r: LayoutBox<
    'a,
>)
    requires
        display_of(node@.specified_values) != Display::Hidden,
    ensures
        r@ == laid_out(built(node@), with_content_height(containing_block, Px { units: 0 })),
{
    // The layout algorithm expects the container height to start at 0.
    let mut viewport = containing_block;
    viewport.content.height = Px::zero();

    let mut root_box = build_layout_tree(node);
    root_box.layout(viewport);
    root_box
}

} // verus!
