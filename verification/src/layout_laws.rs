//! What holds of every layout: how the width equation comes out, how
//! children stack, and what a hidden child leaves behind.

use vstd::prelude::*;
use crate::layout::{
    BoxTypeModel, Dimensions, LayoutBoxModel, WidthCase, WidthInputs, auto_keyword, built,
    dimensions_after, laid_out, new_box, box_type_for, settled_inputs, solve_width, sum_of,
    too_wide, total_width, underflow_of, width_case, with_children, with_content_height,
    with_position, with_width,
};
use crate::style::{Display, StyledNodeModel, display_of};
use crate::units::{Px, representable};

verus! {

/// Whether adding up `values` from the left never saturates.
pub open spec fn sums_exactly(values: Seq<Px>) -> bool
    decreases values.len(),
{
    values.len() == 0 || (sums_exactly(values.drop_last()) && representable(
        sum_of(values.drop_last())@ + values.last()@,
    ))
}

/// Whether the width equation for these inputs is solved without any sum
/// or difference leaving the range of lengths.
pub open spec fn width_arithmetic_is_exact(inputs: WidthInputs, containing_width: Px) -> bool {
    &&& sums_exactly(
        seq![
            inputs.margin_left.to_px(),
            inputs.margin_right.to_px(),
            inputs.border_left.to_px(),
            inputs.border_right.to_px(),
            inputs.padding_left.to_px(),
            inputs.padding_right.to_px(),
            inputs.width.to_px(),
        ],
    )
    &&& representable(containing_width@ - total_width(inputs)@)
    &&& representable(
        settled_inputs(inputs, containing_width).margin_right.to_px()@ + underflow_of(
            inputs,
            containing_width,
        )@,
    )
}

/// The seven lengths of `inputs`, added up without bound.
pub open spec fn exact_total(inputs: WidthInputs) -> int {
    inputs.margin_left.to_px()@ + inputs.margin_right.to_px()@ + inputs.border_left.to_px()@
        + inputs.border_right.to_px()@ + inputs.padding_left.to_px()@
        + inputs.padding_right.to_px()@ + inputs.width.to_px()@
}

/// Where no sum saturates, the total is the plain sum of the seven lengths.
pub proof fn lemma_total_width_exact(inputs: WidthInputs, containing_width: Px)
    requires
        width_arithmetic_is_exact(inputs, containing_width),
    ensures
        total_width(inputs)@ == exact_total(inputs),
{
    let s = seq![
        inputs.margin_left.to_px(),
        inputs.margin_right.to_px(),
        inputs.border_left.to_px(),
        inputs.border_right.to_px(),
        inputs.padding_left.to_px(),
        inputs.padding_right.to_px(),
        inputs.width.to_px(),
    ];
    let s6 = s.drop_last();
    let s5 = s6.drop_last();
    let s4 = s5.drop_last();
    let s3 = s4.drop_last();
    let s2 = s3.drop_last();
    let s1 = s2.drop_last();
    let s0 = s1.drop_last();
    assert(s0.len() == 0);
    assert(sum_of(s0)@ == 0);
    assert(sums_exactly(s));
    assert(sums_exactly(s6));
    assert(sums_exactly(s5));
    assert(sums_exactly(s4));
    assert(sums_exactly(s3));
    assert(sums_exactly(s2));
    assert(sums_exactly(s1));
    assert(sum_of(s1)@ == s[0]@);
    assert(sum_of(s2)@ == s[0]@ + s[1]@);
    assert(sum_of(s3)@ == s[0]@ + s[1]@ + s[2]@);
    assert(sum_of(s4)@ == s[0]@ + s[1]@ + s[2]@ + s[3]@);
    assert(sum_of(s5)@ == s[0]@ + s[1]@ + s[2]@ + s[3]@ + s[4]@);
    assert(sum_of(s6)@ == s[0]@ + s[1]@ + s[2]@ + s[3]@ + s[4]@ + s[5]@);
    assert(sum_of(s)@ == s[0]@ + s[1]@ + s[2]@ + s[3]@ + s[4]@ + s[5]@ + s[6]@);
}

/// Every combination of given and `auto` values for the width and the two
/// margins falls under exactly one of the five cases, and the case is
/// decided by which of the three are `auto` once a box that is too wide has
/// had its `auto` margins set to zero.
pub proof fn lemma_width_case_total(inputs: WidthInputs, containing_width: Px)
    ensures
        ({
            let s = settled_inputs(inputs, containing_width);
            let width_auto = s.width == auto_keyword();
            let left_auto = s.margin_left == auto_keyword();
            let right_auto = s.margin_right == auto_keyword();
            &&& width_case(s) == WidthCase::Overconstrained <==> !width_auto && !left_auto
                && !right_auto
            &&& width_case(s) == WidthCase::AutoMarginRight <==> !width_auto && !left_auto
                && right_auto
            &&& width_case(s) == WidthCase::AutoMarginLeft <==> !width_auto && left_auto
                && !right_auto
            &&& width_case(s) == WidthCase::AutoWidth <==> width_auto
            &&& width_case(s) == WidthCase::AutoMargins <==> !width_auto && left_auto
                && right_auto
            &&& s.width == inputs.width
            &&& too_wide(inputs, containing_width) ==> width_case(s) == WidthCase::Overconstrained
        }),
{
}

/// Where the arithmetic is exact, the solved width, margins, borders and
/// paddings together fill the containing block's width.  The one exception
/// is a box whose two `auto` margins share an odd amount of space: each
/// gets half, rounded down, and one unit is left over.
pub proof fn lemma_widths_fill_containing_block(inputs: WidthInputs, containing_width: Px)
    requires
        width_arithmetic_is_exact(inputs, containing_width),
    ensures
        ({
            let w = solve_width(inputs, containing_width);
            let filled = w.width@ + w.margin_left@ + w.margin_right@ + w.border_left@
                + w.border_right@ + w.padding_left@ + w.padding_right@;
            let underflow = underflow_of(inputs, containing_width);
            if width_case(settled_inputs(inputs, containing_width)) == WidthCase::AutoMargins {
                underflow@ >= 0 && filled == containing_width@ - underflow@ % 2
            } else {
                filled == containing_width@
            }
        }),
{
    lemma_total_width_exact(inputs, containing_width);
    lemma_width_case_total(inputs, containing_width);
}

/// A box with a width of its own and two `auto` margins, which is not wider
/// than the block that contains it, gets equal margins: each is half of the
/// space left over.
pub proof fn lemma_auto_margins_are_equal(inputs: WidthInputs, containing_width: Px)
    requires
        inputs.width != auto_keyword(),
        inputs.margin_left == auto_keyword(),
        inputs.margin_right == auto_keyword(),
        !too_wide(inputs, containing_width),
    ensures
        ({
            let w = solve_width(inputs, containing_width);
            let underflow = underflow_of(inputs, containing_width);
            &&& w.margin_left == w.margin_right
            &&& w.margin_left == underflow.spec_half()
            &&& underflow@ >= 0
        }),
{
}

// ---------------------------------------------------------------------------
// Stacking
// ---------------------------------------------------------------------------

/// Laying out children changes nothing of the parent but its content
/// height.
pub proof fn lemma_children_only_grow_parent(
    children: Seq<LayoutBoxModel>,
    parent: Dimensions,
    n: nat,
)
    ensures
        ({
            let after = dimensions_after(children, parent, n);
            after == with_content_height(parent, after.content.height)
        }),
    decreases n,
{
    if n == 0 || n > children.len() {
    } else {
        lemma_children_only_grow_parent(children, parent, (n - 1) as nat);
    }
}

/// Child `i` of a parent as layout leaves it: laid out inside the parent
/// as the children before it have left it.
pub open spec fn child_laid_out(children: Seq<LayoutBoxModel>, parent: Dimensions, i: int)
    -> LayoutBoxModel {
    laid_out(children[i], dimensions_after(children, parent, i as nat))
}

/// A length small enough that a handful of them add up without saturating.
pub open spec fn modest(v: Px) -> bool {
    -0x0800_0000_0000_0000 <= v@ <= 0x0800_0000_0000_0000
}

/// Whether the top edges of `d` and the height of its margin box are all
/// modest.
pub open spec fn modest_vertically(d: Dimensions) -> bool {
    &&& modest(d.margin.top)
    &&& modest(d.border.top)
    &&& modest(d.padding.top)
    &&& modest(d.spec_margin_box().height)
}

/// Block children stack without gap or overlap: the margin box of each
/// starts where the margin box of the one before it ends.  Where the two
/// have the same margin, border and padding above their content, the same
/// holds of their content areas: the second starts lower than the first by
/// the height of the first's margin box.
pub proof fn lemma_block_stacking(children: Seq<LayoutBoxModel>, parent: Dimensions, i: int)
    requires
        0 <= i,
        i + 1 < children.len(),
        children[i].box_type is BlockNode,
        children[i + 1].box_type is BlockNode,
        modest(parent.content.y),
        modest(dimensions_after(children, parent, i as nat).content.height),
        modest_vertically(child_laid_out(children, parent, i).dimensions),
        modest_vertically(child_laid_out(children, parent, i + 1).dimensions),
    ensures
        ({
            let first = child_laid_out(children, parent, i).dimensions;
            let second = child_laid_out(children, parent, i + 1).dimensions;
            &&& second.spec_margin_box().y@ == first.spec_margin_box().y@
                + first.spec_margin_box().height@
            &&& first.margin.top@ + first.border.top@ + first.padding.top@ == second.margin.top@
                + second.border.top@ + second.padding.top@ ==> second.content.y@
                == first.content.y@ + first.spec_margin_box().height@
        }),
{
    let before = dimensions_after(children, parent, i as nat);
    let after = dimensions_after(children, parent, (i + 1) as nat);
    lemma_children_only_grow_parent(children, parent, i as nat);
    lemma_children_only_grow_parent(children, parent, (i + 1) as nat);
    lemma_position_survives_layout(children[i], before);
    lemma_position_survives_layout(children[i + 1], after);
    assert(after.content.height == before.content.height.spec_plus(
        child_laid_out(children, parent, i).dimensions.spec_margin_box().height,
    ));
}

/// A block box keeps, through the layout of its children and the setting of
/// its height, the position and the edges that it was given.
pub proof fn lemma_position_survives_layout(b: LayoutBoxModel, containing: Dimensions)
    requires
        b.box_type is BlockNode,
    ensures
        ({
            let values = b.box_type.style()->0;
            let placed = with_position(
                with_width(b.dimensions, values, containing.content.width),
                values,
                containing,
            );
            let done = laid_out(b, containing).dimensions;
            done == with_content_height(placed, done.content.height)
        }),
{
    let values = b.box_type.style()->0;
    let placed = with_position(
        with_width(b.dimensions, values, containing.content.width),
        values,
        containing,
    );
    lemma_children_only_grow_parent(b.children, placed, b.children.len());
}

// ---------------------------------------------------------------------------
// Hidden children
// ---------------------------------------------------------------------------

/// Whether two boxes differ at most in which styled node stands behind
/// them: they have the same dimensions and children, and both are blocks or
/// neither is.
pub open spec fn same_but_for_node(a: LayoutBoxModel, b: LayoutBoxModel) -> bool {
    &&& a.dimensions == b.dimensions
    &&& a.children == b.children
    &&& a.box_type is BlockNode <==> b.box_type is BlockNode
}

/// Giving boxes to the same children keeps two such roots alike.
pub proof fn lemma_with_children_same_but_for_node(
    a: LayoutBoxModel,
    b: LayoutBoxModel,
    kids: Seq<StyledNodeModel>,
    n: nat,
)
    requires
        same_but_for_node(a, b),
    ensures
        same_but_for_node(with_children(a, kids, n), with_children(b, kids, n)),
        with_children(a, kids, n).box_type == a.box_type,
        with_children(b, kids, n).box_type == b.box_type,
    decreases n,
{
    if n == 0 || n > kids.len() {
    } else {
        lemma_with_children_same_but_for_node(a, b, kids, (n - 1) as nat);
    }
}

/// A hidden child among the children leaves no trace in the boxes: the
/// result is what it would be had the child not been there.
pub proof fn lemma_hidden_child_adds_no_box(
    root: LayoutBoxModel,
    kids: Seq<StyledNodeModel>,
    k: int,
    hidden: StyledNodeModel,
    n: nat,
)
    requires
        0 <= k <= kids.len(),
        display_of(hidden.specified_values) == Display::Hidden,
        n <= kids.len() + 1,
    ensures
        with_children(root, kids.insert(k, hidden), n) == with_children(
            root,
            kids,
            if n <= k {
                n
            } else {
                (n - 1) as nat
            },
        ),
    decreases n,
{
    let more = kids.insert(k, hidden);
    if n == 0 {
    } else {
        lemma_hidden_child_adds_no_box(root, kids, k, hidden, (n - 1) as nat);
        if n - 1 < k {
            assert(more[n - 1] == kids[n - 1]);
        } else if n - 1 == k {
            assert(more[n - 1] == hidden);
        } else {
            assert(more[n - 1] == kids[n - 2]);
        }
    }
}

/// A child with `display: none` contributes no box and no height: a styled
/// node with such a child added anywhere among its children gets the same
/// child boxes, and after layout the same dimensions, as without it.
pub proof fn lemma_hidden_child_is_pruned(
    s: StyledNodeModel,
    k: int,
    hidden: StyledNodeModel,
    containing: Dimensions,
)
    requires
        0 <= k <= s.children.len(),
        display_of(hidden.specified_values) == Display::Hidden,
    ensures
        ({
            let t = StyledNodeModel { children: s.children.insert(k, hidden), ..s };
            &&& built(t).children == built(s).children
            &&& built(t).dimensions == built(s).dimensions
            &&& laid_out(built(t), containing).children == laid_out(built(s), containing).children
            &&& laid_out(built(t), containing).dimensions == laid_out(
                built(s),
                containing,
            ).dimensions
        }),
{
    let t = StyledNodeModel { children: s.children.insert(k, hidden), ..s };
    let root_s = new_box(box_type_for(s));
    let root_t = new_box(box_type_for(t));
    lemma_hidden_child_adds_no_box(root_t, s.children, k, hidden, t.children.len());
    lemma_with_children_same_but_for_node(root_t, root_s, s.children, s.children.len());
    let a = built(t);
    let b = built(s);
    assert(same_but_for_node(a, b));
    assert(a.box_type.style() == b.box_type.style());
    assert(laid_out(a, containing).children =~= laid_out(b, containing).children);
}

// ---------------------------------------------------------------------------
// The shape of the tree
// ---------------------------------------------------------------------------

/// Whether the children of `b`, if it is a block, are grouped as the
/// children of a block are: none of them is an inline box; an anonymous
/// block among them holds inline boxes only, and at least one; and no two
/// anonymous blocks stand side by side.
pub open spec fn is_grouped(b: LayoutBoxModel) -> bool {
    b.box_type is BlockNode ==> {
        &&& forall|i: int|
            0 <= i < b.children.len() ==> !((#[trigger] b.children[i]).box_type is InlineNode)
        &&& forall|i: int|
            0 <= i < b.children.len() && (#[trigger] b.children[i]).box_type is AnonymousBlock
                ==> holds_inline_boxes(b.children[i])
        &&& forall|i: int|
            0 <= i && i + 1 < b.children.len() ==> !((
            #[trigger] b.children[i]).box_type is AnonymousBlock
                && b.children[i + 1].box_type is AnonymousBlock)
    }
}

/// Whether `b` has children and all of them are inline boxes.
pub open spec fn holds_inline_boxes(b: LayoutBoxModel) -> bool {
    &&& b.children.len() > 0
    &&& forall|j: int|
        0 <= j < b.children.len() ==> (#[trigger] b.children[j]).box_type is InlineNode
}

/// Whether `b` and every box below it is grouped.
pub open spec fn is_grouped_throughout(b: LayoutBoxModel) -> bool
    decreases b,
{
    &&& is_grouped(b)
    &&& forall|i: int|
        0 <= i < b.children.len() ==> is_grouped_throughout(#[trigger] b.children[i])
}

/// In the tree built for a styled node, block and inline boxes are never
/// siblings under a block: the inline children of a block stand in
/// anonymous blocks, one for each run of them.
pub proof fn lemma_built_is_grouped(s: StyledNodeModel)
    ensures
        is_grouped_throughout(built(s)),
        built(s).box_type == box_type_for(s),
    decreases s, 0nat,
{
    let root = new_box(box_type_for(s));
    lemma_with_children_is_grouped(root, s.children, s.children.len());
}

/// Giving boxes to children keeps a grouped box grouped.
pub proof fn lemma_with_children_is_grouped(
    root: LayoutBoxModel,
    kids: Seq<StyledNodeModel>,
    n: nat,
)
    requires
        is_grouped_throughout(root),
    ensures
        is_grouped_throughout(with_children(root, kids, n)),
        with_children(root, kids, n).box_type == root.box_type,
    decreases kids, n,
{
    if n == 0 || n > kids.len() {
    } else {
        lemma_with_children_is_grouped(root, kids, (n - 1) as nat);
        let before = with_children(root, kids, (n - 1) as nat);
        let kid = kids[n - 1];
        let after = with_children(root, kids, n);
        if display_of(kid.specified_values) != Display::Hidden {
            lemma_built_is_grouped(kid);
            let child = built(kid);
            if display_of(kid.specified_values) == Display::Block {
                assert forall|i: int| 0 <= i < after.children.len() implies is_grouped_throughout(
                    #[trigger] after.children[i],
                ) by {
                    if i < before.children.len() {
                        assert(after.children[i] == before.children[i]);
                    }
                }
                assert(is_grouped(after)) by {
                    assert forall|i: int| 0 <= i < after.children.len() implies (
                    #[trigger] after.children[i] == if i < before.children.len() {
                        before.children[i]
                    } else {
                        child
                    }) by {}
                }
            } else if before.box_type is BlockNode {
                if crate::layout::ends_in_anonymous_block(before) {
                    let last = before.children.len() - 1;
                    let grown = crate::layout::with_child(before.children[last], child);
                    assert(holds_inline_boxes(before.children[last]));
                    assert forall|j: int| 0 <= j < grown.children.len() implies (
                    #[trigger] grown.children[j]).box_type is InlineNode && is_grouped_throughout(
                        grown.children[j],
                    ) by {
                        if j < before.children[last].children.len() {
                            assert(grown.children[j] == before.children[last].children[j]);
                            assert(is_grouped_throughout(before.children[last]));
                        }
                    }
                    assert(is_grouped_throughout(grown));
                    assert forall|i: int| 0 <= i < after.children.len() implies (
                    #[trigger] after.children[i] == if i < last {
                        before.children[i]
                    } else {
                        grown
                    }) by {}
                    assert(is_grouped(after));
                } else {
                    let fresh = crate::layout::with_child(
                        new_box(BoxTypeModel::AnonymousBlock),
                        child,
                    );
                    assert(fresh.children[0] == child);
                    assert(is_grouped_throughout(fresh));
                    assert(holds_inline_boxes(fresh));
                    assert forall|i: int| 0 <= i < after.children.len() implies (
                    #[trigger] after.children[i] == if i < before.children.len() {
                        before.children[i]
                    } else {
                        fresh
                    }) by {}
                    assert(is_grouped(after));
                }
            } else {
                assert forall|i: int| 0 <= i < after.children.len() implies (
                #[trigger] after.children[i] == if i < before.children.len() {
                    before.children[i]
                } else {
                    child
                }) by {}
            }
        }
    }
}

/// Layout changes dimensions only: every box keeps its type and the number
/// of its children.
pub proof fn lemma_layout_keeps_shape(b: LayoutBoxModel, containing: Dimensions)
    ensures
        laid_out(b, containing).box_type == b.box_type,
        laid_out(b, containing).children.len() == b.children.len(),
        !(b.box_type is BlockNode) ==> laid_out(b, containing) == b,
{
}

} // verus!
