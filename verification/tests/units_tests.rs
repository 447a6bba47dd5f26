use robinson::layout::{sum, Dimensions, EdgeSizes, Rect};
use robinson::units::{Px, UNITS_PER_PIXEL};

fn px(n: i32) -> Px {
    Px::from_pixels(n)
}

#[test]
fn a_pixel_is_a_thousand_units() {
    assert_eq!(UNITS_PER_PIXEL, 1000);
    assert_eq!(px(1).units, 1000);
    assert_eq!(px(-3).units, -3000);
    assert_eq!(px(i32::MAX).units, 2_147_483_647_000);
    assert_eq!(Px::zero().units, 0);
    assert_eq!(Px::default(), Px::zero());
    assert_eq!(Px::from_units(1500).units, 1500);
}

#[test]
fn sums_and_differences_are_exact_in_range() {
    assert_eq!(px(2).plus(px(3)), px(5));
    assert_eq!(px(2).minus(px(3)), px(-1));
    assert_eq!(Px::from_units(1).plus(Px::from_units(-1)), Px::zero());
}

#[test]
fn sums_and_differences_saturate() {
    let most = Px::from_units(i64::MAX);
    let least = Px::from_units(i64::MIN);
    assert_eq!(most.plus(px(1)), most);
    assert_eq!(least.minus(px(1)), least);
    assert_eq!(least.plus(px(-1)), least);
    assert_eq!(most.minus(least), most);
    assert_eq!(least.minus(most), least);
    assert_eq!(Px::from_wide(i128::MAX), most);
    assert_eq!(Px::from_wide(i128::MIN), least);
    assert_eq!(Px::from_wide(-7), Px::from_units(-7));
}

#[test]
fn half_rounds_towards_zero() {
    assert_eq!(Px::from_units(7).half(), Px::from_units(3));
    assert_eq!(Px::from_units(-7).half(), Px::from_units(-3));
    assert_eq!(Px::from_units(8).half(), Px::from_units(4));
    assert_eq!(Px::from_units(0).half(), Px::from_units(0));
    assert_eq!(Px::from_units(i64::MIN).half(), Px::from_units(i64::MIN / 2));
    assert_eq!(Px::from_units(i64::MAX).half(), Px::from_units(i64::MAX / 2));
}

#[test]
fn comparisons() {
    assert!(px(2).exceeds(px(1)));
    assert!(!px(1).exceeds(px(1)));
    assert!(!px(-1).exceeds(px(1)));
    assert!(px(0).is_non_negative());
    assert!(!Px::from_units(-1).is_non_negative());
}

#[test]
fn sum_adds_from_the_left() {
    assert_eq!(sum(&vec![]), Px::zero());
    assert_eq!(sum(&vec![px(1), px(2), px(3)]), px(6));
    // Saturation depends on the order: the running total hits the top
    // before the negative length comes.
    let most = Px::from_units(i64::MAX);
    assert_eq!(sum(&vec![most, px(1), px(-1)]), most.minus(px(1)));
    assert_eq!(sum(&vec![px(-1), most, px(1)]), most);
}

#[test]
fn a_rectangle_grows_by_its_edges() {
    let r = Rect { x: px(10), y: px(20), width: px(100), height: px(50) };
    let e = EdgeSizes { left: px(1), right: px(2), top: px(3), bottom: px(4) };
    let grown = r.expanded_by(e);
    assert_eq!(grown, Rect { x: px(9), y: px(17), width: px(103), height: px(57) });
}

#[test]
fn boxes_are_nested_expansions_of_the_content() {
    let d = Dimensions {
        content: Rect { x: px(100), y: px(200), width: px(50), height: px(40) },
        padding: EdgeSizes { left: px(1), right: px(2), top: px(3), bottom: px(4) },
        border: EdgeSizes { left: px(10), right: px(20), top: px(30), bottom: px(40) },
        margin: EdgeSizes { left: px(5), right: px(6), top: px(7), bottom: px(8) },
    };
    assert_eq!(d.padding_box(), Rect { x: px(99), y: px(197), width: px(53), height: px(47) });
    assert_eq!(d.border_box(), Rect { x: px(89), y: px(167), width: px(83), height: px(117) });
    assert_eq!(d.margin_box(), Rect { x: px(84), y: px(160), width: px(94), height: px(132) });
    assert_eq!(d.padding_box(), d.content.expanded_by(d.padding));
    assert_eq!(d.border_box(), d.padding_box().expanded_by(d.border));
    assert_eq!(d.margin_box(), d.border_box().expanded_by(d.margin));
}

#[test]
fn default_dimensions_are_all_zero() {
    let d = Dimensions::default();
    assert_eq!(d.content, Rect { x: px(0), y: px(0), width: px(0), height: px(0) });
    assert_eq!(d.padding, EdgeSizes { left: px(0), right: px(0), top: px(0), bottom: px(0) });
    assert_eq!(d.border, EdgeSizes::default());
    assert_eq!(d.margin, EdgeSizes::default());
    assert_eq!(d.margin_box(), Rect::default());
}
