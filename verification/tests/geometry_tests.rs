use pagelayout::Mm;
use pagelayout::geometry::{
    bounding_box_offset_and_size, reference_angle_millidegrees, Position, Rotation, Size,
    TrigSamples, TRIG_ONE,
};

fn rot(mdeg: i64) -> Rotation {
    Rotation::new(mdeg).expect("rotation in range")
}

fn trig(sin: i64, cos: i64) -> TrigSamples {
    TrigSamples::new(sin, cos).expect("samples in range")
}

fn size(w: i64, h: i64) -> Size {
    Size::new(Mm::new(w), Mm::new(h))
}

#[test]
fn unrotated_box_is_the_rectangle_with_origin_at_height() {
    let (off, bb) = bounding_box_offset_and_size(&rot(0), &size(40000, 30000), &trig(0, TRIG_ONE));
    assert_eq!(bb.width.thousandths, 40000);
    assert_eq!(bb.height.thousandths, 30000);
    assert_eq!(off.x.thousandths, 0);
    assert_eq!(off.y.thousandths, 30000);
}

#[test]
fn quarter_turn_swaps_width_and_height() {
    let (off, bb) =
        bounding_box_offset_and_size(&rot(90000), &size(40000, 30000), &trig(TRIG_ONE, 0));
    assert_eq!(bb.width.thousandths, 30000);
    assert_eq!(bb.height.thousandths, 40000);
    assert_eq!(off.x.thousandths, 30000);
    assert_eq!(off.y.thousandths, 40000);
}

#[test]
fn negative_quarter_turn_swaps_width_and_height() {
    let (off, bb) =
        bounding_box_offset_and_size(&rot(-90000), &size(40000, 30000), &trig(TRIG_ONE, 0));
    assert_eq!(bb.width.thousandths, 30000);
    assert_eq!(bb.height.thousandths, 40000);
    assert_eq!(off.x.thousandths, 0);
    assert_eq!(off.y.thousandths, 0);
}

#[test]
fn half_turn_restores_the_size() {
    let (off, bb) =
        bounding_box_offset_and_size(&rot(180000), &size(40000, 30000), &trig(TRIG_ONE, 0));
    assert_eq!(bb.width.thousandths, 40000);
    assert_eq!(bb.height.thousandths, 30000);
    assert_eq!(off.x.thousandths, 40000);
    assert_eq!(off.y.thousandths, 0);

    let (off2, bb2) =
        bounding_box_offset_and_size(&rot(-180000), &size(40000, 30000), &trig(0, TRIG_ONE));
    assert_eq!(bb2.width.thousandths, 40000);
    assert_eq!(bb2.height.thousandths, 30000);
    assert_eq!(off2.x.thousandths, 40000);
    assert_eq!(off2.y.thousandths, 0);
}

#[test]
fn oblique_rotation_follows_the_formulas() {
    // 45 degrees: sine and cosine about 0.707107
    let s: i64 = 707107;
    let (off, bb) =
        bounding_box_offset_and_size(&rot(45000), &size(40000, 30000), &trig(s, s));
    // (h*s + w*c) / 1e6 and (w*s + h*c) / 1e6
    let expect = (70000i64 * s) / 1000000;
    assert_eq!(bb.width.thousandths, expect);
    assert_eq!(bb.height.thousandths, expect);
    assert_eq!(off.x.thousandths, (30000i64 * s) / 1000000);
    assert_eq!(off.y.thousandths, expect);
}

#[test]
fn opposite_rotations_give_equal_bounding_sizes() {
    // d and d - 180 share a reference angle below a quarter turn
    let s: i64 = 500000;
    let c: i64 = 866025;
    let (_, bb_pos) =
        bounding_box_offset_and_size(&rot(30000), &size(40000, 30000), &trig(s, c));
    let (_, bb_neg) =
        bounding_box_offset_and_size(&rot(-150000), &size(40000, 30000), &trig(s, c));
    assert_eq!(bb_pos.width.thousandths, bb_neg.width.thousandths);
    assert_eq!(bb_pos.height.thousandths, bb_neg.height.thousandths);

    // past a quarter turn the partner takes the samples swapped
    let (_, bb_pos2) =
        bounding_box_offset_and_size(&rot(120000), &size(40000, 30000), &trig(s, c));
    let (_, bb_neg2) =
        bounding_box_offset_and_size(&rot(-60000), &size(40000, 30000), &trig(c, s));
    assert_eq!(bb_pos2.width.thousandths, bb_neg2.width.thousandths);
    assert_eq!(bb_pos2.height.thousandths, bb_neg2.height.thousandths);
}

#[test]
fn reference_angle_by_quadrant() {
    assert_eq!(reference_angle_millidegrees(&rot(0)), 0);
    assert_eq!(reference_angle_millidegrees(&rot(45000)), 45000);
    assert_eq!(reference_angle_millidegrees(&rot(90000)), 90000);
    assert_eq!(reference_angle_millidegrees(&rot(135000)), 45000);
    assert_eq!(reference_angle_millidegrees(&rot(180000)), 90000);
    assert_eq!(reference_angle_millidegrees(&rot(-45000)), 45000);
    assert_eq!(reference_angle_millidegrees(&rot(-90000)), 90000);
    assert_eq!(reference_angle_millidegrees(&rot(-135000)), 45000);
    assert_eq!(reference_angle_millidegrees(&rot(-180000)), 0);
}

#[test]
fn out_of_range_rotation_is_rejected() {
    assert!(Rotation::new(180001).is_none());
    assert!(Rotation::new(-180001).is_none());
    assert!(Rotation::new(180000).is_some());
    assert!(Rotation::new(-180000).is_some());
    assert!(TrigSamples::new(-1, 0).is_none());
    assert!(TrigSamples::new(0, TRIG_ONE + 1).is_none());
}

#[test]
fn positions_translate_by_addition() {
    let a = Position::new(Mm::new(10), Mm::new(-20));
    let b = Position::new(Mm::new(5), Mm::new(7));
    let c = a.translate(b);
    assert_eq!(c.x.thousandths, 15);
    assert_eq!(c.y.thousandths, -13);
}
