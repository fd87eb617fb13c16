use pagelayout::Mm;
use pagelayout::geometry::{Position, Rotation, TrigSamples, TRIG_ONE};
use pagelayout::images::{Alignment, Image, ImageLoadError, Scale};

fn no_rotation_trig() -> TrigSamples {
    TrigSamples::new(0, TRIG_ONE).expect("samples in range")
}

#[test]
fn alignment_offsets_left_center_right() {
    // available width 100, element width 40 (in millimeters)
    let img = Image::new(1, 1);
    let left = img.get_offset(Mm::new(40000), Mm::new(100000));
    assert_eq!(left.x.thousandths, 0);
    assert_eq!(left.y.thousandths, 0);

    let img = img.with_alignment(Alignment::Center);
    let center = img.get_offset(Mm::new(40000), Mm::new(100000));
    assert_eq!(center.x.thousandths, 30000);

    let img = img.with_alignment(Alignment::Right);
    let right = img.get_offset(Mm::new(40000), Mm::new(100000));
    assert_eq!(right.x.thousandths, 60000);
}

#[test]
fn size_follows_pixels_scale_and_dpi() {
    // 300 x 600 pixels at the default 300 dpi: 25.4 mm x 50.8 mm
    let img = Image::new(300, 600);
    let size = img.get_size();
    assert_eq!(size.width.thousandths, 25400);
    assert_eq!(size.height.thousandths, 50800);

    // halving the horizontal scale halves the width
    let img = img.with_scale(Scale::new(500, 1000).unwrap());
    let size = img.get_size();
    assert_eq!(size.width.thousandths, 12700);
    assert_eq!(size.height.thousandths, 50800);

    // doubling the dpi halves both dimensions
    let img = Image::new(300, 600).with_dpi(600);
    let size = img.get_size();
    assert_eq!(size.width.thousandths, 12700);
    assert_eq!(size.height.thousandths, 25400);
}

#[test]
fn place_without_position_uses_alignment_and_reports_size() {
    let img = Image::new(300, 300).with_alignment(Alignment::Center);
    assert!(img.size_within_limits());
    let (pos, result) = img.place(Mm::new(100000), &no_rotation_trig());
    // element is 25.4 mm wide; centering in 100 mm gives 37.3 mm
    assert_eq!(pos.x.thousandths, 37300);
    // unrotated: the origin offset is (0, h)
    assert_eq!(pos.y.thousandths, 25400);
    assert_eq!(result.size.width.thousandths, 25400);
    assert_eq!(result.size.height.thousandths, 25400);
    assert!(!result.has_more);
}

#[test]
fn place_with_absolute_position_ignores_alignment() {
    let img = Image::new(300, 300)
        .with_alignment(Alignment::Right)
        .with_position(Position::new(Mm::new(5000), Mm::new(7000)));
    let (pos, result) = img.place(Mm::new(100000), &no_rotation_trig());
    assert_eq!(pos.x.thousandths, 5000);
    assert_eq!(pos.y.thousandths, 7000 + 25400);
    // an absolutely positioned element consumes no layout space
    assert_eq!(result.size.width.thousandths, 0);
    assert_eq!(result.size.height.thousandths, 0);
    assert!(!result.has_more);
}

#[test]
fn place_with_quarter_turn_swaps_the_reported_size() {
    let img = Image::new(300, 600)
        .with_clockwise_rotation(Rotation::new(90000).unwrap());
    let quarter = TrigSamples::new(TRIG_ONE, 0).unwrap();
    let (pos, result) = img.place(Mm::new(100000), &quarter);
    // 25.4 x 50.8 mm rotated a quarter turn: box is 50.8 x 25.4 mm
    assert_eq!(result.size.width.thousandths, 50800);
    assert_eq!(result.size.height.thousandths, 25400);
    // left alignment, offset (h, bb_h)
    assert_eq!(pos.x.thousandths, 50800);
    assert_eq!(pos.y.thousandths, 25400);
}

#[test]
fn builder_steps_accumulate() {
    let img = Image::new(10, 20)
        .with_alignment(Alignment::Center)
        .with_scale(Scale::new(2000, 3000).unwrap())
        .with_dpi(150)
        .with_clockwise_rotation(Rotation::new(-45000).unwrap());
    assert_eq!(img.px_width, 10);
    assert_eq!(img.px_height, 20);
    assert_eq!(img.alignment, Alignment::Center);
    assert_eq!(img.scale, Scale::new(2000, 3000).unwrap());
    assert_eq!(img.dpi, Some(150));
    assert_eq!(img.rotation.millidegrees, -45000);
    assert!(img.position.is_none());

    let mut img2 = Image::new(1, 1);
    img2.set_alignment(Alignment::Right);
    img2.set_dpi(72);
    img2.set_position(Position::new(Mm::new(1), Mm::new(2)));
    assert_eq!(img2.alignment, Alignment::Right);
    assert_eq!(img2.dpi, Some(72));
    assert_eq!(img2.position, Some(Position::new(Mm::new(1), Mm::new(2))));
}

#[test]
fn load_errors_are_three_distinct_values() {
    let open = ImageLoadError::InputOpen;
    let format = ImageLoadError::FormatDetection;
    let decode = ImageLoadError::Decode;
    assert_ne!(open, format);
    assert_ne!(format, decode);
    assert_ne!(open, decode);
    assert_eq!(open.description(), "Unable to open path.");
    assert_eq!(format.description(), "Unable to determine image format.");
    assert_eq!(decode.description(), "Unable to decode image.");
}

#[test]
fn scale_outside_limits_is_rejected() {
    assert!(Scale::new(-1, 1000).is_none());
    assert!(Scale::new(1000, -1).is_none());
    assert!(Scale::new(0, 0).is_some());
}
