use sghelper::geometry::{
    distance_for_separation, eye_separation, half_fov_tangent, stereo_geometry, InputError,
};
use sghelper::length::Length;
use sghelper::parse::ParseError;

fn args(list: &[&str]) -> Vec<String> {
    list.iter().map(|s| s.to_string()).collect()
}

fn value(r: sghelper::length::Ratio) -> f64 {
    r.num as f64 / r.den as f64
}

#[test]
fn eye_separation_is_six_point_two_centimeters() {
    assert_eq!(eye_separation(), Length::try_from_str("6.2cm").unwrap());
}

#[test]
fn distance_formula() {
    let sep = Length::try_from_str("3cm").unwrap();
    let face = Length::try_from_str("1m").unwrap();
    let r = distance_for_separation(sep, eye_separation(), face);
    assert_eq!(r.num, 62_000_000i128 * 1_000_000_000);
    assert_eq!(r.den, 32_000_000);
    assert_eq!(value(r) / 10_000_000.0, 193.75);
}

#[test]
fn separation_beyond_the_eyes_gives_a_negative_distance() {
    let sep = Length::try_from_str("10cm").unwrap();
    let face = Length::try_from_str("1m").unwrap();
    assert!(value(distance_for_separation(sep, eye_separation(), face)) < 0.0);
}

#[test]
fn field_of_view_uses_the_narrower_side() {
    let w = Length::try_from_str("16cm").unwrap();
    let h = Length::try_from_str("9cm").unwrap();
    let face = Length::try_from_str("1m").unwrap();
    let t = half_fov_tangent(w, h, face);
    assert_eq!(t.num, 90_000_000);
    assert_eq!(t.den, 2_000_000_000);
    assert_eq!(half_fov_tangent(h, w, face), t);
    let degrees = (2.0 * value(t).atan()).to_degrees();
    assert!((degrees - 5.1524).abs() < 1e-3, "{}", degrees);
}

#[test]
fn five_lengths_give_fov_and_two_distances() {
    let g = stereo_geometry(&args(&["1m", "16cm", "9cm", "3cm", "5cm"])).unwrap();
    let min_cm = value(g.min_distance) / 10_000_000.0;
    let max_cm = value(g.max_distance) / 10_000_000.0;
    assert!(min_cm < max_cm);
    assert_eq!(format!("{:.2}", min_cm), "193.75");
    assert_eq!(format!("{:.2}", max_cm), "516.67");
    let fov = (2.0 * value(g.half_fov_tangent).atan()).to_degrees();
    assert_eq!(format!("{:.1}", fov), "5.2");
}

#[test]
fn four_arguments_are_refused() {
    assert_eq!(
        stereo_geometry(&args(&["1m", "16cm", "9cm", "3cm"])),
        Err(InputError::ArgumentCount(4))
    );
    assert_eq!(stereo_geometry(&args(&[])), Err(InputError::ArgumentCount(0)));
}

#[test]
fn separation_at_eye_distance_is_infinitely_far() {
    let g = stereo_geometry(&args(&["1m", "16cm", "9cm", "6.2cm", "5cm"])).unwrap();
    assert_eq!(g.min_distance.den, 0);
    assert!(value(g.min_distance).is_infinite());
    assert!(value(g.max_distance).is_finite());
}

#[test]
fn unknown_unit_is_not_a_format_error() {
    assert_eq!(
        stereo_geometry(&args(&["1m", "5 kilometers", "9cm", "3cm", "5cm"])),
        Err(InputError::Parse { position: 1, error: ParseError::UnknownUnit })
    );
}

#[test]
fn first_bad_argument_is_reported() {
    assert_eq!(
        stereo_geometry(&args(&["1m", "16cm", "9", "3parsecs", "5cm"])),
        Err(InputError::Parse { position: 2, error: ParseError::InvalidFormat })
    );
}
