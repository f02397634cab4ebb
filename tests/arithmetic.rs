use sghelper::length::{Length, Ratio, Unit};

#[test]
fn min_picks_the_shorter() {
    let a = Length::from_nanometers(3);
    let b = Length::from_nanometers(7);
    assert_eq!(a.min(b), a);
    assert_eq!(b.min(a), a);
    assert_eq!(a.min(a), a);
    let c = Length::from_nanometers(-4);
    assert_eq!(a.min(c), c);
}

#[test]
fn conversions() {
    let l = Length::from_meters(2);
    assert_eq!(l.to_nanometers(), 2_000_000_000);
    assert_eq!(l.to_meters(), Ratio { num: 2_000_000_000, den: 1_000_000_000 });
    assert_eq!(l.to_centimeters(), Ratio { num: 2_000_000_000, den: 10_000_000 });
    assert_eq!(l.to_unit(Unit::Inch), Ratio { num: 2_000_000_000, den: 25_400_000 });
    let cm = l.to_centimeters();
    assert_eq!(cm.num as f64 / cm.den as f64, 200.0);
}

#[test]
fn unit_factors() {
    assert_eq!(Unit::Meter.nanometers_per_unit(), 1_000_000_000);
    assert_eq!(Unit::Centimeter.nanometers_per_unit(), 10_000_000);
    assert_eq!(Unit::Millimeter.nanometers_per_unit(), 1_000_000);
    assert_eq!(Unit::Inch.nanometers_per_unit(), 25_400_000);
}

#[test]
fn scaling_and_ratio() {
    let l = Length::from_nanometers(50);
    assert_eq!(l.mul(3).to_nanometers(), 150);
    assert_eq!(l.mul(-2).to_nanometers(), -100);
    let r = l.div(Length::from_nanometers(200));
    assert_eq!(r, Ratio { num: 50, den: 200 });
    let z = l.div(Length::from_nanometers(0));
    assert!((z.num as f64 / z.den as f64).is_infinite());
}
