use ahap::{HapticCurve, Scalar, AHAP};

fn s(micros: i64) -> Scalar {
    Scalar::from_micros(micros)
}

fn point(time: i64, value: i64) -> HapticCurve {
    HapticCurve { time: s(time), parameter_value: s(value) }
}

#[test]
fn curve_of_ten_points_lands_on_the_end() {
    let points = AHAP::create_curve(s(0), s(400_000), s(400_000), s(750_000), 10);
    assert_eq!(points.len(), 10);
    assert_eq!(points[0], point(40_000, 435_000));
    assert_eq!(points[9], point(400_000, 750_000));
}

#[test]
fn curve_lists_every_step() {
    let points = AHAP::create_curve(s(0), s(400_000), s(400_000), s(750_000), 10);
    let expected = vec![
        point(40_000, 435_000),
        point(80_000, 470_000),
        point(120_000, 505_000),
        point(160_000, 540_000),
        point(200_000, 575_000),
        point(240_000, 610_000),
        point(280_000, 645_000),
        point(320_000, 680_000),
        point(360_000, 715_000),
        point(400_000, 750_000),
    ];
    assert_eq!(points, expected);
}

#[test]
fn curve_without_points_is_empty() {
    let points = AHAP::create_curve(s(0), s(400_000), s(400_000), s(750_000), 0);
    assert!(points.is_empty());
}

#[test]
fn curve_with_one_point_is_the_end() {
    let points = AHAP::create_curve(s(250_000), s(1_250_000), s(0), s(1_000_000), 1);
    assert_eq!(points, vec![point(1_250_000, 1_000_000)]);
}

#[test]
fn curve_rounds_thirds_to_three_decimals() {
    let points = AHAP::create_curve(s(0), s(1_000_000), s(0), s(2_000_000), 3);
    assert_eq!(
        points,
        vec![point(333_000, 667_000), point(667_000, 1_333_000), point(1_000_000, 2_000_000)]
    );
}

#[test]
fn curve_rounds_a_half_away_from_zero() {
    let up = AHAP::create_curve(s(0), s(1_000), s(0), s(-1_000), 2);
    assert_eq!(up, vec![point(1_000, -1_000), point(1_000, -1_000)]);
    let down = AHAP::create_curve(s(0), s(2_998), s(0), s(-2_998), 2);
    assert_eq!(down, vec![point(1_000, -1_000), point(3_000, -3_000)]);
}

#[test]
fn curve_rounds_an_end_with_more_than_three_decimals() {
    let points = AHAP::create_curve(s(0), s(1_234_567), s(0), s(-1_234_567), 1);
    assert_eq!(points, vec![point(1_235_000, -1_235_000)]);
}

#[test]
fn curve_descends_when_the_value_falls() {
    let points = AHAP::create_curve(s(0), s(800_000), s(750_000), s(200_000), 10);
    assert_eq!(points[0], point(80_000, 695_000));
    assert_eq!(points[4], point(400_000, 475_000));
    assert_eq!(points[9], point(800_000, 200_000));
}

#[test]
fn curve_times_increase_strictly() {
    let points = AHAP::create_curve(s(100_000), s(3_100_000), s(0), s(500_000), 7);
    assert_eq!(points.len(), 7);
    for i in 1..points.len() {
        assert!(points[i - 1].time.micros() < points[i].time.micros());
    }
    assert_eq!(points[6].time, s(3_100_000));
}

#[test]
fn curve_times_may_repeat_when_steps_are_finer_than_a_thousandth() {
    let points = AHAP::create_curve(s(0), s(1_000), s(0), s(0), 10);
    assert_eq!(points[0].time, s(0));
    assert_eq!(points[3].time, s(0));
    assert_eq!(points[4].time, s(1_000));
    assert_eq!(points[9].time, s(1_000));
    for i in 1..points.len() {
        assert!(points[i - 1].time.micros() <= points[i].time.micros());
    }
}

#[test]
fn curve_at_the_edge_of_the_range() {
    let limit = 9_223_372_036_854_775_000i64;
    let points = AHAP::create_curve(s(-limit), s(limit), s(limit), s(-limit), 2);
    assert_eq!(points, vec![point(0, 0), point(limit, -limit)]);
}

#[test]
fn scalar_is_rounded_to_three_decimals() {
    assert_eq!(s(0).round3(), s(0));
    assert_eq!(s(435_000).round3(), s(435_000));
    assert_eq!(s(435_499).round3(), s(435_000));
    assert_eq!(s(435_500).round3(), s(436_000));
    assert_eq!(s(499).round3(), s(0));
    assert_eq!(s(500).round3(), s(1_000));
    assert_eq!(s(-499).round3(), s(0));
    assert_eq!(s(-500).round3(), s(-1_000));
    assert_eq!(s(-1_234_567).round3(), s(-1_235_000));
    let limit = 9_223_372_036_854_775_000i64;
    assert_eq!(s(limit).round3(), s(limit));
    assert_eq!(s(-limit).round3(), s(-limit));
    assert_eq!(s(limit - 1).round3(), s(limit));
    assert_eq!(s(limit - 501).round3(), s(limit - 1_000));
}
