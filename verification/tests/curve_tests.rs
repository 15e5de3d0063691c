use alm_config::curves::{Curve, CurveDraft};
use alm_config::date::Date;
use alm_config::percent::Percent;

#[test]
fn draft_append_stops_at_ten() {
    let mut d = CurveDraft::new(1);
    for k in 2..=10 {
        assert!(d.append_curve_point(k));
        assert_eq!(d.points.len(), k as usize);
    }
    assert!(!d.append_curve_point(11));
    assert_eq!(d.points, vec![1, 2, 3, 4, 5, 6, 7, 8, 9, 10]);
}

#[test]
fn draft_remove_stops_at_one() {
    let mut d = CurveDraft::new(7);
    assert!(!d.remove_last_curve_point());
    assert_eq!(d.points, vec![7]);
    assert!(d.append_curve_point(8));
    assert!(d.remove_last_curve_point());
    assert_eq!(d.points, vec![7]);
}

#[test]
fn draft_length_stays_bounded_along_any_sequence() {
    let mut d = CurveDraft::new(0);
    let moves = [true, true, false, true, true, true, true, true, true, true, true, true, false];
    for push in moves {
        if push {
            d.append_curve_point(42);
        } else {
            d.remove_last_curve_point();
        }
        assert!(!d.points.is_empty() && d.points.len() <= 10);
    }
}

#[test]
fn draft_migrates_only_when_complete_and_in_range() {
    let short = CurveDraft::new(5);
    assert!(short.into_curve().is_none());

    let mut full = CurveDraft::new(5);
    for _ in 1..10 {
        full.append_curve_point(5);
    }
    let curve = full.into_curve().expect("ten in-range points migrate");
    assert_eq!(curve.points, vec![5; 10]);

    let mut wild = CurveDraft::new(501);
    for _ in 1..10 {
        wild.append_curve_point(0);
    }
    assert!(wild.into_curve().is_none());
}

#[test]
fn curve_set_point_clamps() {
    let mut c = Curve::uniform(0);
    c.set_point(0, 501);
    c.set_point(9, -501);
    c.set_point(5, 250);
    assert_eq!(c.points[0], 500);
    assert_eq!(c.points[9], -500);
    assert_eq!(c.points[5], 250);
    assert_eq!(c.points[1], 0);
}

#[test]
fn date_validity_follows_the_calendar() {
    assert!(Date::new(2024, 2, 29).is_some());
    assert!(Date::new(2023, 2, 29).is_none());
    assert!(Date::new(1900, 2, 29).is_none());
    assert!(Date::new(2000, 2, 29).is_some());
    assert!(Date::new(2020, 4, 31).is_none());
    assert!(Date::new(2020, 12, 31).is_some());
    assert!(Date::new(2020, 13, 1).is_none());
    assert!(Date::new(2020, 0, 1).is_none());
    assert!(Date::new(2020, 1, 0).is_none());
    assert!(Date::new(0, 1, 1).is_none());
    assert!(Date::new(10000, 1, 1).is_none());
    assert!(Date::new(9999, 12, 31).is_some());
}

#[test]
fn percent_constructors() {
    assert_eq!(Percent::from_whole(3).hundredths, 300);
    assert_eq!(Percent::from_hundredths(42).hundredths, 42);
}
