use swipe_video::dates::{days_between, days_since_epoch, is_leap_year, now_since_epoch};
use swipe_video::decimal::{to_decimal, to_decimal_pad2};
use swipe_video::error::{Error, Kind};
use swipe_video::rng::{random_choose_n, random_choose_n_with_seed, suffix, suffix_with_seed, SimpleRng};

#[test]
fn epoch_is_day_zero() {
    assert_eq!(days_since_epoch(1970, 1, 1).unwrap(), 0);
    assert_eq!(days_since_epoch(2000, 3, 1).unwrap(), 11017);
    assert_eq!(days_since_epoch(2024, 2, 29).unwrap(), 19782);
}

#[test]
fn invalid_dates_fail() {
    assert_eq!(days_since_epoch(2000, 13, 1).unwrap_err().kind, Kind::Other);
    assert_eq!(days_since_epoch(2000, 0, 1).unwrap_err().kind, Kind::Other);
    assert_eq!(days_since_epoch(2000, 1, 0).unwrap_err().kind, Kind::Other);
    assert_eq!(days_since_epoch(2000, 1, 32).unwrap_err().kind, Kind::Other);
}

#[test]
fn days_between_given_today() {
    assert_eq!(days_between(11017, (2000, 3, 1)).unwrap(), 0);
    assert_eq!(days_between(11027, (2000, 3, 1)).unwrap(), 10);
    assert!(days_between(0, (2000, 2, 40)).is_err());
    assert!(now_since_epoch().unwrap() > 19000);
}

#[test]
fn leap_years() {
    assert!(is_leap_year(2000));
    assert!(is_leap_year(2024));
    assert!(!is_leap_year(1900));
    assert!(!is_leap_year(2023));
}

#[test]
fn generator_steps() {
    let mut rng = SimpleRng::new(0);
    assert_eq!(rng.gen_range(0, 10), 1013904223 % 10);
    assert_eq!(rng.state, 1013904223);
    let mut r2 = SimpleRng::new(1);
    assert_eq!(r2.gen_range(5, 6), 5);
}

#[test]
fn shuffles_permute() {
    let mut v: Vec<u32> = (0..20).collect();
    suffix_with_seed(&mut v, 20, 42);
    let mut sorted = v.clone();
    sorted.sort();
    assert_eq!(sorted, (0..20).collect::<Vec<u32>>());
    let mut w: Vec<u32> = (0..5).collect();
    suffix(&mut w, 5);
    w.sort();
    assert_eq!(w, vec![0, 1, 2, 3, 4]);
    let mut seeded: Vec<u32> = vec![10, 20, 30];
    suffix_with_seed(&mut seeded, 1, 0);
    // State 1013904223 picks index 1013904223 % 3 == 1 for place 0.
    assert_eq!(seeded, vec![20, 10, 30]);
}

#[test]
fn choose_n() {
    let v: Vec<u32> = (0..10).collect();
    let r = random_choose_n(v.clone(), 3);
    assert_eq!(r.len(), 3);
    assert!(r.iter().all(|x| v.contains(x)));
    assert!(random_choose_n(v.clone(), 0).is_empty());
    assert_eq!(random_choose_n_with_seed(vec![1, 2, 3], 3, 7).len(), 3);
}

#[test]
fn decimal_text() {
    assert_eq!(to_decimal(0), "0");
    assert_eq!(to_decimal(1920), "1920");
    assert_eq!(to_decimal(u64::MAX), "18446744073709551615");
    assert_eq!(to_decimal_pad2(3), "03");
    assert_eq!(to_decimal_pad2(42), "42");
}

#[test]
fn error_location() {
    let e = Error::new("frame.rs", 12, 5, Kind::InvalidFont, "bad font");
    assert_eq!(e.location.as_deref(), Some("frame.rs:12:5"));
    assert_eq!(e.kind, Kind::InvalidFont);
    assert_eq!(e.message, "bad font");
}
