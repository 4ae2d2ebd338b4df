use midgard_vault::interval::{align_down, interval_or_default, interval_to_seconds};

#[test]
fn interval_names_map_to_seconds() {
    assert_eq!(interval_to_seconds("5min"), Some(300));
    assert_eq!(interval_to_seconds("hour"), Some(3600));
    assert_eq!(interval_to_seconds("day"), Some(86400));
    assert_eq!(interval_to_seconds("week"), Some(604800));
    assert_eq!(interval_to_seconds("month"), Some(2592000));
    assert_eq!(interval_to_seconds("quarter"), Some(7776000));
    assert_eq!(interval_to_seconds("year"), Some(31536000));
}

#[test]
fn unknown_interval_is_not_found() {
    assert_eq!(interval_to_seconds("minute"), None);
    assert_eq!(interval_to_seconds(""), None);
    assert_eq!(interval_to_seconds("Hour"), None);
}

#[test]
fn missing_or_unknown_interval_defaults_to_hour() {
    assert_eq!(interval_or_default(&None), 3600);
    assert_eq!(interval_or_default(&Some("fortnight".to_string())), 3600);
    assert_eq!(interval_or_default(&Some("day".to_string())), 86400);
}

#[test]
fn align_down_rounds_to_boundary() {
    assert_eq!(align_down(3700, 3600), 3600);
    assert_eq!(align_down(3600, 3600), 3600);
    assert_eq!(align_down(0, 3600), 0);
    assert_eq!(align_down(1000, 3600), 0);
    assert_eq!(align_down(1_739_512_851, 86400), 1_739_491_200);
}

#[test]
fn align_down_negative_rounds_toward_minus_infinity() {
    assert_eq!(align_down(-1, 3600), -3600);
    assert_eq!(align_down(-3600, 3600), -3600);
    assert_eq!(align_down(-3601, 3600), -7200);
}

#[test]
fn align_down_is_idempotent_for_every_interval() {
    for name in ["5min", "hour", "day", "week", "month", "quarter", "year"] {
        let s = interval_to_seconds(name).unwrap();
        for t in [0i64, 1, 299, 3601, 86_399, 1_739_512_851, -7] {
            let once = align_down(t, s);
            assert_eq!(align_down(once, s), once);
            assert_eq!(once.rem_euclid(s), 0);
        }
    }
}
