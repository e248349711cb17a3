use shard::calendar::{days_to_date, format_timestamp};

#[test]
fn test_days_to_date() {
    assert_eq!(days_to_date(0), (1970, 1, 1));
    assert_eq!(days_to_date(19723), (2024, 1, 1));
    assert_eq!(days_to_date(19889), (2024, 6, 15));
}

#[test]
fn days_before_the_epoch_have_dates() {
    assert_eq!(days_to_date(-1), (1969, 12, 31));
    assert_eq!(days_to_date(-719468), (0, 3, 1));
    assert_eq!(days_to_date(-719469), (0, 2, 29));
    assert_eq!(days_to_date(-719528), (0, 1, 1));
    assert_eq!(days_to_date(-719529), (-1, 12, 31));
}

#[test]
fn leap_days_follow_the_rule() {
    assert_eq!(days_to_date(11016), (2000, 2, 29));
    assert_eq!(days_to_date(11017), (2000, 3, 1));
    assert_eq!(days_to_date(47540), (2100, 2, 28));
    assert_eq!(days_to_date(47541), (2100, 3, 1));
}

#[test]
fn each_day_has_the_date_behind_the_day_before() {
    let month_len = |y: i64, m: u32| match m {
        2 if (y % 4 == 0 && y % 100 != 0) || y % 400 == 0 => 29,
        2 => 28,
        4 | 6 | 9 | 11 => 30,
        _ => 31,
    };
    let mut last = days_to_date(-200_000);
    for n in -199_999..200_000 {
        let next = days_to_date(n);
        let (y, m, d) = last;
        let expected = if d < month_len(y, m) {
            (y, m, d + 1)
        } else if m < 12 {
            (y, m + 1, 1)
        } else {
            (y + 1, 1, 1)
        };
        assert_eq!(next, expected, "day {n}");
        last = next;
    }
}

#[test]
fn timestamps_are_written_in_full() {
    assert_eq!(format_timestamp(0), "1970-01-01 00:00:00");
    assert_eq!(format_timestamp(1_718_409_599), "2024-06-14 23:59:59");
    assert_eq!(format_timestamp(1_718_409_600), "2024-06-15 00:00:00");
    assert_eq!(format_timestamp(951_782_400), "2000-02-29 00:00:00");
}
