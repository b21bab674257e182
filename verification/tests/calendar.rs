use tqm::calendar::{month_label_string, utc_month, utc_year_month};

/// 2026-08-27T00:00:00Z
const AUG_27: i64 = 1_787_788_800;
/// 2026-09-04T00:00:00Z
const SEP_04: i64 = 1_788_480_000;

#[test]
fn should_convert_unix_seconds_to_utc_month() {
    assert_eq!(utc_month(0), "1970-01");
    assert_eq!(utc_month(AUG_27), "2026-08");
    assert_eq!(utc_month(SEP_04), "2026-09");
    // last day of a leap February, then the first of March
    assert_eq!(utc_month(1_709_164_800), "2024-02"); // 2024-02-29T00:00:00Z
    assert_eq!(utc_month(1_709_251_200), "2024-03"); // 2024-03-01T00:00:00Z
}

#[test]
fn utc_month_before_the_epoch_uses_floor_days() {
    assert_eq!(utc_month(-1), "1969-12");
    assert_eq!(utc_year_month(-1), (1969, 12));
}

#[test]
fn utc_month_follows_the_gregorian_leap_rules() {
    // 2000 is a leap year: 2000-02-29 exists
    assert_eq!(utc_month(951_782_400), "2000-02");
    assert_eq!(utc_month(951_868_800), "2000-03");
    // 2100 is not: 2100-03-01 comes right after 2100-02-28
    assert_eq!(utc_month(4_107_542_400), "2100-03");
    assert_eq!(utc_month(4_107_542_400 - 1), "2100-02");
}

#[test]
fn utc_month_pads_years_as_the_format_does() {
    assert_eq!(utc_month(253_402_300_800), "10000-01");
    assert_eq!(utc_month(-62_135_596_800), "0001-01");
    assert_eq!(utc_month(-62_167_219_200), "0000-01");
    assert_eq!(utc_month(-62_167_219_201), "-001-12");
}

#[test]
fn utc_month_at_the_ends_of_i64() {
    assert_eq!(utc_month(i64::MAX), "292277026596-12");
    assert_eq!(utc_month(i64::MIN), "-292277022657-01");
}

#[test]
fn month_labels_are_zero_padded() {
    assert_eq!(month_label_string(2026, 8), "2026-08");
    assert_eq!(month_label_string(7, 11), "0007-11");
    assert_eq!(month_label_string(-1, 3), "-001-03");
    assert_eq!(month_label_string(12345, 1), "12345-01");
}

#[test]
fn month_labels_sort_as_time_does() {
    let earlier = utc_month(AUG_27);
    let later = utc_month(SEP_04);
    assert!(earlier < later);
    assert!(month_label_string(1999, 12) < month_label_string(2000, 1));
    assert!(month_label_string(2024, 9) < month_label_string(2024, 10));
}
