use tqm::usage::{report_month_of, rows_in_month};

/// 2026-08-27T00:00:00Z
const AUG_27: i64 = 1_787_788_800;
/// 2026-09-04T00:00:00Z, after some idle days past the turn of the month
const SEP_04: i64 = 1_788_480_000;

struct Usage {
    daily: Vec<(String, f64)>,
    today: f64,
    total: f64,
}

struct Cost {
    month: String,
    today_cost: f64,
    month_cost: f64,
    total_cost: f64,
}

/// Measured data (August sums to 561.7421451), with one July row more, so that
/// the month filter really leaves something out.
fn usage_fixture() -> Usage {
    let daily = [
        ("2026-07-31", 42.5),
        ("2026-08-21", 13.27866555),
        ("2026-08-24", 110.351066),
        ("2026-08-25", 145.64933515),
        ("2026-08-26", 195.249663),
        ("2026-08-27", 97.2134154),
    ];
    Usage {
        daily: daily.iter().map(|(d, c)| (d.to_string(), *c)).collect(),
        today: 97.2134154,
        total: 604.2421451,
    }
}

/// The cost summary of a report: its month from the library, the sum of the
/// month's rows in row order.
fn cost_from_usage(usage: Usage, now: i64) -> Cost {
    let dates: Vec<String> = usage.daily.iter().map(|(d, _)| d.clone()).collect();
    let month = report_month_of(&dates, now);
    let included = rows_in_month(&dates, &month);
    let month_cost = usage
        .daily
        .iter()
        .zip(included.iter())
        .filter(|(_, inc)| **inc)
        .map(|((_, c), _)| *c)
        .sum();
    Cost { month, today_cost: usage.today, month_cost, total_cost: usage.total }
}

fn close(a: f64, b: f64) -> bool {
    (a - b).abs() < 1e-6
}

#[test]
fn should_aggregate_cost_for_current_month_only() {
    let cost = cost_from_usage(usage_fixture(), AUG_27);

    assert_eq!(cost.month, "2026-08");
    assert!(close(cost.today_cost, 97.2134154), "today = {}", cost.today_cost);
    assert!(close(cost.month_cost, 561.7421451), "month = {}", cost.month_cost);
    assert!(close(cost.total_cost, 604.2421451), "total = {}", cost.total_cost);
    // the July row must be left out
    assert!(cost.month_cost < cost.total_cost);
}

/// After some idle days past the turn of the month the latest date is still in
/// the last month: the new month, with nothing spent, must be shown.
#[test]
fn should_report_zero_after_month_rollover_with_no_usage() {
    let cost = cost_from_usage(usage_fixture(), SEP_04);

    assert_eq!(cost.month, "2026-09");
    assert!(close(cost.month_cost, 0.0), "month = {}", cost.month_cost);
}

/// The service's time zone is ahead of UTC: UTC is still in August but the
/// service has booked September usage, and September is the month.
#[test]
fn should_prefer_server_month_when_it_is_ahead_of_utc() {
    let mut usage = usage_fixture();
    usage.daily.push(("2026-09-01".to_string(), 7.5));

    let cost = cost_from_usage(usage, AUG_27);

    assert_eq!(cost.month, "2026-09");
    assert!(close(cost.month_cost, 7.5), "month = {}", cost.month_cost);
}

#[test]
fn should_not_panic_on_empty_daily_usage() {
    let usage = Usage { daily: vec![], today: 0.0, total: 0.0 };

    let cost = cost_from_usage(usage, AUG_27);

    assert_eq!(cost.month, "2026-08");
    assert!(close(cost.month_cost, 0.0));
}

#[test]
fn report_month_is_never_before_the_utc_month() {
    let dates = vec!["2025-01-01".to_string(), "2024-12-31".to_string()];
    assert_eq!(report_month_of(&dates, AUG_27), "2026-08");
}

#[test]
fn report_month_ignores_dates_too_short_to_hold_a_month() {
    // "9999" is the greatest date but has no seven-byte prefix, so it gives ""
    let dates = vec!["2026-09-01".to_string(), "9999".to_string()];
    assert_eq!(report_month_of(&dates, AUG_27), "2026-08");
}

#[test]
fn report_month_ignores_a_prefix_that_splits_a_character() {
    // the greatest date's seventh byte falls inside "é", so it gives ""
    let dates = vec!["2099-0é".to_string()];
    assert_eq!(report_month_of(&dates, AUG_27), "2026-08");
    // one ending on a boundary is taken as it is
    let dates = vec!["2099-éx".to_string()];
    assert_eq!(report_month_of(&dates, AUG_27), "2099-é");
}

#[test]
fn rows_in_month_match_by_prefix() {
    let dates = vec![
        "2026-08-01".to_string(),
        "2026-07-31".to_string(),
        "2026-08".to_string(),
        "2026-0".to_string(),
    ];
    assert_eq!(rows_in_month(&dates, "2026-08"), vec![true, false, true, false]);
    assert_eq!(rows_in_month(&dates, ""), vec![true, true, true, true]);
}
