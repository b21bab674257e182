use tqm::api::{CostInfo, SubscriptionInfo};
use tqm::config::{cache_path, derive_name, Account, CacheEntry, CacheFreshness, EnvVars, Provider, Snapshot};
use tqm::error::Error;
use tqm::text::{parse_u32, to_ascii_lowercase, trim_white_space};

fn s(v: &str) -> Option<String> {
    Some(v.to_string())
}

fn env() -> EnvVars {
    EnvVars {
        base_url: s("https://www.78code.cc/"),
        provider: None,
        tqm_token: s("  mgmt-token\n"),
        anthropic_api_key: s("sk-ant"),
        user_id: s("303"),
        account_name: None,
    }
}

#[test]
fn provider_defaults_to_new_api() {
    assert_eq!(Provider::from_env(None).unwrap(), Provider::NewApi);
    assert_eq!(Provider::from_env(s("")).unwrap(), Provider::NewApi);
    assert_eq!(Provider::from_env(s("  NewAPI ")).unwrap(), Provider::NewApi);
}

#[test]
fn provider_is_trimmed_and_case_folded() {
    assert_eq!(Provider::from_env(s("\tSUB2API\n")).unwrap(), Provider::Sub2Api);
}

#[test]
fn unknown_provider_is_reported_as_compared() {
    match Provider::from_env(s(" OpenAI ")) {
        Err(Error::ApiMessage(m)) => assert_eq!(m, "TQM_PROVIDER 只能是 newapi 或 sub2api，收到: openai"),
        other => panic!("unexpected {:?}", other),
    }
}

#[test]
fn new_api_account_from_env() {
    let a = Account::from_env(&env()).unwrap();
    assert_eq!(a.provider, Provider::NewApi);
    assert_eq!(a.token, "mgmt-token");
    assert_eq!(a.user_id, Some(303));
    assert_eq!(a.base_url, "https://www.78code.cc/");
    assert_eq!(a.name, "www.78code.cc");
}

#[test]
fn sub2api_account_takes_the_api_key_and_no_user() {
    let mut e = env();
    e.provider = s("sub2api");
    e.user_id = None;
    e.account_name = s("mine");
    let a = Account::from_env(&e).unwrap();
    assert_eq!(a.provider, Provider::Sub2Api);
    assert_eq!(a.token, "sk-ant");
    assert_eq!(a.user_id, None);
    assert_eq!(a.name, "mine");
}

#[test]
fn missing_base_url_comes_first() {
    let mut e = env();
    e.base_url = None;
    e.provider = s("bogus");
    assert!(matches!(Account::from_env(&e), Err(Error::BaseUrlNotSet)));
}

#[test]
fn blank_token_is_missing() {
    let mut e = env();
    e.tqm_token = s(" \u{3000} ");
    match Account::from_env(&e) {
        Err(Error::TokenMissing(n)) => assert_eq!(n, "TQM_TOKEN"),
        other => panic!("unexpected {:?}", other),
    }
    let mut e = env();
    e.provider = s("sub2api");
    e.anthropic_api_key = None;
    match Account::from_env(&e) {
        Err(Error::TokenMissing(n)) => assert_eq!(n, "ANTHROPIC_API_KEY"),
        other => panic!("unexpected {:?}", other),
    }
}

#[test]
fn new_api_needs_a_numeric_user_id() {
    let mut e = env();
    e.user_id = None;
    match Account::from_env(&e) {
        Err(Error::ApiMessage(m)) => assert_eq!(m, "TQM_USER_ID not set"),
        other => panic!("unexpected {:?}", other),
    }
    e.user_id = s("30x");
    match Account::from_env(&e) {
        Err(Error::ApiMessage(m)) => assert_eq!(m, "TQM_USER_ID must be a positive integer"),
        other => panic!("unexpected {:?}", other),
    }
    e.user_id = s("+0");
    assert_eq!(Account::from_env(&e).unwrap().user_id, Some(0));
}

#[test]
fn parse_u32_follows_std() {
    for v in ["0", "+42", "4294967295", "4294967296", "-1", "", "+", " 1", "1 ", "0007", "99999999999999999999"] {
        assert_eq!(parse_u32(v), v.parse::<u32>().ok(), "{:?}", v);
    }
}

#[test]
fn trim_and_lowercase_follow_std() {
    for v in ["", "  ", " a b ", "\u{3000}x\u{85}", "\u{200b}y", "Ab\tC\r\n", "ÄÖ Z"] {
        assert_eq!(trim_white_space(v), v.trim(), "{:?}", v);
        assert_eq!(to_ascii_lowercase(v), v.to_ascii_lowercase(), "{:?}", v);
    }
}

#[test]
fn names_are_derived_from_the_host() {
    assert_eq!(derive_name("https://www.78code.cc/"), "www.78code.cc");
    assert_eq!(derive_name("https://a.b/c//"), "a.b");
    assert_eq!(derive_name("x.com/path"), "x.com");
    assert_eq!(derive_name("http://"), "http:");
    assert_eq!(derive_name("a://b://c/d"), "b:");
    assert_eq!(derive_name(""), "");
}

#[test]
fn derived_names_agree_with_the_std_string_chain() {
    for url in ["https://x.y:8080/v1/", "//", "///a", "a", "://", "h://", "s://é/ü", "x:/y/"] {
        let by_std = url
            .trim_end_matches('/')
            .splitn(2, "://")
            .nth(1)
            .unwrap_or(url)
            .split('/')
            .next()
            .unwrap_or(url)
            .to_string();
        assert_eq!(derive_name(url), by_std, "{:?}", url);
    }
}

fn entry(fetched_at: i64) -> CacheEntry {
    CacheEntry {
        fetched_at,
        account_name: "acct".to_string(),
        snapshot: Snapshot::Sub2Api {
            cost: CostInfo { month: "2026-08".to_string(), today_cost_bits: 0, month_cost_bits: 0, total_cost_bits: 0 },
        },
    }
}

#[test]
fn freshness_by_age() {
    let e = entry(1_000);
    assert_eq!(e.freshness(1_000), CacheFreshness::Fresh);
    assert_eq!(e.freshness(1_239), CacheFreshness::Fresh);
    assert_eq!(e.freshness(1_240), CacheFreshness::Stale);
    assert_eq!(e.freshness(1_599), CacheFreshness::Stale);
    assert_eq!(e.freshness(1_600), CacheFreshness::Expired);
    // a fetch in the future counts as just made
    assert_eq!(e.freshness(0), CacheFreshness::Fresh);
    assert_eq!(e.age(0), 0);
    assert_eq!(e.age(1_300), 300);
}

#[test]
fn freshness_never_improves_with_time() {
    let e = entry(0);
    let mut last = 0;
    for now in [0, 100, 239, 240, 500, 599, 600, 10_000] {
        let rank = match e.freshness(now) {
            CacheFreshness::Fresh => 0,
            CacheFreshness::Stale => 1,
            CacheFreshness::Expired => 2,
        };
        assert!(rank >= last);
        last = rank;
    }
}

#[test]
fn cache_file_is_named_after_the_account() {
    assert_eq!(cache_path("/home/u/.cache/tqm", "www.78code.cc"), "/home/u/.cache/tqm/www.78code.cc.json");
    assert_eq!(cache_path("/tmp/", "a"), "/tmp/a.json");
    assert_eq!(cache_path("", "a"), "a.json");
    assert_eq!(cache_path("/tmp", "/abs"), "/abs.json");
}

#[test]
fn new_api_snapshot_holds_user_and_subscription() {
    let sub = SubscriptionInfo {
        id: 0, user_id: 1, plan_id: 0, status: "none".to_string(), source: "none".to_string(),
        amount_total: 0, amount_used: 0, amount_remain: 0, start_time: 0, end_time: 0,
        last_reset_time: 0, next_reset_time: 0, upgrade_group: String::new(),
        prev_user_group: String::new(), created_at: 0, updated_at: 0,
    };
    let user = tqm::api::UserInfo {
        id: 1, username: "u".to_string(), display_name: "u".to_string(), email: String::new(),
        group: "g".to_string(), role: 1, status: 1, wallet_quota: 5, used_quota: 6, request_count: 7,
    };
    let e = CacheEntry { fetched_at: 0, account_name: "a".to_string(), snapshot: Snapshot::NewApi { user, subscription: sub } };
    assert!(matches!(e.snapshot, Snapshot::NewApi { .. }));
}
