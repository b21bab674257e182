use tqm::cli::{error_report, loading_line, widget_actions, Cli, Commands, ErrorReport, WidgetAction};
use tqm::config::CacheFreshness;
use tqm::error::{widget_error, Error};

#[test]
fn fresh_cache_is_only_shown() {
    assert_eq!(widget_actions(Some(CacheFreshness::Fresh)), vec![WidgetAction::Render]);
}

#[test]
fn stale_cache_is_shown_then_refreshed() {
    assert_eq!(
        widget_actions(Some(CacheFreshness::Stale)),
        vec![WidgetAction::Render, WidgetAction::SpawnRefresh]
    );
}

#[test]
fn expired_or_missing_cache_is_refreshed_while_loading_shows() {
    let refresh_then_load = vec![WidgetAction::SpawnRefresh, WidgetAction::ShowLoading];
    assert_eq!(widget_actions(Some(CacheFreshness::Expired)), refresh_then_load);
    assert_eq!(widget_actions(None), refresh_then_load);
}

#[test]
fn loading_line_names_the_account() {
    assert_eq!(loading_line(&"acct".to_string()), "acct 加载中...");
}

#[test]
fn widget_mode_is_the_bare_command() {
    assert!(Cli { command: None }.is_widget_mode());
    assert!(!Cli { command: Some(Commands::Refresh { account: "a".to_string() }) }.is_widget_mode());
}

#[test]
fn widget_errors_are_short() {
    assert_eq!(widget_error(&Error::BaseUrlNotSet), "tqm:未设URL");
    assert_eq!(widget_error(&Error::TokenMissing("X".to_string())), "tqm:无token");
    assert_eq!(widget_error(&Error::NoActiveSubscription), "tqm:无订阅");
    assert_eq!(widget_error(&Error::Api("timeout".to_string())), "tqm:API错误");
    assert_eq!(widget_error(&Error::ApiMessage("额度不足".to_string())), "tqm:额度不足");
    assert_eq!(widget_error(&Error::Cache("x".to_string())), "tqm:加载中");
    assert_eq!(widget_error(&Error::Io("x".to_string())), "tqm:IO错误");
    assert_eq!(widget_error(&Error::Json("x".to_string())), "tqm:缓存损坏");
}

#[test]
fn error_messages_match_display() {
    assert_eq!(Error::BaseUrlNotSet.message(), "ANTHROPIC_BASE_URL is not set");
    assert_eq!(Error::TokenMissing("TQM_TOKEN".to_string()).message(), "Token missing: TQM_TOKEN");
    assert_eq!(Error::NoActiveSubscription.message(), "No active subscription found");
    assert_eq!(Error::Api("e".to_string()).message(), "API error: e");
    assert_eq!(Error::ApiMessage("m".to_string()).message(), "API error: m");
    assert_eq!(Error::Cache("c".to_string()).message(), "Cache error: c");
    assert_eq!(Error::Io("i".to_string()).message(), "IO error: i");
    assert_eq!(Error::Json("j".to_string()).message(), "JSON error: j");
}

#[test]
fn errors_are_reported_by_mode() {
    match error_report(true, &Error::BaseUrlNotSet) {
        ErrorReport::WidgetLine(t) => assert_eq!(t, "tqm:未设URL"),
        other => panic!("unexpected {:?}", other),
    }
    match error_report(false, &Error::BaseUrlNotSet) {
        ErrorReport::Fatal(t) => assert_eq!(t, "Error: ANTHROPIC_BASE_URL is not set"),
        other => panic!("unexpected {:?}", other),
    }
}
