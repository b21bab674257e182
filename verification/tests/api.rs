use tqm::api::{
    bearer_authorization, first_active_index, normalize_base_url, subscription_from_response,
    subscription_info_from_response, subscription_url, usage_url, user_info_from_response,
    user_info_url, ApiResponse, SubscriptionData, SubscriptionResponse, SubscriptionWrapper,
    UserData,
};
use tqm::error::Error;

fn subscription(id: u32, status: &str, total: i64, used: i64) -> SubscriptionWrapper {
    SubscriptionWrapper {
        subscription: SubscriptionData {
            id,
            user_id: 694,
            plan_id: 2,
            amount_total: total,
            amount_used: used,
            start_time: 1,
            end_time: 2,
            status: status.to_string(),
            source: "order".to_string(),
            last_reset_time: 1,
            next_reset_time: 2,
            upgrade_group: "new-cc".to_string(),
            prev_user_group: "default".to_string(),
            created_at: 1,
            updated_at: 2,
        },
    }
}

#[test]
fn should_build_empty_subscription_when_no_active() {
    let data = SubscriptionResponse {
        subscriptions: vec![SubscriptionWrapper {
            subscription: SubscriptionData {
                id: 1,
                user_id: 694,
                plan_id: 2,
                amount_total: 500000,
                amount_used: 500000,
                start_time: 1,
                end_time: 2,
                status: "expired".to_string(),
                source: "order".to_string(),
                last_reset_time: 1,
                next_reset_time: 2,
                upgrade_group: "new-cc".to_string(),
                prev_user_group: "default".to_string(),
                created_at: 1,
                updated_at: 2,
            },
        }],
        all_subscriptions: vec![],
        billing_preference: None,
    };

    let sub = subscription_from_response(data, 694);

    assert_eq!(sub.user_id, 694);
    assert_eq!(sub.status, "none");
    assert_eq!(sub.amount_total, 0);
    assert_eq!(sub.amount_used, 0);
    assert_eq!(sub.amount_remain, 0);
}

#[test]
fn empty_subscription_has_no_groups_and_no_source() {
    let data = SubscriptionResponse { subscriptions: vec![], all_subscriptions: vec![], billing_preference: None };
    let sub = subscription_from_response(data, 7);
    assert_eq!(sub.id, 0);
    assert_eq!(sub.plan_id, 0);
    assert_eq!(sub.source, "none");
    assert_eq!(sub.upgrade_group, "");
    assert_eq!(sub.prev_user_group, "");
    assert_eq!(sub.end_time, 0);
}

#[test]
fn first_active_subscription_is_kept_with_its_remainder() {
    let data = SubscriptionResponse {
        subscriptions: vec![
            subscription(1, "expired", 10, 1),
            subscription(22, "active", 50_000_000, 8_467_579),
            subscription(23, "active", 5, 5),
        ],
        all_subscriptions: vec![],
        billing_preference: Some("subscription_first".to_string()),
    };
    assert_eq!(first_active_index(&data.subscriptions), Some(1));

    let sub = subscription_from_response(data, 1);

    assert_eq!(sub.id, 22);
    assert_eq!(sub.user_id, 694);
    assert_eq!(sub.status, "active");
    assert_eq!(sub.source, "order");
    assert_eq!(sub.amount_total, 50_000_000);
    assert_eq!(sub.amount_used, 8_467_579);
    assert_eq!(sub.amount_remain, 41_532_421);
    assert_eq!(sub.upgrade_group, "new-cc");
    assert_eq!(sub.prev_user_group, "default");
}

#[test]
fn status_must_be_exactly_active() {
    let subs = vec![subscription(1, "Active", 1, 0), subscription(2, "active ", 1, 0)];
    assert_eq!(first_active_index(&subs), None);
}

fn user_data() -> UserData {
    UserData {
        id: 303,
        username: "shenny".to_string(),
        display_name: "shenny".to_string(),
        email: "someone@example.com".to_string(),
        group: "new-cc".to_string(),
        role: 1,
        status: 1,
        quota: 328_926,
        used_quota: 35_638_653,
        request_count: 841,
    }
}

#[test]
fn user_info_keeps_the_reply_fields() {
    let resp = ApiResponse { success: true, message: None, data: Some(user_data()) };
    let user = user_info_from_response(resp).unwrap();
    assert_eq!(user.id, 303);
    assert_eq!(user.username, "shenny");
    assert_eq!(user.group, "new-cc");
    assert_eq!(user.wallet_quota, 328_926);
    assert_eq!(user.used_quota, 35_638_653);
    assert_eq!(user.request_count, 841);
}

#[test]
fn failed_reply_gives_its_message_or_a_stock_one() {
    let resp = ApiResponse { success: false, message: Some("bad token".to_string()), data: Some(user_data()) };
    match user_info_from_response(resp) {
        Err(Error::ApiMessage(m)) => assert_eq!(m, "bad token"),
        other => panic!("unexpected {:?}", other),
    }
    let resp: ApiResponse<UserData> = ApiResponse { success: false, message: None, data: None };
    match user_info_from_response(resp) {
        Err(Error::ApiMessage(m)) => assert_eq!(m, "API 返回了错误但没说原因"),
        other => panic!("unexpected {:?}", other),
    }
}

#[test]
fn reply_without_data_is_an_error() {
    let resp: ApiResponse<UserData> = ApiResponse { success: true, message: None, data: None };
    match user_info_from_response(resp) {
        Err(Error::ApiMessage(m)) => assert_eq!(m, "用户数据为空"),
        other => panic!("unexpected {:?}", other),
    }
    let resp: ApiResponse<SubscriptionResponse> = ApiResponse { success: true, message: None, data: None };
    match subscription_info_from_response(resp, Some(1)) {
        Err(Error::ApiMessage(m)) => assert_eq!(m, "订阅数据为空"),
        other => panic!("unexpected {:?}", other),
    }
}

#[test]
fn subscription_reply_uses_user_zero_without_a_user_id() {
    let data = SubscriptionResponse { subscriptions: vec![], all_subscriptions: vec![], billing_preference: None };
    let resp = ApiResponse { success: true, message: None, data: Some(data) };
    let sub = subscription_info_from_response(resp, None).unwrap();
    assert_eq!(sub.user_id, 0);
    assert_eq!(sub.status, "none");
}

#[test]
fn endpoints_are_built_on_the_base_without_trailing_slashes() {
    let base = normalize_base_url("https://www.78code.cc//");
    assert_eq!(base, "https://www.78code.cc");
    assert_eq!(user_info_url(&base), "https://www.78code.cc/api/user/self");
    assert_eq!(subscription_url(&base), "https://www.78code.cc/api/subscription/self");
    assert_eq!(usage_url(&base), "https://www.78code.cc/v1/usage");
    assert_eq!(normalize_base_url("/"), "");
}

#[test]
fn bearer_header_carries_the_token() {
    assert_eq!(bearer_authorization(&"sk-1".to_string()), "Bearer sk-1");
}
