//! The records of the new-api and sub2api services, and what the client makes
//! of their replies.
use vstd::prelude::*;
use vstd::string::StringExecFns;
use crate::error::Error;
use crate::text::{trim_end_matching, trim_end_char};

verus! {

// ── Replies as the services send them ──────────────────────────────────

/// The envelope of every new-api reply.
#[derive(Debug)]
pub struct ApiResponse<T> {
    pub success: bool,
    pub message: Option<String>,
    pub data: Option<T>,
}

/// The `data` of `GET /api/user/self`.
#[derive(Debug)]
pub struct UserData {
    pub id: u32,
    pub username: String,
    pub display_name: String,
    pub email: String,
    pub group: String,
    pub role: i32,
    pub status: i32,
    pub quota: i64,
    pub used_quota: i64,
    pub request_count: u64,
}

/// The `data` of `GET /api/subscription/self`.
#[derive(Debug)]
pub struct SubscriptionResponse {
    /// The subscriptions in force.
    pub subscriptions: Vec<SubscriptionWrapper>,
    /// Every subscription, the expired ones too.
    pub all_subscriptions: Vec<SubscriptionWrapper>,
    /// For example `subscription_first`.
    pub billing_preference: Option<String>,
}

#[derive(Debug)]
pub struct SubscriptionWrapper {
    pub subscription: SubscriptionData,
}

/// One subscription record (amounts in quota points, times in Unix seconds).
#[derive(Debug)]
pub struct SubscriptionData {
    pub id: u32,
    pub user_id: u32,
    pub plan_id: u32,
    pub amount_total: i64,
    pub amount_used: i64,
    pub start_time: i64,
    pub end_time: i64,
    pub status: String,
    pub source: String,
    pub last_reset_time: i64,
    pub next_reset_time: i64,
    pub upgrade_group: String,
    pub prev_user_group: String,
    pub created_at: i64,
    pub updated_at: i64,
}

// ── What the monitor keeps ──────────────────────────────────────────────

/// The user's account, from `/api/user/self`.
#[derive(Debug)]
pub struct UserInfo {
    pub id: u32,
    pub username: String,
    pub display_name: String,
    pub email: String,
    pub group: String,
    /// 1 = user, 10 = admin, 100 = root.
    pub role: i32,
    /// 1 = enabled, 2 = disabled.
    pub status: i32,
    /// Quota points left in the wallet (`quota` in the reply).
    pub wallet_quota: i64,
    pub used_quota: i64,
    pub request_count: u64,
}

/// The subscription in force, from `/api/subscription/self`.
#[derive(Debug)]
pub struct SubscriptionInfo {
    pub id: u32,
    pub user_id: u32,
    pub plan_id: u32,
    pub status: String,
    pub source: String,
    pub amount_total: i64,
    pub amount_used: i64,
    /// `amount_total - amount_used`.
    pub amount_remain: i64,
    pub start_time: i64,
    pub end_time: i64,
    pub last_reset_time: i64,
    pub next_reset_time: i64,
    pub upgrade_group: String,
    pub prev_user_group: String,
    pub created_at: i64,
    pub updated_at: i64,
}

/// What sub2api reports as spent, in USD. The amounts are carried as the
/// IEEE-754 bit patterns of the `f64` values (`f64::to_bits`).
#[derive(Debug)]
pub struct CostInfo {
    /// `YYYY-MM`.
    pub month: String,
    pub today_cost_bits: u64,
    pub month_cost_bits: u64,
    pub total_cost_bits: u64,
}

// ── Users ────────────────────────────────────────────────────────────────

/// The user record kept from the reply's data.
pub open spec fn user_info_of(d: UserData) -> UserInfo {
    UserInfo {
        id: d.id,
        username: d.username,
        display_name: d.display_name,
        email: d.email,
        group: d.group,
        role: d.role,
        status: d.status,
        wallet_quota: d.quota,
        used_quota: d.used_quota,
        request_count: d.request_count,
    }
}

/// The user record keeps every field of the reply under its own name
/// (`quota` as `wallet_quota`).
pub proof fn lemma_user_info_fields(d: UserData)
    ensures
        user_info_of(d).id == d.id,
        user_info_of(d).username == d.username,
        user_info_of(d).display_name == d.display_name,
        user_info_of(d).email == d.email,
        user_info_of(d).group == d.group,
        user_info_of(d).role == d.role,
        user_info_of(d).status == d.status,
        user_info_of(d).wallet_quota == d.quota,
        user_info_of(d).used_quota == d.used_quota,
        user_info_of(d).request_count == d.request_count,
{
}

/// The message of a reply that says it failed: its own, or a stock one.
pub open spec fn failure_text(message: Option<String>) -> Seq<char> {
    match message {
        Some(m) => m@,
        None => "API 返回了错误但没说原因"@,
    }
}

/// The user record of a `/api/user/self` reply: an error when the reply
/// reports a failure or carries no data.
pub fn user_info_from_response(resp: ApiResponse<UserData>) -> (r: Result<UserInfo, Error>)
    ensures
        !resp.success ==> (r matches Err(Error::ApiMessage(m)) && m@ == failure_text(resp.message)),
        resp.success && resp.data is None ==> (r matches Err(Error::ApiMessage(m)) && m@ == "用户数据为空"@),
        resp.success && resp.data is Some ==> r == Ok::<UserInfo, Error>(user_info_of(resp.data->0)),
        resp.success && resp.data is Some ==> ({
            let d = resp.data->0;
            r matches Ok(u) && {
                &&& u.id == d.id
                &&& u.username == d.username
                &&& u.display_name == d.display_name
                &&& u.email == d.email
                &&& u.group == d.group
                &&& u.role == d.role
                &&& u.status == d.status
                &&& u.wallet_quota == d.quota
                &&& u.used_quota == d.used_quota
                &&& u.request_count == d.request_count
            }
        }),
{
    if !resp.success {
        return Err(failure(resp.message));
    }
    match resp.data {
        None => Err(Error::ApiMessage(String::from_str("用户数据为空"))),
        Some(d) => Ok(UserInfo {
            id: d.id,
            username: d.username,
            display_name: d.display_name,
            email: d.email,
            group: d.group,
            role: d.role,
            status: d.status,
            wallet_quota: d.quota,
            used_quota: d.used_quota,
            request_count: d.request_count,
        }),
    }
}

fn failure(message: Option<String>) -> (e: Error)
    ensures
        e matches Error::ApiMessage(m) && m@ == failure_text(message),
{
    match message {
        Some(m) => Error::ApiMessage(m),
        None => Error::ApiMessage(String::from_str("API 返回了错误但没说原因")),
    }
}

// ── Subscriptions ───────────────────────────────────────────────────────

/// A subscription is in force when its status is `active`.
pub open spec fn is_active(w: SubscriptionWrapper) -> bool {
    w.subscription.status@ == "active"@
}

/// `k` is the first subscription in force.
pub open spec fn is_first_active(subs: Seq<SubscriptionWrapper>, k: int) -> bool {
    &&& 0 <= k < subs.len()
    &&& is_active(subs[k])
    &&& forall|j: int| 0 <= j < k ==> !is_active(#[trigger] subs[j])
}

/// Some subscription is in force.
pub open spec fn has_active(subs: Seq<SubscriptionWrapper>) -> bool {
    exists|k: int| 0 <= k < subs.len() && is_active(#[trigger] subs[k])
}

/// The amounts of the first subscription in force can be subtracted in `i64`.
pub open spec fn remain_fits(subs: Seq<SubscriptionWrapper>) -> bool {
    forall|k: int| #[trigger] is_first_active(subs, k) ==> i64::MIN <= subs[k].subscription.amount_total
        - subs[k].subscription.amount_used <= i64::MAX
}

/// The record kept of a subscription in force.
pub open spec fn subscription_info_of(d: SubscriptionData) -> SubscriptionInfo {
    SubscriptionInfo {
        id: d.id,
        user_id: d.user_id,
        plan_id: d.plan_id,
        status: d.status,
        source: d.source,
        amount_total: d.amount_total,
        amount_used: d.amount_used,
        amount_remain: (d.amount_total - d.amount_used) as i64,
        start_time: d.start_time,
        end_time: d.end_time,
        last_reset_time: d.last_reset_time,
        next_reset_time: d.next_reset_time,
        upgrade_group: d.upgrade_group,
        prev_user_group: d.prev_user_group,
        created_at: d.created_at,
        updated_at: d.updated_at,
    }
}

/// The kept subscription has every field of the record under its own name,
/// and the remainder is the total less what was used.
pub proof fn lemma_subscription_info_fields(d: SubscriptionData)
    requires
        i64::MIN <= d.amount_total - d.amount_used <= i64::MAX,
    ensures
        subscription_info_of(d).id == d.id,
        subscription_info_of(d).user_id == d.user_id,
        subscription_info_of(d).plan_id == d.plan_id,
        subscription_info_of(d).status == d.status,
        subscription_info_of(d).source == d.source,
        subscription_info_of(d).amount_total == d.amount_total,
        subscription_info_of(d).amount_used == d.amount_used,
        subscription_info_of(d).amount_remain == d.amount_total - d.amount_used,
        subscription_info_of(d).start_time == d.start_time,
        subscription_info_of(d).end_time == d.end_time,
        subscription_info_of(d).last_reset_time == d.last_reset_time,
        subscription_info_of(d).next_reset_time == d.next_reset_time,
        subscription_info_of(d).upgrade_group == d.upgrade_group,
        subscription_info_of(d).prev_user_group == d.prev_user_group,
        subscription_info_of(d).created_at == d.created_at,
        subscription_info_of(d).updated_at == d.updated_at,
{
}

/// The record kept when no subscription is in force: status and source
/// `none`, every amount and time 0, the given user.
pub open spec fn is_no_subscription(info: SubscriptionInfo, user_id: u32) -> bool {
    &&& info.id == 0
    &&& info.user_id == user_id
    &&& info.plan_id == 0
    &&& info.status@ == "none"@
    &&& info.source@ == "none"@
    &&& info.amount_total == 0
    &&& info.amount_used == 0
    &&& info.amount_remain == 0
    &&& info.start_time == 0
    &&& info.end_time == 0
    &&& info.last_reset_time == 0
    &&& info.next_reset_time == 0
    &&& info.upgrade_group@ == Seq::<char>::empty()
    &&& info.prev_user_group@ == Seq::<char>::empty()
    &&& info.created_at == 0
    &&& info.updated_at == 0
}

/// The index of the first subscription in force, if any.
pub fn first_active_index(subs: &Vec<SubscriptionWrapper>) -> (k: Option<usize>)
    ensures
        k matches Some(i) ==> is_first_active(subs@, i as int),
        k is None <==> !has_active(subs@),
        k matches Some(i) ==> i < subs@.len() && subs@[i as int].subscription.status@ == "active"@
            && forall|j: int| 0 <= j < i ==> (#[trigger] subs@[j]).subscription.status@ != "active"@,
        k is None ==> forall|j: int| 0 <= j < subs@.len()
            ==> (#[trigger] subs@[j]).subscription.status@ != "active"@,
{
    let active = String::from_str("active");
    let mut i: usize = 0;
    while i < subs.len()
        invariant
            i <= subs@.len(),
            active@ == "active"@,
            forall|j: int| 0 <= j < i ==> !is_active(#[trigger] subs@[j]),
        decreases subs@.len() - i,
    {
        if subs[i].subscription.status == active {
            return Some(i);
        }
        i = i + 1;
    }
    assert(!has_active(subs@));
    None
}

/// The subscription kept from a `/api/subscription/self` reply: the first one
/// in force, or an empty one for `user_id` when none is.
pub fn subscription_from_response(data: SubscriptionResponse, user_id: u32) -> (info: SubscriptionInfo)
    requires
        remain_fits(data.subscriptions@),
    ensures
        forall|k: int| #[trigger] is_first_active(data.subscriptions@, k)
            ==> info == subscription_info_of(data.subscriptions@[k].subscription),
        forall|k: int| #[trigger] is_first_active(data.subscriptions@, k)
            ==> {
                let d = data.subscriptions@[k].subscription;
                &&& info.id == d.id
                &&& info.user_id == d.user_id
                &&& info.plan_id == d.plan_id
                &&& info.status == d.status
                &&& info.source == d.source
                &&& info.amount_total == d.amount_total
                &&& info.amount_used == d.amount_used
                &&& info.amount_remain == d.amount_total - d.amount_used
                &&& info.start_time == d.start_time
                &&& info.end_time == d.end_time
                &&& info.last_reset_time == d.last_reset_time
                &&& info.next_reset_time == d.next_reset_time
                &&& info.upgrade_group == d.upgrade_group
                &&& info.prev_user_group == d.prev_user_group
                &&& info.created_at == d.created_at
                &&& info.updated_at == d.updated_at
            },
        !has_active(data.subscriptions@) ==> is_no_subscription(info, user_id),
{
    match first_active_index(&data.subscriptions) {
        Some(k) => {
            let s = &data.subscriptions[k].subscription;
            proof {
                assert(is_first_active(data.subscriptions@, k as int));
                assert forall|j: int| #[trigger] is_first_active(data.subscriptions@, j) implies j == k by {
                    if j < k {
                        assert(!is_active(data.subscriptions@[j]));
                    } else if j > k {
                        assert(!is_active(data.subscriptions@[k as int]));
                    }
                }
            }
            SubscriptionInfo {
                id: s.id,
                user_id: s.user_id,
                plan_id: s.plan_id,
                status: s.status.clone(),
                source: s.source.clone(),
                amount_total: s.amount_total,
                amount_used: s.amount_used,
                amount_remain: s.amount_total - s.amount_used,
                start_time: s.start_time,
                end_time: s.end_time,
                last_reset_time: s.last_reset_time,
                next_reset_time: s.next_reset_time,
                upgrade_group: s.upgrade_group.clone(),
                prev_user_group: s.prev_user_group.clone(),
                created_at: s.created_at,
                updated_at: s.updated_at,
            }
        },
        None => SubscriptionInfo {
            id: 0,
            user_id,
            plan_id: 0,
            status: String::from_str("none"),
            source: String::from_str("none"),
            amount_total: 0,
            amount_used: 0,
            amount_remain: 0,
            start_time: 0,
            end_time: 0,
            last_reset_time: 0,
            next_reset_time: 0,
            upgrade_group: String::new(),
            prev_user_group: String::new(),
            created_at: 0,
            updated_at: 0,
        },
    }
}

/// The subscription of a `/api/subscription/self` reply: an error when the
/// reply reports a failure or carries no data, else as
/// `subscription_from_response` for the user `user_id` (or 0).
pub fn subscription_info_from_response(resp: ApiResponse<SubscriptionResponse>, user_id: Option<u32>)
    -> (r: Result<SubscriptionInfo, Error>)
    requires
        resp.success && resp.data is Some ==> remain_fits(resp.data->0.subscriptions@),
    ensures
        !resp.success ==> (r matches Err(Error::ApiMessage(m)) && m@ == failure_text(resp.message)),
        resp.success && resp.data is None ==> (r matches Err(Error::ApiMessage(m)) && m@ == "订阅数据为空"@),
        resp.success && resp.data is Some ==> (r matches Ok(info) && {
            let subs = resp.data->0.subscriptions@;
            &&& forall|k: int| #[trigger] is_first_active(subs, k) ==> info == subscription_info_of(subs[k].subscription)
            &&& forall|k: int| #[trigger] is_first_active(subs, k) ==> {
                let d = subs[k].subscription;
                &&& info.id == d.id
                &&& info.user_id == d.user_id
                &&& info.plan_id == d.plan_id
                &&& info.status == d.status
                &&& info.source == d.source
                &&& info.amount_total == d.amount_total
                &&& info.amount_used == d.amount_used
                &&& info.amount_remain == d.amount_total - d.amount_used
                &&& info.start_time == d.start_time
                &&& info.end_time == d.end_time
                &&& info.last_reset_time == d.last_reset_time
                &&& info.next_reset_time == d.next_reset_time
                &&& info.upgrade_group == d.upgrade_group
                &&& info.prev_user_group == d.prev_user_group
                &&& info.created_at == d.created_at
                &&& info.updated_at == d.updated_at
            }
            &&& !has_active(subs) ==> is_no_subscription(info, match user_id { Some(u) => u, None => 0 })
        }),
{
    if !resp.success {
        return Err(failure(resp.message));
    }
    match resp.data {
        None => Err(Error::ApiMessage(String::from_str("订阅数据为空"))),
        Some(data) => {
            let uid = match user_id {
                Some(u) => u,
                None => 0,
            };
            Ok(subscription_from_response(data, uid))
        },
    }
}

// ── Endpoints ───────────────────────────────────────────────────────────

/// The base URL of a service without the `/` at its end.
pub fn normalize_base_url(base_url: &str) -> (url: String)
    ensures
        url@ == trim_end_char(base_url@, '/'),
{
    trim_end_matching(base_url, '/')
}

/// `GET` here for the user record.
pub fn user_info_url(base_url: &String) -> (url: String)
    ensures
        url@ == base_url@ + "/api/user/self"@,
{
    base_url.clone().concat("/api/user/self")
}

/// `GET` here for the subscriptions.
pub fn subscription_url(base_url: &String) -> (url: String)
    ensures
        url@ == base_url@ + "/api/subscription/self"@,
{
    base_url.clone().concat("/api/subscription/self")
}

/// `GET` here for sub2api's usage report.
pub fn usage_url(base_url: &String) -> (url: String)
    ensures
        url@ == base_url@ + "/v1/usage"@,
{
    base_url.clone().concat("/v1/usage")
}

/// The value of the `Authorization` header for `token`.
pub fn bearer_authorization(token: &String) -> (value: String)
    ensures
        value@ == "Bearer "@ + token@,
{
    String::from_str("Bearer ").concat(token.as_str())
}

} // verus!
