//! The account the monitor watches, read from the environment, and the cache
//! of what was last fetched for it.
use vstd::prelude::*;
use vstd::string::{StringExecFns, StrSliceExecFns};
use crate::api::{UserInfo, SubscriptionInfo, CostInfo};
use crate::error::Error;
use crate::text::{
    trim, trim_white_space, is_white_space, lemma_trim_edges, trim_end_char, trim_end_matching, to_ascii_lowercase, ascii_lower,
    parse_u32, parse_u32_spec,
};

verus! {

// ── Account ─────────────────────────────────────────────────────────────

/// The kind of service. Set by `TQM_PROVIDER`; new-api when unset.
#[derive(Debug, Clone, Copy, PartialEq, Eq, Structural)]
pub enum Provider {
    /// new-api: `/api/user/self` and `/api/subscription/self`, two auth headers.
    NewApi,
    /// sub2api: `/v1/usage`, bearer token only.
    Sub2Api,
}

/// The value of `TQM_PROVIDER` as it is compared: trimmed and in ASCII lower case.
pub open spec fn provider_setting(v: Seq<char>) -> Seq<char> {
    trim(v).map_values(|c: char| ascii_lower(c))
}

/// The provider that a value of `TQM_PROVIDER` names; `None` for an unknown one.
pub open spec fn provider_of(v: Option<String>) -> Option<Provider> {
    match v {
        None => Some(Provider::NewApi),
        Some(s) => {
            let t = provider_setting(s@);
            if t == Seq::<char>::empty() || t == "newapi"@ {
                Some(Provider::NewApi)
            } else if t == "sub2api"@ {
                Some(Provider::Sub2Api)
            } else {
                None
            }
        },
    }
}

/// The message for an unknown `TQM_PROVIDER` value.
pub open spec fn provider_error_text(v: Seq<char>) -> Seq<char> {
    "TQM_PROVIDER 只能是 newapi 或 sub2api，收到: "@ + provider_setting(v)
}

impl Provider {
    /// The provider named by the value of `TQM_PROVIDER` (`None` when unset).
    pub fn from_env(value: Option<String>) -> (r: Result<Provider, Error>)
        ensures
            provider_of(value) matches Some(p) ==> r == Ok::<Provider, Error>(p),
            provider_of(value) is None ==> (r matches Err(Error::ApiMessage(m))
                && m@ == provider_error_text(value->0@)),
    {
        match value {
            None => Ok(Provider::NewApi),
            Some(v) => {
                let trimmed = trim_white_space(v.as_str());
                let t = to_ascii_lowercase(trimmed.as_str());
                proof {
                    assert(t@.len() == 0 ==> t@ =~= Seq::<char>::empty());
                }
                let newapi = String::from_str("newapi");
                let sub2api = String::from_str("sub2api");
                if t.as_str().is_empty() || t == newapi {
                    Ok(Provider::NewApi)
                } else if t == sub2api {
                    Ok(Provider::Sub2Api)
                } else {
                    Err(Error::ApiMessage(
                        String::from_str("TQM_PROVIDER 只能是 newapi 或 sub2api，收到: ").concat(t.as_str()),
                    ))
                }
            },
        }
    }
}

/// The variables of the environment that the monitor reads, as read (`None`
/// when unset or not Unicode).
#[derive(Debug)]
pub struct EnvVars {
    /// `ANTHROPIC_BASE_URL`.
    pub base_url: Option<String>,
    /// `TQM_PROVIDER`.
    pub provider: Option<String>,
    /// `TQM_TOKEN`, the new-api management token.
    pub tqm_token: Option<String>,
    /// `ANTHROPIC_API_KEY`, the sub2api key.
    pub anthropic_api_key: Option<String>,
    /// `TQM_USER_ID`.
    pub user_id: Option<String>,
    /// `TQM_ACCOUNT_NAME`.
    pub account_name: Option<String>,
}

#[derive(Debug)]
pub struct Account {
    pub name: String,
    pub base_url: String,
    pub token: String,
    /// Only new-api needs it; `None` for sub2api.
    pub user_id: Option<u32>,
    pub provider: Provider,
}

/// The variable that holds the token for a provider.
pub open spec fn token_var(p: Provider) -> Seq<char> {
    match p {
        Provider::NewApi => "TQM_TOKEN"@,
        Provider::Sub2Api => "ANTHROPIC_API_KEY"@,
    }
}

/// The token for a provider: its variable trimmed, `None` when unset or blank.
pub open spec fn token_of(env: EnvVars, p: Provider) -> Option<Seq<char>> {
    let v = match p {
        Provider::NewApi => env.tqm_token,
        Provider::Sub2Api => env.anthropic_api_key,
    };
    match v {
        Some(s) => if trim(s@).len() > 0 { Some(trim(s@)) } else { None },
        None => None,
    }
}

/// The account name: `TQM_ACCOUNT_NAME`, else the host of the base URL.
pub open spec fn account_name_of(env: EnvVars) -> Seq<char> {
    match env.account_name {
        Some(n) => n@,
        None => derived_name(env.base_url->0@),
    }
}

/// A set `TQM_ACCOUNT_NAME` is the name, whatever the provider; only when it
/// is unset is the name derived from the base URL.
pub proof fn lemma_account_name_of(env: EnvVars)
    ensures
        env.account_name matches Some(n) ==> account_name_of(env) == n@,
        env.account_name is None ==> account_name_of(env) == derived_name(env.base_url->0@),
{
}

impl Account {
    /// The account described by the environment. The variables are taken in
    /// this order, each error stopping the rest: the base URL, the provider,
    /// the provider's token, then (new-api only) the user id.
    pub fn from_env(env: &EnvVars) -> (r: Result<Account, Error>)
        ensures
            r matches Ok(a) ==> (env.account_name matches Some(n) ==> a.name@ == n@),
            r matches Ok(a) ==> (env.account_name is None ==> a.name@ == derived_name(env.base_url->0@)),
            r matches Ok(a) ==> a.base_url@ == env.base_url->0@,
            env.base_url is None ==> r matches Err(Error::BaseUrlNotSet),
            env.base_url is Some && provider_of(env.provider) is None ==> (r matches Err(Error::ApiMessage(m))
                && m@ == provider_error_text(env.provider->0@)),
            env.base_url is Some && provider_of(env.provider) is Some ==> ({
                let p = provider_of(env.provider)->0;
                let tok = token_of(*env, p);
                &&& tok is None ==> (r matches Err(Error::TokenMissing(n)) && n@ == token_var(p))
                &&& tok is Some && p == Provider::NewApi && env.user_id is None
                    ==> (r matches Err(Error::ApiMessage(m)) && m@ == "TQM_USER_ID not set"@)
                &&& tok is Some && p == Provider::NewApi && env.user_id is Some
                    && parse_u32_spec(env.user_id->0@) is None
                    ==> (r matches Err(Error::ApiMessage(m)) && m@ == "TQM_USER_ID must be a positive integer"@)
                &&& tok is Some && (p == Provider::Sub2Api || (env.user_id is Some
                    && parse_u32_spec(env.user_id->0@) is Some)) ==> (r matches Ok(a) && {
                        &&& a.name@ == account_name_of(*env)
                        &&& a.base_url@ == env.base_url->0@
                        &&& a.token@ == tok->0
                        &&& a.token@.len() > 0
                        &&& !is_white_space(a.token@[0]) && !is_white_space(a.token@.last())
                        &&& a.provider == p
                        &&& a.user_id == if p == Provider::NewApi {
                            parse_u32_spec(env.user_id->0@)
                        } else {
                            None::<u32>
                        }
                    })
            }),
    {
        let base_url = match &env.base_url {
            Some(u) => u.clone(),
            None => return Err(Error::BaseUrlNotSet),
        };
        let provider = match Provider::from_env(env.provider.clone()) {
            Ok(p) => p,
            Err(e) => return Err(e),
        };
        let (var_name, value) = match provider {
            Provider::NewApi => (String::from_str("TQM_TOKEN"), &env.tqm_token),
            Provider::Sub2Api => (String::from_str("ANTHROPIC_API_KEY"), &env.anthropic_api_key),
        };
        let token = match value {
            Some(v) => {
                let t = trim_white_space(v.as_str());
                proof {
                    lemma_trim_edges(v@);
                }
                if t.as_str().is_empty() {
                    return Err(Error::TokenMissing(var_name));
                }
                t
            },
            None => return Err(Error::TokenMissing(var_name)),
        };
        let user_id = match provider {
            Provider::NewApi => match &env.user_id {
                None => return Err(Error::ApiMessage(String::from_str("TQM_USER_ID not set"))),
                Some(v) => match parse_u32(v.as_str()) {
                    Some(id) => Some(id),
                    None => return Err(
                        Error::ApiMessage(String::from_str("TQM_USER_ID must be a positive integer")),
                    ),
                },
            },
            Provider::Sub2Api => None,
        };
        let name = match &env.account_name {
            Some(n) => n.clone(),
            None => derive_name(base_url.as_str()),
        };
        Ok(Account { name, base_url, token, user_id, provider })
    }
}

// ── Account names from URLs ─────────────────────────────────────────────

/// The first index from `i` on where `://` occurs in `s`.
pub open spec fn scheme_separator_from(s: Seq<char>, i: int) -> Option<int>
    decreases s.len() - i,
{
    if i < 0 || i + 3 > s.len() {
        None
    } else if s[i] == ':' && s[i + 1] == '/' && s[i + 2] == '/' {
        Some(i)
    } else {
        scheme_separator_from(s, i + 1)
    }
}

/// `s` up to its first `/` (the first piece of `str::split('/')`).
pub open spec fn before_slash(s: Seq<char>) -> Seq<char>
    decreases s.len(),
{
    if s.len() == 0 {
        s
    } else if s[0] == '/' {
        Seq::empty()
    } else {
        seq![s[0]] + before_slash(s.drop_first())
    }
}

/// The name an account gets from its URL: without the trailing `/`s, what
/// follows the first `://` (or, where there is none, the URL as given), up
/// to the first `/`.
pub open spec fn derived_name(url: Seq<char>) -> Seq<char> {
    let t = trim_end_char(url, '/');
    let rest = match scheme_separator_from(t, 0) {
        Some(i) => t.subrange(i + 3, t.len() as int),
        None => url,
    };
    before_slash(rest)
}

proof fn lemma_before_slash(s: Seq<char>, j: int)
    requires
        0 <= j <= s.len(),
        forall|k: int| 0 <= k < j ==> s[k] != '/',
        j < s.len() ==> s[j] == '/',
    ensures
        before_slash(s) == s.subrange(0, j),
    decreases j,
{
    if j > 0 {
        lemma_before_slash(s.drop_first(), j - 1);
        assert(seq![s[0]] + s.drop_first().subrange(0, j - 1) =~= s.subrange(0, j));
    } else {
        assert(s.subrange(0, 0) =~= Seq::<char>::empty());
    }
}

/// The host part of a URL, used as the account's name: `derive_name("https://a.b/x/")` is `a.b`.
pub fn derive_name(url: &str) -> (name: String)
    ensures
        name@ == derived_name(url@),
        !name@.contains('/'),
{
    let trimmed = trim_end_matching(url, '/');
    let t = trimmed.as_str();
    let n = t.unicode_len();
    let mut i: usize = 0;
    let mut found = false;
    while !found && n >= 3 && i <= n - 3
        invariant
            n == t@.len(),
            !found ==> scheme_separator_from(t@, 0) == scheme_separator_from(t@, i as int),
            found ==> scheme_separator_from(t@, 0) == Some(i as int) && i + 3 <= n,
        decreases n - i + if found { 0int } else { 1 },
    {
        if t.get_char(i) == ':' && t.get_char(i + 1) == '/' && t.get_char(i + 2) == '/' {
            found = true;
        } else {
            i = i + 1;
        }
    }
    let rest: &str = if found { t.substring_char(i + 3, n) } else { url };
    proof {
        if found {
            assert(scheme_separator_from(t@, 0) == Some(i as int));
        } else {
            assert(scheme_separator_from(t@, 0) == None::<int>);
        }
    }
    let m = rest.unicode_len();
    let mut j: usize = 0;
    while j < m && rest.get_char(j) != '/'
        invariant
            m == rest@.len(),
            j <= m,
            forall|k: int| 0 <= k < j ==> rest@[k] != '/',
        decreases m - j,
    {
        j = j + 1;
    }
    proof {
        lemma_before_slash(rest@, j as int);
    }
    let name = rest.substring_char(0, j).to_owned();
    proof {
        assert(!name@.contains('/')) by {
            if name@.contains('/') {
                let k = choose|k: int| 0 <= k < name@.len() && name@[k] == '/';
                assert(rest@[k] == '/');
            }
        }
    }
    name
}

// ── Cache ────────────────────────────────────────────────────────────────

/// Younger than this many seconds, a cache is shown as is.
pub const CACHE_SOFT_TTL: u64 = 240;
/// Younger than this many seconds, a cache is shown but refreshed.
pub const CACHE_HARD_TTL: u64 = 600;

#[derive(Debug, Clone, Copy, PartialEq, Eq, Structural)]
pub enum CacheFreshness {
    Fresh,
    Stale,
    Expired,
}

/// What was fetched; its shape depends on the provider.
#[derive(Debug)]
pub enum Snapshot {
    NewApi { user: UserInfo, subscription: SubscriptionInfo },
    Sub2Api { cost: CostInfo },
}

#[derive(Debug)]
pub struct CacheEntry {
    /// Unix seconds.
    pub fetched_at: i64,
    pub account_name: String,
    pub snapshot: Snapshot,
}

/// The age of what was fetched at `fetched_at`, seen at `now`; never negative.
pub open spec fn age_at(fetched_at: int, now: int) -> int {
    if now - fetched_at > 0 { now - fetched_at } else { 0 }
}

/// How fresh a cache of age `age` is.
pub open spec fn freshness_for_age(age: int) -> CacheFreshness {
    if age < CACHE_SOFT_TTL {
        CacheFreshness::Fresh
    } else if age < CACHE_HARD_TTL {
        CacheFreshness::Stale
    } else {
        CacheFreshness::Expired
    }
}

/// Fresh, stale and expired as 0, 1 and 2.
pub open spec fn freshness_rank(f: CacheFreshness) -> int {
    match f {
        CacheFreshness::Fresh => 0,
        CacheFreshness::Stale => 1,
        CacheFreshness::Expired => 2,
    }
}

impl CacheEntry {
    /// Seconds since the fetch, seen at Unix time `now`; 0 for a fetch in the future.
    pub fn age(&self, now: i64) -> (age: u64)
        requires
            i64::MIN <= now - self.fetched_at <= i64::MAX,
        ensures
            age == age_at(self.fetched_at as int, now as int),
    {
        let diff = now - self.fetched_at;
        if diff > 0 { diff as u64 } else { 0 }
    }

    /// How fresh the cache is at Unix time `now`.
    pub fn freshness(&self, now: i64) -> (f: CacheFreshness)
        requires
            i64::MIN <= now - self.fetched_at <= i64::MAX,
        ensures
            f == freshness_for_age(age_at(self.fetched_at as int, now as int)),
    {
        let age = self.age(now);
        if age < CACHE_SOFT_TTL {
            CacheFreshness::Fresh
        } else if age < CACHE_HARD_TTL {
            CacheFreshness::Stale
        } else {
            CacheFreshness::Expired
        }
    }
}

/// A cache only ages: seen later, it is never fresher.
pub proof fn lemma_freshness_monotone(fetched_at: int, now1: int, now2: int)
    requires
        now1 <= now2,
    ensures
        freshness_rank(freshness_for_age(age_at(fetched_at, now1)))
            <= freshness_rank(freshness_for_age(age_at(fetched_at, now2))),
{
}

/// `base` joined with `path` as `Path::join` does it on Unix: an absolute
/// `path` replaces `base`, else a `/` separates them unless `base` is empty
/// or already ends with one.
pub open spec fn path_join(base: Seq<char>, path: Seq<char>) -> Seq<char> {
    if path.len() > 0 && path[0] == '/' {
        path
    } else if base.len() == 0 || base.last() == '/' {
        base + path
    } else {
        base + seq!['/'] + path
    }
}

/// The cache file of an account: `<name>.json` in the cache directory.
pub fn cache_path(cache_dir: &str, account_name: &str) -> (path: String)
    ensures
        path@ == path_join(cache_dir@, account_name@ + ".json"@),
{
    proof {
        reveal_strlit("/");
    }
    let file = account_name.to_owned().concat(".json");
    let n = file.as_str().unicode_len();
    if n > 0 && file.as_str().get_char(0) == '/' {
        return file;
    }
    let m = cache_dir.unicode_len();
    if m == 0 || cache_dir.get_char(m - 1) == '/' {
        cache_dir.to_owned().concat(file.as_str())
    } else {
        cache_dir.to_owned().concat("/").concat(file.as_str())
    }
}

} // verus!
