//! The errors of the monitor, their messages, and the one-line text the
//! status-line widget shows for each.
use vstd::prelude::*;
use vstd::string::StringExecFns;

verus! {

/// What can go wrong. The errors of outside libraries and of the system
/// (HTTP, I/O, JSON) are carried as their messages.
#[derive(Debug)]
pub enum Error {
    BaseUrlNotSet,
    TokenMissing(String),
    NoActiveSubscription,
    Api(String),
    ApiMessage(String),
    Cache(String),
    Io(String),
    Json(String),
}

/// The message of an error, as its `Display` writes it.
pub open spec fn error_message(e: Error) -> Seq<char> {
    match e {
        Error::BaseUrlNotSet => "ANTHROPIC_BASE_URL is not set"@,
        Error::TokenMissing(n) => "Token missing: "@ + n@,
        Error::NoActiveSubscription => "No active subscription found"@,
        Error::Api(m) => "API error: "@ + m@,
        Error::ApiMessage(m) => "API error: "@ + m@,
        Error::Cache(m) => "Cache error: "@ + m@,
        Error::Io(m) => "IO error: "@ + m@,
        Error::Json(m) => "JSON error: "@ + m@,
    }
}

/// The text the widget shows in place of its figures when `e` occurs.
pub open spec fn widget_error_text(e: Error) -> Seq<char> {
    match e {
        Error::BaseUrlNotSet => "tqm:未设URL"@,
        Error::TokenMissing(_) => "tqm:无token"@,
        Error::NoActiveSubscription => "tqm:无订阅"@,
        Error::Api(_) => "tqm:API错误"@,
        Error::ApiMessage(m) => "tqm:"@ + m@,
        Error::Cache(_) => "tqm:加载中"@,
        Error::Io(_) => "tqm:IO错误"@,
        Error::Json(_) => "tqm:缓存损坏"@,
    }
}

impl Error {
    /// The error's message (what `Display` writes).
    pub fn message(&self) -> (text: String)
        ensures
            text@ == error_message(*self),
    {
        match self {
            Error::BaseUrlNotSet => String::from_str("ANTHROPIC_BASE_URL is not set"),
            Error::TokenMissing(n) => String::from_str("Token missing: ").concat(n.as_str()),
            Error::NoActiveSubscription => String::from_str("No active subscription found"),
            Error::Api(m) => String::from_str("API error: ").concat(m.as_str()),
            Error::ApiMessage(m) => String::from_str("API error: ").concat(m.as_str()),
            Error::Cache(m) => String::from_str("Cache error: ").concat(m.as_str()),
            Error::Io(m) => String::from_str("IO error: ").concat(m.as_str()),
            Error::Json(m) => String::from_str("JSON error: ").concat(m.as_str()),
        }
    }
}

/// The short text that the status-line widget prints for an error.
pub fn widget_error(e: &Error) -> (text: String)
    ensures
        text@ == widget_error_text(*e),
{
    match e {
        Error::BaseUrlNotSet => String::from_str("tqm:未设URL"),
        Error::TokenMissing(_) => String::from_str("tqm:无token"),
        Error::NoActiveSubscription => String::from_str("tqm:无订阅"),
        Error::Api(_) => String::from_str("tqm:API错误"),
        Error::ApiMessage(m) => String::from_str("tqm:").concat(m.as_str()),
        Error::Cache(_) => String::from_str("tqm:加载中"),
        Error::Io(_) => String::from_str("tqm:IO错误"),
        Error::Json(_) => String::from_str("tqm:缓存损坏"),
    }
}

} // verus!
