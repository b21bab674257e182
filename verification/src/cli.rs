//! The command line and the decisions of the status-line widget: what to show,
//! when to refresh in the background, how to report an error.
use vstd::prelude::*;
use vstd::string::StringExecFns;
use crate::config::CacheFreshness;
use crate::error::{Error, widget_error, widget_error_text, error_message};

verus! {

/// The command line: no subcommand runs the widget.
#[derive(Debug)]
pub struct Cli {
    pub command: Option<Commands>,
}

#[derive(Debug)]
pub enum Commands {
    /// Refresh the cache of an account (run in the background by the widget).
    Refresh { account: String },
}

impl Cli {
    /// Without a subcommand the program runs as the widget, whose errors are
    /// printed as its output line.
    pub fn is_widget_mode(&self) -> (b: bool)
        ensures
            b == (self.command is None),
    {
        self.command.is_none()
    }
}

/// One step of the widget.
#[derive(Debug, Clone, Copy, PartialEq, Eq, Structural)]
pub enum WidgetAction {
    /// Print the widget line from the cache.
    Render,
    /// Start `refresh` for the account in the background.
    SpawnRefresh,
    /// Print the account name and that figures are loading.
    ShowLoading,
}

/// What the widget does, in order, given the freshness of the cache it could
/// read (`None` when it could read none).
pub open spec fn widget_plan(cache: Option<CacheFreshness>) -> Seq<WidgetAction> {
    match cache {
        Some(CacheFreshness::Fresh) => seq![WidgetAction::Render],
        Some(CacheFreshness::Stale) => seq![WidgetAction::Render, WidgetAction::SpawnRefresh],
        Some(CacheFreshness::Expired) => seq![WidgetAction::SpawnRefresh, WidgetAction::ShowLoading],
        None => seq![WidgetAction::SpawnRefresh, WidgetAction::ShowLoading],
    }
}

/// The steps of the widget for the cache it could read.
pub fn widget_actions(cache: Option<CacheFreshness>) -> (steps: Vec<WidgetAction>)
    ensures
        steps@ == widget_plan(cache),
        steps@.contains(WidgetAction::Render) <==> (cache == Some(CacheFreshness::Fresh)
            || cache == Some(CacheFreshness::Stale)),
        steps@.contains(WidgetAction::SpawnRefresh) <==> cache != Some(CacheFreshness::Fresh),
        steps@.contains(WidgetAction::Render) != steps@.contains(WidgetAction::ShowLoading),
{
    let mut steps: Vec<WidgetAction> = Vec::new();
    match cache {
        Some(CacheFreshness::Fresh) => {
            steps.push(WidgetAction::Render);
        },
        Some(CacheFreshness::Stale) => {
            steps.push(WidgetAction::Render);
            steps.push(WidgetAction::SpawnRefresh);
        },
        _ => {
            steps.push(WidgetAction::SpawnRefresh);
            steps.push(WidgetAction::ShowLoading);
        },
    }
    proof {
        assert(steps@ =~= widget_plan(cache));
        let plan = widget_plan(cache);
        match cache {
            Some(CacheFreshness::Fresh) => assert(plan[0] == WidgetAction::Render),
            Some(CacheFreshness::Stale) => assert(plan[1] == WidgetAction::SpawnRefresh),
            _ => assert(plan[0] == WidgetAction::SpawnRefresh && plan[1] == WidgetAction::ShowLoading),
        }
    }
    steps
}

/// The line printed while figures are loading.
pub fn loading_line(account_name: &String) -> (line: String)
    ensures
        line@ == account_name@ + " 加载中..."@,
{
    account_name.clone().concat(" 加载中...")
}

/// Where an error of a run goes.
#[derive(Debug)]
pub enum ErrorReport {
    /// Printed as the widget's line; the run ends normally.
    WidgetLine(String),
    /// Printed to standard error; the run exits with status 1.
    Fatal(String),
}

/// How a run reports its error: the widget prints its short text, a
/// subcommand prints `Error: <message>` and fails.
pub fn error_report(widget_mode: bool, e: &Error) -> (report: ErrorReport)
    ensures
        widget_mode ==> (report matches ErrorReport::WidgetLine(t) && t@ == widget_error_text(*e)),
        !widget_mode ==> (report matches ErrorReport::Fatal(t) && t@ == "Error: "@ + error_message(*e)),
{
    if widget_mode {
        ErrorReport::WidgetLine(widget_error(e))
    } else {
        ErrorReport::Fatal(String::from_str("Error: ").concat(e.message().as_str()))
    }
}

} // verus!
