//! What passes between the agent and the full-screen interface.
use vstd::prelude::*;
use vstd::string::*;
use crate::config::Config;
use crate::security::{PendingAction, PendingView};
use crate::ui::settings::{SettingsView, Shown};

verus! {

/// What the agent tells the interface.
#[derive(Debug)]
pub enum UiEvent {
    TurnStarted,
    TextDelta(String),
    ThinkingDelta(String),
    ToolStart { name: String },
    ToolResult { tool_name: String, first_line: String, is_error: bool },
    Usage { input: u64, output: u64, cache_hit: u64 },
    Confirm { action: PendingAction },
    OpenSettings(SettingsView),
    /// How many tokens the context holds, of how many it may; zero where nothing limits it.
    ContextUsage { used: u64, limit: u64 },
    TurnDone { ok: bool, message: String },
    Exit,
}

/// What an event says.
pub enum UiEventView {
    TurnStarted,
    TextDelta(Seq<char>),
    ThinkingDelta(Seq<char>),
    ToolStart { name: Seq<char> },
    ToolResult { tool_name: Seq<char>, first_line: Seq<char>, is_error: bool },
    Usage { input: u64, output: u64, cache_hit: u64 },
    Confirm { action: PendingView },
    OpenSettings(Shown),
    ContextUsage { used: u64, limit: u64 },
    TurnDone { ok: bool, message: Seq<char> },
    Exit,
}

impl View for UiEvent {
    type V = UiEventView;

    open spec fn view(&self) -> UiEventView {
        match self {
            UiEvent::TurnStarted => UiEventView::TurnStarted,
            UiEvent::TextDelta(t) => UiEventView::TextDelta(t@),
            UiEvent::ThinkingDelta(t) => UiEventView::ThinkingDelta(t@),
            UiEvent::ToolStart { name } => UiEventView::ToolStart { name: name@ },
            UiEvent::ToolResult { tool_name, first_line, is_error } => UiEventView::ToolResult {
                tool_name: tool_name@,
                first_line: first_line@,
                is_error: *is_error,
            },
            UiEvent::Usage { input, output, cache_hit } => UiEventView::Usage {
                input: *input,
                output: *output,
                cache_hit: *cache_hit,
            },
            UiEvent::Confirm { action } => UiEventView::Confirm { action: action@ },
            UiEvent::OpenSettings(v) => UiEventView::OpenSettings(v@),
            UiEvent::ContextUsage { used, limit } => UiEventView::ContextUsage {
                used: *used,
                limit: *limit,
            },
            UiEvent::TurnDone { ok, message } => UiEventView::TurnDone {
                ok: *ok,
                message: message@,
            },
            UiEvent::Exit => UiEventView::Exit,
        }
    }
}

/// What the interface tells the agent.
#[derive(Debug)]
pub enum UiCommand {
    Submit(String),
    /// A configuration takes effect at once.
    HotApply(Config),
    Interrupt,
    Quit,
}

} // verus!
