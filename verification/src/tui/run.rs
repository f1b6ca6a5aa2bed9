//! What the agent's side of the full-screen interface does with each command.
use vstd::prelude::*;
use vstd::string::*;
use crate::agent::{AgentLoop, AgentView, ToolResultInfo};
use crate::config::{Config, ConfigView};
use crate::context::compress::{estimate_tokens, estimated};
use crate::error::{ErrorView, LexError};
use crate::provider::cache::cut;
use crate::provider::{EventView, ProviderEvent};
use crate::security::rules::{build_fault, table_of, SecurityGuard, SecurityRules};
use crate::text::{cat2, cat3, cat5};
use crate::tui::event::{UiEvent, UiEventView};
use crate::ui::settings::{command_in, init_prompt, init_text, parse_command, SlashCommand};

verus! {

// ---- what is passed on ----

/// What the interface is told of a piece of a reply. Of the pieces of a call and of its end it is
/// told nothing: the call shows from its start until its outcome.
pub open spec fn forwarded(e: EventView) -> Option<UiEventView> {
    match e {
        EventView::TextDelta(t) => Some(UiEventView::TextDelta(t)),
        EventView::ThinkingDelta(t) => Some(UiEventView::ThinkingDelta(t)),
        EventView::ToolUseStart { name, .. } => Some(UiEventView::ToolStart { name }),
        EventView::Completed { usage } => Some(
            UiEventView::Usage {
                input: usage.input_tokens,
                output: usage.output_tokens,
                cache_hit: usage.cache_hit_tokens,
            },
        ),
        EventView::ToolUseDelta { .. } => None,
        EventView::ToolUseComplete { .. } => None,
    }
}

/// What an event says, where there is one.
pub open spec fn opt_event(e: Option<UiEvent>) -> Option<UiEventView> {
    match e {
        Some(e) => Some(e@),
        None => None,
    }
}

/// What the interface is told of a piece of a reply; see [`forwarded`].
pub fn forward_event(e: &ProviderEvent) -> (r: Option<UiEvent>)
    ensures
        opt_event(r) == forwarded(e@),
{
    match e {
        ProviderEvent::TextDelta(t) => Some(UiEvent::TextDelta(t.clone())),
        ProviderEvent::ThinkingDelta(t) => Some(UiEvent::ThinkingDelta(t.clone())),
        ProviderEvent::ToolUseStart { name, .. } => Some(UiEvent::ToolStart { name: name.clone() }),
        ProviderEvent::ToolUseComplete { .. } => None,
        ProviderEvent::Completed { usage } => Some(
            UiEvent::Usage {
                input: usage.input_tokens,
                output: usage.output_tokens,
                cache_hit: usage.cache_hit_tokens,
            },
        ),
        ProviderEvent::ToolUseDelta { .. } => None,
    }
}

/// What the interface is told of a tool that has run.
pub fn result_event(info: &ToolResultInfo) -> (r: UiEvent)
    ensures
        r@ == (UiEventView::ToolResult {
            tool_name: info.tool_name@,
            first_line: info.first_line@,
            is_error: info.is_error,
        }),
{
    UiEvent::ToolResult {
        tool_name: info.tool_name.clone(),
        first_line: info.first_line.clone(),
        is_error: info.is_error,
    }
}

/// How full the context is; a limit of zero stands for none.
pub fn usage_event(agent: &AgentLoop) -> (r: UiEvent)
    ensures
        r@ == (UiEventView::ContextUsage {
            used: estimated(agent@.history) as u64,
            limit: match agent@.context_limit {
                Some(n) => n as u64,
                None => 0,
            },
        }),
{
    UiEvent::ContextUsage {
        used: estimate_tokens(agent.history.as_slice()),
        limit: match agent.context_limit {
            Some(n) => n as u64,
            None => 0,
        },
    }
}

// ---- what a submitted line asks for ----

/// What is said of a command that is none.
pub const UNKNOWN_COMMAND: &'static str = "未知命令,可用:/settings /compact /init\n";

/// What a submitted line asks for.
#[derive(Debug)]
pub enum Submission {
    /// A turn with this input.
    Turn(String),
    /// The settings.
    Settings,
    /// The conversation compressed now.
    Compact,
    /// A command that is none.
    Unknown,
}

/// What a submitted line asks for.
pub enum SubmissionView {
    Turn(Seq<char>),
    Settings,
    Compact,
    Unknown,
}

impl View for Submission {
    type V = SubmissionView;

    open spec fn view(&self) -> SubmissionView {
        match self {
            Submission::Turn(t) => SubmissionView::Turn(t@),
            Submission::Settings => SubmissionView::Settings,
            Submission::Compact => SubmissionView::Compact,
            Submission::Unknown => SubmissionView::Unknown,
        }
    }
}

/// What a submitted line asks for: a command where it is one, else a turn. The command that sets a
/// project up is a turn with a prompt of its own.
pub open spec fn submitted(line: Seq<char>) -> SubmissionView {
    match command_in(line) {
        Some(SlashCommand::Settings) => SubmissionView::Settings,
        Some(SlashCommand::Compact) => SubmissionView::Compact,
        Some(SlashCommand::Unknown) => SubmissionView::Unknown,
        Some(SlashCommand::Init) => SubmissionView::Turn(init_text()),
        None => SubmissionView::Turn(line),
    }
}

/// What a submitted line asks for; see [`submitted`].
pub fn submission(line: &str) -> (r: Submission)
    ensures
        r@ == submitted(line@),
{
    match parse_command(line) {
        Some(SlashCommand::Settings) => Submission::Settings,
        Some(SlashCommand::Compact) => Submission::Compact,
        Some(SlashCommand::Unknown) => Submission::Unknown,
        Some(SlashCommand::Init) => Submission::Turn(init_prompt()),
        None => Submission::Turn(line.to_owned()),
    }
}

/// The line that tells what came of compressing at the user's wish.
pub fn compact_line(outcome: &Result<String, LexError>) -> (r: String)
    ensures
        r@ == (match outcome {
            Ok(m) => m@ + "\n"@,
            Err(e) => "压缩失败: "@ + e@.shown() + "\n"@,
        }),
{
    match outcome {
        Ok(m) => cat2(m.as_str(), "\n"),
        Err(e) => {
            let text = e.to_string();
            cat3("压缩失败: ", text.as_str(), "\n")
        },
    }
}

/// How a turn ended.
#[derive(Debug)]
pub enum TurnEnd {
    Done,
    Failed(LexError),
    Interrupted,
}

/// What the interface is told of how a turn ended.
pub open spec fn turn_told(end: TurnEnd) -> UiEventView {
    match end {
        TurnEnd::Done => UiEventView::TurnDone { ok: true, message: Seq::empty() },
        TurnEnd::Failed(e) => UiEventView::TurnDone {
            ok: false,
            message: "本轮失败: "@ + e@.shown(),
        },
        TurnEnd::Interrupted => UiEventView::TurnDone {
            ok: false,
            message: "已中断本轮任务,可继续输入"@,
        },
    }
}

/// What the interface is told of how a turn ended; see [`turn_told`].
pub fn turn_event(end: &TurnEnd) -> (r: UiEvent)
    ensures
        r@ == turn_told(*end),
{
    match end {
        TurnEnd::Done => UiEvent::TurnDone { ok: true, message: String::new() },
        TurnEnd::Failed(e) => {
            let text = e.to_string();
            UiEvent::TurnDone { ok: false, message: cat2("本轮失败: ", text.as_str()) }
        },
        TurnEnd::Interrupted => UiEvent::TurnDone {
            ok: false,
            message: "已中断本轮任务,可继续输入".to_owned(),
        },
    }
}

// ---- a configuration takes effect ----

/// The conversation under a new configuration: rules that are faulty leave those that hold, the
/// limit on context is the new one, and the cached prefix is broken.
pub open spec fn hot_applied(a: AgentView, c: ConfigView) -> AgentView {
    let b = AgentView {
        context_limit: if c.context.enabled {
            Some(c.context.limit)
        } else {
            None
        },
        cache: match a.cache {
            Some(w) => Some(cut(w)),
            None => None,
        },
        ..a
    };
    match build_fault(c.security) {
        None => AgentView { rules: table_of(c.security), sensitive_read: false, ..b },
        Some(_) => b,
    }
}

/// What is told of it, item by item. `rebuilt` says whether the service could be reached anew.
pub open spec fn hot_applied_text(c: ConfigView, rebuilt: Result<(), Seq<char>>) -> Seq<char> {
    let provider = match rebuilt {
        Ok(_) => "Provider/模型已切换"@,
        Err(e) => "Provider 热切换失败(保留原值): "@ + e,
    };
    let rules = match build_fault(c.security) {
        None => "安全规则已更新"@,
        Some(m) => "安全规则更新失败(保留原规则): "@ + ErrorView::Config(m).shown(),
    };
    "⚙ "@ + provider + ";"@ + rules + ";上下文限制已更新\n"@
}

/// Puts a conversation under a new configuration and says what came of it; see [`hot_applied`] and
/// [`hot_applied_text`].
pub fn hot_apply(agent: &mut AgentLoop, cfg: &Config, rebuilt: &Result<(), String>) -> (r: String)
    ensures
        final(agent)@ == hot_applied(old(agent)@, cfg@),
        r@ == hot_applied_text(
            cfg@,
            match *rebuilt {
                Ok(_) => Ok(()),
                Err(e) => Err(e@),
            },
        ),
{
    let provider = match rebuilt {
        Ok(_) => "Provider/模型已切换".to_owned(),
        Err(e) => cat2("Provider 热切换失败(保留原值): ", e.as_str()),
    };
    let rules = match SecurityRules::build(&cfg.security) {
        Ok(t) => {
            agent.security = SecurityGuard::new(t);
            "安全规则已更新".to_owned()
        },
        Err(e) => {
            let text = e.to_string();
            cat2("安全规则更新失败(保留原规则): ", text.as_str())
        },
    };
    agent.context_limit = if cfg.context.enabled {
        Some(cfg.context.limit)
    } else {
        None
    };
    if let Some(w) = &mut agent.cache_strategy {
        w.invalidate();
    }
    assert(agent@.history =~= old(agent)@.history);
    assert(agent@.calls =~= old(agent)@.calls);
    cat5("⚙ ", provider.as_str(), ";", rules.as_str(), ";上下文限制已更新\n")
}

// ---- laws ----

/// A new configuration never touches the conversation itself, and one with faulty rules leaves the
/// rules that hold.
pub proof fn law_hot_apply_keeps_the_conversation(a: AgentView, c: ConfigView)
    ensures
        hot_applied(a, c).history == a.history,
        hot_applied(a, c).system == a.system,
        hot_applied(a, c).tools == a.tools,
        hot_applied(a, c).pending_summary == a.pending_summary,
        build_fault(c.security) is Some ==> hot_applied(a, c).rules == a.rules && hot_applied(
            a,
            c,
        ).sensitive_read == a.sensitive_read,
{
}

/// What the model is sent is never a command: a line that begins with a slash is one, or is unknown,
/// or stands for the prompt that sets a project up.
pub proof fn law_commands_are_not_sent(line: Seq<char>)
    requires
        command_in(line) is Some,
    ensures
        submitted(line) matches SubmissionView::Turn(t) ==> t == init_text(),
{
}


/// What the interface is told of a reply is what the reply says: its text, its thinking, the name of
/// a call that begins, and how many tokens it took.
pub proof fn law_replies_are_passed_on(t: Seq<char>, name: Seq<char>, id: Seq<char>, e: EventView)
    ensures
        forwarded(EventView::TextDelta(t)) == Some(UiEventView::TextDelta(t)),
        forwarded(EventView::ThinkingDelta(t)) == Some(UiEventView::ThinkingDelta(t)),
        forwarded(EventView::ToolUseStart { id, name }) == Some(UiEventView::ToolStart { name }),
        (e matches EventView::Completed { usage } ==> forwarded(e) == Some(
            UiEventView::Usage {
                input: usage.input_tokens,
                output: usage.output_tokens,
                cache_hit: usage.cache_hit_tokens,
            },
        )),
        forwarded(e) is None <==> e is ToolUseDelta || e is ToolUseComplete,
{
}

/// A line that does not begin with a slash, whatever white space stands before it, is sent as it is.
pub proof fn law_lines_are_sent_as_they_are(line: Seq<char>)
    requires
        crate::text::trim(line).len() == 0 || crate::text::trim(line)[0] != '/',
    ensures
        submitted(line) == SubmissionView::Turn(line),
{
    crate::ui::settings::law_commands_may_be_shortened(line);
}

/// How a turn ended is told: that it was done, why it failed, or that it was interrupted.
pub proof fn law_end_of_a_turn_is_told(end: TurnEnd)
    ensures
        ({
            let told = turn_told(end);
            &&& told is TurnDone
            &&& told->TurnDone_ok == (end is Done)
            &&& end is Done ==> told->TurnDone_message.len() == 0
            &&& (end matches TurnEnd::Failed(e) ==> e@.shown().is_suffix_of(told->TurnDone_message))
            &&& end is Interrupted ==> told->TurnDone_message == "已中断本轮任务,可继续输入"@
        }),
{
    if let TurnEnd::Failed(e) = end {
        let m = "本轮失败: "@ + e@.shown();
        assert(e@.shown() =~= m.skip(m.len() - e@.shown().len()));
    }
}

/// A new configuration takes effect at once: the limit where compressing is on and none where it is
/// off, and rules without a fault.
pub proof fn law_new_configuration_takes_effect(a: AgentView, c: ConfigView)
    ensures
        c.context.enabled ==> hot_applied(a, c).context_limit == Some(c.context.limit),
        !c.context.enabled ==> hot_applied(a, c).context_limit is None,
        build_fault(c.security) is None ==> hot_applied(a, c).rules == table_of(c.security)
            && !hot_applied(a, c).sensitive_read,
{
}

} // verus!
