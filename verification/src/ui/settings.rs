//! The settings: what is shown of them, how they are edited, and the commands of the input line.
use vstd::prelude::*;
use vstd::string::*;
use crate::agent::AgentLoop;
use crate::config::{known_effort, known_provider, known_thinking, AnthropicView, Config, ConfigView};
use crate::config::{ContextConfig, OpenAiView, SecurityView};
use crate::context::compress::{estimate_tokens, estimated};
use crate::tools::str_views;
use crate::text::{
    all_white, begins_with, blank, cat2, cat3, cat4, cat5, clone_opt, dec, dec_text, opt_str,
    opt_text, same, to_chars, trim, trimmed, views,
};
use crate::ui::banner::VERSION;
use crate::ui::key::Key;
use crate::ui::settings_file::{file_table, file_view, saved, sections_free, try_write_back};
use crate::ui::theme::{styled, ACCENT, ACCENT_BOLD, DIM, RESET, WARN};

verus! {

// ---- what is shown ----

/// What a session is at when its settings are shown.
#[derive(Debug)]
pub struct SettingsRuntime {
    pub compress_attempted: bool,
    pub token_estimate: u64,
    pub forbidden_count: usize,
    pub confirm_count: usize,
    pub auto_count: usize,
    pub log_level: String,
    pub project_type: String,
    pub cwd: String,
}

/// What [`SettingsRuntime`] holds.
#[verifier::ext_equal]
pub struct RuntimeView {
    pub compress_attempted: bool,
    pub token_estimate: u64,
    pub forbidden_count: usize,
    pub confirm_count: usize,
    pub auto_count: usize,
    pub log_level: Seq<char>,
    pub project_type: Seq<char>,
    pub cwd: Seq<char>,
}

impl View for SettingsRuntime {
    type V = RuntimeView;

    open spec fn view(&self) -> RuntimeView {
        RuntimeView {
            compress_attempted: self.compress_attempted,
            token_estimate: self.token_estimate,
            forbidden_count: self.forbidden_count,
            confirm_count: self.confirm_count,
            auto_count: self.auto_count,
            log_level: self.log_level@,
            project_type: self.project_type@,
            cwd: self.cwd@,
        }
    }
}

/// The settings as they are shown, with the configuration that they come from.
#[derive(Debug)]
pub struct SettingsView {
    pub config: Config,
    pub provider: String,
    pub model: String,
    pub base_url: String,
    pub max_tokens: String,
    pub openai_thinking: Option<String>,
    pub openai_effort: Option<String>,
    pub api_key_source: String,
    pub forbidden_count: usize,
    pub confirm_count: usize,
    pub auto_count: usize,
    pub context_limit: u32,
    pub context_enabled: bool,
    pub compress_attempted: bool,
    pub token_estimate: u64,
    pub log_level: String,
    pub version: String,
    pub project_type: String,
    pub cwd: String,
}

/// What [`SettingsView`] holds.
#[verifier::ext_equal]
pub struct Shown {
    pub config: ConfigView,
    pub provider: Seq<char>,
    pub model: Seq<char>,
    pub base_url: Seq<char>,
    pub max_tokens: Seq<char>,
    pub openai_thinking: Option<Seq<char>>,
    pub openai_effort: Option<Seq<char>>,
    pub api_key_source: Seq<char>,
    pub forbidden_count: usize,
    pub confirm_count: usize,
    pub auto_count: usize,
    pub context_limit: u32,
    pub context_enabled: bool,
    pub compress_attempted: bool,
    pub token_estimate: u64,
    pub log_level: Seq<char>,
    pub version: Seq<char>,
    pub project_type: Seq<char>,
    pub cwd: Seq<char>,
}

impl View for SettingsView {
    type V = Shown;

    open spec fn view(&self) -> Shown {
        Shown {
            config: self.config@,
            provider: self.provider@,
            model: self.model@,
            base_url: self.base_url@,
            max_tokens: self.max_tokens@,
            openai_thinking: opt_text(self.openai_thinking),
            openai_effort: opt_text(self.openai_effort),
            api_key_source: self.api_key_source@,
            forbidden_count: self.forbidden_count,
            confirm_count: self.confirm_count,
            auto_count: self.auto_count,
            context_limit: self.context_limit,
            context_enabled: self.context_enabled,
            compress_attempted: self.compress_attempted,
            token_estimate: self.token_estimate,
            log_level: self.log_level@,
            version: self.version@,
            project_type: self.project_type@,
            cwd: self.cwd@,
        }
    }
}

/// The four groups of settings.
pub const MODULE_TITLES: [&'static str; 4] = [
    "模型与 Provider",
    "权限与安全",
    "上下文与压缩",
    "外观·日志·关于",
];

/// Whether the service that speaks OpenAI's format is chosen.
pub open spec fn speaks_openai(c: ConfigView) -> bool {
    c.provider == "openai"@
}

/// How the limit on a reply's tokens is shown.
pub open spec fn tokens_shown(c: ConfigView) -> Seq<char> {
    if speaks_openai(c) {
        match c.openai.max_tokens {
            Some(n) => dec(n as nat),
            None => "未设置(服务端默认)"@,
        }
    } else {
        dec(c.anthropic.max_tokens as nat)
    }
}

/// What is shown of a configuration, beside what `s` shows of the session.
pub open spec fn showing(s: Shown, c: ConfigView) -> Shown {
    Shown {
        config: c,
        provider: c.provider,
        model: if speaks_openai(c) {
            c.openai.model
        } else {
            c.anthropic.model
        },
        base_url: if speaks_openai(c) {
            c.openai.base_url
        } else {
            c.anthropic.base_url
        },
        max_tokens: tokens_shown(c),
        openai_thinking: if speaks_openai(c) {
            c.openai.thinking
        } else {
            None
        },
        openai_effort: if speaks_openai(c) {
            c.openai.reasoning_effort
        } else {
            None
        },
        api_key_source: if speaks_openai(c) {
            "环境变量 LEX_OPENAI_API_KEY"@
        } else {
            "环境变量 LEX_ANTHROPIC_API_KEY"@
        },
        context_limit: c.context.limit,
        context_enabled: c.context.enabled,
        ..s
    }
}

/// What is shown of a session under a configuration.
pub open spec fn snapshot(c: ConfigView, rt: RuntimeView) -> Shown {
    showing(
        Shown {
            config: c,
            provider: Seq::empty(),
            model: Seq::empty(),
            base_url: Seq::empty(),
            max_tokens: Seq::empty(),
            openai_thinking: None,
            openai_effort: None,
            api_key_source: Seq::empty(),
            forbidden_count: rt.forbidden_count,
            confirm_count: rt.confirm_count,
            auto_count: rt.auto_count,
            context_limit: 0,
            context_enabled: false,
            compress_attempted: rt.compress_attempted,
            token_estimate: rt.token_estimate,
            log_level: rt.log_level,
            version: VERSION@,
            project_type: rt.project_type,
            cwd: rt.cwd,
        },
        c,
    )
}

fn show_tokens(c: &Config) -> (r: String)
    ensures
        r@ == tokens_shown(c@),
{
    if same(c.provider.as_str(), "openai") {
        match c.openai.max_tokens {
            Some(n) => dec_text(n as u64),
            None => "未设置(服务端默认)".to_owned(),
        }
    } else {
        dec_text(c.anthropic.max_tokens as u64)
    }
}

impl SettingsView {
    /// What is shown of a session under a configuration.
    pub fn from(config: &Config, runtime: SettingsRuntime) -> (r: SettingsView)
        ensures
            r@ == snapshot(config@, runtime@),
    {
        let openai = same(config.provider.as_str(), "openai");
        SettingsView {
            config: config.clone(),
            provider: config.provider.clone(),
            model: if openai {
                config.openai.model.clone()
            } else {
                config.anthropic.model.clone()
            },
            base_url: if openai {
                config.openai.base_url.clone()
            } else {
                config.anthropic.base_url.clone()
            },
            max_tokens: show_tokens(config),
            openai_thinking: if openai {
                clone_opt(&config.openai.thinking)
            } else {
                None
            },
            openai_effort: if openai {
                clone_opt(&config.openai.reasoning_effort)
            } else {
                None
            },
            api_key_source: if openai {
                "环境变量 LEX_OPENAI_API_KEY".to_owned()
            } else {
                "环境变量 LEX_ANTHROPIC_API_KEY".to_owned()
            },
            forbidden_count: runtime.forbidden_count,
            confirm_count: runtime.confirm_count,
            auto_count: runtime.auto_count,
            context_limit: config.context.limit,
            context_enabled: config.context.enabled,
            compress_attempted: runtime.compress_attempted,
            token_estimate: runtime.token_estimate,
            log_level: runtime.log_level,
            version: VERSION.to_owned(),
            project_type: runtime.project_type,
            cwd: runtime.cwd,
        }
    }

    /// Shows another configuration.
    pub fn sync_display(&mut self, config: Config)
        ensures
            final(self)@ == showing(old(self)@, config@),
    {
        let openai = same(config.provider.as_str(), "openai");
        self.provider = config.provider.clone();
        self.max_tokens = show_tokens(&config);
        if openai {
            self.model = config.openai.model.clone();
            self.base_url = config.openai.base_url.clone();
            self.openai_thinking = clone_opt(&config.openai.thinking);
            self.openai_effort = clone_opt(&config.openai.reasoning_effort);
            self.api_key_source = "环境变量 LEX_OPENAI_API_KEY".to_owned();
        } else {
            self.model = config.anthropic.model.clone();
            self.base_url = config.anthropic.base_url.clone();
            self.openai_thinking = None;
            self.openai_effort = None;
            self.api_key_source = "环境变量 LEX_ANTHROPIC_API_KEY".to_owned();
        }
        self.context_limit = config.context.limit;
        self.context_enabled = config.context.enabled;
        self.config = config;
    }
}

// ---- fields ----

/// How a field is edited.
#[derive(Debug, PartialEq)]
pub enum FieldKind {
    /// One of these.
    Cycle(Vec<&'static str>),
    Text,
    U32,
    Toggle,
    /// One more rule of these: 0 forbids, 1 asks, 2 allows. Rules are only added.
    AppendRule(u8),
}

/// What [`FieldKind`] says.
pub enum FieldKindView {
    Cycle(Seq<Seq<char>>),
    Text,
    U32,
    Toggle,
    AppendRule(u8),
}

impl View for FieldKind {
    type V = FieldKindView;

    open spec fn view(&self) -> FieldKindView {
        match self {
            FieldKind::Cycle(v) => FieldKindView::Cycle(
                Seq::new(v@.len(), |i: int| v@[i]@),
            ),
            FieldKind::Text => FieldKindView::Text,
            FieldKind::U32 => FieldKindView::U32,
            FieldKind::Toggle => FieldKindView::Toggle,
            FieldKind::AppendRule(n) => FieldKindView::AppendRule(*n),
        }
    }
}

/// A field that can be edited.
#[derive(Debug, PartialEq)]
pub struct FieldDef {
    pub label: &'static str,
    pub kind: FieldKind,
}

/// The labels and kinds of fields.
pub open spec fn field_views(v: Seq<FieldDef>) -> Seq<(Seq<char>, FieldKindView)> {
    Seq::new(v.len(), |i: int| (v[i].label@, v[i].kind@))
}

/// The fields of a group; the last group has none.
pub open spec fn fields_of(module: int) -> Seq<(Seq<char>, FieldKindView)> {
    if module == 0 {
        seq![
            ("provider"@, FieldKindView::Cycle(seq!["anthropic"@, "openai"@])),
            ("model"@, FieldKindView::Text),
            ("base_url"@, FieldKindView::Text),
            ("max_tokens"@, FieldKindView::U32),
            (
                "thinking(仅 openai,空=不发送)"@,
                FieldKindView::Cycle(seq![""@, "enabled"@, "disabled"@]),
            ),
            (
                "reasoning_effort(仅 openai,空=不发送)"@,
                FieldKindView::Cycle(seq![""@, "none"@, "low"@, "high"@, "max"@]),
            ),
        ]
    } else if module == 1 {
        seq![
            ("追加 forbidden 规则"@, FieldKindView::AppendRule(0)),
            ("追加 confirm 规则"@, FieldKindView::AppendRule(1)),
            ("追加 auto 规则"@, FieldKindView::AppendRule(2)),
        ]
    } else if module == 2 {
        seq![("limit(tokens)"@, FieldKindView::U32), ("enabled"@, FieldKindView::Toggle)]
    } else {
        Seq::empty()
    }
}

fn cycle2(a: &'static str, b: &'static str) -> (r: FieldKind)
    ensures
        r@ == FieldKindView::Cycle(seq![a@, b@]),
{
    let mut v: Vec<&'static str> = Vec::new();
    v.push(a);
    v.push(b);
    assert(Seq::new(v@.len(), |i: int| v@[i]@) =~= seq![a@, b@]);
    FieldKind::Cycle(v)
}

fn cycle3(a: &'static str, b: &'static str, c: &'static str) -> (r: FieldKind)
    ensures
        r@ == FieldKindView::Cycle(seq![a@, b@, c@]),
{
    let mut v: Vec<&'static str> = Vec::new();
    v.push(a);
    v.push(b);
    v.push(c);
    assert(Seq::new(v@.len(), |i: int| v@[i]@) =~= seq![a@, b@, c@]);
    FieldKind::Cycle(v)
}

fn effort_kind() -> (r: FieldKind)
    ensures
        r@ == FieldKindView::Cycle(seq![""@, "none"@, "low"@, "high"@, "max"@]),
{
    let mut v: Vec<&'static str> = Vec::new();
    v.push("");
    v.push("none");
    v.push("low");
    v.push("high");
    v.push("max");
    assert(Seq::new(v@.len(), |i: int| v@[i]@) =~= seq![""@, "none"@, "low"@, "high"@, "max"@]);
    FieldKind::Cycle(v)
}

/// The fields of a group; see [`fields_of`].
pub fn field_defs(module: usize) -> (r: Vec<FieldDef>)
    ensures
        field_views(r@) == fields_of(module as int),
{
    let mut r: Vec<FieldDef> = Vec::new();
    if module == 0 {
        r.push(FieldDef { label: "provider", kind: cycle2("anthropic", "openai") });
        r.push(FieldDef { label: "model", kind: FieldKind::Text });
        r.push(FieldDef { label: "base_url", kind: FieldKind::Text });
        r.push(FieldDef { label: "max_tokens", kind: FieldKind::U32 });
        r.push(
            FieldDef {
                label: "thinking(仅 openai,空=不发送)",
                kind: cycle3("", "enabled", "disabled"),
            },
        );
        r.push(
            FieldDef { label: "reasoning_effort(仅 openai,空=不发送)", kind: effort_kind() },
        );
    } else if module == 1 {
        r.push(FieldDef { label: "追加 forbidden 规则", kind: FieldKind::AppendRule(0) });
        r.push(FieldDef { label: "追加 confirm 规则", kind: FieldKind::AppendRule(1) });
        r.push(FieldDef { label: "追加 auto 规则", kind: FieldKind::AppendRule(2) });
    } else if module == 2 {
        r.push(FieldDef { label: "limit(tokens)", kind: FieldKind::U32 });
        r.push(FieldDef { label: "enabled", kind: FieldKind::Toggle });
    }
    assert(field_views(r@) =~= fields_of(module as int));
    r
}

/// A truth value in words.
pub open spec fn bool_text(b: bool) -> Seq<char> {
    if b {
        "true"@
    } else {
        "false"@
    }
}

/// What a field holds, as it is shown.
pub open spec fn field_text(v: Shown, module: int, idx: int) -> Seq<char> {
    if module == 0 && idx == 0 {
        v.config.provider
    } else if module == 0 && idx == 1 {
        v.model
    } else if module == 0 && idx == 2 {
        v.base_url
    } else if module == 0 && idx == 3 {
        v.max_tokens
    } else if module == 0 && idx == 4 {
        match v.openai_thinking {
            Some(t) => t,
            None => "(空)"@,
        }
    } else if module == 0 && idx == 5 {
        match v.openai_effort {
            Some(t) => t,
            None => "(空)"@,
        }
    } else if module == 2 && idx == 0 {
        dec(v.config.context.limit as nat)
    } else if module == 2 && idx == 1 {
        bool_text(v.config.context.enabled)
    } else {
        Seq::empty()
    }
}

fn or_empty(s: &Option<String>) -> (r: String)
    ensures
        r@ == (match opt_text(*s) {
            Some(t) => t,
            None => "(空)"@,
        }),
{
    match s {
        Some(t) => t.clone(),
        None => "(空)".to_owned(),
    }
}

/// What a field holds; see [`field_text`].
pub fn field_display(view: &SettingsView, module: usize, idx: usize) -> (r: String)
    ensures
        r@ == field_text(view@, module as int, idx as int),
{
    if module == 0 && idx == 0 {
        view.config.provider.clone()
    } else if module == 0 && idx == 1 {
        view.model.clone()
    } else if module == 0 && idx == 2 {
        view.base_url.clone()
    } else if module == 0 && idx == 3 {
        view.max_tokens.clone()
    } else if module == 0 && idx == 4 {
        or_empty(&view.openai_thinking)
    } else if module == 0 && idx == 5 {
        or_empty(&view.openai_effort)
    } else if module == 2 && idx == 0 {
        dec_text(view.config.context.limit as u64)
    } else if module == 2 && idx == 1 {
        if view.config.context.enabled {
            "true".to_owned()
        } else {
            "false".to_owned()
        }
    } else {
        String::new()
    }
}

// ---- editing ----

/// A decimal digit.
pub open spec fn is_digit(c: char) -> bool {
    '0' <= c <= '9'
}

/// The number that digits make.
pub open spec fn number(s: Seq<char>) -> nat
    decreases s.len(),
{
    if s.len() == 0 {
        0
    } else {
        10 * number(s.drop_last()) + (s.last() as nat - '0' as nat) as nat
    }
}

/// The digits of a number, behind its sign where it has one.
pub open spec fn digits_of(s: Seq<char>) -> Seq<char> {
    if s.len() > 0 && s[0] == '+' {
        s.skip(1)
    } else {
        s
    }
}

/// The number that a text is: digits, with a plus sign before them or not, as far as it can be held.
pub open spec fn u32_in(s: Seq<char>) -> Option<u32> {
    let d = digits_of(s);
    if d.len() > 0 && (forall|i: int| 0 <= i < d.len() ==> is_digit(#[trigger] d[i])) && number(d)
        <= u32::MAX {
        Some(number(d) as u32)
    } else {
        None
    }
}

/// Reads a number; see [`u32_in`].
pub fn parse_u32(s: &str) -> (r: Option<u32>)
    ensures
        r == u32_in(s@),
{
    let v = to_chars(s);
    let total: usize = v.len();
    let from: usize = if total > 0 && v[0] == '+' {
        1
    } else {
        0
    };
    let ghost d = digits_of(s@);
    assert(d =~= v@.skip(from as int));
    if total == from {
        return None;
    }
    let mut big = false;
    let mut n: u64 = 0;
    let mut i: usize = from;
    assert(d.take(0) =~= Seq::empty());
    while i < total
        invariant
            from <= i <= total,
            total == v@.len(),
            d == v@.skip(from as int),
            d == digits_of(s@),
            forall|k: int| 0 <= k < i - from ==> is_digit(#[trigger] d[k]),
            !big ==> n == number(d.take(i - from)) && n <= u32::MAX,
            big ==> number(d.take(i - from)) > u32::MAX,
        decreases total - i,
    {
        let c = v[i];
        assert(c == d[i - from]);
        if !('0' <= c && c <= '9') {
            assert(!is_digit(d[i - from]));
            return None;
        }
        assert(d.take(i - from + 1).drop_last() =~= d.take(i - from));
        if !big {
            n = 10 * n + (c as u64 - '0' as u64);
            if n > u32::MAX as u64 {
                big = true;
            }
        }
        i = i + 1;
    }
    assert(d.take(i - from) =~= d);
    if big {
        None
    } else {
        Some(n as u32)
    }
}

/// A text, unless it is empty.
pub open spec fn unless_empty(s: Seq<char>) -> Option<Seq<char>> {
    if s.len() == 0 {
        None
    } else {
        Some(s)
    }
}

/// A configuration with one field edited, or why the field does not take the input.
pub open spec fn edited(c: ConfigView, module: int, idx: int, raw: Seq<char>) -> Result<
    ConfigView,
    Seq<char>,
> {
    let input = trim(raw);
    if module == 0 && idx == 0 {
        if known_provider(input) {
            Ok(ConfigView { provider: input, ..c })
        } else {
            Err("provider 只能是 anthropic 或 openai"@)
        }
    } else if module == 0 && idx == 1 {
        if input.len() == 0 {
            Err("model 不能为空"@)
        } else if speaks_openai(c) {
            Ok(ConfigView { openai: OpenAiView { model: input, ..c.openai }, ..c })
        } else {
            Ok(ConfigView { anthropic: AnthropicView { model: input, ..c.anthropic }, ..c })
        }
    } else if module == 0 && idx == 2 {
        if input.len() == 0 {
            Err("base_url 不能为空"@)
        } else if speaks_openai(c) {
            Ok(ConfigView { openai: OpenAiView { base_url: input, ..c.openai }, ..c })
        } else {
            Ok(ConfigView { anthropic: AnthropicView { base_url: input, ..c.anthropic }, ..c })
        }
    } else if module == 0 && idx == 3 {
        match u32_in(input) {
            None => Err("max_tokens 必须是非负整数"@),
            Some(n) => if speaks_openai(c) {
                Ok(ConfigView { openai: OpenAiView { max_tokens: Some(n), ..c.openai }, ..c })
            } else {
                Ok(ConfigView { anthropic: AnthropicView { max_tokens: n, ..c.anthropic }, ..c })
            },
        }
    } else if module == 0 && idx == 4 {
        if input.len() > 0 && !known_thinking(input) {
            Err("thinking 只能是 enabled / disabled 或空(不发送)"@)
        } else {
            Ok(
                ConfigView {
                    openai: OpenAiView { thinking: unless_empty(input), ..c.openai },
                    ..c
                },
            )
        }
    } else if module == 0 && idx == 5 {
        if input.len() > 0 && !known_effort(input) {
            Err("reasoning_effort 只能是 none / low / high / max 或空(不发送)"@)
        } else {
            Ok(
                ConfigView {
                    openai: OpenAiView { reasoning_effort: unless_empty(input), ..c.openai },
                    ..c
                },
            )
        }
    } else if module == 1 && 0 <= idx <= 2 {
        if input.len() == 0 {
            Err("规则不能为空"@)
        } else if idx == 0 {
            Ok(
                ConfigView {
                    security: SecurityView {
                        forbidden: c.security.forbidden.push(input),
                        ..c.security
                    },
                    ..c
                },
            )
        } else if idx == 1 {
            Ok(
                ConfigView {
                    security: SecurityView {
                        confirm: c.security.confirm.push(input),
                        ..c.security
                    },
                    ..c
                },
            )
        } else {
            Ok(
                ConfigView {
                    security: SecurityView { auto: c.security.auto.push(input), ..c.security },
                    ..c
                },
            )
        }
    } else if module == 2 && idx == 0 {
        match u32_in(input) {
            None => Err("limit 必须是非负整数"@),
            Some(n) => Ok(
                ConfigView {
                    context: ContextConfig { limit: n, ..c.context },
                    ..c
                },
            ),
        }
    } else if module == 2 && idx == 1 {
        if input == "true"@ || input == "开"@ {
            Ok(
                ConfigView {
                    context: ContextConfig { enabled: true, ..c.context },
                    ..c
                },
            )
        } else if input == "false"@ || input == "关"@ {
            Ok(
                ConfigView {
                    context: ContextConfig { enabled: false, ..c.context },
                    ..c
                },
            )
        } else {
            Err("enabled 只能是 true 或 false"@)
        }
    } else {
        Err("模块 "@ + dec(module as nat) + " 字段 "@ + dec(idx as nat) + " 不可编辑"@)
    }
}

fn some_text(s: &String) -> (r: Option<String>)
    ensures
        opt_text(r) == unless_empty(s@),
{
    if s.as_str().is_empty() {
        None
    } else {
        Some(s.clone())
    }
}

fn add_rule(rules: &mut Vec<String>, rule: String)
    ensures
        views(final(rules)@) == views(old(rules)@).push(rule@),
{
    rules.push(rule);
    assert(views(rules@) =~= views(old(rules)@).push(rule@));
}

/// Edits one field of a configuration; see [`edited`].
pub fn edit_config(cfg: &Config, module: usize, idx: usize, input: &str) -> (r: Result<
    Config,
    String,
>)
    ensures
        match r {
            Ok(c) => edited(cfg@, module as int, idx as int, input@) == Ok::<ConfigView, Seq<char>>(
                c@,
            ),
            Err(m) => edited(cfg@, module as int, idx as int, input@) == Err::<
                ConfigView,
                Seq<char>,
            >(m@),
        },
{
    let input = trimmed(input);
    let text = input.as_str();
    let openai = same(cfg.provider.as_str(), "openai");
    let mut c = cfg.clone();
    if module == 0 && idx == 0 {
        if !same(text, "anthropic") && !same(text, "openai") {
            return Err("provider 只能是 anthropic 或 openai".to_owned());
        }
        c.provider = input;
    } else if module == 0 && idx == 1 {
        if text.is_empty() {
            return Err("model 不能为空".to_owned());
        }
        if openai {
            c.openai.model = input;
        } else {
            c.anthropic.model = input;
        }
    } else if module == 0 && idx == 2 {
        if text.is_empty() {
            return Err("base_url 不能为空".to_owned());
        }
        if openai {
            c.openai.base_url = input;
        } else {
            c.anthropic.base_url = input;
        }
    } else if module == 0 && idx == 3 {
        match parse_u32(text) {
            None => {
                return Err("max_tokens 必须是非负整数".to_owned());
            },
            Some(n) => if openai {
                c.openai.max_tokens = Some(n);
            } else {
                c.anthropic.max_tokens = n;
            },
        }
    } else if module == 0 && idx == 4 {
        if !text.is_empty() && !same(text, "enabled") && !same(text, "disabled") {
            return Err("thinking 只能是 enabled / disabled 或空(不发送)".to_owned());
        }
        c.openai.thinking = some_text(&input);
    } else if module == 0 && idx == 5 {
        if !text.is_empty() && !same(text, "none") && !same(text, "low") && !same(text, "high")
            && !same(text, "max") {
            return Err("reasoning_effort 只能是 none / low / high / max 或空(不发送)".to_owned());
        }
        c.openai.reasoning_effort = some_text(&input);
    } else if module == 1 && idx <= 2 {
        if text.is_empty() {
            return Err("规则不能为空".to_owned());
        }
        if idx == 0 {
            add_rule(&mut c.security.forbidden, input);
        } else if idx == 1 {
            add_rule(&mut c.security.confirm, input);
        } else {
            add_rule(&mut c.security.auto, input);
        }
    } else if module == 2 && idx == 0 {
        match parse_u32(text) {
            None => {
                return Err("limit 必须是非负整数".to_owned());
            },
            Some(n) => {
                c.context.limit = n;
            },
        }
    } else if module == 2 && idx == 1 {
        if same(text, "true") || same(text, "开") {
            c.context.enabled = true;
        } else if same(text, "false") || same(text, "关") {
            c.context.enabled = false;
        } else {
            return Err("enabled 只能是 true 或 false".to_owned());
        }
    } else {
        let m = dec_text(module as u64);
        let i = dec_text(idx as u64);
        return Err(cat5("模块 ", m.as_str(), " 字段 ", i.as_str(), " 不可编辑"));
    }
    Ok(c)
}

/// An edit that is to be saved: the configuration, and the text of the file with it.
#[derive(Debug)]
pub struct EditPlan {
    pub config: Config,
    pub file: String,
}

/// What an edit leads to: the configuration and the file to be written, or why there is none.
pub open spec fn planned(
    v: Shown,
    module: int,
    idx: int,
    input: Seq<char>,
    file: Option<Seq<char>>,
) -> Result<(ConfigView, Seq<char>), Seq<char>> {
    match edited(v.config, module, idx, input) {
        Err(m) => Err(m),
        Ok(c) => match saved(file, c) {
            Ok(text) => Ok((c, text)),
            Err(m) => Err(m),
        },
    }
}

/// Whether an edit comes to nothing because the file holds something else in the place of a
/// section.
pub open spec fn file_in_the_way(
    v: Shown,
    module: int,
    idx: int,
    input: Seq<char>,
    file: Option<Seq<char>>,
) -> bool {
    edited(v.config, module, idx, input) is Ok && !sections_free(file_table(file))
}

/// How an edit that was saved is told.
pub open spec fn saved_note(v: Shown, module: int, idx: int) -> Seq<char> {
    "已保存并热生效:"@ + field_text(v, module, idx)
}

impl SettingsView {
    /// Plans an edit of a field, for a configuration file that holds `file`. Nothing is planned
    /// where the file is in the way.
    pub fn plan_edit(&self, module: usize, idx: usize, input: &str, file: Option<&str>) -> (r:
        Option<Result<EditPlan, String>>)
        ensures
            match r {
                None => file_in_the_way(self@, module as int, idx as int, input@, file_view(file)),
                Some(Ok(p)) => planned(
                    self@,
                    module as int,
                    idx as int,
                    input@,
                    file_view(file),
                ) == Ok::<(ConfigView, Seq<char>), Seq<char>>((p.config@, p.file@)),
                Some(Err(m)) => planned(
                    self@,
                    module as int,
                    idx as int,
                    input@,
                    file_view(file),
                ) == Err::<(ConfigView, Seq<char>), Seq<char>>(m@),
            },
            r is Some ==> !file_in_the_way(
                self@,
                module as int,
                idx as int,
                input@,
                file_view(file),
            ),
    {
        match edit_config(&self.config, module, idx, input) {
            Err(m) => Some(Err(m)),
            Ok(config) => match try_write_back(file, &config) {
                None => None,
                Some(Err(m)) => Some(Err(m)),
                Some(Ok(text)) => Some(Ok(EditPlan { config, file: text })),
            },
        }
    }

    /// Takes a planned edit whose file was written; gives what is told of it.
    pub fn apply_edit(&mut self, module: usize, idx: usize, plan: EditPlan) -> (r: String)
        ensures
            final(self)@ == showing(old(self)@, plan.config@),
            r@ == saved_note(final(self)@, module as int, idx as int),
    {
        self.sync_display(plan.config);
        cat2("已保存并热生效:", field_display(self, module, idx).as_str())
    }
}

// ---- levels and the session ----

/// The level of the log: that of the first variable that is not blank, or the default.
pub open spec fn log_level(lex: Option<Seq<char>>, rust: Option<Seq<char>>) -> Seq<char> {
    match lex {
        Some(l) if !all_white(l) => l,
        _ => match rust {
            Some(r) if !all_white(r) => r,
            _ => "warn"@,
        },
    }
}

/// The level of the log; see [`log_level`].
pub fn resolve_log_level(lex: Option<&str>, rust: Option<&str>) -> (r: String)
    ensures
        r@ == log_level(opt_str(lex), opt_str(rust)),
{
    if let Some(l) = lex {
        if !blank(l) {
            return l.to_owned();
        }
    }
    if let Some(r) = rust {
        if !blank(r) {
            return r.to_owned();
        }
    }
    "warn".to_owned()
}

/// What a session is at.
pub fn make_runtime(agent: &AgentLoop, project_type: &str, cwd: &str, log_level: &str) -> (r:
    SettingsRuntime)
    ensures
        r@ == (RuntimeView {
            compress_attempted: agent@.compress_attempted,
            token_estimate: r.token_estimate,
            forbidden_count: r.forbidden_count,
            confirm_count: r.confirm_count,
            auto_count: r.auto_count,
            log_level: log_level@,
            project_type: project_type@,
            cwd: cwd@,
        }),
        r.token_estimate == estimated(agent@.history),
        r.forbidden_count == agent@.rules.forbidden.len(),
        r.confirm_count == agent@.rules.confirm.len(),
        r.auto_count == agent@.rules.auto.len(),
{
    let (forbidden_count, confirm_count, auto_count) = agent.security.rule_counts();
    SettingsRuntime {
        compress_attempted: agent.compress_attempted,
        token_estimate: estimate_tokens(agent.history.as_slice()),
        forbidden_count,
        confirm_count,
        auto_count,
        log_level: log_level.to_owned(),
        project_type: project_type.to_owned(),
        cwd: cwd.to_owned(),
    }
}

// ---- the pages ----

/// What says that a page cannot be edited here.
pub const PENDING_LINE: &'static str = "⚙ 该模块的编辑能力待实现(当前只读展示)";

/// A label and a value.
pub open spec fn field_line(label: Seq<char>, value: Seq<char>) -> Seq<char> {
    DIM@ + label + RESET@ + value
}

fn field(label: &str, value: &str) -> (r: String)
    ensures
        r@ == field_line(label@, value@),
{
    cat4(DIM, label, RESET, value)
}

/// How many rules there are of each kind.
pub open spec fn rule_counts_text(v: Shown) -> Seq<char> {
    "forbidden "@ + dec(v.forbidden_count as nat) + "/confirm "@ + dec(v.confirm_count as nat)
        + "/auto "@ + dec(v.auto_count as nat)
}

/// On or off.
pub open spec fn switch_text(on: bool) -> Seq<char> {
    if on {
        "开"@
    } else {
        "关"@
    }
}

fn switch(on: bool) -> (r: &'static str)
    ensures
        r@ == switch_text(on),
{
    if on {
        "开"
    } else {
        "关"
    }
}

fn counts(v: &SettingsView) -> (r: String)
    ensures
        r@ == rule_counts_text(v@),
{
    let a = dec_text(v.forbidden_count as u64);
    let b = dec_text(v.confirm_count as u64);
    let c = dec_text(v.auto_count as u64);
    let mut r = cat5("forbidden ", a.as_str(), "/confirm ", b.as_str(), "/auto ");
    r.push_str(c.as_str());
    r
}

/// The title of a group.
pub open spec fn title_of(module: int) -> Seq<char> {
    if module == 0 {
        "模型与 Provider"@
    } else if module == 1 {
        "权限与安全"@
    } else if module == 2 {
        "上下文与压缩"@
    } else if module == 3 {
        "外观·日志·关于"@
    } else {
        "<未知模块>"@
    }
}

/// The title of a group.
pub fn module_title(module: usize) -> (r: &'static str)
    ensures
        r@ == title_of(module as int),
{
    if module == 0 {
        "模型与 Provider"
    } else if module == 1 {
        "权限与安全"
    } else if module == 2 {
        "上下文与压缩"
    } else if module == 3 {
        "外观·日志·关于"
    } else {
        "<未知模块>"
    }
}

/// A group in a few words.
pub open spec fn group_summary(v: Shown, module: int) -> Seq<char> {
    if module == 0 {
        v.provider + " · "@ + v.model
    } else if module == 1 {
        rule_counts_text(v)
    } else if module == 2 {
        "limit "@ + dec(v.context_limit as nat) + " · 压缩 "@ + switch_text(v.context_enabled)
    } else {
        "日志 "@ + v.log_level + " · v"@ + v.version
    }
}

fn summarize_group(v: &SettingsView, module: usize) -> (r: String)
    ensures
        r@ == group_summary(v@, module as int),
{
    if module == 0 {
        cat3(v.provider.as_str(), " · ", v.model.as_str())
    } else if module == 1 {
        counts(v)
    } else if module == 2 {
        let n = dec_text(v.context_limit as u64);
        cat4("limit ", n.as_str(), " · 压缩 ", switch(v.context_enabled))
    } else {
        cat4("日志 ", v.log_level.as_str(), " · v", v.version.as_str())
    }
}

/// The line of a group in the list.
pub open spec fn group_line(v: Shown, selected: int, i: int) -> Seq<char> {
    (if i == selected {
        styled(ACCENT@, ">"@)
    } else {
        " "@
    }) + " "@ + dec((i + 1) as nat) + ". "@ + title_of(i) + " —— "@ + group_summary(v, i)
}

/// The list of groups.
pub open spec fn list_page(v: Shown, selected: int) -> Seq<Seq<char>> {
    seq![
        styled(ACCENT_BOLD@, "设置(只读快照)"@),
        group_line(v, selected, 0),
        group_line(v, selected, 1),
        group_line(v, selected, 2),
        group_line(v, selected, 3),
        Seq::empty(),
        styled(DIM@, "↑/↓ 或数字选择 · Enter 详情 · q/Esc 返回"@),
    ]
}

fn list_line(v: &SettingsView, selected: usize, i: usize) -> (r: String)
    requires
        i < 4,
    ensures
        r@ == group_line(v@, selected as int, i as int),
{
    let marker = if i == selected {
        cat3(ACCENT, ">", RESET)
    } else {
        " ".to_owned()
    };
    let n = dec_text((i + 1) as u64);
    let mut r = cat5(marker.as_str(), " ", n.as_str(), ". ", module_title(i));
    r.push_str(" —— ");
    r.push_str(summarize_group(v, i).as_str());
    r
}

/// The list of groups, line by line.
pub fn render_list(v: &SettingsView, selected: usize) -> (r: Vec<String>)
    ensures
        views(r@) == list_page(v@, selected as int),
{
    let mut r: Vec<String> = Vec::new();
    r.push(cat3(ACCENT_BOLD, "设置(只读快照)", RESET));
    r.push(list_line(v, selected, 0));
    r.push(list_line(v, selected, 1));
    r.push(list_line(v, selected, 2));
    r.push(list_line(v, selected, 3));
    r.push(String::new());
    r.push(cat3(DIM, "↑/↓ 或数字选择 · Enter 详情 · q/Esc 返回", RESET));
    assert(views(r@) =~= list_page(v@, selected as int));
    r
}

/// A line for a value that is set; none for one that is not.
pub open spec fn line_if_set(label: Seq<char>, v: Option<Seq<char>>) -> Seq<Seq<char>> {
    match v {
        Some(t) => seq![field_line(label, t)],
        None => Seq::empty(),
    }
}

/// What the page of a group says.
pub open spec fn group_lines(v: Shown, module: int) -> Seq<Seq<char>> {
    if module == 0 {
        seq![
            field_line("Provider:      "@, v.provider),
            field_line("模型:          "@, v.model),
            field_line("Base URL:      "@, v.base_url),
            field_line("max_tokens:    "@, v.max_tokens),
        ] + line_if_set("thinking:      "@, v.openai_thinking) + line_if_set(
            "reasoning_effort: "@,
            v.openai_effort,
        ) + seq![field_line("API Key:       "@, v.api_key_source)]
    } else if module == 1 {
        seq![
            field_line("三级权限:      "@, "Forbidden(硬拦截)> Confirm(询问)> Auto(放行)"@),
            field_line("规则条数:      "@, rule_counts_text(v)),
            field_line("敏感文件外发拦截: "@, "已启用(同轮启发式)"@),
            field_line(
                "规则来源:      "@,
                "内置默认 + lex-code.toml [security] 追加,不可移除内置项"@,
            ),
        ]
    } else if module == 2 {
        seq![
            field_line("上下文 limit:  "@, dec(v.context_limit as nat)),
            field_line("压缩开关:      "@, switch_text(v.context_enabled)),
            field_line(
                "本会话已压缩:  "@,
                if v.compress_attempted {
                    "已触发"@
                } else {
                    "未触发"@
                },
            ),
            field_line("历史 token 估算: "@, dec(v.token_estimate as nat)),
        ]
    } else {
        seq![
            field_line("版本:          "@, v.version),
            field_line("项目类型:      "@, v.project_type),
            field_line("工作目录:      "@, v.cwd),
            field_line("日志级别:      "@, v.log_level),
            field_line("主题:          "@, "蓝色主题(定义于 ui/theme.rs,唯一取色处)"@),
        ]
    }
}

/// The page of a group.
pub open spec fn detail_page(v: Shown, module: int) -> Seq<Seq<char>> {
    seq![styled(ACCENT_BOLD@, title_of(module)), Seq::empty()] + group_lines(v, module) + seq![
        Seq::empty(),
        styled(WARN@, PENDING_LINE@),
        Seq::empty(),
        styled(DIM@, "q/Esc 返回列表"@),
    ]
}

fn render_group(v: &SettingsView, module: usize) -> (r: Vec<String>)
    ensures
        views(r@) == group_lines(v@, module as int),
{
    let mut r: Vec<String> = Vec::new();
    if module == 0 {
        r.push(field("Provider:      ", v.provider.as_str()));
        r.push(field("模型:          ", v.model.as_str()));
        r.push(field("Base URL:      ", v.base_url.as_str()));
        r.push(field("max_tokens:    ", v.max_tokens.as_str()));
        if let Some(t) = &v.openai_thinking {
            r.push(field("thinking:      ", t.as_str()));
        }
        if let Some(e) = &v.openai_effort {
            r.push(field("reasoning_effort: ", e.as_str()));
        }
        r.push(field("API Key:       ", v.api_key_source.as_str()));
    } else if module == 1 {
        r.push(field("三级权限:      ", "Forbidden(硬拦截)> Confirm(询问)> Auto(放行)"));
        r.push(field("规则条数:      ", counts(v).as_str()));
        r.push(field("敏感文件外发拦截: ", "已启用(同轮启发式)"));
        r.push(
            field("规则来源:      ", "内置默认 + lex-code.toml [security] 追加,不可移除内置项"),
        );
    } else if module == 2 {
        r.push(field("上下文 limit:  ", dec_text(v.context_limit as u64).as_str()));
        r.push(field("压缩开关:      ", switch(v.context_enabled)));
        let done = if v.compress_attempted {
            "已触发"
        } else {
            "未触发"
        };
        r.push(field("本会话已压缩:  ", done));
        r.push(field("历史 token 估算: ", dec_text(v.token_estimate).as_str()));
    } else {
        r.push(field("版本:          ", v.version.as_str()));
        r.push(field("项目类型:      ", v.project_type.as_str()));
        r.push(field("工作目录:      ", v.cwd.as_str()));
        r.push(field("日志级别:      ", v.log_level.as_str()));
        r.push(field("主题:          ", "蓝色主题(定义于 ui/theme.rs,唯一取色处)"));
    }
    assert(views(r@) =~= group_lines(v@, module as int));
    r
}

/// The page of a group, line by line.
pub fn render_detail(v: &SettingsView, module: usize) -> (r: Vec<String>)
    ensures
        views(r@) == detail_page(v@, module as int),
{
    let mut r: Vec<String> = Vec::new();
    r.push(cat3(ACCENT_BOLD, module_title(module), RESET));
    r.push(String::new());
    let mut body = render_group(v, module);
    let ghost lines = body@;
    r.append(&mut body);
    r.push(String::new());
    r.push(cat3(WARN, PENDING_LINE, RESET));
    r.push(String::new());
    r.push(cat3(DIM, "q/Esc 返回列表", RESET));
    assert(views(lines) == group_lines(v@, module as int));
    assert(views(r@) =~= detail_page(v@, module as int));
    r
}

// ---- moving through the pages ----

/// What a key leads to.
#[derive(Debug, Clone, Copy, PartialEq, Eq, Structural)]
pub enum PageAction {
    Nothing,
    EnterDetail(usize),
    /// The field of this number is to be edited.
    EditField(usize),
    ToList,
    Quit,
}

/// Where one is.
#[derive(Debug, Clone, Copy, PartialEq, Eq, Structural)]
pub struct PageState {
    pub selected: usize,
    pub in_detail: bool,
    pub field_sel: usize,
    pub editing: bool,
}

/// One further, but not beyond `last`.
pub open spec fn next_up_to(i: usize, last: int) -> usize {
    if i + 1 <= last {
        (i + 1) as usize
    } else {
        last as usize
    }
}

/// One back, but not before the first.
pub open spec fn one_back(i: usize) -> usize {
    if i > 0 {
        (i - 1) as usize
    } else {
        0
    }
}

/// What a key does, where the group `module` has the fields to move through.
pub open spec fn moved(p: PageState, module: int, code: Key) -> (PageAction, PageState) {
    let fields = fields_of(module).len() as int;
    if p.in_detail {
        match code {
            Key::Char('q') | Key::Esc => (
                PageAction::ToList,
                PageState { in_detail: false, field_sel: 0, editing: false, ..p },
            ),
            Key::Up => (PageAction::Nothing, PageState { field_sel: one_back(p.field_sel), ..p }),
            Key::Down => (
                PageAction::Nothing,
                if fields > 0 {
                    PageState { field_sel: next_up_to(p.field_sel, fields - 1), ..p }
                } else {
                    p
                },
            ),
            Key::Enter => (PageAction::EditField(p.field_sel), p),
            _ => (PageAction::Nothing, p),
        }
    } else {
        match code {
            Key::Up => (PageAction::Nothing, PageState { selected: one_back(p.selected), ..p }),
            Key::Down => (PageAction::Nothing, PageState { selected: next_up_to(p.selected, 3), ..p }),
            Key::Enter => (
                PageAction::EnterDetail(p.selected),
                PageState { in_detail: true, ..p },
            ),
            Key::Char(c) => if '1' <= c <= '4' {
                let i = (c as int - '1' as int) as usize;
                (PageAction::EnterDetail(i), PageState { selected: i, in_detail: true, ..p })
            } else if c == 'q' {
                (PageAction::Quit, p)
            } else {
                (PageAction::Nothing, p)
            },
            Key::Esc => (PageAction::Quit, p),
            _ => (PageAction::Nothing, p),
        }
    }
}

impl PageState {
    /// The list, at its first group.
    pub fn new() -> (r: PageState)
        ensures
            r == (PageState { selected: 0, in_detail: false, field_sel: 0, editing: false }),
    {
        PageState { selected: 0, in_detail: false, field_sel: 0, editing: false }
    }

    /// Takes a key; see [`moved`].
    pub fn handle_key(&mut self, module: usize, code: Key) -> (r: PageAction)
        ensures
            (r, *final(self)) == moved(*old(self), module as int, code),
    {
        if self.in_detail {
            match code {
                Key::Char('q') | Key::Esc => {
                    self.in_detail = false;
                    self.field_sel = 0;
                    self.editing = false;
                    PageAction::ToList
                },
                Key::Up => {
                    if self.field_sel > 0 {
                        self.field_sel = self.field_sel - 1;
                    }
                    PageAction::Nothing
                },
                Key::Down => {
                    let defs = field_defs(module);
                    let n: usize = defs.len();
                    assert(n == fields_of(module as int).len());
                    if n > 0 {
                        if self.field_sel < n - 1 {
                            self.field_sel = self.field_sel + 1;
                        } else {
                            self.field_sel = n - 1;
                        }
                    }
                    PageAction::Nothing
                },
                Key::Enter => PageAction::EditField(self.field_sel),
                _ => PageAction::Nothing,
            }
        } else {
            match code {
                Key::Up => {
                    if self.selected > 0 {
                        self.selected = self.selected - 1;
                    }
                    PageAction::Nothing
                },
                Key::Down => {
                    if self.selected < 3 {
                        self.selected = self.selected + 1;
                    } else {
                        self.selected = 3;
                    }
                    PageAction::Nothing
                },
                Key::Enter => {
                    self.in_detail = true;
                    PageAction::EnterDetail(self.selected)
                },
                Key::Char(c) => if '1' <= c && c <= '4' {
                    let i: usize = c as usize - '1' as usize;
                    self.selected = i;
                    self.in_detail = true;
                    PageAction::EnterDetail(i)
                } else if c == 'q' {
                    PageAction::Quit
                } else {
                    PageAction::Nothing
                },
                Key::Esc => PageAction::Quit,
                _ => PageAction::Nothing,
            }
        }
    }
}

impl Default for PageState {
    fn default() -> (r: Self)
        ensures
            r == (PageState { selected: 0, in_detail: false, field_sel: 0, editing: false }),
    {
        PageState::new()
    }
}

// ---- commands ----

/// A command of the input line.
#[derive(Debug, Clone, Copy, PartialEq, Eq, Structural)]
pub enum SlashCommand {
    Settings,
    Compact,
    Init,
    Unknown,
}

/// The names of the commands.
pub open spec fn known_commands() -> Seq<Seq<char>> {
    seq!["/settings"@, "/compact"@, "/init"@]
}

/// The names of the commands.
pub fn command_names() -> (r: Vec<&'static str>)
    ensures
        str_views(r@) == known_commands(),
{
    let mut r: Vec<&'static str> = Vec::new();
    r.push("/settings");
    r.push("/compact");
    r.push("/init");
    assert(str_views(r@) =~= known_commands());
    r
}

/// What the model is asked for the command that sets a project up.
pub open spec fn init_text() -> Seq<char> {
    "请分析当前项目的结构、构建方式与关键约定,在项目根目录生成或完善 AGENTS.md(项目协作指引:构建与测试命令、目录结构、架构边界、代码约定)。若 AGENTS.md 已存在,在其基础上补充完善,保留已有内容,不要删除或改写与本任务无关的部分。完成后给出所创建/修改的文件路径与要点摘要。"@
}

/// What the model is asked for the command that sets a project up.
pub fn init_prompt() -> (r: String)
    ensures
        r@ == init_text(),
{
    "请分析当前项目的结构、构建方式与关键约定,在项目根目录生成或完善 AGENTS.md(项目协作指引:构建与测试命令、目录结构、架构边界、代码约定)。若 AGENTS.md 已存在,在其基础上补充完善,保留已有内容,不要删除或改写与本任务无关的部分。完成后给出所创建/修改的文件路径与要点摘要。".to_owned()
}

/// The command that a line is; nothing where it is none. A command may be shortened as far as no
/// other begins like it.
pub open spec fn command_in(line: Seq<char>) -> Option<SlashCommand> {
    let t = trim(line);
    let s = t.is_prefix_of("/settings"@);
    let c = t.is_prefix_of("/compact"@);
    let i = t.is_prefix_of("/init"@);
    if !"/"@.is_prefix_of(t) {
        None
    } else if t == "/"@ {
        Some(SlashCommand::Unknown)
    } else if s && !c && !i {
        Some(SlashCommand::Settings)
    } else if !s && c && !i {
        Some(SlashCommand::Compact)
    } else if !s && !c && i {
        Some(SlashCommand::Init)
    } else {
        Some(SlashCommand::Unknown)
    }
}

/// The command that a line is; see [`command_in`].
pub fn parse_command(line: &str) -> (r: Option<SlashCommand>)
    ensures
        r == command_in(line@),
{
    let t = trimmed(line);
    let t = t.as_str();
    if !begins_with(t, "/") {
        return None;
    }
    if same(t, "/") {
        return Some(SlashCommand::Unknown);
    }
    let s = begins_with("/settings", t);
    let c = begins_with("/compact", t);
    let i = begins_with("/init", t);
    if s && !c && !i {
        Some(SlashCommand::Settings)
    } else if !s && c && !i {
        Some(SlashCommand::Compact)
    } else if !s && !c && i {
        Some(SlashCommand::Init)
    } else {
        Some(SlashCommand::Unknown)
    }
}

// ---- laws ----

/// After an edit the settings show what they would show afresh.
pub proof fn law_edit_shows_afresh(c: ConfigView, d: ConfigView, rt: RuntimeView)
    ensures
        showing(snapshot(c, rt), d) == snapshot(d, rt),
{
}

/// Rules are only added: an edit takes none away, and changes none that is there.
pub proof fn law_rules_are_only_added(c: ConfigView, module: int, idx: int, input: Seq<char>)
    requires
        edited(c, module, idx, input) is Ok,
    ensures
        ({
            let d = edited(c, module, idx, input)->Ok_0;
            &&& c.security.forbidden.is_prefix_of(d.security.forbidden)
            &&& c.security.confirm.is_prefix_of(d.security.confirm)
            &&& c.security.auto.is_prefix_of(d.security.auto)
        }),
{
    let d = edited(c, module, idx, input)->Ok_0;
    assert(c.security.forbidden =~= d.security.forbidden.subrange(
        0,
        c.security.forbidden.len() as int,
    ));
    assert(c.security.confirm =~= d.security.confirm.subrange(0, c.security.confirm.len() as int));
    assert(c.security.auto =~= d.security.auto.subrange(0, c.security.auto.len() as int));
}

/// One stays among the groups, and among the fields of a group.
pub proof fn law_selection_stays(p: PageState, module: int, code: Key)
    requires
        p.selected < 4,
        p.in_detail ==> p.field_sel < fields_of(module).len() || p.field_sel == 0,
        !p.in_detail ==> p.field_sel == 0,
    ensures
        ({
            let q = moved(p, module, code).1;
            &&& q.selected < 4
            &&& q.in_detail ==> q.field_sel < fields_of(module).len() || q.field_sel == 0
            &&& !q.in_detail ==> q.field_sel == 0
        }),
{
}


proof fn lemma_number(s: Seq<char>)
    requires
        forall|i: int| 0 <= i < s.len() ==> '0' <= #[trigger] s[i] <= '9',
    ensures
        number(s) == crate::text::number_of(s),
    decreases s.len(),
{
    if s.len() > 0 {
        assert forall|i: int| 0 <= i < s.drop_last().len() implies '0' <= #[trigger] s.drop_last()[i]
            <= '9' by {
            assert('0' <= s[i] <= '9');
        }
        assert('0' <= s[s.len() - 1] <= '9');
        lemma_number(s.drop_last());
    }
}

/// A number that can be held is read from its digits, with a plus sign before them or without one.
pub proof fn law_numbers_are_read(n: u32)
    ensures
        u32_in(dec(n as nat)) == Some(n),
        u32_in(seq!['+'] + dec(n as nat)) == Some(n),
        u32_in(Seq::empty()) is None,
        u32_in(seq!['+']) is None,
        u32_in(seq!['-'] + dec(n as nat)) is None,
{
    let d = dec(n as nat);
    crate::text::law_decimal_stands_for_its_number(n as nat);
    assert('0' <= d[0] <= '9');
    lemma_number(d);
    assert((seq!['+'] + d).skip(1) =~= d);
    assert(seq!['+'].skip(1) =~= Seq::empty());
    let m = seq!['-'] + d;
    assert(m[0] == '-');
    assert(!is_digit(m[0]));
}

/// What a field takes: a known service, a name and an address that are not blank, a number that can
/// be held, a way of thinking and an effort that the service knows or nothing, a rule that is not
/// blank, on or off; there are no other fields.
pub proof fn law_what_a_field_takes(c: ConfigView, module: int, idx: int, raw: Seq<char>)
    ensures
        edited(c, module, idx, raw) is Ok <==> {
            let t = trim(raw);
            ||| module == 0 && idx == 0 && (t == "anthropic"@ || t == "openai"@)
            ||| module == 0 && (idx == 1 || idx == 2) && !all_white(raw)
            ||| module == 0 && idx == 3 && u32_in(t) is Some
            ||| module == 0 && idx == 4 && (all_white(raw) || t == "enabled"@ || t == "disabled"@)
            ||| module == 0 && idx == 5 && (all_white(raw) || t == "none"@ || t == "low"@ || t
                == "high"@ || t == "max"@)
            ||| module == 1 && (idx == 0 || idx == 1 || idx == 2) && !all_white(raw)
            ||| module == 2 && idx == 0 && u32_in(t) is Some
            ||| module == 2 && idx == 1 && (t == "true"@ || t == "false"@ || t == "开"@ || t == "关"@)
        },
{
    crate::text::lemma_trim_empty(raw);
}

/// An edit that is taken is what the settings show of that field afterwards.
pub proof fn law_edit_is_shown(v: Shown, c: ConfigView, module: int, idx: int, raw: Seq<char>)
    requires
        edited(c, module, idx, raw) is Ok,
    ensures
        ({
            let d = edited(c, module, idx, raw)->Ok_0;
            let told = field_text(showing(v, d), module, idx);
            let t = trim(raw);
            &&& module == 0 && idx <= 2 ==> told == t
            &&& module == 0 && idx == 3 || module == 2 && idx == 0 ==> told == dec(u32_in(t)->0 as nat)
            &&& module == 0 && (idx == 4 || idx == 5) && c.provider == "openai"@ && !all_white(raw)
                ==> told == t
            &&& module == 0 && (idx == 4 || idx == 5) && all_white(raw) ==> told == "(空)"@
            &&& module == 2 && idx == 1 && (t == "true"@ || t == "开"@) ==> told == "true"@
            &&& module == 2 && idx == 1 && (t == "false"@ || t == "关"@) ==> told == "false"@
            &&& module == 1 && idx == 0 ==> d.security.forbidden == c.security.forbidden + seq![t]
            &&& module == 1 && idx == 1 ==> d.security.confirm == c.security.confirm + seq![t]
            &&& module == 1 && idx == 2 ==> d.security.auto == c.security.auto + seq![t]
        }),
{
    crate::text::lemma_trim_empty(raw);
    reveal_strlit("true");
    reveal_strlit("false");
    reveal_strlit("开");
    reveal_strlit("关");
    reveal_strlit("openai");
    reveal_strlit("anthropic");
    assert("true"@.len() == 4 && "false"@.len() == 5 && "开"@.len() == 1 && "关"@.len() == 1);
    assert("开"@[0] != "关"@[0]);
    assert("openai"@.len() == 6 && "anthropic"@.len() == 9);
    let t = trim(raw);
    let d = edited(c, module, idx, raw)->Ok_0;
    assert(c.security.forbidden.push(t) =~= c.security.forbidden + seq![t]);
    assert(c.security.confirm.push(t) =~= c.security.confirm + seq![t]);
    assert(c.security.auto.push(t) =~= c.security.auto + seq![t]);
}

/// An edit changes the field it is of, in the service that is chosen, and nothing else.
pub proof fn law_edit_changes_one_field(c: ConfigView, module: int, idx: int, raw: Seq<char>)
    requires
        edited(c, module, idx, raw) is Ok,
    ensures
        ({
            let d = edited(c, module, idx, raw)->Ok_0;
            &&& d.system_prompt_path == c.system_prompt_path && d.shell == c.shell && d.max_turns
                == c.max_turns && d.agent == c.agent && d.openai.user_id == c.openai.user_id
            &&& !(module == 0 && idx == 0) ==> d.provider == c.provider
            &&& !(module == 0 && idx == 1) ==> d.openai.model == c.openai.model && d.anthropic.model
                == c.anthropic.model
            &&& !(module == 0 && idx == 2) ==> d.openai.base_url == c.openai.base_url
                && d.anthropic.base_url == c.anthropic.base_url
            &&& !(module == 0 && idx == 3) ==> d.openai.max_tokens == c.openai.max_tokens
                && d.anthropic.max_tokens == c.anthropic.max_tokens
            &&& !(module == 0 && idx == 4) ==> d.openai.thinking == c.openai.thinking
            &&& !(module == 0 && idx == 5) ==> d.openai.reasoning_effort == c.openai.reasoning_effort
            &&& c.provider == "openai"@ ==> d.anthropic == c.anthropic
            &&& c.provider != "openai"@ && idx <= 3 ==> d.openai == c.openai
            &&& !(module == 1 && idx == 0) ==> d.security.forbidden == c.security.forbidden
            &&& !(module == 1 && idx == 1) ==> d.security.confirm == c.security.confirm
            &&& !(module == 1 && idx == 2) ==> d.security.auto == c.security.auto
            &&& !(module == 2 && idx == 0) ==> d.context.limit == c.context.limit
            &&& !(module == 2 && idx == 1) ==> d.context.enabled == c.context.enabled
        }),
{
}

/// The settings show the service that is chosen, not the other: its model, address and limit.
pub proof fn law_settings_show_the_chosen_service(v: Shown, c: ConfigView)
    ensures
        ({
            let s = showing(v, c);
            &&& s.config == c && s.provider == c.provider && s.context_limit == c.context.limit
                && s.context_enabled == c.context.enabled
            &&& c.provider == "openai"@ ==> s.model == c.openai.model && s.base_url
                == c.openai.base_url && s.openai_thinking == c.openai.thinking && s.openai_effort
                == c.openai.reasoning_effort && s.api_key_source == "环境变量 LEX_OPENAI_API_KEY"@
            &&& c.provider != "openai"@ ==> s.model == c.anthropic.model && s.base_url
                == c.anthropic.base_url && s.openai_thinking is None && s.openai_effort is None
                && s.api_key_source == "环境变量 LEX_ANTHROPIC_API_KEY"@
            &&& c.provider == "openai"@ && c.openai.max_tokens is Some ==> s.max_tokens == dec(
                c.openai.max_tokens->0 as nat,
            )
            &&& c.provider == "openai"@ && c.openai.max_tokens is None ==> s.max_tokens
                == "未设置(服务端默认)"@
            &&& c.provider != "openai"@ ==> s.max_tokens == dec(c.anthropic.max_tokens as nat)
            &&& s.forbidden_count == v.forbidden_count && s.confirm_count == v.confirm_count
                && s.auto_count == v.auto_count && s.token_estimate == v.token_estimate
                && s.log_level == v.log_level && s.project_type == v.project_type && s.cwd == v.cwd
        }),
{
}

/// A line is a command when, but for the white space around it, it begins one of the three in no
/// less than two characters; any other line that begins with a slash is an unknown one, and one
/// that does not is none.
pub proof fn law_commands_may_be_shortened(line: Seq<char>)
    ensures
        ({
            let t = trim(line);
            &&& t.len() >= 2 && t.is_prefix_of("/settings"@) ==> command_in(line) == Some(
                SlashCommand::Settings,
            )
            &&& t.len() >= 2 && t.is_prefix_of("/compact"@) ==> command_in(line) == Some(
                SlashCommand::Compact,
            )
            &&& t.len() >= 2 && t.is_prefix_of("/init"@) ==> command_in(line) == Some(
                SlashCommand::Init,
            )
            &&& t.len() > 0 && t[0] == '/' && !(t.len() >= 2 && (t.is_prefix_of("/settings"@)
                || t.is_prefix_of("/compact"@) || t.is_prefix_of("/init"@))) ==> command_in(line)
                == Some(SlashCommand::Unknown)
            &&& t.len() == 0 || t[0] != '/' ==> command_in(line) is None
        }),
{
    reveal_strlit("/");
    reveal_strlit("/settings");
    reveal_strlit("/compact");
    reveal_strlit("/init");
    let t = trim(line);
    assert("/"@.len() == 1);
    assert("/settings"@[0] == '/' && "/compact"@[0] == '/' && "/init"@[0] == '/');
    assert("/settings"@[1] == 's' && "/compact"@[1] == 'c' && "/init"@[1] == 'i');
    if t.len() > 0 && t[0] == '/' {
        assert("/"@ =~= t.take(1));
        if t.len() == 1 {
            assert(t =~= "/"@);
        }
    }
    if "/"@.is_prefix_of(t) {
        assert(t[0] == "/"@[0]);
    }
    if t.len() >= 2 {
        if t.is_prefix_of("/settings"@) {
            assert(t[0] == "/settings"@[0] && t[1] == "/settings"@[1]);
        }
        if t.is_prefix_of("/compact"@) {
            assert(t[0] == "/compact"@[0] && t[1] == "/compact"@[1]);
        }
        if t.is_prefix_of("/init"@) {
            assert(t[0] == "/init"@[0] && t[1] == "/init"@[1]);
        }
    }
}

/// Where the keys lead: in the list to a group and out of it, in a group to its fields and back to
/// the list; up and down by one, and not beyond the ends.
pub proof fn law_keys_lead_through_the_settings(p: PageState, module: int, code: Key)
    requires
        p.selected < 4,
    ensures
        ({
            let (action, q) = moved(p, module, code);
            let fields = fields_of(module).len();
            &&& !p.in_detail && code is Enter ==> action == PageAction::EnterDetail(p.selected)
                && q.in_detail && q.selected == p.selected
            &&& !p.in_detail && code == Key::Char('1') ==> q.in_detail && q.selected == 0
            &&& !p.in_detail && code == Key::Char('2') ==> q.in_detail && q.selected == 1
            &&& !p.in_detail && code == Key::Char('3') ==> q.in_detail && q.selected == 2
            &&& !p.in_detail && code == Key::Char('4') ==> q.in_detail && q.selected == 3
            &&& !p.in_detail && code is Down && p.selected < 3 ==> q.selected == p.selected + 1
            &&& !p.in_detail && code is Down && p.selected == 3 ==> q == p
            &&& !p.in_detail && code is Up && p.selected > 0 ==> q.selected == p.selected - 1
            &&& !p.in_detail && code is Up && p.selected == 0 ==> q == p
            &&& !p.in_detail && (code is Esc || code == Key::Char('q')) ==> action == PageAction::Quit
            &&& p.in_detail && (code is Esc || code == Key::Char('q')) ==> action == PageAction::ToList
                && !q.in_detail && q.field_sel == 0 && q.selected == p.selected
            &&& p.in_detail && code is Enter ==> action == PageAction::EditField(p.field_sel) && q == p
            &&& p.in_detail && code is Down && p.field_sel + 1 < fields ==> q.field_sel == p.field_sel
                + 1 && q.selected == p.selected
            &&& p.in_detail && code is Down && p.field_sel + 1 == fields ==> q == p
            &&& p.in_detail && code is Up && p.field_sel > 0 ==> q.field_sel == p.field_sel - 1
            &&& p.in_detail && code is Up && p.field_sel == 0 ==> q == p
        }),
{
}

proof fn lemma_field_line(label: Seq<char>, value: Seq<char>)
    ensures
        value.is_suffix_of(field_line(label, value)),
        label.len() > 0 ==> field_line(label, value).len() > value.len(),
{
    let l = field_line(label, value);
    assert(value =~= l.skip(l.len() - value.len()));
}

/// The page of a group shows what there is to show, each value at the end of a line of its own, in
/// its order.
pub proof fn law_pages_show_every_value(v: Shown)
    ensures
        ({
            let l = detail_page(v, 0);
            let n = l.len();
            &&& v.provider.is_suffix_of(l[2])
            &&& v.model.is_suffix_of(l[3])
            &&& v.base_url.is_suffix_of(l[4])
            &&& v.max_tokens.is_suffix_of(l[5])
            &&& v.openai_thinking is Some ==> v.openai_thinking->0.is_suffix_of(l[6])
            &&& v.openai_effort is Some ==> v.openai_effort->0.is_suffix_of(l[n - 6])
            &&& v.api_key_source.is_suffix_of(l[n - 5])
            &&& n == 11 + (if v.openai_thinking is Some {
                1int
            } else {
                0
            }) + (if v.openai_effort is Some {
                1int
            } else {
                0
            })
        }),
        ({
            let l = detail_page(v, 2);
            &&& l.len() == 10
            &&& dec(v.context_limit as nat).is_suffix_of(l[2])
            &&& v.context_enabled ==> "开"@.is_suffix_of(l[3])
            &&& !v.context_enabled ==> "关"@.is_suffix_of(l[3])
            &&& v.compress_attempted ==> "已触发"@.is_suffix_of(l[4])
            &&& !v.compress_attempted ==> "未触发"@.is_suffix_of(l[4])
            &&& dec(v.token_estimate as nat).is_suffix_of(l[5])
        }),
        ({
            let l = detail_page(v, 3);
            &&& l.len() == 11
            &&& v.version.is_suffix_of(l[2])
            &&& v.project_type.is_suffix_of(l[3])
            &&& v.cwd.is_suffix_of(l[4])
            &&& v.log_level.is_suffix_of(l[5])
        }),
        list_page(v, 0).len() == 7,
{
    lemma_field_line("Provider:      "@, v.provider);
    lemma_field_line("模型:          "@, v.model);
    lemma_field_line("Base URL:      "@, v.base_url);
    lemma_field_line("max_tokens:    "@, v.max_tokens);
    if v.openai_thinking is Some {
        lemma_field_line("thinking:      "@, v.openai_thinking->0);
    }
    if v.openai_effort is Some {
        lemma_field_line("reasoning_effort: "@, v.openai_effort->0);
    }
    lemma_field_line("API Key:       "@, v.api_key_source);
    lemma_field_line("上下文 limit:  "@, dec(v.context_limit as nat));
    lemma_field_line("压缩开关:      "@, switch_text(v.context_enabled));
    lemma_field_line(
        "本会话已压缩:  "@,
        if v.compress_attempted {
            "已触发"@
        } else {
            "未触发"@
        },
    );
    lemma_field_line("历史 token 估算: "@, dec(v.token_estimate as nat));
    lemma_field_line("版本:          "@, v.version);
    lemma_field_line("项目类型:      "@, v.project_type);
    lemma_field_line("工作目录:      "@, v.cwd);
    lemma_field_line("日志级别:      "@, v.log_level);
}

} // verus!
