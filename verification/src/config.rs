//! Configuration.
use vstd::prelude::*;
use vstd::string::*;
use crate::error::{ErrorView, LexError, Result};
use crate::text::{
    all_white, blank, cat3, clone_opt, clone_texts, opt_str, opt_text, same, to_chars, views,
};

verus! {

/// All of the configuration.
#[derive(Debug)]
pub struct Config {
    pub provider: String,
    pub system_prompt_path: Option<String>,
    pub anthropic: AnthropicConfig,
    pub openai: OpenAiConfig,
    pub shell: ShellConfig,
    pub max_turns: u32,
    pub security: SecurityConfig,
    pub context: ContextConfig,
    pub agent: AgentConfig,
}

/// The service that speaks Anthropic's format.
#[derive(Debug)]
pub struct AnthropicConfig {
    pub base_url: String,
    pub model: String,
    pub max_tokens: u32,
}

/// The service that speaks OpenAI's format. What is not set is not sent.
#[derive(Debug)]
pub struct OpenAiConfig {
    pub base_url: String,
    pub model: String,
    pub max_tokens: Option<u32>,
    pub thinking: Option<String>,
    pub reasoning_effort: Option<String>,
    pub user_id: Option<String>,
}

/// The shell that commands run in; what is not set is the platform's.
#[derive(Debug)]
pub struct ShellConfig {
    pub command: Option<String>,
    pub args: Option<Vec<String>>,
}

/// Rules that are added to the built-in ones.
#[derive(Debug)]
pub struct SecurityConfig {
    pub forbidden: Vec<String>,
    pub confirm: Vec<String>,
    pub auto: Vec<String>,
}

/// When the conversation is shortened.
#[derive(Debug, Clone, Copy, PartialEq, Eq, Structural)]
pub struct ContextConfig {
    pub limit: u32,
    pub enabled: bool,
}

/// How far an agent may hand work on.
#[derive(Debug, Clone, Copy, PartialEq, Eq, Structural)]
pub struct AgentConfig {
    /// How many child agents a turn may have; none where zero.
    pub max_children_per_turn: u32,
}

/// What [`AnthropicConfig`] holds.
#[verifier::ext_equal]
pub struct AnthropicView {
    pub base_url: Seq<char>,
    pub model: Seq<char>,
    pub max_tokens: u32,
}

/// What [`OpenAiConfig`] holds.
#[verifier::ext_equal]
pub struct OpenAiView {
    pub base_url: Seq<char>,
    pub model: Seq<char>,
    pub max_tokens: Option<u32>,
    pub thinking: Option<Seq<char>>,
    pub reasoning_effort: Option<Seq<char>>,
    pub user_id: Option<Seq<char>>,
}

/// What [`ShellConfig`] holds.
#[verifier::ext_equal]
pub struct ShellView {
    pub command: Option<Seq<char>>,
    pub args: Option<Seq<Seq<char>>>,
}

/// What [`SecurityConfig`] holds.
#[verifier::ext_equal]
pub struct SecurityView {
    pub forbidden: Seq<Seq<char>>,
    pub confirm: Seq<Seq<char>>,
    pub auto: Seq<Seq<char>>,
}

/// What [`Config`] holds.
#[verifier::ext_equal]
pub struct ConfigView {
    pub provider: Seq<char>,
    pub system_prompt_path: Option<Seq<char>>,
    pub anthropic: AnthropicView,
    pub openai: OpenAiView,
    pub shell: ShellView,
    pub max_turns: u32,
    pub security: SecurityView,
    pub context: ContextConfig,
    pub agent: AgentConfig,
}

impl View for AnthropicConfig {
    type V = AnthropicView;

    open spec fn view(&self) -> AnthropicView {
        AnthropicView {
            base_url: self.base_url@,
            model: self.model@,
            max_tokens: self.max_tokens,
        }
    }
}

impl View for OpenAiConfig {
    type V = OpenAiView;

    open spec fn view(&self) -> OpenAiView {
        OpenAiView {
            base_url: self.base_url@,
            model: self.model@,
            max_tokens: self.max_tokens,
            thinking: opt_text(self.thinking),
            reasoning_effort: opt_text(self.reasoning_effort),
            user_id: opt_text(self.user_id),
        }
    }
}

impl View for ShellConfig {
    type V = ShellView;

    open spec fn view(&self) -> ShellView {
        ShellView {
            command: opt_text(self.command),
            args: match self.args {
                Some(v) => Some(views(v@)),
                None => None,
            },
        }
    }
}

impl View for SecurityConfig {
    type V = SecurityView;

    open spec fn view(&self) -> SecurityView {
        SecurityView {
            forbidden: views(self.forbidden@),
            confirm: views(self.confirm@),
            auto: views(self.auto@),
        }
    }
}

impl View for Config {
    type V = ConfigView;

    open spec fn view(&self) -> ConfigView {
        ConfigView {
            provider: self.provider@,
            system_prompt_path: opt_text(self.system_prompt_path),
            anthropic: self.anthropic@,
            openai: self.openai@,
            shell: self.shell@,
            max_turns: self.max_turns,
            security: self.security@,
            context: self.context,
            agent: self.agent,
        }
    }
}

// ---- copies ----

impl Clone for Config {
    fn clone(&self) -> (r: Self)
        ensures
            r@ == self@,
    {
        Config {
            provider: self.provider.clone(),
            system_prompt_path: clone_opt(&self.system_prompt_path),
            anthropic: AnthropicConfig {
                base_url: self.anthropic.base_url.clone(),
                model: self.anthropic.model.clone(),
                max_tokens: self.anthropic.max_tokens,
            },
            openai: OpenAiConfig {
                base_url: self.openai.base_url.clone(),
                model: self.openai.model.clone(),
                max_tokens: self.openai.max_tokens,
                thinking: clone_opt(&self.openai.thinking),
                reasoning_effort: clone_opt(&self.openai.reasoning_effort),
                user_id: clone_opt(&self.openai.user_id),
            },
            shell: ShellConfig {
                command: clone_opt(&self.shell.command),
                args: match &self.shell.args {
                    Some(v) => Some(clone_texts(v)),
                    None => None,
                },
            },
            max_turns: self.max_turns,
            security: self.security.clone(),
            context: self.context,
            agent: self.agent,
        }
    }
}

impl Clone for SecurityConfig {
    fn clone(&self) -> (r: Self)
        ensures
            r@ == self@,
    {
        SecurityConfig {
            forbidden: clone_texts(&self.forbidden),
            confirm: clone_texts(&self.confirm),
            auto: clone_texts(&self.auto),
        }
    }
}

// ---- defaults ----

/// No rules of one's own.
pub open spec fn no_rules() -> SecurityView {
    SecurityView { forbidden: Seq::empty(), confirm: Seq::empty(), auto: Seq::empty() }
}

/// What holds where nothing is configured. There is no default address and no default model.
pub open spec fn default_config() -> ConfigView {
    ConfigView {
        provider: "anthropic"@,
        system_prompt_path: None,
        anthropic: AnthropicView {
            base_url: Seq::empty(),
            model: Seq::empty(),
            max_tokens: 8192,
        },
        openai: OpenAiView {
            base_url: Seq::empty(),
            model: Seq::empty(),
            max_tokens: None,
            thinking: None,
            reasoning_effort: None,
            user_id: None,
        },
        shell: ShellView { command: None, args: None },
        max_turns: 50,
        security: no_rules(),
        context: ContextConfig { limit: 64000, enabled: true },
        agent: AgentConfig { max_children_per_turn: 4 },
    }
}

impl Default for AnthropicConfig {
    fn default() -> (r: Self)
        ensures
            r@ == default_config().anthropic,
    {
        AnthropicConfig { base_url: String::new(), model: String::new(), max_tokens: 8192 }
    }
}

impl Default for OpenAiConfig {
    fn default() -> (r: Self)
        ensures
            r@ == default_config().openai,
    {
        OpenAiConfig {
            base_url: String::new(),
            model: String::new(),
            max_tokens: None,
            thinking: None,
            reasoning_effort: None,
            user_id: None,
        }
    }
}

impl Default for ShellConfig {
    fn default() -> (r: Self)
        ensures
            r@ == default_config().shell,
    {
        ShellConfig { command: None, args: None }
    }
}

impl Default for SecurityConfig {
    fn default() -> (r: Self)
        ensures
            r@ == no_rules(),
    {
        let r = SecurityConfig { forbidden: Vec::new(), confirm: Vec::new(), auto: Vec::new() };
        assert(r@ =~= no_rules());
        r
    }
}

impl Default for ContextConfig {
    fn default() -> (r: Self)
        ensures
            r == default_config().context,
    {
        ContextConfig { limit: 64000, enabled: true }
    }
}

impl Default for AgentConfig {
    fn default() -> (r: Self)
        ensures
            r == default_config().agent,
    {
        AgentConfig { max_children_per_turn: 4 }
    }
}

impl Default for Config {
    fn default() -> (r: Self)
        ensures
            r@ == default_config(),
    {
        Config {
            provider: "anthropic".to_owned(),
            system_prompt_path: None,
            anthropic: AnthropicConfig::default(),
            openai: OpenAiConfig::default(),
            shell: ShellConfig::default(),
            max_turns: 50,
            security: SecurityConfig::default(),
            context: ContextConfig::default(),
            agent: AgentConfig::default(),
        }
    }
}

// ---- loading ----

/// A value of the environment that counts: one that is not only white space.
pub open spec fn counting(v: Option<Seq<char>>) -> Option<Seq<char>> {
    match v {
        Some(s) => if all_white(s) {
            None
        } else {
            Some(s)
        },
        None => None,
    }
}

/// A value of the environment that counts.
pub fn env_option(value: Option<&str>) -> (r: Option<String>)
    ensures
        opt_text(r) == counting(opt_str(value)),
{
    match value {
        Some(v) => if blank(v) {
            None
        } else {
            Some(v.to_owned())
        },
        None => None,
    }
}

/// A configuration with the addresses that the environment gives.
pub open spec fn with_env(
    c: ConfigView,
    anthropic_url: Option<Seq<char>>,
    openai_url: Option<Seq<char>>,
) -> ConfigView {
    ConfigView {
        anthropic: AnthropicView {
            base_url: match counting(anthropic_url) {
                Some(u) => u,
                None => c.anthropic.base_url,
            },
            ..c.anthropic
        },
        openai: OpenAiView {
            base_url: match counting(openai_url) {
                Some(u) => u,
                None => c.openai.base_url,
            },
            ..c.openai
        },
        ..c
    }
}

/// Whether a name is that of a wire format.
pub open spec fn known_provider(p: Seq<char>) -> bool {
    p == "anthropic"@ || p == "openai"@
}

/// Whether a way of thinking is one that the service knows.
pub open spec fn known_thinking(t: Seq<char>) -> bool {
    t == "enabled"@ || t == "disabled"@
}

/// Whether an effort is one that the service knows.
pub open spec fn known_effort(e: Seq<char>) -> bool {
    e == "none"@ || e == "low"@ || e == "high"@ || e == "max"@
}

/// A character that a user id may have.
pub open spec fn user_id_char(c: char) -> bool {
    ||| 'a' <= c <= 'z'
    ||| 'A' <= c <= 'Z'
    ||| '0' <= c <= '9'
    ||| c == '-'
    ||| c == '_'
}

/// How long a user id may be.
pub const USER_ID_LIMIT: usize = 512;

/// Whether a user id is one that the service takes.
pub open spec fn valid_user_id(u: Seq<char>) -> bool {
    u.len() <= USER_ID_LIMIT && forall|i: int| 0 <= i < u.len() ==> user_id_char(#[trigger] u[i])
}

/// The heading of the section of the chosen service.
pub open spec fn chosen_section(c: ConfigView) -> Seq<char> {
    if c.provider == "anthropic"@ {
        "[anthropic]"@
    } else {
        "[openai]"@
    }
}

/// The address of the chosen service.
pub open spec fn chosen_url(c: ConfigView) -> Seq<char> {
    if c.provider == "anthropic"@ {
        c.anthropic.base_url
    } else {
        c.openai.base_url
    }
}

/// The model of the chosen service.
pub open spec fn chosen_model(c: ConfigView) -> Seq<char> {
    if c.provider == "anthropic"@ {
        c.anthropic.model
    } else {
        c.openai.model
    }
}

/// What is wrong with a configuration, where anything is. Only the chosen service has to be
/// complete.
pub open spec fn config_fault(c: ConfigView) -> Option<Seq<char>> {
    if !known_provider(c.provider) {
        Some(
            "不支持的 provider \""@ + c.provider
                + "\":可选 \"anthropic\" 或 \"openai\"(OpenAI 兼容端点)"@,
        )
    } else if chosen_url(c).len() == 0 {
        Some(
            "缺少 base_url:请在 lex-code.toml 的 "@ + chosen_section(c)
                + " 段设置 base_url,或设置对应的环境变量(本项目不允许内置默认 URL)"@,
        )
    } else if chosen_model(c).len() == 0 {
        Some(
            "缺少模型名:请在 lex-code.toml 的 "@ + chosen_section(c)
                + " 段设置 model(本项目不允许内置默认模型)"@,
        )
    } else if c.openai.thinking is Some && !known_thinking(c.openai.thinking->0) {
        Some(
            "openai.thinking 取值 \""@ + c.openai.thinking->0
                + "\" 无效:只支持 \"enabled\" / \"disabled\""@,
        )
    } else if c.openai.reasoning_effort is Some && !known_effort(c.openai.reasoning_effort->0) {
        Some(
            "openai.reasoning_effort 取值 \""@ + c.openai.reasoning_effort->0
                + "\" 无效:只支持 \"none\" / \"low\" / \"high\" / \"max\""@,
        )
    } else if c.openai.user_id is Some && !valid_user_id(c.openai.user_id->0) {
        Some(
            "openai.user_id 取值 \""@ + c.openai.user_id->0
                + "\" 无效:只支持字母、数字、- 与 _,且不超过 512 个字符"@,
        )
    } else {
        None
    }
}

fn user_id_fits(u: &str) -> (r: bool)
    ensures
        r == valid_user_id(u@),
{
    let v = to_chars(u);
    if v.len() > USER_ID_LIMIT {
        return false;
    }
    let mut i: usize = 0;
    while i < v.len()
        invariant
            i <= v@.len(),
            v@ == u@,
            forall|k: int| 0 <= k < i ==> user_id_char(#[trigger] u@[k]),
        decreases v@.len() - i,
    {
        let c = v[i];
        if !(('a' <= c && c <= 'z') || ('A' <= c && c <= 'Z') || ('0' <= c && c <= '9') || c == '-'
            || c == '_') {
            assert(!user_id_char(u@[i as int]));
            return false;
        }
        i = i + 1;
    }
    true
}

impl Config {
    /// What is wrong with the configuration, where anything is.
    pub fn fault(&self) -> (r: Option<String>)
        ensures
            opt_text(r) == config_fault(self@),
    {
        if !same(self.provider.as_str(), "anthropic") && !same(self.provider.as_str(), "openai") {
            return Some(
                cat3(
                    "不支持的 provider \"",
                    self.provider.as_str(),
                    "\":可选 \"anthropic\" 或 \"openai\"(OpenAI 兼容端点)",
                ),
            );
        }
        let anthropic = same(self.provider.as_str(), "anthropic");
        let section = if anthropic {
            "[anthropic]"
        } else {
            "[openai]"
        };
        let url = if anthropic {
            &self.anthropic.base_url
        } else {
            &self.openai.base_url
        };
        let model = if anthropic {
            &self.anthropic.model
        } else {
            &self.openai.model
        };
        if url.as_str().is_empty() {
            return Some(
                cat3(
                    "缺少 base_url:请在 lex-code.toml 的 ",
                    section,
                    " 段设置 base_url,或设置对应的环境变量(本项目不允许内置默认 URL)",
                ),
            );
        }
        if model.as_str().is_empty() {
            return Some(
                cat3(
                    "缺少模型名:请在 lex-code.toml 的 ",
                    section,
                    " 段设置 model(本项目不允许内置默认模型)",
                ),
            );
        }
        if let Some(t) = &self.openai.thinking {
            if !same(t.as_str(), "enabled") && !same(t.as_str(), "disabled") {
                return Some(
                    cat3(
                        "openai.thinking 取值 \"",
                        t.as_str(),
                        "\" 无效:只支持 \"enabled\" / \"disabled\"",
                    ),
                );
            }
        }
        if let Some(e) = &self.openai.reasoning_effort {
            let s = e.as_str();
            if !same(s, "none") && !same(s, "low") && !same(s, "high") && !same(s, "max") {
                return Some(
                    cat3(
                        "openai.reasoning_effort 取值 \"",
                        s,
                        "\" 无效:只支持 \"none\" / \"low\" / \"high\" / \"max\"",
                    ),
                );
            }
        }
        if let Some(u) = &self.openai.user_id {
            if !user_id_fits(u.as_str()) {
                return Some(
                    cat3(
                        "openai.user_id 取值 \"",
                        u.as_str(),
                        "\" 无效:只支持字母、数字、- 与 _,且不超过 512 个字符",
                    ),
                );
            }
        }
        None
    }

    /// The configuration of a file, or the default where there is none, with the addresses of the
    /// environment over it; an error where it cannot be used.
    pub fn load(
        file: Option<Config>,
        anthropic_url: Option<&str>,
        openai_url: Option<&str>,
    ) -> (r: Result<Config>)
        ensures
            ({
                let base = match file {
                    Some(c) => c@,
                    None => default_config(),
                };
                let c = with_env(base, opt_str(anthropic_url), opt_str(openai_url));
                match r {
                    Ok(cfg) => config_fault(c) is None && cfg@ == c,
                    Err(e) => config_fault(c) is Some && e@ == ErrorView::Config(
                        config_fault(c)->0,
                    ),
                }
            }),
    {
        let mut cfg = match file {
            Some(c) => c,
            None => Config::default(),
        };
        if let Some(u) = env_option(anthropic_url) {
            cfg.anthropic.base_url = u;
        }
        if let Some(u) = env_option(openai_url) {
            cfg.openai.base_url = u;
        }
        match cfg.fault() {
            Some(m) => Err(LexError::Config(m)),
            None => Ok(cfg),
        }
    }

    /// The variable of the environment that holds the key of a service.
    pub fn api_key_env(provider: &str) -> (r: &'static str)
        ensures
            r@ == key_variable(provider@),
    {
        if same(provider, "anthropic") {
            "LEX_ANTHROPIC_API_KEY"
        } else if same(provider, "openai") {
            "LEX_OPENAI_API_KEY"
        } else {
            "LEX_API_KEY"
        }
    }
}

/// The variable of the environment that holds the key of a service.
pub open spec fn key_variable(provider: Seq<char>) -> Seq<char> {
    if provider == "anthropic"@ {
        "LEX_ANTHROPIC_API_KEY"@
    } else if provider == "openai"@ {
        "LEX_OPENAI_API_KEY"@
    } else {
        "LEX_API_KEY"@
    }
}

/// The key of a service, given what the environment holds under [`Config::api_key_env`]; an error
/// where that is nothing.
pub fn resolve_api_key(provider: &str, value: Option<&str>) -> (r: Result<String>)
    ensures
        match r {
            Ok(k) => counting(opt_str(value)) == Some(k@),
            Err(e) => {
                &&& counting(opt_str(value)) is None
                &&& e@ == ErrorView::Config(
                    "缺少 API Key:请设置环境变量 "@ + key_variable(provider@)
                        + "(本项目不从配置文件读取凭证)"@,
                )
            },
        },
{
    match env_option(value) {
        Some(k) => Ok(k),
        None => Err(
            LexError::Config(
                cat3(
                    "缺少 API Key:请设置环境变量 ",
                    Config::api_key_env(provider),
                    "(本项目不从配置文件读取凭证)",
                ),
            ),
        ),
    }
}

/// The environment wins over the file, and the file over the default.
pub proof fn law_environment_wins(c: ConfigView, url: Seq<char>, other: Option<Seq<char>>)
    requires
        !all_white(url),
    ensures
        with_env(c, Some(url), other).anthropic.base_url == url,
        with_env(c, other, Some(url)).openai.base_url == url,
        with_env(c, None, None) == c,
{
}

/// A usable configuration has an address and a model for the chosen service; the other service may
/// be left empty.
pub proof fn law_usable_is_complete(c: ConfigView)
    requires
        config_fault(c) is None,
    ensures
        known_provider(c.provider),
        chosen_url(c).len() > 0,
        chosen_model(c).len() > 0,
{
}

/// A configuration is usable exactly where it chooses one of the two services, names the address and
/// the model of that one, and asks nothing that the service does not know.
pub proof fn law_what_is_usable(c: ConfigView)
    ensures
        config_fault(c) is None <==> {
            &&& c.provider == "anthropic"@ || c.provider == "openai"@
            &&& c.provider == "anthropic"@ ==> c.anthropic.base_url.len() > 0
                && c.anthropic.model.len() > 0
            &&& c.provider == "openai"@ ==> c.openai.base_url.len() > 0 && c.openai.model.len() > 0
            &&& c.openai.thinking matches Some(t) ==> t == "enabled"@ || t == "disabled"@
            &&& c.openai.reasoning_effort matches Some(e) ==> e == "none"@ || e == "low"@ || e
                == "high"@ || e == "max"@
            &&& c.openai.user_id matches Some(u) ==> u.len() <= 512 && forall|i: int|
                0 <= i < u.len() ==> {
                    ||| 'a' <= #[trigger] u[i] <= 'z'
                    ||| 'A' <= u[i] <= 'Z'
                    ||| '0' <= u[i] <= '9'
                    ||| u[i] == '-'
                    ||| u[i] == '_'
                }
        },
{
    reveal_strlit("anthropic");
    reveal_strlit("openai");
    assert("anthropic"@.len() == 9 && "openai"@.len() == 6);
    if let Some(u) = c.openai.user_id {
        assert forall|i: int| 0 <= i < u.len() implies (user_id_char(u[i]) <==> {
            ||| 'a' <= #[trigger] u[i] <= 'z'
            ||| 'A' <= u[i] <= 'Z'
            ||| '0' <= u[i] <= '9'
            ||| u[i] == '-'
            ||| u[i] == '_'
        }) by {}
    }
}

/// The environment sets the two addresses and nothing else, each from its own variable; one that is
/// not set, or set to white space, leaves what was configured.
pub proof fn law_environment_sets_addresses(
    c: ConfigView,
    a: Option<Seq<char>>,
    o: Option<Seq<char>>,
)
    ensures
        ({
            let d = with_env(c, a, o);
            &&& d.anthropic.base_url == (if a is Some && !all_white(a->0) {
                a->0
            } else {
                c.anthropic.base_url
            })
            &&& d.openai.base_url == (if o is Some && !all_white(o->0) {
                o->0
            } else {
                c.openai.base_url
            })
            &&& d.anthropic.model == c.anthropic.model
            &&& d.anthropic.max_tokens == c.anthropic.max_tokens
            &&& d.openai.model == c.openai.model
            &&& d.openai.max_tokens == c.openai.max_tokens
            &&& d.openai.thinking == c.openai.thinking
            &&& d.openai.reasoning_effort == c.openai.reasoning_effort
            &&& d.openai.user_id == c.openai.user_id
            &&& d.provider == c.provider
            &&& d.shell == c.shell
            &&& d.max_turns == c.max_turns
            &&& d.security == c.security
            &&& d.context == c.context
            &&& d.agent == c.agent
            &&& d.system_prompt_path == c.system_prompt_path
        }),
{
}

/// What holds where nothing is configured.
pub proof fn law_defaults()
    ensures
        ({
            let c = default_config();
            &&& c.provider == "anthropic"@
            &&& c.anthropic.base_url.len() == 0 && c.anthropic.model.len() == 0
            &&& c.openai.base_url.len() == 0 && c.openai.model.len() == 0
            &&& c.anthropic.max_tokens == 8192
            &&& c.openai.max_tokens is None && c.openai.thinking is None
                && c.openai.reasoning_effort is None && c.openai.user_id is None
            &&& c.shell.command is None && c.shell.args is None && c.system_prompt_path is None
            &&& c.max_turns == 50
            &&& c.context.limit == 64000 && c.context.enabled
            &&& c.agent.max_children_per_turn == 4
            &&& c.security.forbidden.len() == 0 && c.security.confirm.len() == 0
                && c.security.auto.len() == 0
            &&& config_fault(c) is Some
        }),
{
}

/// Each service has a variable of its own for its key.
pub proof fn law_keys_have_variables_of_their_own(p: Seq<char>)
    ensures
        key_variable("anthropic"@) == "LEX_ANTHROPIC_API_KEY"@,
        key_variable("openai"@) == "LEX_OPENAI_API_KEY"@,
        p != "anthropic"@ && p != "openai"@ ==> key_variable(p) == "LEX_API_KEY"@,
{
    reveal_strlit("anthropic");
    reveal_strlit("openai");
    assert("anthropic"@.len() == 9 && "openai"@.len() == 6);
}

} // verus!
