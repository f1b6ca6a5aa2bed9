//! The rules that decide which calls run.
use vstd::prelude::*;
use vstd::string::*;
use crate::config::{no_rules, SecurityConfig, SecurityView};
use crate::error::{ErrorView, LexError, Result};
use crate::pattern::{
    any_match, any_matches, clone_regex, compile, is_match, pattern_fault, pattern_matches, pattern_of, patterns, same_patterns,
};
use crate::text::{cat2, cat3, cat5, views};

verus! {

/// What is decided of a call.
#[derive(Debug, PartialEq)]
pub enum Decision {
    /// It runs.
    Auto,
    /// The user is asked.
    Confirm,
    /// It does not run, whatever the user says.
    Forbidden { reason: String },
}

/// What a decision says.
pub enum DecisionView {
    Auto,
    Confirm,
    Forbidden { reason: Seq<char> },
}

impl View for Decision {
    type V = DecisionView;

    open spec fn view(&self) -> DecisionView {
        match self {
            Decision::Auto => DecisionView::Auto,
            Decision::Confirm => DecisionView::Confirm,
            Decision::Forbidden { reason } => DecisionView::Forbidden { reason: reason@ },
        }
    }
}

/// A named pattern.
#[verifier::ext_equal]
pub struct NamedView {
    pub name: Seq<char>,
    pub pattern: Seq<char>,
}

/// A rule table: patterns by what they decide, and those of the watch on sensitive files.
#[verifier::ext_equal]
pub struct RulesView {
    pub forbidden: Seq<NamedView>,
    pub confirm: Seq<Seq<char>>,
    pub auto: Seq<Seq<char>>,
    pub sensitive: Seq<Seq<char>>,
    pub network: Option<Seq<char>>,
}

/// The rule that guards the repository.
pub const RULE_GIT_DIR: &'static str = r"\brm\b[^|;&]*\.git\b";

/// The rule that guards what was pushed.
pub const RULE_FORCE_PUSH: &'static str =
    r"\bgit\s+push\b[^|;&]*(--force(-with-lease)?|--force=|\s-f\b)";

/// The rule that guards the root, the home directory and everything in a directory.
pub const RULE_RM_RF: &'static str =
    r#"\brm\s+-[a-zA-Z]*(?:[rR][a-zA-Z]*[fF]|[fF][a-zA-Z]*[rR])[a-zA-Z]*\s+("|')?(/|~|\*)(\s|$)"#;

/// The names of files that hold secrets.
pub const SENSITIVE_ENV: &'static str = r"(^|[/\\])\.env($|\.)";

/// The names of files that hold keys and certificates.
pub const SENSITIVE_KEYS: &'static str = r"\.(pem|p12|jks|keystore|key)$";

/// The names of files that hold private keys for logins.
pub const SENSITIVE_IDS: &'static str = r"(^|[/\\])id_(rsa|ed25519|ecdsa|dsa)";

/// The names of files that hold credentials.
pub const SENSITIVE_CREDENTIALS: &'static str = r"(^|[/\\])credentials($|\.)";

/// Commands that send data out.
pub const NETWORK_COMMANDS: &'static str = r"\b(curl|wget|scp|rsync|nc|ncat|netcat|ftp)\b";

/// What a rule of the user's is called.
pub const USER_RULE: &'static str = "用户自定义 Forbidden 规则";

/// The built-in rules that forbid.
pub open spec fn builtin_forbidden() -> Seq<NamedView> {
    seq![
        NamedView { name: "删除 .git 目录"@, pattern: RULE_GIT_DIR@ },
        NamedView { name: "git force push"@, pattern: RULE_FORCE_PUSH@ },
        NamedView { name: "rm -rf 高危目标(/、~、*)"@, pattern: RULE_RM_RF@ },
    ]
}

/// The built-in names of sensitive files.
pub open spec fn builtin_sensitive() -> Seq<Seq<char>> {
    seq![SENSITIVE_ENV@, SENSITIVE_KEYS@, SENSITIVE_IDS@, SENSITIVE_CREDENTIALS@]
}

/// Rules of the user's that forbid.
pub open spec fn user_forbidden(ps: Seq<Seq<char>>) -> Seq<NamedView> {
    ps.map_values(|p: Seq<char>| NamedView { name: USER_RULE@, pattern: p })
}

/// The table that a configuration makes: the built-in rules, and those of the user behind them.
pub open spec fn table_of(c: SecurityView) -> RulesView {
    RulesView {
        forbidden: builtin_forbidden() + user_forbidden(c.forbidden),
        confirm: c.confirm,
        auto: c.auto,
        sensitive: builtin_sensitive(),
        network: Some(NETWORK_COMMANDS@),
    }
}

/// A table without rules.
pub open spec fn empty_table() -> RulesView {
    RulesView {
        forbidden: Seq::empty(),
        confirm: Seq::empty(),
        auto: Seq::empty(),
        sensitive: Seq::empty(),
        network: None,
    }
}

/// The first pattern at or after `i` that cannot be compiled, and why.
pub open spec fn first_fault(ps: Seq<Seq<char>>, i: int) -> Option<(Seq<char>, Seq<char>)>
    decreases ps.len() - i,
{
    if i >= ps.len() {
        None
    } else {
        match pattern_fault(ps[i]) {
            Some(e) => Some((ps[i], e)),
            None => first_fault(ps, i + 1),
        }
    }
}

/// How a faulty rule of the user's is told.
pub open spec fn user_fault(
    ps: Seq<Seq<char>>,
    what: Seq<char>,
) -> Option<Seq<char>> {
    match first_fault(ps, 0) {
        Some((p, e)) => Some(what + " 正则无效 \""@ + p + "\": "@ + e),
        None => None,
    }
}

/// Why a configuration makes no table, where it makes none: the first faulty pattern, those that
/// forbid first, then the names of sensitive files, then the rules that ask and that allow.
pub open spec fn build_fault(c: SecurityView) -> Option<Seq<char>> {
    match first_fault(builtin_forbidden().map_values(|n: NamedView| n.pattern), 0) {
        Some((_, e)) => Some("内置 Forbidden 规则正则错误: "@ + e),
        None => match user_fault(c.forbidden, "security.forbidden"@) {
            Some(m) => Some(m),
            None => match first_fault(builtin_sensitive(), 0) {
                Some((_, e)) => Some(
                    "内置敏感文件规则正则错误: 配置错误: 内置敏感文件规则错误: "@ + e,
                ),
                None => match user_fault(c.confirm, "security.confirm"@) {
                    Some(m) => Some(m),
                    None => match user_fault(c.auto, "security.auto"@) {
                        Some(m) => Some(m),
                        None => match pattern_fault(NETWORK_COMMANDS@) {
                            Some(e) => Some("内置网络命令规则错误: "@ + e),
                            None => None,
                        },
                    },
                },
            },
        },
    }
}

/// The first rule at or after `i` that forbids a subject.
pub open spec fn forbidden_by(rules: Seq<NamedView>, subject: Seq<char>, i: int) -> Option<Seq<char>>
    decreases rules.len() - i,
{
    if i >= rules.len() {
        None
    } else if pattern_matches(rules[i].pattern, subject) {
        Some(rules[i].name)
    } else {
        forbidden_by(rules, subject, i + 1)
    }
}

/// Why a call is stopped after a sensitive file was read.
pub const LEAK_REASON: &'static str =
    "本轮已读取敏感文件,同一轮禁止执行网络外发类命令(启发式拦截,不接受确认)";

/// The table without rules of the user's; one without rules where the built-in ones have a fault.
pub open spec fn default_table() -> RulesView {
    if build_fault(no_rules()) is None {
        table_of(no_rules())
    } else {
        empty_table()
    }
}

/// Whether a pattern of the user's cannot be compiled.
pub open spec fn has_fault(ps: Seq<Seq<char>>) -> bool {
    exists|i: int| 0 <= i < ps.len() && pattern_fault(#[trigger] ps[i]) is Some
}

/// What is decided of a call: what sends data out after a sensitive file was read is forbidden,
/// then what a rule forbids; then the user is asked where a rule says so; then it runs where a rule
/// says so or where it changes nothing; else the user is asked.
pub open spec fn decided(
    t: RulesView,
    subject: Seq<char>,
    read_only: bool,
    sensitive_read: bool,
) -> DecisionView {
    if sensitive_read && t.network is Some && pattern_matches(t.network->0, subject) {
        DecisionView::Forbidden { reason: LEAK_REASON@ }
    } else if forbidden_by(t.forbidden, subject, 0) is Some {
        DecisionView::Forbidden {
            reason: "命中安全规则「"@ + forbidden_by(t.forbidden, subject, 0)->0 + "」"@,
        }
    } else if any_matches(t.confirm, subject) {
        DecisionView::Confirm
    } else if any_matches(t.auto, subject) || read_only {
        DecisionView::Auto
    } else {
        DecisionView::Confirm
    }
}

/// A compiled rule table.
#[derive(Debug)]
pub struct SecurityRules {
    forbidden: Vec<(&'static str, regex::Regex)>,
    confirm: Vec<regex::Regex>,
    auto: Vec<regex::Regex>,
    sensitive: Vec<regex::Regex>,
    network: Option<regex::Regex>,
}

/// The view of named expressions.
pub open spec fn named(v: Seq<(&'static str, regex::Regex)>) -> Seq<NamedView> {
    Seq::new(v.len(), |i: int| NamedView { name: v[i].0@, pattern: pattern_of(v[i].1) })
}

/// Compiles a list of patterns; gives the first that is faulty, and why.
fn compile_all(ps: &Vec<String>) -> (r: core::result::Result<Vec<regex::Regex>, (usize, String)>)
    ensures
        match r {
            Ok(v) => first_fault(views(ps@), 0) is None && patterns(v@) == views(ps@),
            Err((i, e)) => i < ps@.len() && first_fault(views(ps@), 0) == Some((ps@[i as int]@, e@)),
        },
{
    let mut v: Vec<regex::Regex> = Vec::new();
    let mut i: usize = 0;
    while i < ps.len()
        invariant
            i <= ps@.len(),
            first_fault(views(ps@), 0) == first_fault(views(ps@), i as int),
            patterns(v@) == views(ps@).take(i as int),
        decreases ps@.len() - i,
    {
        assert(views(ps@)[i as int] == ps@[i as int]@);
        match compile(ps[i].as_str()) {
            Ok(re) => {
                let ghost before = v@;
                v.push(re);
                assert(patterns(v@) =~= patterns(before).push(ps@[i as int]@));
                assert(views(ps@).take(i + 1) =~= views(ps@).take(i as int).push(ps@[i as int]@));
            },
            Err(e) => {
                return Err((i, e));
            },
        }
        i = i + 1;
    }
    assert(views(ps@).take(i as int) =~= views(ps@));
    Ok(v)
}

/// Compiles rules of the user's.
fn compile_user(ps: &Vec<String>, what: &str) -> (r: core::result::Result<
    Vec<regex::Regex>,
    String,
>)
    ensures
        match r {
            Ok(v) => user_fault(views(ps@), what@) is None && patterns(v@) == views(ps@),
            Err(m) => user_fault(views(ps@), what@) == Some(m@),
        },
{
    match compile_all(ps) {
        Ok(v) => Ok(v),
        Err((i, e)) => Err(cat5(what, " 正则无效 \"", ps[i].as_str(), "\": ", e.as_str())),
    }
}

fn builtin_sources() -> (r: Vec<String>)
    ensures
        views(r@) == builtin_forbidden().map_values(|n: NamedView| n.pattern),
{
    let mut r: Vec<String> = Vec::new();
    r.push(RULE_GIT_DIR.to_owned());
    r.push(RULE_FORCE_PUSH.to_owned());
    r.push(RULE_RM_RF.to_owned());
    assert(views(r@) =~= builtin_forbidden().map_values(|n: NamedView| n.pattern));
    r
}

fn sensitive_sources() -> (r: Vec<String>)
    ensures
        views(r@) == builtin_sensitive(),
{
    let mut r: Vec<String> = Vec::new();
    r.push(SENSITIVE_ENV.to_owned());
    r.push(SENSITIVE_KEYS.to_owned());
    r.push(SENSITIVE_IDS.to_owned());
    r.push(SENSITIVE_CREDENTIALS.to_owned());
    assert(views(r@) =~= builtin_sensitive());
    r
}

fn builtin_name(i: usize) -> (r: &'static str)
    requires
        i < 3,
    ensures
        r@ == builtin_forbidden()[i as int].name,
{
    if i == 0 {
        "删除 .git 目录"
    } else if i == 1 {
        "git force push"
    } else {
        "rm -rf 高危目标(/、~、*)"
    }
}

fn give_names(builtin: Vec<regex::Regex>, user: Vec<regex::Regex>) -> (r: Vec<
    (&'static str, regex::Regex),
>)
    requires
        patterns(builtin@) == builtin_forbidden().map_values(|n: NamedView| n.pattern),
    ensures
        named(r@) == builtin_forbidden() + user_forbidden(patterns(user@)),
{
    let ghost want = builtin_forbidden() + user_forbidden(patterns(user@));
    let ghost bs = builtin@;
    let ghost us = user@;
    let mut r: Vec<(&'static str, regex::Regex)> = Vec::new();
    let mut builtin = builtin;
    let mut user = user;
    assert(patterns(bs).len() == 3);
    let mut k: usize = 0;
    while builtin.len() > 0
        invariant
            k <= 3,
            bs.len() == 3,
            builtin@ == bs.skip(k as int),
            patterns(bs) == builtin_forbidden().map_values(|n: NamedView| n.pattern),
            named(r@) == builtin_forbidden().take(k as int),
        decreases builtin@.len(),
    {
        let re = builtin.remove(0);
        let ghost before = r@;
        r.push((builtin_name(k), re));
        proof {
            assert(re == bs[k as int]);
            assert(patterns(bs)[k as int] == pattern_of(re));
            assert(named(r@) =~= named(before).push(builtin_forbidden()[k as int]));
            assert(builtin_forbidden().take(k + 1) =~= builtin_forbidden().take(k as int).push(
                builtin_forbidden()[k as int],
            ));
            assert(builtin@ =~= bs.skip(k + 1));
        }
        k = k + 1;
    }
    assert(k == 3);
    assert(builtin_forbidden().take(3) =~= builtin_forbidden());
    let ghost mut m: int = 0;
    assert(user_forbidden(patterns(us)).take(0) =~= Seq::empty());
    assert(builtin_forbidden() + Seq::empty() =~= builtin_forbidden());
    while user.len() > 0
        invariant
            0 <= m <= us.len(),
            user@ == us.skip(m),
            named(r@) == builtin_forbidden() + user_forbidden(patterns(us)).take(m),
        decreases user@.len(),
    {
        let re = user.remove(0);
        let ghost before = r@;
        r.push((USER_RULE, re));
        proof {
            let all = user_forbidden(patterns(us));
            assert(re == us[m]);
            assert(all[m] == NamedView { name: USER_RULE@, pattern: pattern_of(re) });
            assert(named(r@) =~= named(before).push(all[m]));
            assert(all.take(m + 1) =~= all.take(m).push(all[m]));
            assert(builtin_forbidden() + all.take(m + 1) =~= (builtin_forbidden() + all.take(m)).push(
                all[m],
            ));
            assert(user@ =~= us.skip(m + 1));
            m = m + 1;
        }
    }
    assert(user_forbidden(patterns(us)).take(m) =~= user_forbidden(patterns(us)));
    r
}

impl SecurityRules {
    /// The rules.
    pub closed spec fn table(&self) -> RulesView {
        RulesView {
            forbidden: named(self.forbidden@),
            confirm: patterns(self.confirm@),
            auto: patterns(self.auto@),
            sensitive: patterns(self.sensitive@),
            network: match self.network {
                Some(re) => Some(pattern_of(re)),
                None => None,
            },
        }
    }

    /// The table that a configuration makes. The user's rules are added to the built-in ones and
    /// cannot take any away.
    pub fn build(cfg: &SecurityConfig) -> (r: Result<SecurityRules>)
        ensures
            match r {
                Ok(t) => build_fault(cfg@) is None && t.table() == table_of(cfg@),
                Err(e) => build_fault(cfg@) is Some && e@ == ErrorView::Config(
                    build_fault(cfg@)->0,
                ),
            },
    {
        let builtin = match compile_all(&builtin_sources()) {
            Ok(v) => v,
            Err((_, e)) => {
                return Err(LexError::Config(cat2("内置 Forbidden 规则正则错误: ", e.as_str())));
            },
        };
        let user = match compile_user(&cfg.forbidden, "security.forbidden") {
            Ok(v) => v,
            Err(m) => {
                return Err(LexError::Config(m));
            },
        };
        let sensitive = match compile_all(&sensitive_sources()) {
            Ok(v) => v,
            Err((_, e)) => {
                return Err(
                    LexError::Config(
                        cat2(
                            "内置敏感文件规则正则错误: 配置错误: 内置敏感文件规则错误: ",
                            e.as_str(),
                        ),
                    ),
                );
            },
        };
        let confirm = match compile_user(&cfg.confirm, "security.confirm") {
            Ok(v) => v,
            Err(m) => {
                return Err(LexError::Config(m));
            },
        };
        let auto = match compile_user(&cfg.auto, "security.auto") {
            Ok(v) => v,
            Err(m) => {
                return Err(LexError::Config(m));
            },
        };
        let network = match compile(NETWORK_COMMANDS) {
            Ok(re) => re,
            Err(e) => {
                return Err(LexError::Config(cat2("内置网络命令规则错误: ", e.as_str())));
            },
        };
        let forbidden = give_names(builtin, user);
        Ok(SecurityRules { forbidden, confirm, auto, sensitive, network: Some(network) })
    }

    /// The built-in rules alone.
    pub fn defaults() -> (r: SecurityRules)
        ensures
            r.table() == default_table(),
    {
        match SecurityRules::build(&SecurityConfig::default()) {
            Ok(r) => r,
            Err(_) => {
                let r = SecurityRules {
                    forbidden: Vec::new(),
                    confirm: Vec::new(),
                    auto: Vec::new(),
                    sensitive: Vec::new(),
                    network: None,
                };
                assert(r.table() =~= empty_table());
                r
            },
        }
    }

    /// What is decided of a call: its subject, whether its tool changes nothing, and whether a
    /// sensitive file was read in this turn.
    pub fn decide(&self, subject: &str, read_only: bool, sensitive_read: bool) -> (r: Decision)
        ensures
            r@ == decided(self.table(), subject@, read_only, sensitive_read),
    {
        if sensitive_read {
            if let Some(net) = &self.network {
                if is_match(net, subject) {
                    return Decision::Forbidden { reason: LEAK_REASON.to_owned() };
                }
            }
        }
        let ghost rules = self.table().forbidden;
        let mut i: usize = 0;
        while i < self.forbidden.len()
            invariant
                i <= self.forbidden@.len(),
                rules == self.table().forbidden,
                !(sensitive_read && self.table().network is Some && pattern_matches(
                    self.table().network->0,
                    subject@,
                )),
                forbidden_by(rules, subject@, 0) == forbidden_by(rules, subject@, i as int),
            decreases self.forbidden@.len() - i,
        {
            if is_match(&self.forbidden[i].1, subject) {
                return Decision::Forbidden {
                    reason: cat3("命中安全规则「", self.forbidden[i].0, "」"),
                };
            }
            i = i + 1;
        }
        if any_match(&self.confirm, subject) {
            return Decision::Confirm;
        }
        if any_match(&self.auto, subject) {
            return Decision::Auto;
        }
        if read_only {
            return Decision::Auto;
        }
        Decision::Confirm
    }

    /// Whether a path is that of a sensitive file.
    pub fn is_sensitive_path(&self, path: &str) -> (r: bool)
        ensures
            r == any_matches(self.table().sensitive, path@),
    {
        any_match(&self.sensitive, path)
    }

    /// How many rules forbid, ask and allow.
    pub fn rule_counts(&self) -> (r: (usize, usize, usize))
        ensures
            r.0 == self.table().forbidden.len(),
            r.1 == self.table().confirm.len(),
            r.2 == self.table().auto.len(),
    {
        (self.forbidden.len(), self.confirm.len(), self.auto.len())
    }
}

impl Clone for SecurityRules {
    fn clone(&self) -> (r: Self)
        ensures
            r.table() == self.table(),
    {
        let mut forbidden: Vec<(&'static str, regex::Regex)> = Vec::new();
        let mut i: usize = 0;
        while i < self.forbidden.len()
            invariant
                i <= self.forbidden@.len(),
                forbidden@.len() == i,
                forall|k: int|
                    0 <= k < i ==> (#[trigger] forbidden@[k]).0 == self.forbidden@[k].0
                        && pattern_of(forbidden@[k].1) == pattern_of(self.forbidden@[k].1),
            decreases self.forbidden@.len() - i,
        {
            let one = &self.forbidden[i];
            forbidden.push((one.0, clone_regex(&one.1)));
            i = i + 1;
        }
        assert(named(forbidden@) =~= named(self.forbidden@));
        SecurityRules {
            forbidden,
            confirm: same_patterns(&self.confirm),
            auto: same_patterns(&self.auto),
            sensitive: same_patterns(&self.sensitive),
            network: match &self.network {
                Some(re) => Some(clone_regex(re)),
                None => None,
            },
        }
    }
}

/// What happened in this turn.
#[derive(Debug, Clone, Copy, PartialEq, Eq, Structural)]
pub struct TurnSecurity {
    /// Whether a sensitive file was read.
    pub sensitive_read: bool,
}

/// A rule table and what happened in this turn.
#[derive(Debug)]
pub struct SecurityGuard {
    rules: SecurityRules,
    turn: TurnSecurity,
}

impl SecurityGuard {
    /// The rules.
    pub closed spec fn table(&self) -> RulesView {
        self.rules.table()
    }

    /// Whether a sensitive file was read in this turn.
    pub closed spec fn sensitive_read(&self) -> bool {
        self.turn.sensitive_read
    }

    /// A guard at the start of a turn.
    pub fn new(rules: SecurityRules) -> (r: SecurityGuard)
        ensures
            r.table() == rules.table(),
            !r.sensitive_read(),
    {
        SecurityGuard { rules, turn: TurnSecurity { sensitive_read: false } }
    }

    /// A new turn begins.
    pub fn reset_turn(&mut self)
        ensures
            final(self).table() == old(self).table(),
            !final(self).sensitive_read(),
    {
        self.turn = TurnSecurity { sensitive_read: false };
    }

    /// A file is read.
    pub fn note_file_read(&mut self, path: &str)
        ensures
            final(self).table() == old(self).table(),
            final(self).sensitive_read() == (old(self).sensitive_read() || any_matches(
                old(self).table().sensitive,
                path@,
            )),
    {
        if self.rules.is_sensitive_path(path) {
            self.turn = TurnSecurity { sensitive_read: true };
        }
    }

    /// What is decided of a call now.
    pub fn decide(&self, subject: &str, read_only: bool) -> (r: Decision)
        ensures
            r@ == decided(self.table(), subject@, read_only, self.sensitive_read()),
    {
        self.rules.decide(subject, read_only, self.turn.sensitive_read)
    }

    /// How many rules forbid, ask and allow.
    pub fn rule_counts(&self) -> (r: (usize, usize, usize))
        ensures
            r.0 == self.table().forbidden.len(),
            r.1 == self.table().confirm.len(),
            r.2 == self.table().auto.len(),
    {
        self.rules.rule_counts()
    }
}

// ---- laws ----

/// A rule that matches is found.
proof fn lemma_forbidden_found(rules: Seq<NamedView>, subject: Seq<char>, i: int, k: int)
    requires
        0 <= i <= k < rules.len(),
        pattern_matches(rules[k].pattern, subject),
    ensures
        forbidden_by(rules, subject, i) is Some,
    decreases k - i,
{
    if i < k && !pattern_matches(rules[i].pattern, subject) {
        lemma_forbidden_found(rules, subject, i + 1, k);
    }
}

/// What any rule forbids is forbidden, whatever the rules that ask or allow say, and whether or not
/// the tool changes anything.
pub proof fn law_forbidden_comes_first(
    t: RulesView,
    k: int,
    subject: Seq<char>,
    read_only: bool,
    sensitive_read: bool,
)
    requires
        0 <= k < t.forbidden.len(),
        pattern_matches(t.forbidden[k].pattern, subject),
    ensures
        decided(t, subject, read_only, sensitive_read) is Forbidden,
{
    lemma_forbidden_found(t.forbidden, subject, 0, k);
}

/// No configuration takes a built-in rule away: what one forbids stays forbidden under every table
/// that is built.
pub proof fn law_builtin_rules_stay(
    c: SecurityView,
    k: int,
    subject: Seq<char>,
    read_only: bool,
    sensitive_read: bool,
)
    requires
        0 <= k < builtin_forbidden().len(),
        pattern_matches(builtin_forbidden()[k].pattern, subject),
    ensures
        decided(table_of(c), subject, read_only, sensitive_read) is Forbidden,
{
    assert(table_of(c).forbidden[k] == builtin_forbidden()[k]);
    law_forbidden_comes_first(table_of(c), k, subject, read_only, sensitive_read);
}

proof fn lemma_first_fault(ps: Seq<Seq<char>>, i: int)
    requires
        0 <= i <= ps.len(),
    ensures
        first_fault(ps, i) is Some <==> exists|k: int|
            i <= k < ps.len() && pattern_fault(#[trigger] ps[k]) is Some,
    decreases ps.len() - i,
{
    if i < ps.len() && pattern_fault(ps[i]) is None {
        lemma_first_fault(ps, i + 1);
        if first_fault(ps, i + 1) is None {
            assert forall|k: int| i <= k < ps.len() implies pattern_fault(#[trigger] ps[k]) is None by {
                if k > i {
                }
            }
        }
    }
}

proof fn lemma_forbidden_by_one(rules: Seq<NamedView>, subject: Seq<char>, i: int) -> (k: int)
    requires
        0 <= i,
        forbidden_by(rules, subject, i) is Some,
    ensures
        i <= k < rules.len(),
        pattern_matches(rules[k].pattern, subject),
    decreases rules.len() - i,
{
    if pattern_matches(rules[i].pattern, subject) {
        i
    } else {
        lemma_forbidden_by_one(rules, subject, i + 1)
    }
}

/// A configuration is refused for its faulty patterns, and, the built-in ones being sound, for nothing
/// else. Its rules stand behind the built-in ones, all of them, and what is forbidden without them is
/// forbidden with them.
pub proof fn law_rules_are_added(c: SecurityView)
    ensures
        has_fault(c.forbidden) || has_fault(c.confirm) || has_fault(c.auto) ==> build_fault(c) is Some,
        build_fault(no_rules()) is None ==> (build_fault(c) is Some <==> has_fault(c.forbidden)
            || has_fault(c.confirm) || has_fault(c.auto)),
        table_of(c).forbidden.len() == 3 + c.forbidden.len(),
        table_of(c).confirm.len() == c.confirm.len(),
        table_of(c).auto.len() == c.auto.len(),
        forall|subject: Seq<char>, read_only: bool, sensitive_read: bool|
            decided(default_table(), subject, read_only, sensitive_read) is Forbidden
                ==> #[trigger] decided(table_of(c), subject, read_only, sensitive_read) is Forbidden,
{
    lemma_first_fault(c.forbidden, 0);
    lemma_first_fault(c.confirm, 0);
    lemma_first_fault(c.auto, 0);
    assert(builtin_forbidden().len() == 3);
    assert forall|subject: Seq<char>, read_only: bool, sensitive_read: bool|
        decided(default_table(), subject, read_only, sensitive_read) is Forbidden implies #[trigger] decided(
        table_of(c),
        subject,
        read_only,
        sensitive_read,
    ) is Forbidden by {
        let d = default_table();
        if forbidden_by(d.forbidden, subject, 0) is Some {
            let k = lemma_forbidden_by_one(d.forbidden, subject, 0);
            assert(d.forbidden =~= builtin_forbidden());
            law_builtin_rules_stay(c, k, subject, read_only, sensitive_read);
        }
    }
}

/// A rule that asks wins over one that allows, and over a tool that changes nothing.
pub proof fn law_asking_wins_over_allowing(t: RulesView, subject: Seq<char>, read_only: bool)
    requires
        any_matches(t.confirm, subject),
        forbidden_by(t.forbidden, subject, 0) is None,
    ensures
        decided(t, subject, read_only, false) == DecisionView::Confirm,
{
}

/// Once a sensitive file was read, nothing that sends data out runs in that turn; in the next turn
/// it is decided as before.
pub proof fn law_no_leak_in_the_turn(t: RulesView, subject: Seq<char>, read_only: bool)
    requires
        t.network is Some,
        pattern_matches(t.network->0, subject),
    ensures
        decided(t, subject, read_only, true) is Forbidden,
        forbidden_by(t.forbidden, subject, 0) is None ==> !(decided(t, subject, read_only, false)
            is Forbidden),
{
}

/// What is decided of a call, rule by rule: a call is forbidden where any rule that forbids matches
/// its subject, or where a sensitive file was read and the rule on sending out matches; otherwise
/// the user is asked where any rule that asks matches; otherwise it runs where any rule that allows
/// matches or its tool changes nothing; and otherwise the user is asked.
pub proof fn law_decision_by_rules(
    t: RulesView,
    subject: Seq<char>,
    read_only: bool,
    sensitive_read: bool,
)
    ensures
        ({
            let d = decided(t, subject, read_only, sensitive_read);
            let leaks = sensitive_read && t.network is Some && pattern_matches(
                t.network->0,
                subject,
            );
            let forbids = exists|k: int|
                0 <= k < t.forbidden.len() && pattern_matches(
                    (#[trigger] t.forbidden[k]).pattern,
                    subject,
                );
            let asks = exists|k: int|
                0 <= k < t.confirm.len() && pattern_matches(#[trigger] t.confirm[k], subject);
            let allows = exists|k: int|
                0 <= k < t.auto.len() && pattern_matches(#[trigger] t.auto[k], subject);
            &&& d is Forbidden <==> leaks || forbids
            &&& !leaks && !forbids ==> (d is Auto <==> !asks && (allows || read_only))
            &&& !leaks && !forbids ==> (d is Confirm <==> asks || (!allows && !read_only))
            &&& d matches DecisionView::Forbidden { reason } ==> {
                ||| leaks && reason
                    == "本轮已读取敏感文件,同一轮禁止执行网络外发类命令(启发式拦截,不接受确认)"@
                ||| !leaks && exists|k: int|
                    {
                        &&& 0 <= k < t.forbidden.len()
                        &&& pattern_matches((#[trigger] t.forbidden[k]).pattern, subject)
                        &&& reason == "命中安全规则「"@ + t.forbidden[k].name + "」"@
                        &&& forall|j: int|
                            0 <= j < k ==> !pattern_matches(
                                (#[trigger] t.forbidden[j]).pattern,
                                subject,
                            )
                    }
            }
        }),
{
    lemma_forbidden_by(t.forbidden, subject, 0);
}

proof fn lemma_forbidden_by(rules: Seq<NamedView>, subject: Seq<char>, i: int)
    requires
        0 <= i,
    ensures
        match forbidden_by(rules, subject, i) {
            Some(name) => exists|k: int|
                {
                    &&& i <= k < rules.len()
                    &&& pattern_matches((#[trigger] rules[k]).pattern, subject)
                    &&& name == rules[k].name
                    &&& forall|j: int|
                        i <= j < k ==> !pattern_matches((#[trigger] rules[j]).pattern, subject)
                },
            None => forall|j: int|
                i <= j < rules.len() ==> !pattern_matches((#[trigger] rules[j]).pattern, subject),
        },
    decreases rules.len() - i,
{
    if i < rules.len() && !pattern_matches(rules[i].pattern, subject) {
        lemma_forbidden_by(rules, subject, i + 1);
        if let Some(name) = forbidden_by(rules, subject, i + 1) {
            let k = choose|k: int|
                {
                    &&& i + 1 <= k < rules.len()
                    &&& pattern_matches((#[trigger] rules[k]).pattern, subject)
                    &&& name == rules[k].name
                    &&& forall|j: int|
                        i + 1 <= j < k ==> !pattern_matches((#[trigger] rules[j]).pattern, subject)
                };
            assert(pattern_matches(rules[k].pattern, subject));
        }
    }
}

/// The table of a configuration has the three built-in rules that forbid, then those of the user,
/// each with its own pattern; the rules that ask and that allow are the user's, in order; and the
/// sensitive files and the rule on sending out are built in.
pub proof fn law_table_holds_the_rules(c: SecurityView, k: int)
    ensures
        ({
            let t = table_of(c);
            &&& t.forbidden.len() == 3 + c.forbidden.len()
            &&& t.forbidden[0].pattern == RULE_GIT_DIR@
            &&& t.forbidden[1].pattern == RULE_FORCE_PUSH@
            &&& t.forbidden[2].pattern == RULE_RM_RF@
            &&& 0 <= k < c.forbidden.len() ==> t.forbidden[3 + k].pattern == c.forbidden[k]
            &&& t.confirm == c.confirm
            &&& t.auto == c.auto
            &&& t.sensitive == seq![
                SENSITIVE_ENV@,
                SENSITIVE_KEYS@,
                SENSITIVE_IDS@,
                SENSITIVE_CREDENTIALS@,
            ]
            &&& t.network == Some(NETWORK_COMMANDS@)
        }),
{
    let t = table_of(c);
    assert(builtin_forbidden().len() == 3);
    if 0 <= k < c.forbidden.len() {
        assert(t.forbidden[3 + k] == user_forbidden(c.forbidden)[k]);
    }
}

} // verus!
