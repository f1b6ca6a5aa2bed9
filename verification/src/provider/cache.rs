//! Watching the prefix that a service caches.
//!
//! A service that caches prompts by their prefix finds the cached part again only where the system
//! prompt and the tools stay as they are and the messages are only added to. The strategy here
//! changes no request: it compares each with the one before and counts those that break the prefix.
use vstd::prelude::*;
use vstd::string::*;
use crate::json::{json_text, lemma_array, trees, Json, JsonTree};
use crate::message::{stored_message, MessageView, Usage};
use crate::provider::{RequestContext, RequestView};
use crate::text::{same, views};
use crate::tools::{stored_definition, DefinitionView};

verus! {

/// What a request looks like to the cache: each section as text, and the messages one by one.
#[verifier::ext_equal]
pub struct PrefixView {
    pub system: Seq<char>,
    pub tools: Seq<char>,
    pub messages: Seq<Seq<char>>,
}

/// The text of the tools section.
pub open spec fn tools_text(ds: Seq<DefinitionView>) -> Seq<char> {
    json_text(JsonTree::Array(ds.map_values(|d: DefinitionView| stored_definition(d))))
}

/// The texts of the messages.
pub open spec fn message_texts(ms: Seq<MessageView>) -> Seq<Seq<char>> {
    ms.map_values(|m: MessageView| json_text(stored_message(m)))
}

/// What a request looks like to the cache.
pub open spec fn prefix_of(ctx: RequestView) -> PrefixView {
    PrefixView {
        system: ctx.system,
        tools: tools_text(ctx.tools),
        messages: message_texts(ctx.messages),
    }
}

/// Whether `now` keeps the prefix that `before` set: the same system prompt and tools, and the
/// messages only added to.
pub open spec fn keeps_prefix(before: PrefixView, now: PrefixView) -> bool {
    &&& now.system == before.system
    &&& now.tools == before.tools
    &&& before.messages.is_prefix_of(now.messages)
}

/// The last request seen, how often the prefix was broken, and how often the chain was cut.
#[verifier::ext_equal]
pub struct CacheView {
    pub baseline: Option<PrefixView>,
    pub violations: u64,
    pub invalidations: u64,
}

/// One more, as far as it can be counted.
pub open spec fn counted_up(n: u64) -> u64 {
    if n < u64::MAX {
        (n + 1) as u64
    } else {
        n
    }
}

/// What a request does to the watch: it is counted where it breaks the prefix of the one before,
/// and it is the one to compare the next with.
pub open spec fn prepared(c: CacheView, ctx: RequestView) -> CacheView {
    CacheView {
        baseline: Some(prefix_of(ctx)),
        violations: match c.baseline {
            Some(b) => if keeps_prefix(b, prefix_of(ctx)) {
                c.violations
            } else {
                counted_up(c.violations)
            },
            None => c.violations,
        },
        invalidations: c.invalidations,
    }
}

/// The prefix is known to be broken: the next request sets it anew.
pub open spec fn cut(c: CacheView) -> CacheView {
    CacheView {
        baseline: None,
        violations: c.violations,
        invalidations: counted_up(c.invalidations),
    }
}

/// A request as the cache sees it.
#[derive(Debug)]
struct Baseline {
    system: String,
    tools: String,
    messages: Vec<String>,
}

impl Baseline {
    spec fn prefix(&self) -> PrefixView {
        PrefixView {
            system: self.system@,
            tools: self.tools@,
            messages: views(self.messages@),
        }
    }
}

/// How a request compares with the one before it.
#[derive(Debug, Clone, Copy, PartialEq, Eq, Structural)]
pub struct PrefixReport {
    pub system_changed: bool,
    pub tools_changed: bool,
    pub history_rewritten: bool,
}

/// How `now` compares with `before`.
pub open spec fn report(before: Option<PrefixView>, now: PrefixView) -> PrefixReport {
    match before {
        Some(b) => PrefixReport {
            system_changed: b.system != now.system,
            tools_changed: b.tools != now.tools,
            history_rewritten: !b.messages.is_prefix_of(now.messages),
        },
        None => PrefixReport {
            system_changed: false,
            tools_changed: false,
            history_rewritten: false,
        },
    }
}

/// Watches the prefix of the requests of a session.
#[derive(Debug)]
pub struct ImplicitPrefixCacheStrategy {
    baseline: Option<Baseline>,
    violations: u64,
    invalidations: u64,
}

/// Whether the texts of `old` stand at the start of `new`.
fn is_list_prefix(old_list: &Vec<String>, new_list: &Vec<String>) -> (r: bool)
    ensures
        r == views(old_list@).is_prefix_of(views(new_list@)),
{
    if new_list.len() < old_list.len() {
        return false;
    }
    let ghost a = views(old_list@);
    let ghost b = views(new_list@);
    let mut i: usize = 0;
    while i < old_list.len()
        invariant
            i <= old_list@.len() <= new_list@.len(),
            a == views(old_list@),
            b == views(new_list@),
            forall|k: int| 0 <= k < i ==> a[k] == b[k],
        decreases old_list@.len() - i,
    {
        if !same(old_list[i].as_str(), new_list[i].as_str()) {
            proof {
                assert(a[i as int] != b[i as int]);
                if a.is_prefix_of(b) {
                    assert(b.subrange(0, a.len() as int)[i as int] == a[i as int]);
                }
            }
            return false;
        }
        i = i + 1;
    }
    assert(a =~= b.subrange(0, a.len() as int));
    true
}

impl ImplicitPrefixCacheStrategy {
    /// What the watch knows.
    pub closed spec fn state(&self) -> CacheView {
        CacheView {
            baseline: match self.baseline {
                Some(b) => Some(b.prefix()),
                None => None,
            },
            violations: self.violations,
            invalidations: self.invalidations,
        }
    }

    /// A watch that has seen no request.
    pub fn new() -> (r: ImplicitPrefixCacheStrategy)
        ensures
            r.state() == (CacheView { baseline: None, violations: 0, invalidations: 0 }),
    {
        ImplicitPrefixCacheStrategy { baseline: None, violations: 0, invalidations: 0 }
    }

    /// How often the prefix was broken.
    pub fn violations(&self) -> (r: u64)
        ensures
            r == self.state().violations,
    {
        self.violations
    }

    /// How often the chain was cut.
    pub fn invalidations(&self) -> (r: u64)
        ensures
            r == self.state().invalidations,
    {
        self.invalidations
    }

    /// Takes note of a request before it is sent; says how it breaks the prefix, where it does.
    pub fn prepare(&mut self, ctx: &RequestContext) -> (r: PrefixReport)
        ensures
            final(self).state() == prepared(old(self).state(), ctx@),
            r == report(old(self).state().baseline, prefix_of(ctx@)),
    {
        let now = Baseline {
            system: ctx.system.clone(),
            tools: tools_section(ctx),
            messages: message_sections(ctx),
        };
        let mut r = PrefixReport {
            system_changed: false,
            tools_changed: false,
            history_rewritten: false,
        };
        if let Some(b) = &self.baseline {
            r = PrefixReport {
                system_changed: !same(b.system.as_str(), now.system.as_str()),
                tools_changed: !same(b.tools.as_str(), now.tools.as_str()),
                history_rewritten: !is_list_prefix(&b.messages, &now.messages),
            };
        }
        if (r.system_changed || r.tools_changed || r.history_rewritten) && self.violations < u64::MAX {
            self.violations = self.violations + 1;
        }
        self.baseline = Some(now);
        r
    }

    /// What the cache saved of a reply: tokens it had and tokens it had not; nothing where the
    /// service counts neither.
    pub fn observe(&self, usage: &Usage) -> (r: Option<(u64, u64)>)
        ensures
            r == (if usage.cache_hit_tokens == 0 && usage.cache_miss_tokens == 0 {
                None
            } else {
                Some((usage.cache_hit_tokens, usage.cache_miss_tokens))
            }),
    {
        if usage.cache_hit_tokens == 0 && usage.cache_miss_tokens == 0 {
            None
        } else {
            Some((usage.cache_hit_tokens, usage.cache_miss_tokens))
        }
    }

    /// The prefix is known to be broken: the next request sets it anew.
    pub fn invalidate(&mut self)
        ensures
            final(self).state() == cut(old(self).state()),
    {
        if self.invalidations < u64::MAX {
            self.invalidations = self.invalidations + 1;
        }
        self.baseline = None;
    }
}

impl Default for ImplicitPrefixCacheStrategy {
    fn default() -> (r: Self)
        ensures
            r.state() == (CacheView { baseline: None, violations: 0, invalidations: 0 }),
    {
        ImplicitPrefixCacheStrategy::new()
    }
}

fn tools_section(ctx: &RequestContext) -> (r: String)
    ensures
        r@ == tools_text(ctx@.tools),
{
    let ghost want = ctx@.tools.map_values(|d: DefinitionView| stored_definition(d));
    let mut v: Vec<Json> = Vec::new();
    let mut i: usize = 0;
    while i < ctx.tools.len()
        invariant
            i <= ctx.tools@.len(),
            want == ctx@.tools.map_values(|d: DefinitionView| stored_definition(d)),
            trees(v@) == want.take(i as int),
        decreases ctx.tools@.len() - i,
    {
        let one = ctx.tools[i].to_json();
        let ghost before = v@;
        v.push(one);
        assert(trees(v@) =~= trees(before).push(one.tree()));
        assert(want.take(i + 1) =~= want.take(i as int).push(want[i as int]));
        i = i + 1;
    }
    let j = Json::Array(v);
    proof {
        assert(want.take(i as int) =~= want);
        lemma_array(j);
    }
    j.to_text()
}

fn message_sections(ctx: &RequestContext) -> (r: Vec<String>)
    ensures
        views(r@) == message_texts(ctx@.messages),
{
    let ghost want = message_texts(ctx@.messages);
    let mut r: Vec<String> = Vec::new();
    let mut i: usize = 0;
    while i < ctx.messages.len()
        invariant
            i <= ctx.messages@.len(),
            want == message_texts(ctx@.messages),
            views(r@) == want.take(i as int),
        decreases ctx.messages@.len() - i,
    {
        let one = ctx.messages[i].to_json().to_text();
        let ghost before = r@;
        r.push(one);
        assert(views(r@) =~= views(before).push(one@));
        assert(want.take(i + 1) =~= want.take(i as int).push(want[i as int]));
        i = i + 1;
    }
    assert(want.take(i as int) =~= want);
    r
}

/// Whether `later` only adds messages to `earlier`.
pub open spec fn only_adds(earlier: RequestView, later: RequestView) -> bool {
    &&& later.system == earlier.system
    &&& later.tools == earlier.tools
    &&& earlier.messages.is_prefix_of(later.messages)
}

/// A session whose requests only add messages breaks no prefix, however long it goes on.
pub proof fn law_adding_breaks_nothing(c: CacheView, reqs: Seq<RequestView>)
    requires
        reqs.len() > 0,
        forall|i: int| 0 <= i < reqs.len() - 1 ==> only_adds(#[trigger] reqs[i], reqs[i + 1]),
    ensures
        after_all(prepared(c, reqs[0]), reqs.skip(1)).violations == prepared(c, reqs[0]).violations,
    decreases reqs.len(),
{
    let first = prepared(c, reqs[0]);
    if reqs.len() > 1 {
        let rest = reqs.skip(1);
        assert(rest[0] == reqs[1]);
        assert(rest.skip(1) =~= reqs.skip(1).skip(1));
        assert forall|i: int| 0 <= i < rest.len() - 1 implies only_adds(
            #[trigger] rest[i],
            rest[i + 1],
        ) by {
            assert(only_adds(reqs[i + 1], reqs[i + 2]));
        }
        assert(only_adds(reqs[0], reqs[1]));
        lemma_texts_prefix(reqs[0].messages, reqs[1].messages);
        law_adding_breaks_nothing(first, rest);
    }
}

/// What a run of requests does to the watch.
pub open spec fn after_all(c: CacheView, reqs: Seq<RequestView>) -> CacheView
    decreases reqs.len(),
{
    if reqs.len() == 0 {
        c
    } else {
        after_all(prepared(c, reqs[0]), reqs.skip(1))
    }
}

proof fn lemma_texts_prefix(a: Seq<MessageView>, b: Seq<MessageView>)
    requires
        a.is_prefix_of(b),
    ensures
        message_texts(a).is_prefix_of(message_texts(b)),
{
    assert(message_texts(a) =~= message_texts(b).subrange(0, a.len() as int)) by {
        assert forall|i: int| 0 <= i < a.len() implies message_texts(a)[i] == message_texts(
            b,
        ).subrange(0, a.len() as int)[i] by {
            assert(b.subrange(0, a.len() as int)[i] == a[i]);
        }
    }
}

/// After the chain was cut, the next request is compared with nothing: it breaks no prefix.
pub proof fn law_cut_forgives_the_next(c: CacheView, ctx: RequestView)
    ensures
        prepared(cut(c), ctx).violations == c.violations,
        cut(c).invalidations == counted_up(c.invalidations),
{
}

/// A request with another system prompt, or with fewer messages than the one before, breaks the
/// prefix, and is counted once.
pub proof fn law_change_is_counted(c: CacheView, before: RequestView, now: RequestView)
    requires
        c.baseline == Some(prefix_of(before)),
        c.violations < u64::MAX,
        before.system != now.system || now.messages.len() < before.messages.len(),
    ensures
        prepared(c, now).violations == c.violations + 1,
{
    if now.messages.len() < before.messages.len() {
        assert(!message_texts(before.messages).is_prefix_of(message_texts(now.messages)));
    }
}

/// A request breaks the prefix of the one before exactly where the system prompt is another, the
/// tools are told otherwise, or a message of before is missing or told otherwise; and then it is
/// counted once. What is told of it names which of the three it was.
pub proof fn law_violation_is_a_change(c: CacheView, before: RequestView, now: RequestView)
    requires
        c.baseline == Some(prefix_of(before)),
        c.violations < u64::MAX,
    ensures
        ({
            let rewritten = exists|k: int|
                0 <= k < before.messages.len() && (k >= now.messages.len() || json_text(
                    stored_message(#[trigger] before.messages[k]),
                ) != json_text(stored_message(now.messages[k])));
            let r = report(c.baseline, prefix_of(now));
            &&& r.system_changed <==> before.system != now.system
            &&& r.tools_changed <==> tools_text(before.tools) != tools_text(now.tools)
            &&& r.history_rewritten <==> rewritten
            &&& prepared(c, now).violations == (if before.system != now.system || tools_text(
                before.tools,
            ) != tools_text(now.tools) || rewritten {
                c.violations + 1
            } else {
                c.violations as int
            })
            &&& prepared(c, now).baseline == Some(prefix_of(now))
            &&& prepared(c, now).invalidations == c.invalidations
        }),
{
    let a = message_texts(before.messages);
    let b = message_texts(now.messages);
    if a.is_prefix_of(b) {
        assert forall|k: int| 0 <= k < before.messages.len() implies k < now.messages.len()
            && json_text(stored_message(#[trigger] before.messages[k])) == json_text(
            stored_message(now.messages[k]),
        ) by {
            assert(b.subrange(0, a.len() as int)[k] == b[k]);
            assert(a[k] == b[k]);
        }
    } else if forall|k: int|
        0 <= k < before.messages.len() ==> k < now.messages.len() && json_text(
            stored_message(#[trigger] before.messages[k]),
        ) == json_text(stored_message(now.messages[k])) {
        if a.len() > b.len() {
            let k = b.len() as int;
            assert(json_text(stored_message(before.messages[k])) == json_text(
                stored_message(now.messages[k]),
            ));
        }
        assert forall|k: int| 0 <= k < a.len() implies a[k] == b.subrange(0, a.len() as int)[k] by {
            assert(json_text(stored_message(before.messages[k])) == json_text(
                stored_message(now.messages[k]),
            ));
        }
        assert(a =~= b.subrange(0, a.len() as int));
    }
}

} // verus!
