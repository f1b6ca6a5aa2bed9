//! Model providers: what is sent, what comes back, and how failures are met.
use vstd::prelude::*;
use vstd::string::*;
use crate::error::{ErrorView, LexError};
use crate::json::{json_read, Json, JsonTree};
use crate::message::{clone_messages, message_views, Message, MessageView, Usage};
use crate::text::{cat2, cat4, cat5, dec, dec_text, sub_text, to_chars};
use crate::tools::{definition_views, DefinitionView, ToolDefinition};

pub mod anthropic;
pub mod anthropic_types;
pub mod bytes;
pub mod cache;
pub mod calls;
pub mod cuts;
pub mod openai_compat;
pub mod openai_types;
pub mod replies;
pub mod sse;
pub mod stream;
pub mod throttle;

verus! {

/// What a request to a model is made of.
#[derive(Debug)]
pub struct RequestContext {
    pub system: String,
    pub tools: Vec<ToolDefinition>,
    pub messages: Vec<Message>,
}

/// What a request holds.
#[verifier::ext_equal]
pub struct RequestView {
    pub system: Seq<char>,
    pub tools: Seq<DefinitionView>,
    pub messages: Seq<MessageView>,
}

impl View for RequestContext {
    type V = RequestView;

    open spec fn view(&self) -> RequestView {
        RequestView {
            system: self.system@,
            tools: definition_views(self.tools@),
            messages: message_views(self.messages@),
        }
    }
}

/// What a model sends back, piece by piece.
#[derive(Debug, PartialEq)]
pub enum ProviderEvent {
    TextDelta(String),
    ThinkingDelta(String),
    ToolUseStart { id: String, name: String },
    ToolUseDelta { id: String, partial_json: String },
    ToolUseComplete { id: String, name: String, input: Json },
    Completed { usage: Usage },
}

/// What an event holds.
pub enum EventView {
    TextDelta(Seq<char>),
    ThinkingDelta(Seq<char>),
    ToolUseStart { id: Seq<char>, name: Seq<char> },
    ToolUseDelta { id: Seq<char>, partial_json: Seq<char> },
    ToolUseComplete { id: Seq<char>, name: Seq<char>, input: JsonTree },
    Completed { usage: Usage },
}

impl View for ProviderEvent {
    type V = EventView;

    open spec fn view(&self) -> EventView {
        match self {
            ProviderEvent::TextDelta(t) => EventView::TextDelta(t@),
            ProviderEvent::ThinkingDelta(t) => EventView::ThinkingDelta(t@),
            ProviderEvent::ToolUseStart { id, name } => EventView::ToolUseStart {
                id: id@,
                name: name@,
            },
            ProviderEvent::ToolUseDelta { id, partial_json } => EventView::ToolUseDelta {
                id: id@,
                partial_json: partial_json@,
            },
            ProviderEvent::ToolUseComplete { id, name, input } => EventView::ToolUseComplete {
                id: id@,
                name: name@,
                input: input.tree(),
            },
            ProviderEvent::Completed { usage } => EventView::Completed { usage: *usage },
        }
    }
}

/// The views of a list of events.
pub open spec fn provider_event_views(v: Seq<ProviderEvent>) -> Seq<EventView> {
    Seq::new(v.len(), |i: int| v[i]@)
}

impl Clone for ProviderEvent {
    fn clone(&self) -> (r: Self)
        ensures
            r@ == self@,
    {
        match self {
            ProviderEvent::TextDelta(t) => ProviderEvent::TextDelta(t.clone()),
            ProviderEvent::ThinkingDelta(t) => ProviderEvent::ThinkingDelta(t.clone()),
            ProviderEvent::ToolUseStart { id, name } => ProviderEvent::ToolUseStart {
                id: id.clone(),
                name: name.clone(),
            },
            ProviderEvent::ToolUseDelta { id, partial_json } => ProviderEvent::ToolUseDelta {
                id: id.clone(),
                partial_json: partial_json.clone(),
            },
            ProviderEvent::ToolUseComplete { id, name, input } => ProviderEvent::ToolUseComplete {
                id: id.clone(),
                name: name.clone(),
                input: input.clone(),
            },
            ProviderEvent::Completed { usage } => ProviderEvent::Completed { usage: *usage },
        }
    }
}

impl Clone for RequestContext {
    fn clone(&self) -> (r: Self)
        ensures
            r@ == self@,
    {
        let mut tools: Vec<ToolDefinition> = Vec::new();
        let mut i: usize = 0;
        while i < self.tools.len()
            invariant
                i <= self.tools@.len(),
                definition_views(tools@) == definition_views(self.tools@).take(i as int),
            decreases self.tools@.len() - i,
        {
            let one = self.tools[i].clone();
            let ghost before = tools@;
            tools.push(one);
            assert(definition_views(tools@) =~= definition_views(before).push(one@));
            assert(definition_views(self.tools@).take(i + 1) =~= definition_views(self.tools@).take(
                i as int,
            ).push(self.tools@[i as int]@));
            i = i + 1;
        }
        assert(definition_views(self.tools@).take(i as int) =~= definition_views(self.tools@));
        RequestContext { system: self.system.clone(), tools, messages: clone_messages(&self.messages) }
    }
}

// ---- failures of a request ----

/// A status after which the same request may be sent again.
pub open spec fn retryable(status: u16) -> bool {
    status == 429 || status == 500 || status == 503
}

/// What a status means to the user; nothing for a status without a meaning of its own.
pub open spec fn hint(status: u16) -> Seq<char> {
    if status == 400 {
        "请求体格式错误,请检查配置或参数"@
    } else if status == 401 {
        "认证失败:API Key 无效或缺失"@
    } else if status == 402 {
        "账户余额不足,请充值后重试"@
    } else if status == 422 {
        "请求参数错误"@
    } else if status == 429 {
        "请求速率达到上限(TPM/RPM)"@
    } else if status == 500 {
        "服务端内部故障"@
    } else if status == 503 {
        "服务端繁忙,请稍后重试"@
    } else {
        ""@
    }
}

/// Decides [`retryable`].
pub fn is_retryable_status(status: u16) -> (r: bool)
    ensures
        r == retryable(status),
{
    status == 429 || status == 500 || status == 503
}

/// What a status means to the user.
pub fn status_hint(status: u16) -> (r: &'static str)
    ensures
        r@ == hint(status),
{
    if status == 400 {
        "请求体格式错误,请检查配置或参数"
    } else if status == 401 {
        "认证失败:API Key 无效或缺失"
    } else if status == 402 {
        "账户余额不足,请充值后重试"
    } else if status == 422 {
        "请求参数错误"
    } else if status == 429 {
        "请求速率达到上限(TPM/RPM)"
    } else if status == 500 {
        "服务端内部故障"
    } else if status == 503 {
        "服务端繁忙,请稍后重试"
    } else {
        ""
    }
}

/// How many characters of a body are shown.
pub const BODY_LIMIT: usize = 500;

/// At most the first [`BODY_LIMIT`] characters.
pub open spec fn shortened(s: Seq<char>) -> Seq<char> {
    if s.len() > BODY_LIMIT {
        s.take(BODY_LIMIT as int)
    } else {
        s
    }
}

/// At most the first [`BODY_LIMIT`] characters.
pub fn truncate_body(s: &str) -> (r: String)
    ensures
        r@ == shortened(s@),
{
    let v = to_chars(s);
    if v.len() > BODY_LIMIT {
        assert(v@.subrange(0, BODY_LIMIT as int) =~= s@.take(BODY_LIMIT as int));
        sub_text(&v, 0, BODY_LIMIT)
    } else {
        s.to_owned()
    }
}

/// The message inside an error body: `error.message`, where the body is an object that has it.
pub open spec fn body_message(read: core::result::Result<JsonTree, Seq<char>>) -> Option<Seq<char>> {
    match read {
        Ok(t) => match t.get("error"@) {
            Some(e) => e.text_of("message"@),
            None => None,
        },
        Err(_) => None,
    }
}

/// How a failed request is told: the status, what it means, and the message of the body, or else
/// the start of the body itself.
pub open spec fn failure_text(
    status: u16,
    body: Seq<char>,
    read: core::result::Result<JsonTree, Seq<char>>,
) -> Seq<char> {
    let msg = match body_message(read) {
        Some(m) => m,
        None => shortened(body),
    };
    if hint(status).len() == 0 {
        "HTTP "@ + dec(status as nat) + ": "@ + msg
    } else {
        "HTTP "@ + dec(status as nat) + "("@ + hint(status) + ("): "@ + msg)
    }
}

/// Tells a failed request, given what the body reads as.
pub fn failure_message(
    status: u16,
    body: &str,
    read: &core::result::Result<Json, String>,
) -> (r: String)
    ensures
        r@ == failure_text(
            status,
            body@,
            match *read {
                Ok(j) => Ok::<JsonTree, Seq<char>>(j.tree()),
                Err(m) => Err::<JsonTree, Seq<char>>(m@),
            },
        ),
{
    let mut msg: Option<String> = None;
    if let Ok(j) = read {
        if let Some(e) = j.get("error") {
            if let Some(m) = e.text_of("message") {
                msg = Some(m.to_owned());
            }
        }
    }
    let msg = match msg {
        Some(m) => m,
        None => truncate_body(body),
    };
    let code = dec_text(status as u64);
    let h = status_hint(status);
    if h.is_empty() {
        cat4("HTTP ", code.as_str(), ": ", msg.as_str())
    } else {
        let tail = cat2("): ", msg.as_str());
        cat5("HTTP ", code.as_str(), "(", h, tail.as_str())
    }
}

/// Tells a failed request.
pub fn provider_error_message(status: u16, body: &str) -> (r: String)
    ensures
        r@ == failure_text(status, body@, json_read(body@)),
{
    failure_message(status, body, &Json::parse(body))
}

/// How often a request is sent again at most.
pub const MAX_RETRIES: u32 = 2;

/// What to do after a response.
#[derive(Debug, PartialEq)]
pub enum RetryStep {
    /// The stream begins.
    Accept,
    /// Wait, then send the same bytes again.
    Again { wait_secs: u64 },
    /// Give up.
    Fail(LexError),
}

/// Whether a request that was sent again `attempt` times already is sent once more after a
/// response with this status.
pub open spec fn goes_again(attempt: nat, status: u16) -> bool {
    retryable(status) && attempt < MAX_RETRIES
}

/// Whether `step` is what to do after the response to a request that was sent again `attempt`
/// times already: a status in the 200s is accepted; a status that can pass is met by waiting one
/// second the first time and three the next, [`MAX_RETRIES`] times in all; anything else fails.
pub open spec fn step_follows(step: RetryStep, attempt: nat, status: u16, body: Seq<char>) -> bool {
    &&& step is Accept <==> 200 <= status < 300
    &&& step is Again <==> goes_again(attempt, status)
    &&& step matches RetryStep::Again { wait_secs } ==> wait_secs == if attempt == 0 {
        1u64
    } else {
        3u64
    }
    &&& step matches RetryStep::Fail(e) ==> e@ == ErrorView::Provider(
        failure_text(status, body, json_read(body)),
    )
}

/// What to do after the response to a request that was sent again `attempt` times already.
pub fn after_response(attempt: u32, status: u16, body: &str) -> (r: RetryStep)
    ensures
        step_follows(r, attempt as nat, status, body@),
{
    if 200 <= status && status < 300 {
        return RetryStep::Accept;
    }
    if is_retryable_status(status) && attempt < MAX_RETRIES {
        return RetryStep::Again { wait_secs: if attempt == 0 { 1 } else { 3 } };
    }
    RetryStep::Fail(LexError::Provider(provider_error_message(status, body)))
}

/// How often a request was sent again so far.
#[derive(Debug, PartialEq)]
pub struct Retries {
    pub made: u32,
}

impl Retries {
    /// A request that was not sent again yet.
    pub fn new() -> (r: Retries)
        ensures
            r.made == 0,
    {
        Retries { made: 0 }
    }

    /// Takes the response to the last send, and counts the next one where there is one.
    pub fn take_response(&mut self, status: u16, body: &str) -> (r: RetryStep)
        ensures
            step_follows(r, old(self).made as nat, status, body@),
            final(self).made == old(self).made + if goes_again(old(self).made as nat, status) {
                1int
            } else {
                0
            },
    {
        let step = after_response(self.made, status, body);
        if let RetryStep::Again { .. } = step {
            self.made = self.made + 1;
        }
        step
    }
}

/// How many sends there are, from one that follows `attempt` others on, when `statuses` are the
/// statuses of the responses, one for each send.
pub open spec fn sends_from(attempt: nat, statuses: Seq<u16>) -> nat
    decreases statuses.len(),
{
    if statuses.len() == 0 {
        0
    } else if goes_again(attempt, statuses[0]) {
        1 + sends_from(attempt + 1, statuses.skip(1))
    } else {
        1
    }
}

/// How often a request is sent, when `statuses` are the statuses of the responses, one for each
/// send.
pub open spec fn sends(statuses: Seq<u16>) -> nat {
    sends_from(0, statuses)
}

/// From any send on, there are no more than are left of [`MAX_RETRIES`] and the first; each but
/// the last met a status that can pass; and the last, where sends and responses are left, did not.
proof fn lemma_sends_from(attempt: nat, statuses: Seq<u16>)
    requires
        attempt <= MAX_RETRIES,
    ensures
        sends_from(attempt, statuses) <= MAX_RETRIES + 1 - attempt,
        sends_from(attempt, statuses) <= statuses.len(),
        statuses.len() > 0 ==> sends_from(attempt, statuses) > 0,
        forall|i: int|
            0 <= i < sends_from(attempt, statuses) - 1 ==> retryable(#[trigger] statuses[i]),
        0 < sends_from(attempt, statuses) < MAX_RETRIES + 1 - attempt && sends_from(
            attempt,
            statuses,
        ) < statuses.len() ==> !retryable(statuses[sends_from(attempt, statuses) - 1]),
    decreases statuses.len(),
{
    if statuses.len() > 0 && goes_again(attempt, statuses[0]) {
        let rest = statuses.skip(1);
        lemma_sends_from(attempt + 1, rest);
        let n = sends_from(attempt, statuses);
        assert forall|i: int| 0 <= i < n - 1 implies retryable(#[trigger] statuses[i]) by {
            if i > 0 {
                assert(rest[i - 1] == statuses[i]);
            }
        }
        if n >= 2 {
            assert(rest[n - 2] == statuses[n - 1]);
        }
    }
}

/// Whatever the service answers, a request is sent at most once and [`MAX_RETRIES`] times more. It
/// is sent again only after a status that can pass, and as long as one comes and the limit is not
/// reached.
pub proof fn law_sends_are_bounded(statuses: Seq<u16>)
    ensures
        sends(statuses) <= MAX_RETRIES + 1,
        statuses.len() > 0 ==> sends(statuses) > 0,
        forall|i: int| 0 <= i < sends(statuses) - 1 ==> retryable(#[trigger] statuses[i]),
        0 < sends(statuses) < MAX_RETRIES + 1 && sends(statuses) < statuses.len() ==> !retryable(
            statuses[sends(statuses) - 1],
        ),
{
    lemma_sends_from(0, statuses);
}

/// `s` without the slashes at its end.
pub open spec fn without_slashes(s: Seq<char>) -> Seq<char>
    decreases s.len(),
{
    if s.len() > 0 && s.last() == '/' {
        without_slashes(s.drop_last())
    } else {
        s
    }
}

/// A request as it goes out. Sending it again sends the same bytes.
#[derive(Debug, PartialEq)]
pub struct HttpRequest {
    pub url: String,
    pub headers: Vec<(String, String)>,
    pub body: String,
}

/// What an outgoing request holds.
#[verifier::ext_equal]
pub struct HttpView {
    pub url: Seq<char>,
    pub headers: Seq<(Seq<char>, Seq<char>)>,
    pub body: Seq<char>,
}

impl View for HttpRequest {
    type V = HttpView;

    open spec fn view(&self) -> HttpView {
        HttpView {
            url: self.url@,
            headers: Seq::new(
                self.headers@.len(),
                |i: int| (self.headers@[i].0@, self.headers@[i].1@),
            ),
            body: self.body@,
        }
    }
}

/// The address of `path` under a base address.
pub fn endpoint(base_url: &str, path: &str) -> (r: String)
    ensures
        r@ == without_slashes(base_url@) + path@,
{
    let v = to_chars(base_url);
    let mut n: usize = v.len();
    assert(v@.take(n as int) =~= v@);
    while n > 0 && v[n - 1] == '/'
        invariant
            n <= v@.len(),
            v@ == base_url@,
            without_slashes(base_url@) == without_slashes(v@.take(n as int)),
        decreases n,
    {
        assert(v@.take(n as int).drop_last() =~= v@.take(n - 1));
        n = n - 1;
    }
    assert(v@.subrange(0, n as int) =~= v@.take(n as int));
    let base = sub_text(&v, 0, n);
    cat2(base.as_str(), path)
}

/// The same request is sent again after the three statuses that can pass, and after no other.
pub proof fn law_what_can_pass(status: u16, body: Seq<char>, attempt: nat)
    ensures
        goes_again(attempt, status) <==> attempt < 2 && (status == 429 || status == 500 || status
            == 503),
{
}

/// A failed request is told by its status, by what the status means where it has a meaning of its own,
/// and by the message that the service gives; where it gives none, by the first 500 characters of
/// what it sent.
pub proof fn law_failure_is_told(
    status: u16,
    body: Seq<char>,
    read: core::result::Result<JsonTree, Seq<char>>,
)
    ensures
        ({
            let said = match read {
                Ok(t) => match t.get("error"@) {
                    Some(e) => e.text_of("message"@),
                    None => None,
                },
                Err(_) => None,
            };
            let told = if said is Some {
                said->0
            } else if body.len() <= 500 {
                body
            } else {
                body.take(500)
            };
            let t = failure_text(status, body, read);
            let head = "HTTP "@ + dec(status as nat);
            let means = |m: Seq<char>| t == head + "("@ + m + ("): "@ + told);
            &&& told.is_suffix_of(t)
            &&& status == 401 ==> means("认证失败:API Key 无效或缺失"@)
            &&& status == 402 ==> means("账户余额不足,请充值后重试"@)
            &&& status == 400 ==> means("请求体格式错误,请检查配置或参数"@)
            &&& status == 422 ==> means("请求参数错误"@)
            &&& status == 429 ==> means("请求速率达到上限(TPM/RPM)"@)
            &&& status == 500 ==> means("服务端内部故障"@)
            &&& status == 503 ==> means("服务端繁忙,请稍后重试"@)
            &&& status != 400 && status != 401 && status != 402 && status != 422 && status != 429
                && status != 500 && status != 503 ==> t == head + ": "@ + told
        }),
{
    reveal_strlit("请求体格式错误,请检查配置或参数");
    reveal_strlit("认证失败:API Key 无效或缺失");
    reveal_strlit("账户余额不足,请充值后重试");
    reveal_strlit("请求参数错误");
    reveal_strlit("请求速率达到上限(TPM/RPM)");
    reveal_strlit("服务端内部故障");
    reveal_strlit("服务端繁忙,请稍后重试");
    reveal_strlit("");
    let t = failure_text(status, body, read);
    let said = body_message(read);
    let told = if said is Some {
        said->0
    } else if body.len() <= 500 {
        body
    } else {
        body.take(500)
    };
    assert(t.subrange(t.len() - told.len(), t.len() as int) =~= told);
}

/// An address has no slash at its end before a path is put behind it, and loses nothing else.
pub proof fn law_slashes_are_dropped(s: Seq<char>)
    ensures
        without_slashes(s).is_prefix_of(s),
        without_slashes(s).len() > 0 ==> without_slashes(s).last() != '/',
        forall|i: int| without_slashes(s).len() <= i < s.len() ==> #[trigger] s[i] == '/',
    decreases s.len(),
{
    if s.len() > 0 && s.last() == '/' {
        law_slashes_are_dropped(s.drop_last());
        let t = without_slashes(s);
        assert(s.subrange(0, t.len() as int) =~= s.drop_last().subrange(0, t.len() as int));
        assert forall|i: int| t.len() <= i < s.len() implies #[trigger] s[i] == '/' by {
            if i < s.len() - 1 {
                assert(s.drop_last()[i] == s[i]);
            }
        }
    } else {
        assert(s.subrange(0, s.len() as int) =~= s);
    }
}

} // verus!
