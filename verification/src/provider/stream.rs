//! What the decoders of both wire formats share.
use vstd::prelude::*;
use vstd::string::*;
use crate::error::{ErrorView, LexError};
use crate::json::{Json, JsonTree};
use crate::message::{no_usage, Usage};
use crate::provider::calls::{CallTable, Table};
use crate::provider::{provider_event_views, EventView, ProviderEvent};
use crate::text::cat4;

verus! {

/// How far a reply is.
#[verifier::ext_equal]
pub struct ReplyView {
    /// Tokens used, as far as they are known.
    pub usage: Usage,
    /// Calls that are still arriving.
    pub calls: Table,
}

/// A reply of which nothing has come.
pub open spec fn fresh_reply() -> ReplyView {
    ReplyView { usage: no_usage(), calls: Seq::empty() }
}

/// What reading a piece of a reply leads to.
#[verifier::ext_equal]
pub struct Decoded {
    pub reply: ReplyView,
    /// What is handed on, in order.
    pub events: Seq<EventView>,
    /// Whether the reply says that it is over.
    pub done: bool,
    /// Why the reply cannot be read on, where it cannot.
    pub error: Option<Seq<char>>,
}

impl Decoded {
    /// Whether nothing more is read.
    pub open spec fn over(self) -> bool {
        self.done || self.error is Some
    }

    /// What follows when the next piece leads to `next`.
    pub open spec fn and(self, next: Decoded) -> Decoded {
        Decoded {
            reply: next.reply,
            events: self.events + next.events,
            done: next.done,
            error: next.error,
        }
    }
}

/// A piece that hands on `events` and leaves the reply at `reply`.
pub open spec fn went_on(reply: ReplyView, events: Seq<EventView>) -> Decoded {
    Decoded { reply, events, done: false, error: None }
}

/// A piece at which reading fails.
pub open spec fn failed(reply: ReplyView, message: Seq<char>) -> Decoded {
    Decoded { reply, events: Seq::empty(), done: false, error: Some(message) }
}

/// The text of a member, or nothing.
pub open spec fn text_or_empty(f: JsonTree, key: Seq<char>) -> Seq<char> {
    match f.text_of(key) {
        Some(s) => s,
        None => ""@,
    }
}

/// The text of a member, or nothing.
pub fn text_or_none(f: &Json, key: &str) -> (r: String)
    ensures
        r@ == text_or_empty(f.tree(), key@),
{
    match f.text_of(key) {
        Some(s) => s.to_owned(),
        None => "".to_owned(),
    }
}

/// How an event that cannot be read is told.
pub open spec fn unreadable(why: Seq<char>, data: Seq<char>) -> Seq<char> {
    "无法解析 SSE 数据: "@ + why + ": "@ + data
}

/// A reply as it arrives.
#[derive(Debug)]
pub struct Reply {
    pub usage: Usage,
    pub calls: CallTable,
}

impl View for Reply {
    type V = ReplyView;

    open spec fn view(&self) -> ReplyView {
        ReplyView { usage: self.usage, calls: self.calls.table() }
    }
}

impl Reply {
    /// A reply of which nothing has come.
    pub fn new() -> (r: Reply)
        ensures
            r@ == fresh_reply(),
    {
        Reply { usage: Usage::default(), calls: CallTable::new() }
    }
}

/// What a piece of a reply gave.
#[derive(Debug, PartialEq)]
pub struct Fed {
    /// What is handed on, in order.
    pub events: Vec<ProviderEvent>,
    /// Whether the reply says that it is over.
    pub done: bool,
    /// Why the reply cannot be read on, where it cannot. It comes behind the events.
    pub error: Option<LexError>,
}

impl Fed {
    /// Whether this is what `d` says.
    pub open spec fn is(&self, d: Decoded) -> bool {
        &&& provider_event_views(self.events@) == d.events
        &&& self.done == d.done
        &&& match self.error {
            Some(e) => d.error is Some && e@ == ErrorView::Provider(d.error->0),
            None => d.error is None,
        }
    }

    /// Nothing yet.
    pub fn new() -> (r: Fed)
        ensures
            provider_event_views(r.events@) == Seq::<EventView>::empty(),
            !r.done,
            r.error is None,
    {
        let r = Fed { events: Vec::new(), done: false, error: None };
        assert(provider_event_views(r.events@) =~= Seq::empty());
        r
    }

    /// Hands an event on.
    pub fn push(&mut self, e: ProviderEvent)
        ensures
            provider_event_views(final(self).events@) == provider_event_views(
                old(self).events@,
            ).push(e@),
            final(self).done == old(self).done,
            final(self).error == old(self).error,
    {
        self.events.push(e);
        assert(provider_event_views(self.events@) =~= provider_event_views(old(self).events@).push(
            e@,
        ));
    }

    /// Notes why the reply cannot be read on.
    pub fn fail(&mut self, message: String)
        ensures
            final(self).events == old(self).events,
            final(self).done == old(self).done,
            final(self).error == Some(LexError::Provider(message)),
    {
        self.error = Some(LexError::Provider(message));
    }
}

/// Tells an event that cannot be read.
pub fn unreadable_text(why: &str, data: &str) -> (r: String)
    ensures
        r@ == unreadable(why@, data@),
{
    cat4("无法解析 SSE 数据: ", why, ": ", data)
}

} // verus!
