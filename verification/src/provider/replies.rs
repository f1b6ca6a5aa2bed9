//! What a reply hands on, told from what the service sends.
//!
//! A reply brings calls in pieces, several calls at a time. The laws here say what becomes of the
//! pieces in terms of the JSON they arrive in: which call a piece belongs to, what a call is when it
//! is complete, and that text, thinking and counts come through as they were sent.
use vstd::prelude::*;
use crate::json::{json_read, JsonTree};
use crate::provider::anthropic::{
    on_data as on_frame_data, on_frame, on_reads as on_frames, FrameRead, FrameView,
};
use crate::provider::calls::{
    call_at, call_input, has_call, in_order, law_table, lemma_found, lemma_place, AccView, Table,
};
use crate::provider::openai_compat::{
    calls_completed, on_choice, on_choices, on_chunk, on_data, on_reads, on_tool_call, on_tool_calls,
    piece_calls, piece_events, with_usage, ChoiceView, ChunkRead, ChunkView,
};
use crate::provider::stream::{fresh_reply, went_on, ReplyView};
use crate::provider::EventView;
use crate::text::{all_white, lemma_trim_empty};

verus! {

/// What the arguments of a call read as: an empty object where there is nothing but white space.
pub open spec fn arguments_read(json: Seq<char>) -> Result<JsonTree, Seq<char>> {
    if all_white(json) {
        Ok(JsonTree::Object(Seq::empty()))
    } else {
        json_read(json)
    }
}

proof fn lemma_arguments_read(json: Seq<char>)
    ensures
        call_input(json) == arguments_read(json),
{
    lemma_trim_empty(json);
}

/// The call that a table has under an index.
spec fn lookup(t: Table, i: u64) -> Option<AccView> {
    if has_call(t, i) {
        Some(call_at(t, i))
    } else {
        None
    }
}

proof fn lemma_lookup(t: Table, i: u64, a: AccView)
    requires
        in_order(t),
    ensures
        (lookup(t, i) == Some(a)) == t.contains((i, a)),
{
    lemma_place(t, i);
    if t.contains((i, a)) {
        let n = choose|n: int| 0 <= n < t.len() && t[n] == (i, a);
        lemma_found(t, i, n);
    }
}

// ---- pieces of calls, by index ----

/// Whether a piece of a call carries this index; a piece without an index carries zero.
pub open spec fn carries(tc: JsonTree, i: u64) -> bool {
    match tc.unsigned_of("index"@) {
        Some(n) => n == i,
        None => i == 0,
    }
}

/// The name that a piece gives.
pub open spec fn piece_name(tc: JsonTree) -> Option<Seq<char>> {
    match tc.get("function"@) {
        Some(f) => f.text_of("name"@),
        None => None,
    }
}

/// The arguments that a piece gives.
pub open spec fn piece_arguments(tc: JsonTree) -> Seq<char> {
    match tc.get("function"@) {
        Some(f) => match f.text_of("arguments"@) {
            Some(p) => p,
            None => Seq::empty(),
        },
        None => Seq::empty(),
    }
}

/// The call under index `i` after one more piece: a piece with another index changes nothing; one
/// with an id opens the call where it is not open; any piece of an open call adds its arguments,
/// and names it anew where it gives a name.
pub open spec fn after_piece(a: Option<AccView>, tc: JsonTree, i: u64) -> Option<AccView> {
    if !carries(tc, i) {
        a
    } else {
        match (a, tc.text_of("id"@)) {
            (Some(c), _) => Some(
                AccView {
                    id: c.id,
                    name: match piece_name(tc) {
                        Some(n) => n,
                        None => c.name,
                    },
                    json: c.json + piece_arguments(tc),
                },
            ),
            (None, Some(id)) => Some(
                AccView {
                    id,
                    name: match piece_name(tc) {
                        Some(n) => n,
                        None => ""@,
                    },
                    json: piece_arguments(tc),
                },
            ),
            (None, None) => None,
        }
    }
}

/// The call under index `i` after pieces, one after the other.
pub open spec fn after_pieces(a: Option<AccView>, tcs: Seq<JsonTree>, i: u64) -> Option<AccView>
    decreases tcs.len(),
{
    if tcs.len() == 0 {
        a
    } else {
        after_piece(after_pieces(a, tcs.drop_last(), i), tcs.last(), i)
    }
}

/// The call that pieces make under index `i`, where they open one.
pub open spec fn call_made(tcs: Seq<JsonTree>, i: u64) -> Option<AccView> {
    after_pieces(None, tcs, i)
}

proof fn lemma_after_pieces_add(a: Option<AccView>, x: Seq<JsonTree>, y: Seq<JsonTree>, i: u64)
    ensures
        after_pieces(a, x + y, i) == after_pieces(after_pieces(a, x, i), y, i),
    decreases y.len(),
{
    if y.len() == 0 {
        assert(x + y =~= x);
    } else {
        lemma_after_pieces_add(a, x, y.drop_last(), i);
        assert((x + y).drop_last() =~= x + y.drop_last());
        assert((x + y).last() == y.last());
    }
}

proof fn lemma_piece(r: ReplyView, tc: JsonTree, i: u64)
    requires
        in_order(r.calls),
    ensures
        ({
            let d = on_tool_call(r, tc);
            &&& in_order(d.reply.calls)
            &&& lookup(d.reply.calls, i) == after_piece(lookup(r.calls, i), tc, i)
            &&& d.reply.usage == r.usage
            &&& !d.over()
        }),
{
    let idx = crate::provider::openai_compat::call_index(tc);
    assert(carries(tc, i) == (idx == i));
    let started = crate::provider::openai_compat::call_started(r, tc);
    let t1 = started.reply.calls;
    if tc.text_of("id"@) is Some && !has_call(r.calls, idx) {
        let a = AccView {
            id: tc.text_of("id"@)->0,
            name: crate::provider::openai_compat::function_name(tc),
            json: Seq::empty(),
        };
        law_table(r.calls, idx, a, i);
        law_table(r.calls, idx, a, idx);
    }
    assert(in_order(t1));
    let named = crate::provider::openai_compat::call_named(started.reply, tc);
    let t2 = named.calls;
    if has_call(t1, idx) && piece_name(tc) is Some {
        let c = call_at(t1, idx);
        let a = AccView { id: c.id, name: piece_name(tc)->0, json: c.json };
        law_table(t1, idx, a, i);
        law_table(t1, idx, a, idx);
    }
    assert(in_order(t2));
    let p = piece_arguments(tc);
    if has_call(t2, idx) {
        let c = call_at(t2, idx);
        if p.len() > 0 {
            let a = AccView { id: c.id, name: c.name, json: c.json + p };
            law_table(t2, idx, a, i);
            law_table(t2, idx, a, idx);
        } else {
            assert(c.json + p =~= c.json);
        }
    }
    assert(Seq::<char>::empty() + p =~= p);
}

proof fn lemma_pieces(r: ReplyView, tcs: Seq<JsonTree>, i: u64)
    requires
        in_order(r.calls),
    ensures
        ({
            let d = on_tool_calls(r, tcs);
            &&& in_order(d.reply.calls)
            &&& lookup(d.reply.calls, i) == after_pieces(lookup(r.calls, i), tcs, i)
            &&& d.reply.usage == r.usage
            &&& !d.over()
        }),
    decreases tcs.len(),
{
    if tcs.len() > 0 {
        lemma_pieces(r, tcs.drop_last(), i);
        lemma_piece(on_tool_calls(r, tcs.drop_last()).reply, tcs.last(), i);
    }
}

/// A piece of a call belongs to the call with its index and to no other: every call with another
/// index is there afterwards exactly as it was before, whatever the piece says. What becomes of
/// the call with its index is told by the piece and that call alone.
pub proof fn law_piece_changes_its_call_only(r: ReplyView, tc: JsonTree, j: u64, a: AccView)
    requires
        in_order(r.calls),
    ensures
        ({
            let before = r.calls;
            let after = on_tool_call(r, tc).reply.calls;
            let other = match tc.unsigned_of("index"@) {
                Some(n) => n != j,
                None => j != 0,
            };
            &&& in_order(after)
            &&& other ==> after.contains((j, a)) == before.contains((j, a))
            &&& !other && before.contains((j, a)) ==> after.contains(
                (j, after_piece(Some(a), tc, j)->0),
            )
            &&& !other && (forall|b: AccView| !before.contains((j, b))) ==> (after.contains((j, a))
                <==> after_piece(None, tc, j) == Some(a))
        }),
{
    lemma_piece(r, tc, j);
    let after = on_tool_call(r, tc).reply.calls;
    lemma_lookup(r.calls, j, a);
    lemma_lookup(after, j, a);
    if r.calls.contains((j, a)) && carries(tc, j) {
        lemma_lookup(after, j, after_piece(Some(a), tc, j)->0);
    }
    if forall|b: AccView| !r.calls.contains((j, b)) {
        if lookup(r.calls, j) is Some {
            lemma_lookup(r.calls, j, lookup(r.calls, j)->0);
        }
    }
}

/// The pieces of calls leave exactly the calls that they make, one for each index that a piece with
/// an id carries, in increasing order of index, in whatever order the pieces of different calls
/// come.
pub proof fn law_pieces_make_their_calls(tcs: Seq<JsonTree>, i: u64)
    ensures
        ({
            let t = on_tool_calls(fresh_reply(), tcs).reply.calls;
            &&& forall|m: int, n: int| 0 <= m < n < t.len() ==> (#[trigger] t[m]).0 < (
            #[trigger] t[n]).0
            &&& forall|n: int|
                0 <= n < t.len() ==> call_made(tcs, (#[trigger] t[n]).0) == Some(t[n].1)
            &&& call_made(tcs, i) is Some ==> t.contains((i, call_made(tcs, i)->0))
        }),
{
    let t = on_tool_calls(fresh_reply(), tcs).reply.calls;
    lemma_pieces(fresh_reply(), tcs, i);
    if call_made(tcs, i) is Some {
        lemma_lookup(t, i, call_made(tcs, i)->0);
    }
    assert forall|n: int| 0 <= n < t.len() implies call_made(tcs, (#[trigger] t[n]).0) == Some(
        t[n].1,
    ) by {
        lemma_pieces(fresh_reply(), tcs, t[n].0);
        lemma_lookup(t, t[n].0, t[n].1);
    }
}

/// The arguments that the pieces with index `i` give, in a row.
pub open spec fn arguments_at(tcs: Seq<JsonTree>, i: u64) -> Seq<char>
    decreases tcs.len(),
{
    if tcs.len() == 0 {
        Seq::empty()
    } else {
        arguments_at(tcs.drop_last(), i) + (if carries(tcs.last(), i) {
            piece_arguments(tcs.last())
        } else {
            Seq::empty()
        })
    }
}

/// The name that the pieces with index `i` give last, or nothing.
pub open spec fn name_at(tcs: Seq<JsonTree>, i: u64) -> Seq<char>
    decreases tcs.len(),
{
    if tcs.len() == 0 {
        ""@
    } else if carries(tcs.last(), i) && piece_name(tcs.last()) is Some {
        piece_name(tcs.last())->0
    } else {
        name_at(tcs.drop_last(), i)
    }
}

/// A call has the id of the first piece that gives one under its index; its arguments are those of
/// exactly the pieces with its index, from that piece on, in a row; and its name is the last one
/// that these give. Where no piece gives an id under an index, there is no call.
pub proof fn law_call_is_its_pieces(tcs: Seq<JsonTree>, i: u64, k: int)
    requires
        0 <= k <= tcs.len(),
        forall|j: int|
            0 <= j < k ==> !(carries(#[trigger] tcs[j], i) && tcs[j].text_of("id"@) is Some),
        k < tcs.len() ==> carries(tcs[k], i) && tcs[k].text_of("id"@) is Some,
    ensures
        k == tcs.len() ==> call_made(tcs, i) is None,
        k < tcs.len() ==> call_made(tcs, i) == Some(
            AccView {
                id: tcs[k].text_of("id"@)->0,
                name: name_at(tcs.skip(k), i),
                json: arguments_at(tcs.skip(k), i),
            },
        ),
    decreases tcs.len(),
{
    if k == tcs.len() {
        if tcs.len() > 0 {
            law_call_is_its_pieces(tcs.drop_last(), i, k - 1);
            assert(!(carries(tcs[k - 1], i) && tcs[k - 1].text_of("id"@) is Some));
        }
    } else if k == tcs.len() - 1 {
        law_call_is_its_pieces(tcs.drop_last(), i, k);
        assert(tcs.skip(k).drop_last() =~= Seq::empty());
        assert(tcs.skip(k).last() == tcs[k]);
        reveal_with_fuel(arguments_at, 2);
        reveal_with_fuel(name_at, 2);
        assert(Seq::<char>::empty() + piece_arguments(tcs[k]) =~= piece_arguments(tcs[k]));
    } else {
        let front = tcs.drop_last();
        assert(front[k] == tcs[k]);
        law_call_is_its_pieces(front, i, k);
        assert(tcs.skip(k).drop_last() =~= front.skip(k));
        assert(tcs.skip(k).last() == tcs.last());
        let before = arguments_at(front.skip(k), i);
        assert(before + Seq::<char>::empty() =~= before);
    }
}

// ---- calls that are complete ----

/// How a call that is complete is handed on.
pub open spec fn handed_on_as(a: AccView) -> EventView {
    EventView::ToolUseComplete { id: a.id, name: a.name, input: arguments_read(a.json)->Ok_0 }
}

proof fn lemma_completed(r: ReplyView)
    ensures
        ({
            let d = calls_completed(r);
            let n = d.events.len();
            &&& n <= r.calls.len()
            &&& forall|k: int|
                0 <= k < n ==> {
                    &&& arguments_read((#[trigger] r.calls[k]).1.json) is Ok
                    &&& d.events[k] == handed_on_as(r.calls[k].1)
                }
            &&& n < r.calls.len() ==> {
                &&& arguments_read(r.calls[n as int].1.json) is Err
                &&& d.error == Some(
                    "tool_call JSON 不完整: "@ + arguments_read(r.calls[n as int].1.json)->Err_0,
                )
            }
            &&& n == r.calls.len() ==> d.error is None && d.reply.calls.len() == 0
            &&& d.reply.usage == r.usage
            &&& !d.done
        }),
    decreases r.calls.len(),
{
    if r.calls.len() > 0 {
        let a = r.calls[0].1;
        lemma_arguments_read(a.json);
        let after = ReplyView { usage: r.usage, calls: r.calls.skip(1) };
        lemma_completed(after);
        let d = calls_completed(r);
        if call_input(a.json) is Ok {
            let rest = calls_completed(after);
            let n = d.events.len();
            assert(n == 1 + rest.events.len());
            assert forall|k: int| 0 <= k < n implies {
                &&& arguments_read((#[trigger] r.calls[k]).1.json) is Ok
                &&& d.events[k] == handed_on_as(r.calls[k].1)
            } by {
                if k > 0 {
                    assert(after.calls[k - 1] == r.calls[k]);
                    assert(d.events[k] == rest.events[k - 1]);
                }
            }
            if n < r.calls.len() {
                assert(after.calls[n - 1] == r.calls[n as int]);
            }
        }
    }
}

/// The pieces of calls that a choice carries.
pub open spec fn pieces_in(c: ChoiceView) -> Seq<JsonTree> {
    match c.delta.get("tool_calls"@) {
        Some(JsonTree::Array(a)) => a,
        _ => Seq::empty(),
    }
}

/// The pieces of calls that choices carry, in order.
pub open spec fn pieces_of_choices(cs: Seq<ChoiceView>) -> Seq<JsonTree>
    decreases cs.len(),
{
    if cs.len() == 0 {
        Seq::empty()
    } else {
        pieces_of_choices(cs.drop_last()) + pieces_in(cs.last())
    }
}

/// Whether an event carries a chunk of a reply that goes on: it tells no error, and none of its
/// choices is finished.
pub open spec fn goes_on(x: (Seq<char>, ChunkRead)) -> bool {
    &&& x.0.len() > 0
    &&& x.0 != "[DONE]"@
    &&& x.1 is Ok
    &&& x.1->Ok_0.error is None
    &&& forall|k: int|
        0 <= k < x.1->Ok_0.choices.len() ==> (
        #[trigger] x.1->Ok_0.choices[k]).finish_reason is None
}

/// Whether an event carries a chunk that ends a reply: it tells no error, and the last of its
/// choices, and no other, is finished.
pub open spec fn ends(x: (Seq<char>, ChunkRead)) -> bool {
    &&& x.0.len() > 0
    &&& x.0 != "[DONE]"@
    &&& x.1 is Ok
    &&& x.1->Ok_0.error is None
    &&& x.1->Ok_0.choices.len() > 0
    &&& x.1->Ok_0.choices.last().finish_reason is Some
    &&& forall|k: int|
        0 <= k < x.1->Ok_0.choices.len() - 1 ==> (
        #[trigger] x.1->Ok_0.choices[k]).finish_reason is None
}

/// The pieces of calls that events carry, in order.
pub open spec fn pieces_of(items: Seq<(Seq<char>, ChunkRead)>) -> Seq<JsonTree>
    decreases items.len(),
{
    if items.len() == 0 {
        Seq::empty()
    } else {
        pieces_of(items.drop_last()) + (match items.last().1 {
            Ok(f) => pieces_of_choices(f.choices),
            Err(_) => Seq::empty(),
        })
    }
}

/// Whether none of these is a call that is complete.
spec fn none_whole(evs: Seq<EventView>) -> bool {
    forall|k: int| 0 <= k < evs.len() ==> !(#[trigger] evs[k] is ToolUseComplete)
}

proof fn lemma_pieces_not_whole(r: ReplyView, tcs: Seq<JsonTree>)
    ensures
        none_whole(on_tool_calls(r, tcs).events),
    decreases tcs.len(),
{
    if tcs.len() > 0 {
        lemma_pieces_not_whole(r, tcs.drop_last());
    }
}

proof fn lemma_open_choices(r: ReplyView, cs: Seq<ChoiceView>, i: u64)
    requires
        in_order(r.calls),
        forall|k: int| 0 <= k < cs.len() ==> (#[trigger] cs[k]).finish_reason is None,
    ensures
        ({
            let d = on_choices(r, cs);
            &&& in_order(d.reply.calls)
            &&& lookup(d.reply.calls, i) == after_pieces(
                lookup(r.calls, i),
                pieces_of_choices(cs),
                i,
            )
            &&& d.reply.usage == r.usage
            &&& none_whole(d.events)
            &&& !d.over()
        }),
    decreases cs.len(),
{
    if cs.len() > 0 {
        let front = cs.drop_last();
        assert forall|k: int| 0 <= k < front.len() implies (
        #[trigger] front[k]).finish_reason is None by {
            assert(front[k] == cs[k]);
        }
        lemma_open_choices(r, front, i);
        let c = cs.last();
        assert(cs[cs.len() - 1].finish_reason is None);
        let before = on_choices(r, front);
        assert(piece_calls(c.delta) == pieces_in(c));
        lemma_pieces(before.reply, pieces_in(c), i);
        lemma_pieces_not_whole(before.reply, pieces_in(c));
        lemma_after_pieces_add(lookup(r.calls, i), pieces_of_choices(front), pieces_in(c), i);
    }
}

proof fn lemma_goes_on(items: Seq<(Seq<char>, ChunkRead)>, i: u64)
    requires
        forall|k: int| 0 <= k < items.len() ==> goes_on(#[trigger] items[k]),
    ensures
        ({
            let d = on_reads(fresh_reply(), items);
            &&& in_order(d.reply.calls)
            &&& lookup(d.reply.calls, i) == call_made(pieces_of(items), i)
            &&& none_whole(d.events)
            &&& !d.over()
        }),
    decreases items.len(),
{
    if items.len() > 0 {
        let front = items.drop_last();
        assert forall|k: int| 0 <= k < front.len() implies goes_on(#[trigger] front[k]) by {
            assert(front[k] == items[k]);
        }
        lemma_goes_on(front, i);
        assert(goes_on(items[items.len() - 1]));
        let before = on_reads(fresh_reply(), front);
        let f = items.last().1->Ok_0;
        lemma_open_choices(with_usage(before.reply, f), f.choices, i);
        lemma_after_pieces_add(None, pieces_of(front), pieces_of_choices(f.choices), i);
    }
}

/// Whether `idx` are the indices of the calls that pieces make, each once and in order.
pub open spec fn indices_of_calls(idx: Seq<u64>, tcs: Seq<JsonTree>) -> bool {
    &&& forall|m: int, n: int| 0 <= m < n < idx.len() ==> idx[m] < idx[n]
    &&& forall|i: u64| #[trigger] idx.contains(i) <==> call_made(tcs, i) is Some
}

/// The calls among events that are complete, in order.
pub open spec fn whole_calls(evs: Seq<EventView>) -> Seq<EventView>
    decreases evs.len(),
{
    if evs.len() == 0 {
        Seq::empty()
    } else if evs.last() is ToolUseComplete {
        whole_calls(evs.drop_last()).push(evs.last())
    } else {
        whole_calls(evs.drop_last())
    }
}

/// When a reply ends, every call that its pieces made is handed on once, in order of index, with
/// its id, its name, and what its own arguments read as, in whatever way the pieces of the calls
/// were mixed. The first call whose arguments cannot be read ends that with the reason.
pub proof fn law_every_call_comes_whole(
    items: Seq<(Seq<char>, ChunkRead)>,
    last: (Seq<char>, ChunkRead),
)
    requires
        forall|k: int| 0 <= k < items.len() ==> goes_on(#[trigger] items[k]),
        ends(last),
    ensures
        ({
            let d = on_reads(fresh_reply(), items.push(last));
            let pieces = pieces_of(items.push(last));
            let whole = whole_calls(d.events);
            exists|idx: Seq<u64>|
                {
                    &&& #[trigger] indices_of_calls(idx, pieces)
                    &&& whole.len() <= idx.len()
                    &&& forall|k: int|
                        0 <= k < whole.len() ==> {
                            let a = call_made(pieces, idx[k])->0;
                            &&& arguments_read(a.json) is Ok
                            &&& #[trigger] whole[k] == EventView::ToolUseComplete {
                                id: a.id,
                                name: a.name,
                                input: arguments_read(a.json)->Ok_0,
                            }
                        }
                    &&& whole.len() == idx.len() ==> d.error is None
                    &&& whole.len() < idx.len() ==> {
                        let a = call_made(pieces, idx[whole.len() as int])->0;
                        &&& arguments_read(a.json) is Err
                        &&& d.error == Some("tool_call JSON 不完整: "@ + arguments_read(a.json)->Err_0)
                    }
                }
        }),
{
    let all = items.push(last);
    let d = on_reads(fresh_reply(), all);
    let pieces = pieces_of(all);
    let (early, r) = lemma_reply_ends(items, last);
    let t = r.calls;
    lemma_completed(r);
    let done = calls_completed(r);
    let idx = lemma_indices(t, pieces);
    assert forall|k: int| 0 <= k < done.events.len() implies ({
        let a = call_made(pieces, idx[k])->0;
        &&& arguments_read(a.json) is Ok
        &&& #[trigger] done.events[k] == EventView::ToolUseComplete {
            id: a.id,
            name: a.name,
            input: arguments_read(a.json)->Ok_0,
        }
    }) by {
        assert(arguments_read(t[k].1.json) is Ok);
    }
    lemma_whole(early, done.events);
    assert(whole_calls(d.events) == done.events);
    if done.events.len() < t.len() {
        assert(call_made(pieces, idx[done.events.len() as int]) == Some(
            t[done.events.len() as int].1,
        ));
    }
    assert(indices_of_calls(idx, pieces));
}

/// What a reply has before its calls are complete.
proof fn lemma_reply_ends(
    items: Seq<(Seq<char>, ChunkRead)>,
    last: (Seq<char>, ChunkRead),
) -> (r: (Seq<EventView>, ReplyView))
    requires
        forall|k: int| 0 <= k < items.len() ==> goes_on(#[trigger] items[k]),
        ends(last),
    ensures
        ({
            let d = on_reads(fresh_reply(), items.push(last));
            let done = calls_completed(r.1);
            &&& none_whole(r.0)
            &&& in_order(r.1.calls)
            &&& forall|i: u64| lookup(r.1.calls, i) == #[trigger] call_made(
                pieces_of(items.push(last)),
                i,
            )
            &&& d.events == r.0 + done.events
            &&& d.error == done.error
            &&& d.reply == done.reply
            &&& !d.done
        }),
{
    let all = items.push(last);
    assert(all.drop_last() =~= items);
    let f = last.1->Ok_0;
    let cs = f.choices;
    let front = cs.drop_last();
    let c = cs.last();
    assert forall|k: int| 0 <= k < front.len() implies (#[trigger] front[k]).finish_reason is None by {
        assert(front[k] == cs[k]);
    }
    let before = on_reads(fresh_reply(), items);
    let start = with_usage(before.reply, f);
    let opened = on_choices(start, front);
    assert(piece_calls(c.delta) == pieces_in(c));
    let calls = on_tool_calls(opened.reply, pieces_in(c));
    lemma_goes_on(items, 0);
    lemma_open_choices(start, front, 0);
    lemma_pieces(opened.reply, pieces_in(c), 0);
    lemma_pieces_not_whole(opened.reply, pieces_in(c));
    lemma_completed(calls.reply);
    assert forall|i: u64| lookup(calls.reply.calls, i) == #[trigger] call_made(
        pieces_of(all),
        i,
    ) by {
        lemma_goes_on(items, i);
        lemma_open_choices(start, front, i);
        lemma_pieces(opened.reply, pieces_in(c), i);
        lemma_after_pieces_add(
            lookup(start.calls, i),
            pieces_of_choices(front),
            pieces_in(c),
            i,
        );
        lemma_after_pieces_add(None, pieces_of(items), pieces_of_choices(cs), i);
    }
    let early = before.events + (opened.events + (piece_events(c.delta) + calls.events));
    let done = calls_completed(calls.reply);
    let d = on_reads(fresh_reply(), all);
    assert(d.events =~= early + done.events);
    (early, calls.reply)
}

proof fn lemma_indices(t: Table, pieces: Seq<JsonTree>) -> (idx: Seq<u64>)
    requires
        in_order(t),
        forall|i: u64| lookup(t, i) == #[trigger] call_made(pieces, i),
    ensures
        indices_of_calls(idx, pieces),
        idx.len() == t.len(),
        forall|n: int| 0 <= n < t.len() ==> call_made(pieces, #[trigger] idx[n]) == Some(t[n].1),
{
    let idx = t.map_values(|x: (u64, AccView)| x.0);
    assert forall|i: u64| #[trigger] idx.contains(i) <==> call_made(pieces, i) is Some by {
        assert(lookup(t, i) == call_made(pieces, i));
        if idx.contains(i) {
            let n = choose|n: int| 0 <= n < idx.len() && idx[n] == i;
            lemma_found(t, i, n);
        }
        if lookup(t, i) is Some {
            lemma_lookup(t, i, lookup(t, i)->0);
            let n = choose|n: int| 0 <= n < t.len() && t[n] == (i, lookup(t, i)->0);
            assert(idx[n] == i);
        }
    }
    assert forall|n: int| 0 <= n < t.len() implies call_made(pieces, #[trigger] idx[n]) == Some(
        t[n].1,
    ) by {
        lemma_found(t, t[n].0, n);
        assert(lookup(t, t[n].0) == call_made(pieces, t[n].0));
    }
    idx
}

proof fn lemma_none_whole(a: Seq<EventView>)
    requires
        none_whole(a),
    ensures
        whole_calls(a) == Seq::<EventView>::empty(),
    decreases a.len(),
{
    if a.len() > 0 {
        assert(!(a[a.len() - 1] is ToolUseComplete));
        assert forall|k: int| 0 <= k < a.drop_last().len() implies !(
        #[trigger] a.drop_last()[k] is ToolUseComplete) by {
            assert(a.drop_last()[k] == a[k]);
        }
        lemma_none_whole(a.drop_last());
    }
}

proof fn lemma_whole(a: Seq<EventView>, b: Seq<EventView>)
    requires
        none_whole(a),
        forall|k: int| 0 <= k < b.len() ==> #[trigger] b[k] is ToolUseComplete,
    ensures
        whole_calls(a + b) == b,
    decreases b.len(),
{
    if b.len() > 0 {
        assert((a + b).drop_last() =~= a + b.drop_last());
        assert((a + b).last() == b.last());
        assert(b[b.len() - 1] is ToolUseComplete);
        assert forall|k: int| 0 <= k < b.drop_last().len() implies (
        #[trigger] b.drop_last()[k]) is ToolUseComplete by {
            assert(b.drop_last()[k] == b[k]);
        }
        lemma_whole(a, b.drop_last());
        assert(b.drop_last().push(b.last()) =~= b);
    } else {
        assert(a + b =~= a);
        lemma_none_whole(a);
        assert(b =~= Seq::empty());
    }
}

// ---- text, thinking and counts ----

/// The text that events hand on, in a row.
pub open spec fn told_text(evs: Seq<EventView>) -> Seq<char>
    decreases evs.len(),
{
    if evs.len() == 0 {
        Seq::empty()
    } else {
        told_text(evs.drop_last()) + (match evs.last() {
            EventView::TextDelta(t) => t,
            _ => Seq::empty(),
        })
    }
}

/// The thinking that events hand on, in a row.
pub open spec fn told_thinking(evs: Seq<EventView>) -> Seq<char>
    decreases evs.len(),
{
    if evs.len() == 0 {
        Seq::empty()
    } else {
        told_thinking(evs.drop_last()) + (match evs.last() {
            EventView::ThinkingDelta(t) => t,
            _ => Seq::empty(),
        })
    }
}

proof fn lemma_told_add(a: Seq<EventView>, b: Seq<EventView>)
    ensures
        told_text(a + b) == told_text(a) + told_text(b),
        told_thinking(a + b) == told_thinking(a) + told_thinking(b),
    decreases b.len(),
{
    if b.len() == 0 {
        assert(a + b =~= a);
        assert(told_text(a) + Seq::<char>::empty() =~= told_text(a));
        assert(told_thinking(a) + Seq::<char>::empty() =~= told_thinking(a));
    } else {
        lemma_told_add(a, b.drop_last());
        assert((a + b).drop_last() =~= a + b.drop_last());
        assert((a + b).last() == b.last());
        assert(told_text(a + b) =~= told_text(a) + told_text(b));
        assert(told_thinking(a + b) =~= told_thinking(a) + told_thinking(b));
    }
}

/// Whether none of these hands on text or thinking.
spec fn silent(evs: Seq<EventView>) -> bool {
    forall|k: int|
        0 <= k < evs.len() ==> !(#[trigger] evs[k] is TextDelta) && !(evs[k] is ThinkingDelta)
}

proof fn lemma_silent(evs: Seq<EventView>)
    requires
        silent(evs),
    ensures
        told_text(evs) == Seq::<char>::empty(),
        told_thinking(evs) == Seq::<char>::empty(),
    decreases evs.len(),
{
    if evs.len() > 0 {
        assert(!(evs[evs.len() - 1] is TextDelta) && !(evs[evs.len() - 1] is ThinkingDelta));
        assert forall|k: int| 0 <= k < evs.drop_last().len() implies !(
        #[trigger] evs.drop_last()[k] is TextDelta) && !(evs.drop_last()[k] is ThinkingDelta) by {
            assert(evs.drop_last()[k] == evs[k]);
        }
        lemma_silent(evs.drop_last());
        assert(Seq::<char>::empty() + Seq::<char>::empty() =~= Seq::<char>::empty());
    }
}

proof fn lemma_pieces_silent(r: ReplyView, tcs: Seq<JsonTree>)
    ensures
        silent(on_tool_calls(r, tcs).events),
    decreases tcs.len(),
{
    if tcs.len() > 0 {
        lemma_pieces_silent(r, tcs.drop_last());
    }
}

proof fn lemma_completed_silent(r: ReplyView)
    ensures
        silent(calls_completed(r).events),
    decreases r.calls.len(),
{
    if r.calls.len() > 0 {
        lemma_completed_silent(ReplyView { usage: r.usage, calls: r.calls.skip(1) });
    }
}

/// A text under a key, or nothing.
pub open spec fn text_under(t: JsonTree, key: Seq<char>) -> Seq<char> {
    match t.text_of(key) {
        Some(s) => s,
        None => Seq::empty(),
    }
}

/// A choice hands on its thinking and its text, whole and in this order, before anything of its
/// calls; a text that is missing or empty is not handed on.
pub proof fn law_choice_hands_on_its_text(r: ReplyView, c: ChoiceView)
    ensures
        ({
            let evs = on_choice(r, c).events;
            let thinking = text_under(c.delta, "reasoning_content"@);
            let text = text_under(c.delta, "content"@);
            let n: int = if thinking.len() > 0 {
                1
            } else {
                0
            };
            &&& told_text(evs) == text
            &&& told_thinking(evs) == thinking
            &&& thinking.len() > 0 ==> evs.len() > 0 && evs[0] == EventView::ThinkingDelta(thinking)
            &&& text.len() > 0 ==> evs.len() > n && evs[n] == EventView::TextDelta(text)
            &&& forall|k: int|
                0 <= k < evs.len() && #[trigger] evs[k] is TextDelta ==> k == n && text.len() > 0
        }),
{
    let evs = on_choice(r, c).events;
    let delta = c.delta;
    let texts = piece_events(delta);
    let calls = on_tool_calls(r, piece_calls(delta));
    let rest = if c.finish_reason is Some {
        calls.events + calls_completed(calls.reply).events
    } else {
        calls.events
    };
    lemma_pieces_silent(r, piece_calls(delta));
    lemma_completed_silent(calls.reply);
    assert(evs =~= texts + rest);
    assert(silent(rest));
    lemma_silent(rest);
    lemma_told_add(texts, rest);
    let thinking = text_under(delta, "reasoning_content"@);
    let text = text_under(delta, "content"@);
    reveal_with_fuel(told_text, 3);
    reveal_with_fuel(told_thinking, 3);
    if thinking.len() > 0 && text.len() > 0 {
        assert(texts =~= seq![EventView::ThinkingDelta(thinking), EventView::TextDelta(text)]);
        assert(texts.drop_last() =~= seq![EventView::ThinkingDelta(thinking)]);
        assert(texts.drop_last().drop_last() =~= Seq::empty());
    } else if thinking.len() > 0 {
        assert(texts =~= seq![EventView::ThinkingDelta(thinking)]);
        assert(texts.drop_last() =~= Seq::empty());
    } else if text.len() > 0 {
        assert(texts =~= seq![EventView::TextDelta(text)]);
        assert(texts.drop_last() =~= Seq::empty());
    } else {
        assert(texts =~= Seq::empty());
    }
    assert(told_text(texts) =~= text);
    assert(told_thinking(texts) =~= thinking);
    assert(told_text(evs) =~= text);
    assert(told_thinking(evs) =~= thinking);
    assert forall|k: int| 0 <= k < evs.len() && #[trigger] evs[k] is TextDelta implies k == (if thinking.len()
        > 0 {
        1int
    } else {
        0
    }) && text.len() > 0 by {
        if k >= texts.len() {
            assert(evs[k] == rest[k - texts.len()]);
        }
    }
}

/// The text that choices bring, in a row.
pub open spec fn text_of_choices(cs: Seq<ChoiceView>, key: Seq<char>) -> Seq<char>
    decreases cs.len(),
{
    if cs.len() == 0 {
        Seq::empty()
    } else {
        text_of_choices(cs.drop_last(), key) + text_under(cs.last().delta, key)
    }
}

/// The text that events bring, in a row.
pub open spec fn text_of_events(items: Seq<(Seq<char>, ChunkRead)>, key: Seq<char>) -> Seq<char>
    decreases items.len(),
{
    if items.len() == 0 {
        Seq::empty()
    } else {
        text_of_events(items.drop_last(), key) + (match items.last().1 {
            Ok(f) => text_of_choices(f.choices, key),
            Err(_) => Seq::empty(),
        })
    }
}

proof fn lemma_choices_told(r: ReplyView, cs: Seq<ChoiceView>)
    requires
        in_order(r.calls),
        forall|k: int| 0 <= k < cs.len() ==> (#[trigger] cs[k]).finish_reason is None,
    ensures
        told_text(on_choices(r, cs).events) == text_of_choices(cs, "content"@),
        told_thinking(on_choices(r, cs).events) == text_of_choices(cs, "reasoning_content"@),
    decreases cs.len(),
{
    if cs.len() > 0 {
        let front = cs.drop_last();
        assert forall|k: int| 0 <= k < front.len() implies (
        #[trigger] front[k]).finish_reason is None by {
            assert(front[k] == cs[k]);
        }
        lemma_choices_told(r, front);
        lemma_open_choices(r, front, 0);
        let before = on_choices(r, front);
        law_choice_hands_on_its_text(before.reply, cs.last());
        lemma_told_add(before.events, on_choice(before.reply, cs.last()).events);
    }
}

/// As long as a reply goes on, its text comes through whole, in order and unmixed with its thinking:
/// all that is handed on as text is what the chunks say, and all that is handed on as thinking is
/// what they think.
pub proof fn law_text_comes_through(items: Seq<(Seq<char>, ChunkRead)>)
    requires
        forall|k: int| 0 <= k < items.len() ==> goes_on(#[trigger] items[k]),
    ensures
        ({
            let evs = on_reads(fresh_reply(), items).events;
            &&& told_text(evs) == text_of_events(items, "content"@)
            &&& told_thinking(evs) == text_of_events(items, "reasoning_content"@)
        }),
    decreases items.len(),
{
    if items.len() > 0 {
        let front = items.drop_last();
        assert forall|k: int| 0 <= k < front.len() implies goes_on(#[trigger] front[k]) by {
            assert(front[k] == items[k]);
        }
        law_text_comes_through(front);
        lemma_goes_on(front, 0);
        assert(goes_on(items[items.len() - 1]));
        let before = on_reads(fresh_reply(), front);
        let f = items.last().1->Ok_0;
        let r = with_usage(before.reply, f);
        lemma_choices_told(r, f.choices);
        lemma_told_add(before.events, on_choices(r, f.choices).events);
    }
}

proof fn lemma_choices_keep_usage(r: ReplyView, cs: Seq<ChoiceView>)
    requires
        in_order(r.calls),
    ensures
        on_choices(r, cs).reply.usage == r.usage,
        in_order(on_choices(r, cs).reply.calls),
    decreases cs.len(),
{
    if cs.len() > 0 {
        lemma_choices_keep_usage(r, cs.drop_last());
        let before = on_choices(r, cs.drop_last());
        lemma_pieces(before.reply, piece_calls(cs.last().delta), 0);
        let calls = on_tool_calls(before.reply, piece_calls(cs.last().delta)).reply;
        lemma_completed(calls);
        lemma_completed_in_order(calls);
    }
}

proof fn lemma_completed_in_order(r: ReplyView)
    requires
        in_order(r.calls),
    ensures
        in_order(calls_completed(r).reply.calls),
    decreases r.calls.len(),
{
    if r.calls.len() > 0 {
        let after = ReplyView { usage: r.usage, calls: r.calls.skip(1) };
        assert(in_order(after.calls));
        lemma_completed_in_order(after);
    }
}

/// A chunk that counts tokens sets all four counts, each to its own number; what the cache had is
/// taken from the first place where it is told and not zero. A chunk that counts none leaves the
/// counts, and one that tells an error fails with it and changes nothing.
pub proof fn law_chunk_counts(r: ReplyView, f: ChunkView)
    requires
        in_order(r.calls),
    ensures
        ({
            let d = on_chunk(r, f);
            let u = d.reply.usage;
            &&& f.error is None && f.usage is None ==> u == r.usage
            &&& f.error is None && f.usage is Some ==> {
                let c = f.usage->0;
                &&& u.input_tokens == c.prompt_tokens
                &&& u.output_tokens == c.completion_tokens
                &&& u.cache_miss_tokens == c.prompt_cache_miss_tokens
                &&& c.prompt_cache_hit_tokens > 0 ==> u.cache_hit_tokens
                    == c.prompt_cache_hit_tokens
                &&& c.prompt_cache_hit_tokens == 0 && c.prompt_tokens_details is Some
                    ==> u.cache_hit_tokens == c.prompt_tokens_details->0.cached_tokens
                &&& c.prompt_cache_hit_tokens == 0 && c.prompt_tokens_details is None
                    ==> u.cache_hit_tokens == 0
            }
            &&& f.error is Some ==> {
                &&& d.error is Some
                &&& d.events.len() == 0
                &&& d.reply == r
                &&& f.error->0.text_of("message"@) matches Some(m) ==> d.error == Some(m)
            }
        }),
{
    lemma_choices_keep_usage(with_usage(r, f), f.choices);
}

/// The word that ends a reply ends it, whatever it would read as; an event without data is passed
/// over; one whose data cannot be read fails with the reason and the data. None of them changes
/// what is known of the reply.
pub proof fn law_end_of_a_reply(r: ReplyView, data: Seq<char>, read: ChunkRead, why: Seq<char>)
    ensures
        ({
            let end = on_data(r, "[DONE]"@, read);
            &&& end.done
            &&& end.error is None
            &&& end.events.len() == 0
            &&& end.reply == r
        }),
        ({
            let nothing = on_data(r, Seq::empty(), read);
            &&& !nothing.over()
            &&& nothing.events.len() == 0
            &&& nothing.reply == r
        }),
        data.len() > 0 && data != "[DONE]"@ ==> {
            let bad = on_data(r, data, Err(why));
            &&& bad.error == Some("无法解析 SSE 数据: "@ + why + ": "@ + data)
            &&& bad.events.len() == 0
            &&& bad.reply == r
        },
        data.len() > 0 ==> {
            let bad = on_frame_data(r, data, Err(why));
            &&& bad.error == Some("无法解析 SSE 数据: "@ + why + ": "@ + data)
            &&& bad.events.len() == 0
            &&& bad.reply == r
        },
{
    reveal_strlit("[DONE]");
}

/// A piece of a call is handed on as it comes: a piece with an id starts a call, by that id and the
/// name it gives; and arguments that are not empty are handed on under the id of the call that has
/// the index of the piece, where there is one.
pub proof fn law_pieces_are_handed_on(tcs: Seq<JsonTree>, tc: JsonTree, i: u64)
    requires
        carries(tc, i),
    ensures
        ({
            let before = on_tool_calls(fresh_reply(), tcs).events;
            let after = on_tool_calls(fresh_reply(), tcs.push(tc)).events;
            let start = match tc.text_of("id"@) {
                Some(id) => seq![
                    EventView::ToolUseStart {
                        id,
                        name: match piece_name(tc) {
                            Some(n) => n,
                            None => ""@,
                        },
                    },
                ],
                None => Seq::empty(),
            };
            let delta = match call_made(tcs.push(tc), i) {
                Some(a) => if piece_arguments(tc).len() > 0 {
                    seq![EventView::ToolUseDelta { id: a.id, partial_json: piece_arguments(tc) }]
                } else {
                    Seq::empty()
                },
                None => Seq::empty(),
            };
            after == before + (start + delta)
        }),
{
    assert(tcs.push(tc).drop_last() =~= tcs);
    let r = on_tool_calls(fresh_reply(), tcs).reply;
    lemma_pieces(fresh_reply(), tcs, i);
    lemma_piece(r, tc, i);
    lemma_piece_events(r, tc, i);
}

proof fn lemma_piece_events(r: ReplyView, tc: JsonTree, i: u64)
    requires
        in_order(r.calls),
        carries(tc, i),
    ensures
        ({
            let start = match tc.text_of("id"@) {
                Some(id) => seq![
                    EventView::ToolUseStart {
                        id,
                        name: match piece_name(tc) {
                            Some(n) => n,
                            None => ""@,
                        },
                    },
                ],
                None => Seq::empty(),
            };
            let delta = match after_piece(lookup(r.calls, i), tc, i) {
                Some(a) => if piece_arguments(tc).len() > 0 {
                    seq![EventView::ToolUseDelta { id: a.id, partial_json: piece_arguments(tc) }]
                } else {
                    Seq::empty()
                },
                None => Seq::empty(),
            };
            on_tool_call(r, tc).events == start + delta
        }),
{
    let started = crate::provider::openai_compat::call_started(r, tc);
    let t1 = started.reply.calls;
    if tc.text_of("id"@) is Some && !has_call(r.calls, i) {
        let a = AccView {
            id: tc.text_of("id"@)->0,
            name: crate::provider::openai_compat::function_name(tc),
            json: Seq::empty(),
        };
        law_table(r.calls, i, a, i);
    }
    if has_call(t1, i) && piece_name(tc) is Some {
        let c = call_at(t1, i);
        law_table(t1, i, AccView { id: c.id, name: piece_name(tc)->0, json: c.json }, i);
    }
}

// ---- blocks, by index ----

/// Whether a frame speaks of the block with this index; a frame without an index speaks of zero.
pub open spec fn speaks_of(f: FrameView, i: u64) -> bool {
    match f.index {
        Some(n) => n == i,
        None => i == 0,
    }
}

/// The call that a frame starts under index `i`, where it does.
pub open spec fn call_begun(f: FrameView, i: u64) -> Option<AccView> {
    if f.kind == "content_block_start"@ && speaks_of(f, i) && f.content_block is Some
        && f.content_block->0.text_of("type"@) == Some("tool_use"@) {
        Some(
            AccView {
                id: text_under(f.content_block->0, "id"@),
                name: text_under(f.content_block->0, "name"@),
                json: Seq::empty(),
            },
        )
    } else {
        None
    }
}

/// The arguments that a frame gives under index `i`.
pub open spec fn arguments_given(f: FrameView, i: u64) -> Seq<char> {
    if f.kind == "content_block_delta"@ && speaks_of(f, i) && f.delta is Some
        && f.delta->0.text_of("type"@) == Some("input_json_delta"@) {
        text_under(f.delta->0, "partial_json"@)
    } else {
        Seq::empty()
    }
}

/// Whether a frame ends the block with index `i`.
pub open spec fn ends_block(f: FrameView, i: u64) -> bool {
    f.kind == "content_block_stop"@ && speaks_of(f, i)
}

/// The call under index `i` after one more frame.
pub open spec fn after_frame(a: Option<AccView>, f: FrameView, i: u64) -> Option<AccView> {
    if call_begun(f, i) is Some {
        call_begun(f, i)
    } else if ends_block(f, i) {
        None
    } else {
        match a {
            Some(c) => Some(
                AccView { id: c.id, name: c.name, json: c.json + arguments_given(f, i) },
            ),
            None => None,
        }
    }
}

proof fn lemma_kinds_differ()
    ensures
        "content_block_start"@ != "content_block_delta"@,
        "content_block_start"@ != "content_block_stop"@,
        "content_block_start"@ != "message_start"@,
        "content_block_delta"@ != "content_block_stop"@,
        "content_block_delta"@ != "message_start"@,
        "content_block_stop"@ != "message_start"@,
        "content_block_start"@ != "message_delta"@,
        "content_block_delta"@ != "message_delta"@,
        "content_block_stop"@ != "message_delta"@,
        "message_start"@ != "message_delta"@,
        "error"@ != "message_start"@,
        "error"@ != "message_delta"@,
        "error"@ != "content_block_start"@,
        "error"@ != "content_block_delta"@,
        "error"@ != "content_block_stop"@,
        "text_delta"@ != "thinking_delta"@,
        "text_delta"@ != "input_json_delta"@,
        "thinking_delta"@ != "input_json_delta"@,
        ""@ == Seq::<char>::empty(),
        "tool_use"@.len() > 0,
        "text_delta"@.len() > 0,
        "thinking_delta"@.len() > 0,
        "input_json_delta"@.len() > 0,
{
    reveal_strlit("content_block_start");
    reveal_strlit("content_block_delta");
    reveal_strlit("content_block_stop");
    reveal_strlit("message_start");
    reveal_strlit("message_delta");
    reveal_strlit("error");
    reveal_strlit("text_delta");
    reveal_strlit("thinking_delta");
    reveal_strlit("input_json_delta");
    reveal_strlit("tool_use");
    reveal_strlit("");
    assert("content_block_start"@.len() == 19 && "content_block_delta"@.len() == 19);
    assert("content_block_stop"@.len() == 18 && "error"@.len() == 5);
    assert("message_start"@.len() == 13 && "message_delta"@.len() == 13);
    assert("text_delta"@.len() == 10 && "thinking_delta"@.len() == 14);
    assert("input_json_delta"@.len() == 16);
    assert("content_block_start"@[14] != "content_block_delta"@[14]);
    assert("message_start"@[8] != "message_delta"@[8]);
    assert(""@ =~= Seq::<char>::empty());
}

proof fn lemma_frame(r: ReplyView, f: FrameView, i: u64)
    requires
        in_order(r.calls),
    ensures
        in_order(on_frame(r, f).reply.calls),
        lookup(on_frame(r, f).reply.calls, i) == after_frame(lookup(r.calls, i), f, i),
{
    lemma_kinds_differ();
    let idx = crate::provider::anthropic::frame_index(f);
    assert(speaks_of(f, i) == (idx == i));
    if let Some(a) = lookup(r.calls, i) {
        assert(a.json + Seq::<char>::empty() =~= a.json);
    }
    if f.kind == "content_block_start"@ {
        if let Some(cb) = f.content_block {
            let a = AccView {
                id: text_under(cb, "id"@),
                name: text_under(cb, "name"@),
                json: Seq::empty(),
            };
            law_table(r.calls, idx, a, i);
            law_table(r.calls, idx, a, idx);
        }
    } else if f.kind == "content_block_delta"@ {
        if let Some(d) = f.delta {
            if has_call(r.calls, idx) {
                let c = call_at(r.calls, idx);
                let p = text_under(d, "partial_json"@);
                let a = AccView { id: c.id, name: c.name, json: c.json + p };
                law_table(r.calls, idx, a, i);
                law_table(r.calls, idx, a, idx);
                assert(c.json + Seq::<char>::empty() =~= c.json);
            }
        }
    } else if f.kind == "content_block_stop"@ {
        let a = AccView { id: Seq::empty(), name: Seq::empty(), json: Seq::empty() };
        law_table(r.calls, idx, a, i);
        law_table(r.calls, idx, a, idx);
    }
}

/// A frame changes the call of the block that it speaks of and no other: every call under another
/// index is there afterwards exactly as it was before.
pub proof fn law_frame_changes_its_call_only(r: ReplyView, f: FrameView, j: u64, a: AccView)
    requires
        in_order(r.calls),
    ensures
        ({
            let before = r.calls;
            let after = on_frame(r, f).reply.calls;
            let other = match f.index {
                Some(n) => n != j,
                None => j != 0,
            };
            &&& in_order(after)
            &&& other ==> after.contains((j, a)) == before.contains((j, a))
            &&& !other && f.kind == "content_block_stop"@ ==> !after.contains((j, a))
        }),
{
    lemma_kinds_differ();
    lemma_frame(r, f, j);
    let after = on_frame(r, f).reply.calls;
    lemma_lookup(r.calls, j, a);
    lemma_lookup(after, j, a);
    if lookup(r.calls, j) is Some {
        let c = lookup(r.calls, j)->0;
        assert(c.json + Seq::<char>::empty() =~= c.json);
    }
}

/// Whether an event carries a frame that was read and that neither starts nor ends a call under
/// index `i`.
pub open spec fn between(x: (Seq<char>, FrameRead), i: u64) -> bool {
    &&& x.0.len() > 0
    &&& x.1 is Ok
    &&& call_begun(x.1->Ok_0, i) is None
    &&& !ends_block(x.1->Ok_0, i)
}

/// The arguments that events give under index `i`, in a row.
pub open spec fn arguments_between(items: Seq<(Seq<char>, FrameRead)>, i: u64) -> Seq<char>
    decreases items.len(),
{
    if items.len() == 0 {
        Seq::empty()
    } else {
        arguments_between(items.drop_last(), i) + (match items.last().1 {
            Ok(f) => arguments_given(f, i),
            Err(_) => Seq::empty(),
        })
    }
}

proof fn lemma_between(
    r: ReplyView,
    start: (Seq<char>, FrameRead),
    mid: Seq<(Seq<char>, FrameRead)>,
    i: u64,
)
    requires
        in_order(r.calls),
        start.0.len() > 0,
        start.1 is Ok,
        call_begun(start.1->Ok_0, i) is Some,
        forall|k: int| 0 <= k < mid.len() ==> between(#[trigger] mid[k], i),
        !on_frames(r, seq![start] + mid).over(),
    ensures
        ({
            let t = on_frames(r, seq![start] + mid).reply.calls;
            let a = call_begun(start.1->Ok_0, i)->0;
            &&& in_order(t)
            &&& lookup(t, i) == Some(
                AccView { id: a.id, name: a.name, json: arguments_between(mid, i) },
            )
        }),
    decreases mid.len(),
{
    let all = seq![start] + mid;
    if mid.len() == 0 {
        assert(all =~= seq![start]);
        assert(all.drop_last() =~= Seq::empty());
        reveal_with_fuel(on_frames, 2);
        lemma_frame(r, start.1->Ok_0, i);
    } else {
        let front = mid.drop_last();
        assert(all.drop_last() =~= seq![start] + front);
        assert(all.last() == mid.last());
        assert forall|k: int| 0 <= k < front.len() implies between(#[trigger] front[k], i) by {
            assert(front[k] == mid[k]);
        }
        lemma_between(r, start, front, i);
        assert(between(mid[mid.len() - 1], i));
        let before = on_frames(r, seq![start] + front);
        lemma_frame(before.reply, mid.last().1->Ok_0, i);
    }
}

/// A call is handed on when its block ends, and only it: with the id and the name that its block
/// started with, and with what exactly the arguments given under its index since then read as, in
/// a row, whatever frames of other blocks come between. Arguments that cannot be read fail with
/// the reason.
pub proof fn law_block_comes_whole(
    r: ReplyView,
    start: (Seq<char>, FrameRead),
    mid: Seq<(Seq<char>, FrameRead)>,
    stop: (Seq<char>, FrameRead),
    i: u64,
)
    requires
        in_order(r.calls),
        start.0.len() > 0,
        start.1 is Ok,
        call_begun(start.1->Ok_0, i) is Some,
        forall|k: int| 0 <= k < mid.len() ==> between(#[trigger] mid[k], i),
        stop.0.len() > 0,
        stop.1 is Ok,
        ends_block(stop.1->Ok_0, i),
        !on_frames(r, seq![start] + mid).over(),
    ensures
        ({
            let before = on_frames(r, seq![start] + mid);
            let d = on_frames(r, (seq![start] + mid).push(stop));
            let a = call_begun(start.1->Ok_0, i)->0;
            match arguments_read(arguments_between(mid, i)) {
                Ok(input) => {
                    &&& d.events == before.events.push(
                        EventView::ToolUseComplete { id: a.id, name: a.name, input },
                    )
                    &&& !d.over()
                },
                Err(e) => {
                    &&& d.events == before.events
                    &&& d.error == Some("tool_use JSON 不完整: "@ + e)
                },
            }
        }),
{
    lemma_kinds_differ();
    lemma_between(r, start, mid, i);
    let all = seq![start] + mid;
    let before = on_frames(r, all);
    assert(all.push(stop).drop_last() =~= all);
    lemma_arguments_read(arguments_between(mid, i));
    let d = on_frames(r, all.push(stop));
    let f = stop.1->Ok_0;
    assert(crate::provider::anthropic::frame_index(f) == i);
    let a = call_begun(start.1->Ok_0, i)->0;
    if let Ok(input) = arguments_read(arguments_between(mid, i)) {
        let e = EventView::ToolUseComplete { id: a.id, name: a.name, input };
        assert(before.events + seq![e] =~= before.events.push(e));
    } else {
        assert(before.events + Seq::<EventView>::empty() =~= before.events);
    }
}

/// A frame that brings text hands on that text, one that brings thinking hands on that thinking,
/// one that starts a call hands on its id and name, and one that brings arguments of a call that is
/// there hands these on under its id. The counts of tokens are those that the frames give, and stay
/// where they give none. A frame that tells an error fails with its message.
pub proof fn law_frames_are_handed_on(r: ReplyView, f: FrameView, t: Seq<char>, i: u64)
    requires
        in_order(r.calls),
        speaks_of(f, i),
    ensures
        ({
            let d = on_frame(r, f);
            let u = d.reply.usage;
            let brings = |kind: Seq<char>, key: Seq<char>|
                f.kind == "content_block_delta"@ && f.delta is Some && f.delta->0.text_of("type"@)
                    == Some(kind) && f.delta->0.text_of(key) == Some(t);
            &&& brings("text_delta"@, "text"@) ==> d == went_on(r, seq![EventView::TextDelta(t)])
            &&& brings("thinking_delta"@, "thinking"@) ==> d == went_on(
                r,
                seq![EventView::ThinkingDelta(t)],
            )
            &&& brings("input_json_delta"@, "partial_json"@) ==> !d.over() && (forall|
                a: AccView,
            | #[trigger]
                r.calls.contains((i, a)) ==> d.events == seq![
                    EventView::ToolUseDelta { id: a.id, partial_json: t },
                ])
            &&& call_begun(f, i) is Some ==> !d.over() && d.events == seq![
                EventView::ToolUseStart { id: call_begun(f, i)->0.id, name: call_begun(f, i)->0.name },
            ]
            &&& f.kind == "message_start"@ && f.message is Some && f.message->0.get(
                "usage"@,
            ) is Some ==> {
                let c = f.message->0.get("usage"@)->0;
                &&& u.input_tokens == (match c.unsigned_of("input_tokens"@) {
                    Some(n) => n,
                    None => r.usage.input_tokens,
                })
                &&& u.cache_hit_tokens == (match c.unsigned_of("cache_read_input_tokens"@) {
                    Some(n) => n,
                    None => r.usage.cache_hit_tokens,
                })
                &&& u.output_tokens == r.usage.output_tokens
                &&& u.cache_miss_tokens == r.usage.cache_miss_tokens
            }
            &&& f.kind == "message_delta"@ && f.usage is Some ==> {
                &&& u.output_tokens == (match f.usage->0.unsigned_of("output_tokens"@) {
                    Some(n) => n,
                    None => r.usage.output_tokens,
                })
                &&& u.input_tokens == r.usage.input_tokens
                &&& u.cache_hit_tokens == r.usage.cache_hit_tokens
                &&& u.cache_miss_tokens == r.usage.cache_miss_tokens
            }
            &&& f.kind != "message_start"@ && f.kind != "message_delta"@ ==> u == r.usage
            &&& f.kind == "error"@ ==> d.error == Some(
                if f.error is Some && f.error->0.text_of("message"@) is Some {
                    f.error->0.text_of("message"@)->0
                } else {
                    "未知 provider 错误"@
                },
            ) && d.events.len() == 0
            &&& f.kind != "error"@ && f.kind != "content_block_stop"@ ==> !d.over()
            &&& f.kind != "content_block_start"@ && f.kind != "content_block_delta"@ && f.kind
                != "content_block_stop"@ ==> d.events.len() == 0
        }),
{
    lemma_kinds_differ();
    assert(crate::provider::anthropic::frame_index(f) == i);
    assert forall|a: AccView| #[trigger] r.calls.contains((i, a)) implies has_call(r.calls, i)
        && call_at(r.calls, i) == a by {
        lemma_lookup(r.calls, i, a);
    }
}

} // verus!
