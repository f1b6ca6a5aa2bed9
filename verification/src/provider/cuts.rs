//! However a stream is cut, it says the same.
//!
//! A stream arrives in pieces that end anywhere, within a line or within a character. What is not
//! complete at the end of a piece is kept and read again with the next. The laws here say that each
//! event is then read exactly once, whatever the pieces are.
use vstd::prelude::*;
use vstd::utf8::{
    decode_utf8_encode_utf8, encode_scalar, encode_utf8, encode_utf8_decode_utf8,
    encode_utf8_first_scalar, length_of_first_scalar, pop_first_scalar, valid_first_scalar, valid_utf8,
};
use crate::json::JsonTree;
use crate::provider::anthropic;
use crate::provider::anthropic::FrameRead;
use crate::provider::bytes::{
    lemma_valid_len, lemma_valid_len_is, unread, valid_len, valid_tail, valid_text,
};
use crate::provider::openai_compat;
use crate::provider::openai_compat::{ChoiceView, ChunkRead};
use crate::provider::sse::{
    block_data, block_event, blocks, event_of, events_of, full_lines, last_piece, line_data,
    parsed_events, remainder, written, written_all, Blocks, SseEvent,
};
use crate::provider::stream::{went_on, Decoded, ReplyView};
use crate::provider::EventView;
use crate::text::{
    join, lemma_replace_empty, lemma_returns_push, lemma_split_add, lemma_split_nonempty,
    lemma_split_pieces, lemma_split_push, lemma_split_whole, replace_all, split, strip_last,
    trim_start,
};

verus! {

// ---- blocks ----

/// The blocks after more lines.
pub open spec fn blocks_after(b: Blocks, ls: Seq<Seq<char>>) -> Blocks
    decreases ls.len(),
{
    if ls.len() == 0 {
        b
    } else {
        blocks_after(b, ls.drop_last()).line(ls.last())
    }
}

proof fn lemma_blocks_add(x: Seq<Seq<char>>, y: Seq<Seq<char>>)
    ensures
        blocks(x + y) == blocks_after(blocks(x), y),
    decreases y.len(),
{
    if y.len() == 0 {
        assert(x + y =~= x);
    } else {
        lemma_blocks_add(x, y.drop_last());
        assert((x + y).drop_last() =~= x + y.drop_last());
        assert((x + y).last() == y.last());
    }
}

/// What was closed before stays, and has no part in what follows.
proof fn lemma_blocks_shift(c: Seq<Seq<Seq<char>>>, o: Seq<Seq<char>>, ls: Seq<Seq<char>>)
    ensures
        ({
            let x = blocks_after(Blocks { closed: Seq::empty(), open: o }, ls);
            let y = blocks_after(Blocks { closed: c, open: o }, ls);
            &&& y.closed == c + x.closed
            &&& y.open == x.open
        }),
    decreases ls.len(),
{
    if ls.len() > 0 {
        lemma_blocks_shift(c, o, ls.drop_last());
        let x = blocks_after(Blocks { closed: Seq::empty(), open: o }, ls.drop_last());
        assert((c + x.closed).push(x.open) =~= c + x.closed.push(x.open));
    } else {
        assert(c + Seq::<Seq<Seq<char>>>::empty() =~= c);
    }
}

/// An open block has no blank lines, and its lines are lines of the stream.
proof fn lemma_open_lines(ls: Seq<Seq<char>>)
    ensures
        forall|i: int|
            0 <= i < blocks(ls).open.len() ==> (#[trigger] blocks(ls).open[i]).len() > 0 && ls.contains(
                blocks(ls).open[i],
            ),
    decreases ls.len(),
{
    if ls.len() > 0 {
        let t = ls.drop_last();
        lemma_open_lines(t);
        let o = blocks(ls).open;
        assert forall|i: int| 0 <= i < o.len() implies (#[trigger] o[i]).len() > 0 && ls.contains(
            o[i],
        ) by {
            if i < blocks(t).open.len() {
                assert(o[i] == blocks(t).open[i]);
                let k = t.index_of(o[i]);
                assert(ls[k] == o[i]);
            } else {
                assert(ls[ls.len() - 1] == o[i]);
            }
        }
    }
}

/// Lines that are not blank stay open.
proof fn lemma_nothing_closed(ls: Seq<Seq<char>>)
    requires
        forall|i: int| 0 <= i < ls.len() ==> (#[trigger] ls[i]).len() > 0,
    ensures
        blocks(ls) == (Blocks { closed: Seq::empty(), open: ls }),
    decreases ls.len(),
{
    if ls.len() > 0 {
        let t = ls.drop_last();
        assert forall|i: int| 0 <= i < t.len() implies (#[trigger] t[i]).len() > 0 by {
            assert(t[i] == ls[i]);
        }
        lemma_nothing_closed(t);
        assert(ls[ls.len() - 1].len() > 0);
        assert(t.push(ls.last()) =~= ls);
    }
}

/// The events of blocks and of more blocks behind them.
proof fn lemma_events_add(x: Seq<Seq<Seq<char>>>, y: Seq<Seq<Seq<char>>>)
    ensures
        events_of(x + y) == events_of(x) + events_of(y),
    decreases y.len(),
{
    if y.len() == 0 {
        assert(x + y =~= x);
        assert(events_of(x) + Seq::<SseEvent>::empty() =~= events_of(x));
    } else {
        lemma_events_add(x, y.drop_last());
        assert((x + y).drop_last() =~= x + y.drop_last());
        assert((x + y).last() == y.last());
        match event_of(y.last()) {
            Some(e) => {
                assert((events_of(x) + events_of(y.drop_last())).push(e) =~= events_of(x) + events_of(
                    y.drop_last(),
                ).push(e));
            },
            None => {},
        }
    }
}

// ---- one cut ----

/// A line as it is written, without its newline.
spec fn unended(l: Seq<char>) -> Seq<char> {
    written(l).drop_last()
}

/// Lines that were written are read again as the same lines.
proof fn lemma_written_again(ls: Seq<Seq<char>>)
    requires
        forall|i: int| 0 <= i < ls.len() ==> !(#[trigger] ls[i]).contains('\n'),
    ensures
        split(written_all(ls), '\n').len() == ls.len() + 1,
        split(written_all(ls), '\n').last() == Seq::<char>::empty(),
        forall|i: int|
            0 <= i < ls.len() ==> strip_last(#[trigger] split(written_all(ls), '\n')[i], '\r') == ls[i],
    decreases ls.len(),
{
    if ls.len() == 0 {
        assert(split(written_all(ls), '\n') =~= seq![Seq::<char>::empty()]);
    } else {
        let front = ls.drop_last();
        let l = ls.last();
        assert(ls[ls.len() - 1] == l);
        assert forall|i: int| 0 <= i < front.len() implies !(#[trigger] front[i]).contains('\n') by {
            assert(front[i] == ls[i]);
        }
        lemma_written_again(front);
        let a = written_all(front);
        let u = unended(l);
        assert(!u.contains('\n')) by {
            if u.contains('\n') {
                let k = u.index_of('\n');
                assert(u[k] == '\n');
                assert(l[k] == '\n');
                assert(l.contains('\n'));
            }
        }
        assert(u.push('\n') =~= written(l));
        assert((a + u).push('\n') =~= written_all(ls));
        lemma_split_whole(u, '\n');
        lemma_split_add(a, u, '\n');
        lemma_split_push(a + u, '\n', '\n');
        let p = split(a, '\n');
        assert(Seq::<char>::empty() + u =~= u);
        assert(split(u, '\n').drop_first() =~= Seq::empty());
        assert(split(a + u, '\n') =~= p.drop_last().push(u));
        let q = split(written_all(ls), '\n');
        assert(q =~= p.drop_last().push(u).push(Seq::empty()));
        assert(strip_last(u, '\r') =~= l);
        assert forall|i: int| 0 <= i < ls.len() implies strip_last(#[trigger] q[i], '\r') == ls[i] by {
            if i < front.len() {
                assert(q[i] == p[i]);
                assert(front[i] == ls[i]);
            } else {
                assert(q[i] == u);
            }
        }
    }
}

/// The lines of two texts put together: those that end in the first, then those that end in the
/// second, the first of which begins with what the first text left open.
proof fn lemma_lines_add(a: Seq<char>, b: Seq<char>)
    ensures
        full_lines(a + b) == full_lines(a) + full_lines(last_piece(a) + b),
        last_piece(a + b) == last_piece(last_piece(a) + b),
{
    lemma_split_add(a, b, '\n');
    lemma_split_nonempty(a, '\n');
    lemma_split_nonempty(b, '\n');
    lemma_split_pieces(a, '\n');
    let p = split(a, '\n');
    let q = split(b, '\n');
    let l = p.last();
    assert(!p[p.len() - 1].contains('\n'));
    lemma_split_whole(l, '\n');
    lemma_split_add(l, b, '\n');
    assert(split(l, '\n').drop_last() =~= Seq::empty());
    let z = split(l + b, '\n');
    assert(z =~= seq![l + q[0]] + q.drop_first());
    let w = split(a + b, '\n');
    assert(w =~= p.drop_last() + z);
    assert(full_lines(a + b) =~= full_lines(a) + full_lines(l + b));
    assert(w.last() == z.last());
}

/// What is left of a text, read again with what follows, goes on where the text ended: each event is
/// read once, and what is left over in the end is the same.
pub proof fn law_remainder_is_read_again(a: Seq<char>, b: Seq<char>)
    ensures
        parsed_events(a + b) == parsed_events(a) + parsed_events(remainder(a) + b),
        remainder(a + b) == remainder(remainder(a) + b),
{
    let p = last_piece(a);
    let o = blocks(full_lines(a)).open;
    let c = blocks(full_lines(a)).closed;
    let none = Seq::<Seq<Seq<char>>>::empty();
    let more = full_lines(p + b);
    let r = remainder(a);
    let w = written_all(o);
    lemma_lines_add(a, b);
    lemma_open_lines(full_lines(a));
    lemma_split_pieces(a, '\n');
    lemma_split_nonempty(a, '\n');
    assert forall|i: int| 0 <= i < o.len() implies !(#[trigger] o[i]).contains('\n') by {
        let k = full_lines(a).index_of(o[i]);
        let q = split(a, '\n')[k];
        assert(full_lines(a)[k] == strip_last(q, '\r'));
        assert(!q.contains('\n'));
        if o[i].contains('\n') {
            let j = o[i].index_of('\n');
            assert(q[j] == '\n');
        }
    }
    lemma_written_again(o);
    assert(full_lines(w) =~= o);
    assert(last_piece(w) == Seq::<char>::empty());
    lemma_lines_add(w, p + b);
    assert(r + b =~= w + (p + b));
    assert(Seq::<char>::empty() + (p + b) =~= p + b);
    assert(full_lines(r + b) == o + more);
    lemma_blocks_add(full_lines(a), more);
    lemma_blocks_shift(c, o, more);
    lemma_blocks_add(o, more);
    lemma_nothing_closed(o);
    let x = blocks_after(Blocks { closed: none, open: o }, more);
    assert(blocks(full_lines(r + b)) == x);
    assert(blocks(full_lines(a + b)).closed == c + x.closed);
    lemma_events_add(c, x.closed);
}

proof fn lemma_written_add(x: Seq<Seq<char>>, y: Seq<Seq<char>>)
    ensures
        written_all(x + y) == written_all(x) + written_all(y),
    decreases y.len(),
{
    if y.len() == 0 {
        assert(x + y =~= x);
        assert(written_all(x) + written_all(y) =~= written_all(x));
    } else {
        lemma_written_add(x, y.drop_last());
        assert((x + y).drop_last() =~= x + y.drop_last());
        assert((x + y).last() == y.last());
        assert(written_all(x) + written_all(y.drop_last()) + written(y.last()) =~= written_all(x) + (
        written_all(y.drop_last()) + written(y.last())));
    }
}

/// The open block is the end of the lines.
proof fn lemma_open_is_the_end(ls: Seq<Seq<char>>)
    ensures
        blocks(ls).open.len() <= ls.len(),
        blocks(ls).open == ls.skip(ls.len() - blocks(ls).open.len()),
    decreases ls.len(),
{
    if ls.len() > 0 {
        let t = ls.drop_last();
        lemma_open_is_the_end(t);
        assert(blocks(ls).open =~= ls.skip(ls.len() - blocks(ls).open.len()));
    } else {
        assert(blocks(ls).open =~= ls.skip(0));
    }
}

/// A text without carriage returns is its lines with their ends, and what stands behind them.
proof fn lemma_text_is_its_lines(s: Seq<char>)
    requires
        !s.contains('\r'),
    ensures
        written_all(full_lines(s)) + last_piece(s) == s,
        !last_piece(s).contains('\r'),
    decreases s.len(),
{
    if s.len() == 0 {
        assert(split(s, '\n') =~= seq![Seq::<char>::empty()]);
        assert(full_lines(s) =~= Seq::empty());
        assert(written_all(full_lines(s)) + last_piece(s) =~= s);
    } else {
        let t = s.drop_last();
        let x = s.last();
        assert(s[s.len() - 1] == x);
        assert(!t.contains('\r')) by {
            if t.contains('\r') {
                let k = t.index_of('\r');
                assert(s[k] == '\r');
            }
        }
        lemma_text_is_its_lines(t);
        assert(t.push(x) =~= s);
        lemma_split_push(t, x, '\n');
        let p = last_piece(t);
        if x == '\n' {
            assert(strip_last(p, '\r') == p) by {
                if p.len() > 0 && p.last() == '\r' {
                    assert(p[p.len() - 1] == '\r');
                }
            }
            assert(full_lines(s) =~= full_lines(t).push(p));
            assert(full_lines(s).drop_last() =~= full_lines(t));
            if p.len() > 0 && p.last() == '\r' {
                assert(p[p.len() - 1] == '\r');
            }
            assert(written_all(full_lines(s)) + last_piece(s) =~= s);
        } else {
            assert(full_lines(s) =~= full_lines(t));
            assert(last_piece(s) == p.push(x));
            if last_piece(s).contains('\r') {
                let k = last_piece(s).index_of('\r');
                if k < p.len() {
                    assert(p[k] == '\r');
                }
            }
            assert(written_all(full_lines(s)) + last_piece(s) =~= s);
        }
    }
}

/// What is left of a text whose lines end in newlines alone is the end of that text, as it came.
pub proof fn law_remainder_is_the_end_of_the_text(s: Seq<char>)
    requires
        !s.contains('\r'),
    ensures
        remainder(s).is_suffix_of(s),
{
    let ls = full_lines(s);
    let o = blocks(ls).open;
    lemma_text_is_its_lines(s);
    lemma_open_is_the_end(ls);
    let x = ls.take(ls.len() - o.len());
    assert(ls =~= x + o);
    lemma_written_add(x, o);
    let r = remainder(s);
    assert(s =~= written_all(x) + r);
    assert(s.subrange(s.len() - r.len(), s.len() as int) =~= r);
}

/// How its lines end makes no difference to a stream: with a carriage return before each newline it
/// has the same events, and leaves the same over.
pub proof fn law_line_ends_make_no_difference(s: Seq<char>)
    requires
        !s.contains('\r'),
    ensures
        parsed_events(replace_all(s, "\n"@, "\r\n"@)) == parsed_events(s),
        remainder(replace_all(s, "\n"@, "\r\n"@)) == remainder(s),
{
    lemma_returns_split(s);
    lemma_split_nonempty(s, '\n');
    let c = replace_all(s, "\n"@, "\r\n"@);
    assert(full_lines(c) =~= full_lines(s));
}

/// The pieces of a text whose newlines have carriage returns before them.
proof fn lemma_returns_split(s: Seq<char>)
    requires
        !s.contains('\r'),
    ensures
        ({
            let p = split(s, '\n');
            let q = split(replace_all(s, "\n"@, "\r\n"@), '\n');
            &&& q.len() == p.len()
            &&& q.last() == p.last()
            &&& forall|i: int| 0 <= i < p.len() ==> !(#[trigger] p[i]).contains('\r')
            &&& forall|i: int| 0 <= i < p.len() - 1 ==> #[trigger] q[i] == p[i].push('\r')
            &&& forall|i: int|
                0 <= i < p.len() - 1 ==> strip_last(q[i], '\r') == #[trigger] p[i] && strip_last(
                    p[i],
                    '\r',
                ) == p[i]
        }),
    decreases s.len(),
{
    reveal_strlit("\n");
    let p = split(s, '\n');
    let c = replace_all(s, "\n"@, "\r\n"@);
    let q = split(c, '\n');
    lemma_split_nonempty(s, '\n');
    if s.len() == 0 {
        lemma_replace_empty(s, "\n"@, "\r\n"@);
    } else {
        let t = s.drop_last();
        let x = s.last();
        assert(s[s.len() - 1] == x);
        assert(x != '\r');
        assert(!t.contains('\r')) by {
            if t.contains('\r') {
                let k = t.index_of('\r');
                assert(s[k] == '\r');
            }
        }
        lemma_returns_split(t);
        lemma_split_nonempty(t, '\n');
        assert(t.push(x) =~= s);
        lemma_returns_push(t, x);
        let ct = replace_all(t, "\n"@, "\r\n"@);
        let pt = split(t, '\n');
        let qt = split(ct, '\n');
        if x == '\n' {
            let m = ct.push('\r');
            assert(c =~= m.push('\n'));
            lemma_split_push(ct, '\r', '\n');
            lemma_split_push(m, '\n', '\n');
            assert(p =~= pt.push(Seq::empty()));
            assert(q =~= qt.drop_last().push(qt.last().push('\r')).push(Seq::empty()));
        } else {
            assert(c =~= ct.push(x));
            lemma_split_push(ct, x, '\n');
            assert(p =~= pt.drop_last().push(pt.last().push(x)));
            assert(q =~= qt.drop_last().push(qt.last().push(x)));
        }
        assert forall|i: int| 0 <= i < p.len() implies !(#[trigger] p[i]).contains('\r') by {
            if i < pt.len() {
                assert(!pt[i].contains('\r'));
                if p[i].contains('\r') {
                    let k = p[i].index_of('\r');
                    if k < pt[i].len() {
                        assert(pt[i][k] == '\r');
                    }
                }
            }
        }
        assert forall|i: int| 0 <= i < p.len() - 1 implies #[trigger] q[i] == p[i].push('\r') by {
            if i < pt.len() - 1 {
                assert(q[i] == qt[i]);
                assert(p[i] == pt[i]);
            } else {
                assert(p[i] == pt.last());
            }
        }
    }
    assert forall|i: int| 0 <= i < p.len() - 1 implies strip_last(q[i], '\r') == #[trigger] p[i]
        && strip_last(p[i], '\r') == p[i] by {
        assert(q[i] == p[i].push('\r'));
        assert(q[i].drop_last() =~= p[i]);
        assert(!p[i].contains('\r'));
        if p[i].len() > 0 && p[i].last() == '\r' {
            assert(p[i][p[i].len() - 1] == '\r');
        }
    }
}

// ---- characters ----

/// Nothing longer than the longest valid prefix is valid.
proof fn lemma_no_longer(b: Seq<u8>)
    ensures
        forall|m: int| valid_len(b) < m <= b.len() ==> !valid_utf8(#[trigger] b.take(m)),
    decreases b.len(),
{
    if b.len() > 0 && !valid_utf8(b) {
        let c = b.drop_last();
        lemma_no_longer(c);
        assert forall|m: int| valid_len(b) < m <= b.len() implies !valid_utf8(#[trigger] b.take(m)) by {
            if m < b.len() {
                assert(c.take(m) =~= b.take(m));
            } else {
                assert(b.take(m) =~= b);
            }
        }
    }
}

/// A whole character in front changes nothing of what is valid behind it.
proof fn lemma_valid_behind(x: Seq<char>, y: Seq<u8>)
    requires
        x.len() > 0,
    ensures
        valid_utf8(encode_scalar(x[0] as u32) + y) == valid_utf8(y),
        encode_scalar(x[0] as u32).len() >= 1,
{
    let whole = encode_utf8(x);
    let first = encode_scalar(x[0] as u32);
    encode_utf8_first_scalar(x);
    assert(whole == first + encode_utf8(x.drop_first()));
    let b = first + y;
    assert(forall|i: int| 0 <= i < first.len() ==> whole[i] == b[i]);
    assert(length_of_first_scalar(b) == first.len());
    assert(valid_first_scalar(b));
    assert(pop_first_scalar(b) =~= y);
}

/// The valid prefix is what its text encodes to.
proof fn lemma_valid_text(x: Seq<char>, b: Seq<u8>)
    requires
        valid_text(b) == x,
    ensures
        b.take(valid_len(b) as int) == encode_utf8(x),
{
    lemma_valid_len(b);
    decode_utf8_encode_utf8(b.take(valid_len(b) as int));
}

/// Whole characters in front change nothing of what is valid behind them.
proof fn lemma_valid_front(x: Seq<char>, y: Seq<u8>)
    ensures
        valid_len(encode_utf8(x) + y) == encode_utf8(x).len() + valid_len(y),
        valid_text(encode_utf8(x) + y) == x + valid_text(y),
        valid_tail(encode_utf8(x) + y) == valid_tail(y),
    decreases x.len(),
{
    let b = encode_utf8(x) + y;
    if x.len() == 0 {
        assert(b =~= y);
        assert(x + valid_text(y) =~= valid_text(y));
    } else {
        let first = encode_scalar(x[0] as u32);
        let t = x.drop_first();
        let w = first.len() as int;
        let d = encode_utf8(t) + y;
        lemma_valid_front(t, y);
        lemma_valid_behind(x, d);
        assert(b =~= first + d);
        lemma_valid_len(d);
        lemma_no_longer(d);
        let v = valid_len(d) as int;
        lemma_valid_behind(x, d.take(v));
        assert(b.take(w + v) =~= first + d.take(v));
        assert forall|m: int| w + v < m <= b.len() implies !valid_utf8(#[trigger] b.take(m)) by {
            lemma_valid_behind(x, d.take(m - w));
            assert(b.take(m) =~= first + d.take(m - w));
            assert(!valid_utf8(d.take(m - w)));
        }
        lemma_valid_len_is(b, w + v);
        let u = t + valid_text(y);
        lemma_valid_text(u, d);
        let whole = x + valid_text(y);
        assert(whole.drop_first() =~= u);
        assert(whole[0] == x[0]);
        assert(b.take(w + v) =~= encode_utf8(whole));
        encode_utf8_decode_utf8(whole);
        assert(b.skip(w + v) =~= d.skip(v));
    }
}

/// Bytes cut in two: what is left unread of the first part, read with the second, goes on where the
/// first ended.
proof fn lemma_cut_bytes(a: Seq<u8>, b: Seq<u8>)
    ensures
        parsed_events(valid_text(a + b)) == parsed_events(valid_text(a)) + parsed_events(
            valid_text(unread(a) + b),
        ),
        unread(a + b) == unread(unread(a) + b),
{
    let u = valid_text(a);
    let t = valid_tail(a);
    lemma_valid_len(a);
    lemma_valid_text(u, a);
    assert(a + b =~= encode_utf8(u) + (t + b));
    lemma_valid_front(u, t + b);
    assert(unread(a) + b =~= encode_utf8(remainder(u)) + (t + b));
    lemma_valid_front(remainder(u), t + b);
    law_remainder_is_read_again(u, valid_text(t + b));
}

// ---- many cuts ----

/// All of the pieces, one after the other.
pub open spec fn put_together(chunks: Seq<Seq<u8>>) -> Seq<u8>
    decreases chunks.len(),
{
    if chunks.len() == 0 {
        Seq::empty()
    } else {
        chunks[0] + put_together(chunks.drop_first())
    }
}

/// The events that a buffer gives, fed piece by piece, and what it has not read at the end.
pub open spec fn fed_all(pending: Seq<u8>, chunks: Seq<Seq<u8>>) -> (Seq<SseEvent>, Seq<u8>)
    decreases chunks.len(),
{
    if chunks.len() == 0 {
        (Seq::empty(), pending)
    } else {
        let all = pending + chunks[0];
        let later = fed_all(unread(all), chunks.drop_first());
        (parsed_events(valid_text(all)) + later.0, later.1)
    }
}

/// Nothing is read of nothing.
proof fn lemma_nothing_read()
    ensures
        parsed_events(valid_text(Seq::empty())) == Seq::<SseEvent>::empty(),
        unread(Seq::empty()) == Seq::<u8>::empty(),
{
    let b = Seq::<u8>::empty();
    assert(b.take(0) =~= encode_utf8(Seq::empty()));
    encode_utf8_decode_utf8(Seq::empty());
    assert(valid_text(b) =~= Seq::empty());
    assert(split(valid_text(b), '\n') =~= seq![Seq::<char>::empty()]);
    assert(full_lines(valid_text(b)) =~= Seq::empty());
    assert(remainder(valid_text(b)) =~= Seq::empty());
    assert(encode_utf8(Seq::<char>::empty()) =~= Seq::empty());
    assert(unread(b) =~= Seq::empty());
}

proof fn lemma_many_cuts(a: Seq<u8>, chunks: Seq<Seq<u8>>)
    ensures
        parsed_events(valid_text(a)) + fed_all(unread(a), chunks).0 == parsed_events(
            valid_text(a + put_together(chunks)),
        ),
        fed_all(unread(a), chunks).1 == unread(a + put_together(chunks)),
    decreases chunks.len(),
{
    if chunks.len() == 0 {
        assert(a + put_together(chunks) =~= a);
        assert(parsed_events(valid_text(a)) + Seq::<SseEvent>::empty() =~= parsed_events(
            valid_text(a),
        ));
    } else {
        let b = chunks[0];
        let rest = chunks.drop_first();
        lemma_cut_bytes(a, b);
        lemma_many_cuts(a + b, rest);
        assert(a + b + put_together(rest) =~= a + put_together(chunks));
        let one = parsed_events(valid_text(unread(a) + b));
        let later = fed_all(unread(a + b), rest);
        assert(parsed_events(valid_text(a)) + one + later.0 =~= parsed_events(valid_text(a)) + (one
            + later.0));
    }
}

/// Whatever the pieces are that a stream of bytes arrives in, its events are those of the whole, each
/// of them once and in order, and what stays unread is what stays unread of the whole.
pub proof fn law_cuts_make_no_difference(chunks: Seq<Seq<u8>>)
    ensures
        fed_all(Seq::empty(), chunks).0 == parsed_events(valid_text(put_together(chunks))),
        fed_all(Seq::empty(), chunks).1 == unread(put_together(chunks)),
{
    lemma_nothing_read();
    lemma_many_cuts(Seq::empty(), chunks);
    assert(Seq::<u8>::empty() + put_together(chunks) =~= put_together(chunks));
    let evs = fed_all(Seq::empty(), chunks).0;
    assert(Seq::<SseEvent>::empty() + evs =~= evs);
}

/// The text of a stream that is text is all of it.
pub proof fn law_text_is_read_whole(s: Seq<char>)
    ensures
        valid_text(encode_utf8(s)) == s,
        unread(encode_utf8(s)) == encode_utf8(remainder(s)),
{
    let b = Seq::<u8>::empty();
    lemma_valid_front(s, b);
    assert(encode_utf8(s) + b =~= encode_utf8(s));
    assert(b.take(0) =~= encode_utf8(Seq::empty()));
    encode_utf8_decode_utf8(Seq::empty());
    assert(s + valid_text(b) =~= s);
    assert(valid_tail(b) =~= Seq::empty());
    assert(unread(encode_utf8(s)) =~= encode_utf8(remainder(s)));
}

// ---- replies ----

/// The data of events, each with what `read` makes of it.
pub open spec fn read_with<R>(data: Seq<Seq<char>>, read: spec_fn(Seq<char>) -> R) -> Seq<
    (Seq<char>, R),
> {
    data.map_values(|d: Seq<char>| (d, read(d)))
}

/// What events in the one wire format lead to, when `read` reads their data.
pub open spec fn anthropic_on(
    r: ReplyView,
    evs: Seq<SseEvent>,
    read: spec_fn(Seq<char>) -> FrameRead,
) -> Decoded {
    anthropic::on_reads(r, read_with(anthropic::event_data(evs), read))
}

/// What events in the other wire format lead to, when `read` reads their data.
pub open spec fn openai_on(
    r: ReplyView,
    evs: Seq<SseEvent>,
    read: spec_fn(Seq<char>) -> ChunkRead,
) -> Decoded {
    openai_compat::on_reads(r, read_with(openai_compat::event_data(evs), read))
}

/// What a reply in the one wire format leads to, fed piece by piece up to its end or to the first
/// event that cannot be read.
pub open spec fn anthropic_fed(
    r: ReplyView,
    pending: Seq<u8>,
    chunks: Seq<Seq<u8>>,
    read: spec_fn(Seq<char>) -> FrameRead,
) -> Decoded
    decreases chunks.len(),
{
    if chunks.len() == 0 {
        went_on(r, Seq::empty())
    } else {
        let all = pending + chunks[0];
        let d = anthropic_on(r, parsed_events(valid_text(all)), read);
        if d.over() {
            d
        } else {
            d.and(anthropic_fed(d.reply, unread(all), chunks.drop_first(), read))
        }
    }
}

/// What a reply in the other wire format leads to, fed piece by piece in the same way.
pub open spec fn openai_fed(
    r: ReplyView,
    pending: Seq<u8>,
    chunks: Seq<Seq<u8>>,
    read: spec_fn(Seq<char>) -> ChunkRead,
) -> Decoded
    decreases chunks.len(),
{
    if chunks.len() == 0 {
        went_on(r, Seq::empty())
    } else {
        let all = pending + chunks[0];
        let d = openai_on(r, parsed_events(valid_text(all)), read);
        if d.over() {
            d
        } else {
            d.and(openai_fed(d.reply, unread(all), chunks.drop_first(), read))
        }
    }
}

proof fn lemma_anthropic_add(
    r: ReplyView,
    x: Seq<(Seq<char>, FrameRead)>,
    y: Seq<(Seq<char>, FrameRead)>,
)
    ensures
        ({
            let d = anthropic::on_reads(r, x);
            anthropic::on_reads(r, x + y) == (if d.over() {
                d
            } else {
                d.and(anthropic::on_reads(d.reply, y))
            })
        }),
    decreases y.len(),
{
    let d = anthropic::on_reads(r, x);
    if y.len() == 0 {
        assert(x + y =~= x);
        assert(d.events + Seq::<EventView>::empty() =~= d.events);
    } else {
        lemma_anthropic_add(r, x, y.drop_last());
        assert((x + y).drop_last() =~= x + y.drop_last());
        assert((x + y).last() == y.last());
        let m = anthropic::on_reads(d.reply, y.drop_last());
        let z = anthropic::on_data(m.reply, y.last().0, y.last().1);
        assert((d.events + m.events) + z.events =~= d.events + (m.events + z.events));
    }
}

proof fn lemma_openai_add(
    r: ReplyView,
    x: Seq<(Seq<char>, ChunkRead)>,
    y: Seq<(Seq<char>, ChunkRead)>,
)
    ensures
        ({
            let d = openai_compat::on_reads(r, x);
            openai_compat::on_reads(r, x + y) == (if d.over() {
                d
            } else {
                d.and(openai_compat::on_reads(d.reply, y))
            })
        }),
    decreases y.len(),
{
    let d = openai_compat::on_reads(r, x);
    if y.len() == 0 {
        assert(x + y =~= x);
        assert(d.events + Seq::<EventView>::empty() =~= d.events);
    } else {
        lemma_openai_add(r, x, y.drop_last());
        assert((x + y).drop_last() =~= x + y.drop_last());
        assert((x + y).last() == y.last());
        let m = openai_compat::on_reads(d.reply, y.drop_last());
        let z = openai_compat::on_data(m.reply, y.last().0, y.last().1);
        assert((d.events + m.events) + z.events =~= d.events + (m.events + z.events));
    }
}

proof fn lemma_anthropic_fed(
    r: ReplyView,
    pending: Seq<u8>,
    chunks: Seq<Seq<u8>>,
    read: spec_fn(Seq<char>) -> FrameRead,
)
    ensures
        anthropic_fed(r, pending, chunks, read) == anthropic_on(
            r,
            fed_all(pending, chunks).0,
            read,
        ),
    decreases chunks.len(),
{
    if chunks.len() > 0 {
        let all = pending + chunks[0];
        let evs = parsed_events(valid_text(all));
        let rest = fed_all(unread(all), chunks.drop_first()).0;
        let d = anthropic_on(r, evs, read);
        lemma_anthropic_fed(d.reply, unread(all), chunks.drop_first(), read);
        let x = read_with(anthropic::event_data(evs), read);
        let y = read_with(anthropic::event_data(rest), read);
        assert(read_with(anthropic::event_data(evs + rest), read) =~= x + y);
        lemma_anthropic_add(r, x, y);
    }
}

proof fn lemma_openai_fed(
    r: ReplyView,
    pending: Seq<u8>,
    chunks: Seq<Seq<u8>>,
    read: spec_fn(Seq<char>) -> ChunkRead,
)
    ensures
        openai_fed(r, pending, chunks, read) == openai_on(r, fed_all(pending, chunks).0, read),
    decreases chunks.len(),
{
    if chunks.len() > 0 {
        let all = pending + chunks[0];
        let evs = parsed_events(valid_text(all));
        let rest = fed_all(unread(all), chunks.drop_first()).0;
        let d = openai_on(r, evs, read);
        lemma_openai_fed(d.reply, unread(all), chunks.drop_first(), read);
        let x = read_with(openai_compat::event_data(evs), read);
        let y = read_with(openai_compat::event_data(rest), read);
        assert(read_with(openai_compat::event_data(evs + rest), read) =~= x + y);
        lemma_openai_add(r, x, y);
    }
}

/// However the data of an event is read, a reply in either wire format leads to the same, each
/// piece of it once and in order, whatever the pieces that the stream arrives in, and whether or
/// not its last event is complete.
pub proof fn law_reply_does_not_depend_on_cuts(
    r: ReplyView,
    chunks: Seq<Seq<u8>>,
    read_frame: spec_fn(Seq<char>) -> FrameRead,
    read_chunk: spec_fn(Seq<char>) -> ChunkRead,
)
    ensures
        anthropic_fed(r, Seq::empty(), chunks, read_frame) == anthropic_on(
            r,
            parsed_events(valid_text(put_together(chunks))),
            read_frame,
        ),
        openai_fed(r, Seq::empty(), chunks, read_chunk) == openai_on(
            r,
            parsed_events(valid_text(put_together(chunks))),
            read_chunk,
        ),
{
    law_cuts_make_no_difference(chunks);
    lemma_anthropic_fed(r, Seq::empty(), chunks, read_frame);
    lemma_openai_fed(r, Seq::empty(), chunks, read_chunk);
}

/// Whether none of these says that a reply is complete.
pub open spec fn none_complete(evs: Seq<EventView>) -> bool {
    forall|i: int| 0 <= i < evs.len() ==> !(#[trigger] evs[i] is Completed)
}

/// All that a reply hands on: what came, and then why it cannot be read on, or else that it is
/// complete, with the tokens it took.
pub open spec fn handed_on(d: Decoded) -> Seq<Result<EventView, Seq<char>>> {
    d.events.map_values(|e: EventView| Ok::<EventView, Seq<char>>(e)).push(
        match d.error {
            Some(m) => Err(m),
            None => Ok(EventView::Completed { usage: d.reply.usage }),
        },
    )
}

/// Whether all but the last are events that go on, and the last is the end.
pub open spec fn ends_once(items: Seq<Result<EventView, Seq<char>>>) -> bool {
    &&& items.len() > 0
    &&& forall|i: int|
        0 <= i < items.len() - 1 ==> #[trigger] items[i] is Ok && !(items[i]->Ok_0 is Completed)
    &&& items.last() is Ok ==> items.last()->Ok_0 is Completed
}

proof fn lemma_anthropic_none_complete(r: ReplyView, items: Seq<(Seq<char>, FrameRead)>)
    ensures
        none_complete(anthropic::on_reads(r, items).events),
    decreases items.len(),
{
    if items.len() > 0 {
        lemma_anthropic_none_complete(r, items.drop_last());
    }
}

proof fn lemma_calls_none_complete(r: ReplyView, tcs: Seq<JsonTree>)
    ensures
        none_complete(openai_compat::on_tool_calls(r, tcs).events),
    decreases tcs.len(),
{
    if tcs.len() > 0 {
        lemma_calls_none_complete(r, tcs.drop_last());
    }
}

proof fn lemma_completed_none_complete(r: ReplyView)
    ensures
        none_complete(openai_compat::calls_completed(r).events),
    decreases r.calls.len(),
{
    if r.calls.len() > 0 {
        lemma_completed_none_complete(ReplyView { usage: r.usage, calls: r.calls.skip(1) });
    }
}

proof fn lemma_choices_none_complete(r: ReplyView, cs: Seq<ChoiceView>)
    ensures
        none_complete(openai_compat::on_choices(r, cs).events),
    decreases cs.len(),
{
    if cs.len() > 0 {
        lemma_choices_none_complete(r, cs.drop_last());
        let before = openai_compat::on_choices(r, cs.drop_last());
        let delta = cs.last().delta;
        lemma_calls_none_complete(before.reply, openai_compat::piece_calls(delta));
        let pieces = went_on(before.reply, openai_compat::piece_events(delta)).and(
            openai_compat::on_tool_calls(before.reply, openai_compat::piece_calls(delta)),
        );
        lemma_completed_none_complete(pieces.reply);
    }
}

proof fn lemma_openai_none_complete(r: ReplyView, items: Seq<(Seq<char>, ChunkRead)>)
    ensures
        none_complete(openai_compat::on_reads(r, items).events),
    decreases items.len(),
{
    if items.len() > 0 {
        lemma_openai_none_complete(r, items.drop_last());
        let before = openai_compat::on_reads(r, items.drop_last());
        if let Ok(f) = items.last().1 {
            lemma_choices_none_complete(openai_compat::with_usage(before.reply, f), f.choices);
        }
    }
}

/// However the data of an event is read, a reply is told to be complete once, and last; one that
/// cannot be read on ends with the reason, and is not told to be complete.
pub proof fn law_reply_ends_once(
    r: ReplyView,
    chunks: Seq<Seq<u8>>,
    read_frame: spec_fn(Seq<char>) -> FrameRead,
    read_chunk: spec_fn(Seq<char>) -> ChunkRead,
)
    ensures
        ends_once(handed_on(anthropic_fed(r, Seq::empty(), chunks, read_frame))),
        ends_once(handed_on(openai_fed(r, Seq::empty(), chunks, read_chunk))),
{
    lemma_anthropic_fed(r, Seq::empty(), chunks, read_frame);
    lemma_openai_fed(r, Seq::empty(), chunks, read_chunk);
    let evs = fed_all(Seq::empty(), chunks).0;
    lemma_anthropic_none_complete(r, read_with(anthropic::event_data(evs), read_frame));
    lemma_openai_none_complete(r, read_with(openai_compat::event_data(evs), read_chunk));
}

// ---- what an event says ----

/// What a line of an event gives as data: what stands behind `data:`, without one space before it.
pub open spec fn data_given(l: Seq<char>) -> Option<Seq<char>> {
    if l.len() < 5 || l.take(5) != "data:"@ {
        None
    } else if l.len() > 5 && l[5] == ' ' {
        Some(l.skip(6))
    } else {
        Some(l.skip(5))
    }
}

/// What a line of an event gives as its name: what stands behind `event:`, without white space
/// before it.
pub open spec fn name_given(l: Seq<char>) -> Option<Seq<char>> {
    if l.len() < 6 || l.take(6) != "event:"@ {
        None
    } else {
        Some(trim_start(l.skip(6)))
    }
}

proof fn lemma_prefixes(l: Seq<char>)
    ensures
        "data:"@.is_prefix_of(l) == (data_given(l) is Some),
        data_given(l) matches Some(d) ==> d == line_data(l),
        "event:"@.is_prefix_of(l) == (name_given(l) is Some),
{
    reveal_strlit("data:");
    reveal_strlit("event:");
    if l.len() >= 5 {
        assert(l.take(5) =~= l.subrange(0, 5));
        assert(l.skip(5).len() > 0 ==> l.skip(5)[0] == l[5]);
        if l.len() > 5 {
            assert(l.skip(5).skip(1) =~= l.skip(6));
        }
    }
    if l.len() >= 6 {
        assert(l.take(6) =~= l.subrange(0, 6));
    }
}

proof fn lemma_block_data(b: Seq<Seq<char>>)
    ensures
        block_data(b) == b.filter_map(|l: Seq<char>| data_given(l)),
    decreases b.len(),
{
    reveal(Seq::filter_map);
    if b.len() > 0 {
        lemma_block_data(b.drop_last());
        lemma_prefixes(b.last());
        let before = b.drop_last().filter_map(|l: Seq<char>| data_given(l));
        if let Some(d) = data_given(b.last()) {
            assert(before.push(d) =~= before + seq![d]);
        }
    }
}

proof fn lemma_block_event(b: Seq<Seq<char>>)
    ensures
        match block_event(b) {
            Some(n) => exists|k: int|
                0 <= k < b.len() && name_given(#[trigger] b[k]) == Some(n) && (forall|j: int|
                    k < j < b.len() ==> name_given(#[trigger] b[j]) is None),
            None => forall|j: int| 0 <= j < b.len() ==> name_given(#[trigger] b[j]) is None,
        },
    decreases b.len(),
{
    if b.len() > 0 {
        let front = b.drop_last();
        let n = b.len() - 1;
        lemma_block_event(front);
        lemma_prefixes(b.last());
        assert(b[n] == b.last());
        if name_given(b.last()) is None {
            match block_event(front) {
                Some(e) => {
                    let k = choose|k: int|
                        0 <= k < front.len() && name_given(#[trigger] front[k]) == Some(e) && (
                        forall|j: int|
                            k < j < front.len() ==> name_given(#[trigger] front[j]) is None);
                    assert(b[k] == front[k]);
                    assert forall|j: int| k < j < b.len() implies name_given(
                        #[trigger] b[j],
                    ) is None by {
                        if j < n {
                            assert(front[j] == b[j]);
                        }
                    }
                },
                None => {
                    assert forall|j: int| 0 <= j < b.len() implies name_given(
                        #[trigger] b[j],
                    ) is None by {
                        if j < n {
                            assert(front[j] == b[j]);
                        }
                    }
                },
            }
        }
    }
}

proof fn lemma_run_of_lines(before: Blocks, run: Seq<Seq<char>>)
    requires
        before.open.len() == 0,
        forall|i: int| 0 <= i < run.len() ==> (#[trigger] run[i]).len() > 0,
    ensures
        blocks_after(before, run) == (Blocks { closed: before.closed, open: run }),
    decreases run.len(),
{
    if run.len() > 0 {
        let front = run.drop_last();
        assert forall|i: int| 0 <= i < front.len() implies (#[trigger] front[i]).len() > 0 by {
            assert(front[i] == run[i]);
        }
        lemma_run_of_lines(before, front);
        assert(run[run.len() - 1].len() > 0);
        assert(front.push(run.last()) =~= run);
    } else {
        assert(run =~= Seq::empty());
        assert(before.open =~= Seq::empty());
    }
}

/// An event is what its lines say. Lines behind a blank line, or at the start, that are closed by
/// another blank line make one event where any of them gives a name or data: its data are those
/// that its lines give, in order, each on a line of its own, and its name is the last that they
/// give. Other lines, comments among them, say nothing. Events before it are not changed.
pub proof fn law_event_is_what_its_lines_say(before: Seq<Seq<char>>, run: Seq<Seq<char>>)
    requires
        before.len() == 0 || before.last().len() == 0,
        run.len() > 0,
        forall|i: int| 0 <= i < run.len() ==> (#[trigger] run[i]).len() > 0,
        forall|i: int| 0 <= i < run.len() ==> !(#[trigger] run[i]).contains('\n'),
        forall|i: int| 0 <= i < before.len() ==> !(#[trigger] before[i]).contains('\n'),
    ensures
        ({
            let evs = parsed_events(written_all(before));
            let now = parsed_events(written_all(before + run.push(Seq::empty())));
            let data = run.filter_map(|l: Seq<char>| data_given(l));
            let named = exists|k: int| 0 <= k < run.len() && name_given(#[trigger] run[k]) is Some;
            if data.len() == 0 && !named {
                now == evs
            } else {
                &&& now.len() == evs.len() + 1
                &&& now.drop_last() == evs
                &&& now.last().data == join(data, "\n"@)
                &&& now.last().event is Some <==> named
                &&& now.last().event matches Some(n) ==> exists|k: int|
                    0 <= k < run.len() && name_given(#[trigger] run[k]) == Some(n) && (forall|
                        j: int,
                    |
                        k < j < run.len() ==> name_given(#[trigger] run[j]) is None)
            }
        }),
{
    let all = before + run.push(Seq::empty());
    let evs = parsed_events(written_all(before));
    let now = parsed_events(written_all(all));
    assert forall|i: int| 0 <= i < all.len() implies !(#[trigger] all[i]).contains('\n') by {
        if i < before.len() {
            assert(all[i] == before[i]);
        } else if i < before.len() + run.len() {
            assert(all[i] == run[i - before.len()]);
        }
    }
    lemma_written_again(before);
    lemma_written_again(all);
    assert(full_lines(written_all(before)) =~= before);
    assert(full_lines(written_all(all)) =~= all);
    let b = blocks(before);
    lemma_closed_is_closed(before);
    lemma_blocks_add(before, run.push(Seq::empty()));
    lemma_run_of_lines(b, run);
    assert(run.push(Seq::empty()).drop_last() =~= run);
    assert(blocks(all).closed == b.closed.push(run));
    assert(b.closed.push(run).drop_last() =~= b.closed);
    lemma_block_data(run);
    lemma_block_event(run);
    if event_of(run) is Some {
        assert(now == evs.push(event_of(run)->0));
        assert(now.drop_last() =~= evs);
    }
    if block_event(run) is Some {
        let n = block_event(run)->0;
        let k = choose|k: int|
            0 <= k < run.len() && name_given(#[trigger] run[k]) == Some(n) && (forall|j: int|
                k < j < run.len() ==> name_given(#[trigger] run[j]) is None);
        assert(name_given(run[k]) is Some);
    }
}

proof fn lemma_closed_is_closed(ls: Seq<Seq<char>>)
    requires
        ls.len() == 0 || ls.last().len() == 0,
    ensures
        blocks(ls).open.len() == 0,
{
}

/// Lines that no blank line has closed make no event yet, whatever they say.
pub proof fn law_open_lines_say_nothing(before: Seq<Seq<char>>, run: Seq<Seq<char>>)
    requires
        before.len() == 0 || before.last().len() == 0,
        forall|i: int| 0 <= i < run.len() ==> (#[trigger] run[i]).len() > 0,
    ensures
        events_of(blocks(before + run).closed) == events_of(blocks(before).closed),
{
    lemma_closed_is_closed(before);
    lemma_blocks_add(before, run);
    lemma_run_of_lines(blocks(before), run);
}

} // verus!
