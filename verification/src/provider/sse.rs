//! Server-sent events.
use vstd::prelude::*;
use vstd::string::*;
use crate::text::{
    begins_with, join, join_texts, lemma_prefix_char, lemma_split_nonempty, split, split_char,
    strip_last, strip_last_char, sub_text, to_chars, trim_start, trimmed_start, views,
};

verus! {

/// One event of a stream: its name, where it has one, and its data.
#[derive(Debug, PartialEq)]
pub struct RawSseEvent {
    pub event: Option<String>,
    pub data: String,
}

/// What an event holds.
#[verifier::ext_equal]
pub struct SseEvent {
    pub event: Option<Seq<char>>,
    pub data: Seq<char>,
}

impl View for RawSseEvent {
    type V = SseEvent;

    open spec fn view(&self) -> SseEvent {
        SseEvent {
            event: match self.event {
                Some(s) => Some(s@),
                None => None,
            },
            data: self.data@,
        }
    }
}

/// The views of a list of events.
pub open spec fn event_views(v: Seq<RawSseEvent>) -> Seq<SseEvent> {
    Seq::new(v.len(), |i: int| v[i]@)
}

/// The lines of a stream that a newline has ended, each without the carriage return before it.
pub open spec fn full_lines(s: Seq<char>) -> Seq<Seq<char>> {
    Seq::new(
        (split(s, '\n').len() - 1) as nat,
        |i: int| strip_last(split(s, '\n')[i], '\r'),
    )
}

/// What stands behind the last newline of a stream.
pub open spec fn last_piece(s: Seq<char>) -> Seq<char> {
    split(s, '\n').last()
}

/// The lines read so far, in blocks: those a blank line has closed, and the one still open.
#[verifier::ext_equal]
pub struct Blocks {
    pub closed: Seq<Seq<Seq<char>>>,
    pub open: Seq<Seq<char>>,
}

impl Blocks {
    /// One more line.
    pub open spec fn line(self, l: Seq<char>) -> Blocks {
        if l.len() > 0 {
            Blocks { closed: self.closed, open: self.open.push(l) }
        } else if self.open.len() > 0 {
            Blocks { closed: self.closed.push(self.open), open: Seq::empty() }
        } else {
            self
        }
    }
}

/// The blocks that `lines` make, in order.
pub open spec fn blocks(lines: Seq<Seq<char>>) -> Blocks
    decreases lines.len(),
{
    if lines.len() == 0 {
        Blocks { closed: Seq::empty(), open: Seq::empty() }
    } else {
        blocks(lines.drop_last()).line(lines.last())
    }
}

/// The name that a block gives: that of its last `event:` line.
pub open spec fn block_event(b: Seq<Seq<char>>) -> Option<Seq<char>>
    decreases b.len(),
{
    if b.len() == 0 {
        None
    } else if "event:"@.is_prefix_of(b.last()) {
        Some(trim_start(b.last().skip(6)))
    } else {
        block_event(b.drop_last())
    }
}

/// The data of a `data:` line: what follows the colon, less one space.
pub open spec fn line_data(l: Seq<char>) -> Seq<char> {
    let v = l.skip(5);
    if v.len() > 0 && v[0] == ' ' {
        v.skip(1)
    } else {
        v
    }
}

/// The data of the `data:` lines of a block, in order.
pub open spec fn block_data(b: Seq<Seq<char>>) -> Seq<Seq<char>>
    decreases b.len(),
{
    if b.len() == 0 {
        Seq::empty()
    } else if "data:"@.is_prefix_of(b.last()) {
        block_data(b.drop_last()).push(line_data(b.last()))
    } else {
        block_data(b.drop_last())
    }
}

/// The event that a block makes; a block with neither a name nor data makes none.
pub open spec fn event_of(b: Seq<Seq<char>>) -> Option<SseEvent> {
    if block_event(b) is Some || block_data(b).len() > 0 {
        Some(SseEvent { event: block_event(b), data: join(block_data(b), "\n"@) })
    } else {
        None
    }
}

/// The events of a list of blocks, in order.
pub open spec fn events_of(bs: Seq<Seq<Seq<char>>>) -> Seq<SseEvent>
    decreases bs.len(),
{
    if bs.len() == 0 {
        Seq::empty()
    } else {
        match event_of(bs.last()) {
            Some(e) => events_of(bs.drop_last()).push(e),
            None => events_of(bs.drop_last()),
        }
    }
}

/// The events that a stream text completes. Only a blank line that a newline has ended closes an
/// event.
pub open spec fn parsed_events(s: Seq<char>) -> Seq<SseEvent> {
    events_of(blocks(full_lines(s)).closed)
}

/// A line with its end, written so that the same line is read again: the newline, and before it a
/// carriage return where the line has one of its own at its end.
pub open spec fn written(l: Seq<char>) -> Seq<char> {
    if l.len() > 0 && l.last() == '\r' {
        l.push('\r').push('\n')
    } else {
        l.push('\n')
    }
}

/// Lines with their ends, one behind the other.
pub open spec fn written_all(ls: Seq<Seq<char>>) -> Seq<char>
    decreases ls.len(),
{
    if ls.len() == 0 {
        Seq::empty()
    } else {
        written_all(ls.drop_last()) + written(ls.last())
    }
}

/// What a stream text leaves over: the lines of its open block with their ends, and what stands
/// behind the last newline, as it came.
pub open spec fn remainder(s: Seq<char>) -> Seq<char> {
    written_all(blocks(full_lines(s)).open) + last_piece(s)
}

/// Reads one block of lines.
fn read_block(b: &Vec<String>) -> (r: Option<RawSseEvent>)
    ensures
        match r {
            Some(e) => event_of(views(b@)) == Some(e@),
            None => event_of(views(b@)) is None,
        },
{
    let mut event: Option<String> = None;
    let mut data: Vec<String> = Vec::new();
    let mut i: usize = 0;
    while i < b.len()
        invariant
            i <= b@.len(),
            match event {
                Some(s) => block_event(views(b@).take(i as int)) == Some(s@),
                None => block_event(views(b@).take(i as int)) is None,
            },
            views(data@) == block_data(views(b@).take(i as int)),
        decreases b@.len() - i,
    {
        let l: &str = b[i].as_str();
        proof {
            reveal_strlit("event:");
            reveal_strlit("data:");
            assert(views(b@).take(i + 1).drop_last() =~= views(b@).take(i as int));
            assert(views(b@).take(i + 1).last() == l@);
        }
        if begins_with(l, "event:") {
            let v = to_chars(l);
            let rest = sub_text(&v, 6, v.len());
            assert(rest@ =~= l@.skip(6));
            event = Some(trimmed_start(rest.as_str()));
            proof {
                lemma_prefix_char("event:"@, l@, 0);
                if "data:"@.is_prefix_of(l@) {
                    lemma_prefix_char("data:"@, l@, 0);
                }
            }
        } else if begins_with(l, "data:") {
            let v = to_chars(l);
            let from: usize = if v.len() > 5 && v[5] == ' ' {
                6
            } else {
                5
            };
            let one = sub_text(&v, from, v.len());
            proof {
                let tail = l@.skip(5);
                if v@.len() > 5 {
                    assert(tail[0] == v@[5]);
                }
                assert(one@ =~= line_data(l@));
            }
            let ghost before = data@;
            data.push(one);
            assert(views(data@) =~= views(before).push(one@));
        }
        i = i + 1;
    }
    assert(views(b@).take(i as int) =~= views(b@));
    if data.len() > 0 || event.is_some() {
        Some(RawSseEvent { event, data: join_texts(&data, "\n") })
    } else {
        None
    }
}

/// Writes lines with their ends; see [`written_all`].
fn write_lines(ls: &Vec<String>) -> (r: String)
    ensures
        r@ == written_all(views(ls@)),
{
    let ghost all = views(ls@);
    let mut r = String::new();
    let mut i: usize = 0;
    assert(all.take(0) =~= Seq::empty());
    while i < ls.len()
        invariant
            i <= ls@.len(),
            all == views(ls@),
            r@ == written_all(all.take(i as int)),
        decreases ls@.len() - i,
    {
        let l: &str = ls[i].as_str();
        let chars = to_chars(l);
        proof {
            assert(all.take(i + 1).drop_last() =~= all.take(i as int));
            assert(all.take(i + 1).last() == l@);
        }
        let ghost before = r@;
        r.push_str(l);
        if chars.len() > 0 && chars[chars.len() - 1] == '\r' {
            r.push('\r');
        }
        r.push('\n');
        assert(r@ =~= before + written(l@));
        i = i + 1;
    }
    assert(all.take(i as int) =~= all);
    r
}

/// Reads stream text: the events it completes, and the text of the event it leaves open, to be
/// put before the next text and read again.
pub fn parse(input: &str) -> (r: (Vec<RawSseEvent>, String))
    ensures
        event_views(r.0@) == parsed_events(input@),
        r.1@ == remainder(input@),
{
    let pieces = split_char(input, '\n');
    let ghost lines = full_lines(input@);
    let mut events: Vec<RawSseEvent> = Vec::new();
    let mut current: Vec<String> = Vec::new();
    let mut i: usize = 0;
    proof {
        lemma_split_nonempty(input@, '\n');
        assert(lines.take(0) =~= Seq::empty());
        assert(views(pieces@).len() == pieces@.len());
    }
    let last: usize = pieces.len() - 1;
    while i < last
        invariant
            i <= last,
            last + 1 == pieces@.len(),
            views(pieces@) == split(input@, '\n'),
            lines == full_lines(input@),
            lines.len() == last,
            event_views(events@) == events_of(blocks(lines.take(i as int)).closed),
            views(current@) == blocks(lines.take(i as int)).open,
        decreases last - i,
    {
        let line = strip_last_char(pieces[i].as_str(), '\r');
        let ghost was = blocks(lines.take(i as int));
        proof {
            assert(views(pieces@)[i as int] == pieces@[i as int]@);
            assert(lines[i as int] == line@);
            assert(lines.take(i + 1).drop_last() =~= lines.take(i as int));
            assert(lines.take(i + 1).last() == line@);
        }
        if line.as_str().is_empty() {
            if current.len() > 0 {
                let ghost block = views(current@);
                proof {
                    assert(was.closed.push(block).drop_last() =~= was.closed);
                }
                match read_block(&current) {
                    Some(e) => {
                        let ghost before = events@;
                        events.push(e);
                        assert(event_views(events@) =~= event_views(before).push(e@));
                    },
                    None => {},
                }
                current = Vec::new();
                assert(views(current@) =~= Seq::empty());
            }
        } else {
            let ghost before = current@;
            current.push(line);
            assert(views(current@) =~= views(before).push(line@));
        }
        i = i + 1;
    }
    assert(lines.take(i as int) =~= lines);
    let mut rest = write_lines(&current);
    assert(views(pieces@)[last as int] == pieces@[last as int]@);
    rest.push_str(pieces[last].as_str());
    (events, rest)
}

} // verus!
