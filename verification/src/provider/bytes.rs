//! Reading a byte stream as text, however it is cut.
use vstd::prelude::*;
use vstd::slice::slice_subrange;
use vstd::string::*;
use vstd::utf8::{decode_utf8, encode_utf8, valid_utf8};
use crate::provider::sse::{event_views, parse, parsed_events, remainder, RawSseEvent};

verus! {

/// How many bytes the longest prefix in valid UTF-8 has.
pub open spec fn valid_len(b: Seq<u8>) -> nat
    decreases b.len(),
{
    if b.len() == 0 || valid_utf8(b) {
        b.len()
    } else {
        valid_len(b.drop_last())
    }
}

/// The text of the longest prefix in valid UTF-8.
pub open spec fn valid_text(b: Seq<u8>) -> Seq<char> {
    decode_utf8(b.take(valid_len(b) as int))
}

/// The bytes behind the longest prefix in valid UTF-8.
pub open spec fn valid_tail(b: Seq<u8>) -> Seq<u8> {
    b.skip(valid_len(b) as int)
}

/// The longest valid prefix is a prefix, and it is valid.
pub proof fn lemma_valid_len(b: Seq<u8>)
    ensures
        valid_len(b) <= b.len(),
        valid_utf8(b.take(valid_len(b) as int)),
    decreases b.len(),
{
    if b.len() == 0 || valid_utf8(b) {
        assert(b.take(b.len() as int) =~= b);
    } else {
        let c = b.drop_last();
        lemma_valid_len(c);
        assert(c.take(valid_len(c) as int) =~= b.take(valid_len(c) as int));
    }
}

/// A valid prefix that no longer one is valid beyond is the longest.
pub proof fn lemma_valid_len_is(b: Seq<u8>, n: int)
    requires
        0 <= n <= b.len(),
        valid_utf8(b.take(n)),
        forall|m: int| n < m <= b.len() ==> !valid_utf8(#[trigger] b.take(m)),
    ensures
        valid_len(b) == n,
    decreases b.len(),
{
    assert(b.take(b.len() as int) =~= b);
    if n < b.len() {
        assert(!valid_utf8(b.take(b.len() as int)));
        let c = b.drop_last();
        assert(c.take(n) =~= b.take(n));
        assert forall|m: int| n < m <= c.len() implies !valid_utf8(#[trigger] c.take(m)) by {
            assert(c.take(m) =~= b.take(m));
        }
        lemma_valid_len_is(c, n);
    }
}

/// `core::str::from_utf8`: the text of valid UTF-8, or else the length of the longest prefix that
/// is valid (`Utf8Error::valid_up_to`).
#[verifier::external_body]
fn from_utf8(b: &[u8]) -> (r: Result<String, usize>)
    ensures
        match r {
            Ok(s) => encode_utf8(s@) == b@,
            Err(n) => {
                &&& n < b@.len()
                &&& valid_utf8(b@.take(n as int))
                &&& forall|m: int| n < m <= b@.len() ==> !valid_utf8(#[trigger] b@.take(m))
            },
        },
{
    core::str::from_utf8(b).map(|s| s.to_owned()).map_err(|e| e.valid_up_to())
}

/// The text of the longest valid prefix, and its length in bytes.
pub fn valid_prefix(b: &[u8]) -> (r: (String, usize))
    ensures
        r.0@ == valid_text(b@),
        r.1 == valid_len(b@),
{
    match from_utf8(b) {
        Ok(s) => {
            proof {
                vstd::utf8::encode_utf8_valid_utf8(s@);
                vstd::utf8::encode_utf8_decode_utf8(s@);
                assert(b@.take(b@.len() as int) =~= b@);
            }
            (s, b.len())
        },
        Err(n) => {
            proof {
                lemma_valid_len_is(b@, n as int);
                assert(b@.subrange(0, n as int) =~= b@.take(n as int));
            }
            match from_utf8(slice_subrange(b, 0, n)) {
                Ok(s) => {
                    proof {
                        vstd::utf8::encode_utf8_decode_utf8(s@);
                    }
                    (s, n)
                },
                Err(m) => {
                    proof {
                        let c = b@.subrange(0, n as int);
                        assert(c.take(n as int) =~= c);
                        assert(!valid_utf8(c.take(n as int)));
                    }
                    (String::new(), n)
                },
            }
        },
    }
}

/// Bytes of a stream that are not read yet.
#[derive(Debug)]
pub struct EventBuffer {
    pending: Vec<u8>,
}

/// What stays unread of `all`: the open event, then the bytes of a character that is not whole.
pub open spec fn unread(all: Seq<u8>) -> Seq<u8> {
    encode_utf8(remainder(valid_text(all))) + valid_tail(all)
}

impl EventBuffer {
    /// The bytes that are not read yet.
    pub closed spec fn pending(&self) -> Seq<u8> {
        self.pending@
    }

    /// A buffer with nothing in it.
    pub fn new() -> (r: EventBuffer)
        ensures
            r.pending() == Seq::<u8>::empty(),
    {
        EventBuffer { pending: Vec::new() }
    }

    /// How many bytes are not read yet.
    pub fn pending_len(&self) -> (r: usize)
        ensures
            r == self.pending().len(),
    {
        self.pending.len()
    }

    /// Takes one more piece of the stream and gives the events it completes.
    pub fn feed(&mut self, chunk: &[u8]) -> (r: Vec<RawSseEvent>)
        ensures
            event_views(r@) == parsed_events(valid_text(old(self).pending() + chunk@)),
            final(self).pending() == unread(old(self).pending() + chunk@),
    {
        let ghost all = old(self).pending() + chunk@;
        self.pending.extend_from_slice(chunk);
        assert(self.pending@ =~= all);
        let (text, n) = valid_prefix(self.pending.as_slice());
        proof {
            lemma_valid_len(all);
        }
        let (events, rest) = parse(text.as_str());
        let mut next: Vec<u8> = Vec::new();
        next.extend_from_slice(rest.as_str().as_bytes());
        assert(next@ =~= encode_utf8(rest@));
        let ghost head = next@;
        let tail = slice_subrange(self.pending.as_slice(), n, self.pending.len());
        next.extend_from_slice(tail);
        assert(next@ =~= head + valid_tail(all));
        self.pending = next;
        events
    }
}

} // verus!
