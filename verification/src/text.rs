//! Character-level text operations.
//!
//! Text is modelled as `Seq<char>`; every executable function states its result
//! over the views of its arguments.
use vstd::prelude::*;
use vstd::string::*;

verus! {

/// `String::push` appends one character.
pub assume_specification[ String::push ](s: &mut String, c: char)
    ensures
        final(s)@ == old(s)@.push(c),
;

/// `String::push_str` appends the whole of its argument.
pub assume_specification[ String::push_str ](s: &mut String, t: &str)
    ensures
        final(s)@ == old(s)@ + t@,
;

/// The characters of `s`, in order.
pub fn to_chars(s: &str) -> (r: Vec<char>)
    ensures
        r@ == s@,
{
    let mut r: Vec<char> = Vec::new();
    for c in it: s.chars()
        invariant
            it.seq() == s@,
            r@ == s@.take(it.index() as int),
    {
        r.push(c);
    }
    r
}

/// The text made of `v[from..to]`.
pub fn sub_text(v: &[char], from: usize, to: usize) -> (r: String)
    requires
        from <= to <= v@.len(),
    ensures
        r@ == v@.subrange(from as int, to as int),
{
    let mut r = String::new();
    let mut i: usize = from;
    while i < to
        invariant
            from <= i <= to <= v@.len(),
            r@ == v@.subrange(from as int, i as int),
        decreases to - i,
    {
        r.push(v[i]);
        i = i + 1;
    }
    r
}

/// The text made of all of `v`.
pub fn from_chars(v: &[char]) -> (r: String)
    ensures
        r@ == v@,
{
    sub_text(v, 0, v.len())
}

/// Whether two texts are the same.
pub fn same(a: &str, b: &str) -> (r: bool)
    ensures
        r == (a@ == b@),
{
    let x = a.as_bytes();
    let y = b.as_bytes();
    proof {
        vstd::utf8::encode_utf8_decode_utf8(a@);
        vstd::utf8::encode_utf8_decode_utf8(b@);
    }
    if x.len() != y.len() {
        return false;
    }
    let mut i: usize = 0;
    while i < x.len()
        invariant
            i <= x@.len(),
            x@.len() == y@.len(),
            x@ == a.spec_bytes(),
            y@ == b.spec_bytes(),
            x@.take(i as int) == y@.take(i as int),
        decreases x@.len() - i,
    {
        if x[i] != y[i] {
            assert(x@[i as int] != y@[i as int]);
            return false;
        }
        assert(x@.take(i + 1) =~= x@.take(i as int).push(x@[i as int]));
        assert(y@.take(i + 1) =~= y@.take(i as int).push(y@[i as int]));
        i = i + 1;
    }
    assert(x@ =~= x@.take(i as int));
    assert(y@ =~= y@.take(i as int));
    true
}

/// The text of `a` followed by that of `b`.
pub fn cat2(a: &str, b: &str) -> (r: String)
    ensures
        r@ == a@ + b@,
{
    let mut r = a.to_owned();
    r.push_str(b);
    r
}

/// Three texts in a row.
pub fn cat3(a: &str, b: &str, c: &str) -> (r: String)
    ensures
        r@ == a@ + b@ + c@,
{
    let mut r = cat2(a, b);
    r.push_str(c);
    r
}

/// Four texts in a row.
pub fn cat4(a: &str, b: &str, c: &str, d: &str) -> (r: String)
    ensures
        r@ == a@ + b@ + c@ + d@,
{
    let mut r = cat3(a, b, c);
    r.push_str(d);
    r
}

/// Five texts in a row.
pub fn cat5(a: &str, b: &str, c: &str, d: &str, e: &str) -> (r: String)
    ensures
        r@ == a@ + b@ + c@ + d@ + e@,
{
    let mut r = cat4(a, b, c, d);
    r.push_str(e);
    r
}

/// `s`, `n` times in a row.
pub open spec fn repeat(s: Seq<char>, n: nat) -> Seq<char>
    decreases n,
{
    if n == 0 {
        Seq::empty()
    } else {
        repeat(s, (n - 1) as nat) + s
    }
}

/// `s`, `n` times in a row.
pub fn repeated(s: &str, n: usize) -> (r: String)
    ensures
        r@ == repeat(s@, n as nat),
{
    let mut r = String::new();
    let mut i: usize = 0;
    while i < n
        invariant
            i <= n,
            r@ == repeat(s@, i as nat),
        decreases n - i,
    {
        r.push_str(s);
        i = i + 1;
    }
    r
}

/// The first `n` characters, or all where there are fewer.
pub open spec fn first_chars(s: Seq<char>, n: int) -> Seq<char> {
    if n < s.len() {
        s.take(n)
    } else {
        s
    }
}

/// The first `n` characters, or all where there are fewer.
pub fn at_most(s: &str, n: usize) -> (r: String)
    ensures
        r@ == first_chars(s@, n as int),
{
    let v = to_chars(s);
    if n < v.len() {
        let r = sub_text(v.as_slice(), 0, n);
        assert(r@ =~= s@.take(n as int));
        r
    } else {
        s.to_owned()
    }
}

/// How many characters a text has.
pub fn char_count(s: &str) -> (r: usize)
    ensures
        r == s@.len(),
{
    to_chars(s).len()
}

// ---- white space ----

/// A character with Unicode's `White_Space` property.
pub open spec fn is_white(c: char) -> bool {
    ||| '\u{9}' <= c <= '\u{d}'
    ||| c == ' '
    ||| c == '\u{85}'
    ||| c == '\u{a0}'
    ||| c == '\u{1680}'
    ||| '\u{2000}' <= c <= '\u{200a}'
    ||| c == '\u{2028}'
    ||| c == '\u{2029}'
    ||| c == '\u{202f}'
    ||| c == '\u{205f}'
    ||| c == '\u{3000}'
}

/// Decides [`is_white`].
pub fn white(c: char) -> (r: bool)
    ensures
        r == is_white(c),
{
    ('\u{9}' <= c && c <= '\u{d}') || c == ' ' || c == '\u{85}' || c == '\u{a0}' || c == '\u{1680}' || (
    '\u{2000}' <= c && c <= '\u{200a}') || c == '\u{2028}' || c == '\u{2029}' || c == '\u{202f}' || c
        == '\u{205f}' || c == '\u{3000}'
}

/// `s` without its leading white space.
pub open spec fn trim_start(s: Seq<char>) -> Seq<char>
    decreases s.len(),
{
    if s.len() > 0 && is_white(s[0]) {
        trim_start(s.skip(1))
    } else {
        s
    }
}

/// `s` without its trailing white space.
pub open spec fn trim_end(s: Seq<char>) -> Seq<char>
    decreases s.len(),
{
    if s.len() > 0 && is_white(s.last()) {
        trim_end(s.drop_last())
    } else {
        s
    }
}

/// `s` without white space at either end.
pub open spec fn trim(s: Seq<char>) -> Seq<char> {
    trim_end(trim_start(s))
}

/// Whether `s` holds nothing but white space.
pub open spec fn all_white(s: Seq<char>) -> bool {
    forall|i: int| 0 <= i < s.len() ==> is_white(#[trigger] s[i])
}

/// A text that trims to nothing is all white space, and the other way round.
pub proof fn lemma_trim_empty(s: Seq<char>)
    ensures
        (trim(s).len() == 0) == all_white(s),
{
    lemma_trim_start_shape(s);
    lemma_trim_end_shape(trim_start(s));
    let t = trim_start(s);
    if all_white(s) {
        if t.len() > 0 {
            assert(t[0] == s[s.len() - t.len()]);
        }
    }
    if trim(s).len() == 0 {
        if t.len() > 0 {
            assert(is_white(t[0]));
        }
        assert forall|i: int| 0 <= i < s.len() implies is_white(#[trigger] s[i]) by {
            assert(s.take(s.len() - t.len())[i] == s[i]);
        }
    }
}

/// What [`trim_start`] leaves is a suffix; what it takes is white, and it stops at the first
/// character that is not.
pub proof fn lemma_trim_start_shape(s: Seq<char>)
    ensures
        trim_start(s).len() <= s.len(),
        trim_start(s) == s.skip(s.len() - trim_start(s).len()),
        all_white(s.take(s.len() - trim_start(s).len())),
        trim_start(s).len() > 0 ==> !is_white(trim_start(s)[0]),
    decreases s.len(),
{
    if s.len() > 0 && is_white(s[0]) {
        let u = s.skip(1);
        lemma_trim_start_shape(u);
        let k = u.len() - trim_start(u).len();
        assert(u.skip(k) =~= s.skip(k + 1));
        assert forall|i: int| 0 <= i < k + 1 implies is_white(#[trigger] s.take(k + 1)[i]) by {
            if i > 0 {
                assert(u.take(k)[i - 1] == s[i]);
            }
        }
    } else {
        assert(s.skip(0) =~= s);
    }
}

/// What [`trim_end`] leaves is a prefix; what it takes is white, and it stops at the last
/// character that is not.
pub proof fn lemma_trim_end_shape(s: Seq<char>)
    ensures
        trim_end(s).len() <= s.len(),
        trim_end(s) == s.take(trim_end(s).len() as int),
        all_white(s.skip(trim_end(s).len() as int)),
        trim_end(s).len() > 0 ==> !is_white(trim_end(s).last()),
        trim_end(s).len() == 0 ==> all_white(s),
    decreases s.len(),
{
    if s.len() > 0 && is_white(s.last()) {
        let u = s.drop_last();
        lemma_trim_end_shape(u);
        let k = trim_end(u).len() as int;
        assert(u.take(k) =~= s.take(k));
        assert forall|i: int| 0 <= i < s.len() - k implies is_white(#[trigger] s.skip(k)[i]) by {
            if i < u.len() - k {
                assert(u.skip(k)[i] == s[k + i]);
            }
        }
        if k == 0 {
            assert(s.skip(0) =~= s);
        }
    } else {
        assert(s.take(s.len() as int) =~= s);
        assert(s.skip(s.len() as int) =~= Seq::empty());
    }
}

/// Where [`trim_start`] ends in `v[from..to]`.
pub fn skip_white(v: &[char], from: usize, to: usize) -> (r: usize)
    requires
        from <= to <= v@.len(),
    ensures
        from <= r <= to,
        trim_start(v@.subrange(from as int, to as int)) == v@.subrange(r as int, to as int),
{
    let mut i: usize = from;
    while i < to && white(v[i])
        invariant
            from <= i <= to <= v@.len(),
            trim_start(v@.subrange(from as int, to as int)) == trim_start(
                v@.subrange(i as int, to as int),
            ),
        decreases to - i,
    {
        assert(v@.subrange(i as int, to as int).skip(1) =~= v@.subrange(i + 1, to as int));
        i = i + 1;
    }
    i
}

/// Where [`trim_end`] ends in `v[from..to]`.
pub fn drop_white(v: &[char], from: usize, to: usize) -> (r: usize)
    requires
        from <= to <= v@.len(),
    ensures
        from <= r <= to,
        trim_end(v@.subrange(from as int, to as int)) == v@.subrange(from as int, r as int),
{
    let mut i: usize = to;
    while i > from && white(v[i - 1])
        invariant
            from <= i <= to <= v@.len(),
            trim_end(v@.subrange(from as int, to as int)) == trim_end(
                v@.subrange(from as int, i as int),
            ),
        decreases i,
    {
        assert(v@.subrange(from as int, i as int).drop_last() =~= v@.subrange(from as int, i - 1));
        i = i - 1;
    }
    i
}

/// `s` without its leading white space.
pub fn trimmed_start(s: &str) -> (r: String)
    ensures
        r@ == trim_start(s@),
{
    let v = to_chars(s);
    let a = skip_white(&v, 0, v.len());
    assert(v@.subrange(0, v@.len() as int) =~= v@);
    sub_text(&v, a, v.len())
}

/// `s` without its trailing white space.
pub fn trimmed_end(s: &str) -> (r: String)
    ensures
        r@ == trim_end(s@),
{
    let v = to_chars(s);
    let b = drop_white(&v, 0, v.len());
    assert(v@.subrange(0, v@.len() as int) =~= v@);
    sub_text(&v, 0, b)
}

/// `s` without white space at either end.
pub fn trimmed(s: &str) -> (r: String)
    ensures
        r@ == trim(s@),
{
    let v = to_chars(s);
    let a = skip_white(&v, 0, v.len());
    let b = drop_white(&v, a, v.len());
    assert(v@.subrange(0, v@.len() as int) =~= v@);
    sub_text(&v, a, b)
}

/// Whether `s` holds nothing but white space.
pub fn blank(s: &str) -> (r: bool)
    ensures
        r == (trim(s@).len() == 0),
        r == all_white(s@),
{
    let t = trimmed(s);
    proof {
        lemma_trim_empty(s@);
    }
    t.as_str().is_empty()
}

// ---- numbers ----

/// The character of a decimal digit.
pub open spec fn digit(d: nat) -> char {
    (48 + d) as char
}

/// The decimal text of `n`.
pub open spec fn dec(n: nat) -> Seq<char>
    decreases n,
{
    if n < 10 {
        seq![digit(n)]
    } else {
        dec(n / 10).push(digit(n % 10))
    }
}

/// Writes `n` in decimal.
pub fn dec_text(n: u64) -> (r: String)
    ensures
        r@ == dec(n as nat),
    decreases n,
{
    if n < 10 {
        let mut r = String::new();
        r.push((48 + n as u8) as char);
        assert(r@ =~= dec(n as nat));
        r
    } else {
        let mut r = dec_text(n / 10);
        let d: u64 = n % 10;
        r.push((48 + d as u8) as char);
        r
    }
}

// ---- splitting and joining ----

/// The views of a list of texts.
pub open spec fn views(v: Seq<String>) -> Seq<Seq<char>> {
    Seq::new(v.len(), |i: int| v[i]@)
}

/// The view of an optional text.
pub open spec fn opt_text(s: Option<String>) -> Option<Seq<char>> {
    match s {
        Some(t) => Some(t@),
        None => None,
    }
}

/// The view of an optional text.
pub open spec fn opt_str(s: Option<&str>) -> Option<Seq<char>> {
    match s {
        Some(t) => Some(t@),
        None => None,
    }
}

/// A copy of an optional text.
pub fn clone_opt(s: &Option<String>) -> (r: Option<String>)
    ensures
        opt_text(r) == opt_text(*s),
{
    match s {
        Some(t) => Some(t.clone()),
        None => None,
    }
}

/// A copy of a list of texts.
pub fn clone_texts(v: &Vec<String>) -> (r: Vec<String>)
    ensures
        views(r@) == views(v@),
{
    let mut r: Vec<String> = Vec::new();
    let mut i: usize = 0;
    while i < v.len()
        invariant
            i <= v@.len(),
            views(r@) == views(v@).take(i as int),
        decreases v@.len() - i,
    {
        let one = v[i].clone();
        let ghost before = r@;
        r.push(one);
        assert(views(r@) =~= views(before).push(one@));
        assert(views(v@).take(i + 1) =~= views(v@).take(i as int).push(v@[i as int]@));
        i = i + 1;
    }
    assert(views(v@).take(i as int) =~= views(v@));
    r
}

/// The pieces of `s` between occurrences of `c`; always at least one piece.
pub open spec fn split(s: Seq<char>, c: char) -> Seq<Seq<char>>
    decreases s.len(),
{
    if s.len() == 0 {
        seq![Seq::empty()]
    } else {
        let p = split(s.drop_last(), c);
        if s.last() == c {
            p.push(Seq::empty())
        } else {
            p.drop_last().push(p.last().push(s.last()))
        }
    }
}

/// There is always a piece.
pub proof fn lemma_split_nonempty(s: Seq<char>, c: char)
    ensures
        split(s, c).len() >= 1,
    decreases s.len(),
{
    if s.len() > 0 {
        lemma_split_nonempty(s.drop_last(), c);
    }
}

/// No piece holds the separator.
pub proof fn lemma_split_pieces(s: Seq<char>, c: char)
    ensures
        forall|i: int| 0 <= i < split(s, c).len() ==> !(#[trigger] split(s, c)[i]).contains(c),
    decreases s.len(),
{
    lemma_split_nonempty(s, c);
    if s.len() > 0 {
        let p = split(s.drop_last(), c);
        lemma_split_nonempty(s.drop_last(), c);
        lemma_split_pieces(s.drop_last(), c);
        assert forall|i: int| 0 <= i < split(s, c).len() implies !(#[trigger] split(s, c)[i]).contains(
            c,
        ) by {
            if i < p.len() - 1 || s.last() == c && i < p.len() {
                assert(split(s, c)[i] == p[i]);
            } else if s.last() != c {
                let q = p.last();
                assert(!p[p.len() - 1].contains(c));
                assert(split(s, c)[i] == q.push(s.last()));
                if q.push(s.last()).contains(c) {
                    let k = q.push(s.last()).index_of(c);
                    assert(q[k] == c);
                    assert(q.contains(c));
                }
            }
        }
    }
}

/// One more character after a text: how the pieces change.
pub proof fn lemma_split_push(s: Seq<char>, x: char, c: char)
    ensures
        split(s, c).len() >= 1,
        x == c ==> split(s.push(x), c) == split(s, c).push(Seq::empty()),
        x != c ==> split(s.push(x), c) == split(s, c).drop_last().push(split(s, c).last().push(x)),
{
    lemma_split_nonempty(s, c);
    assert(s.push(x).drop_last() =~= s);
}

/// The pieces of two texts put together: the last of the one and the first of the other are one.
pub proof fn lemma_split_add(a: Seq<char>, b: Seq<char>, c: char)
    ensures
        split(a + b, c) == split(a, c).drop_last() + seq![split(a, c).last() + split(b, c)[0]] + split(
            b,
            c,
        ).drop_first(),
    decreases b.len(),
{
    lemma_split_nonempty(a, c);
    lemma_split_nonempty(b, c);
    let p = split(a, c);
    if b.len() == 0 {
        assert(a + b =~= a);
        assert(p.last() + Seq::<char>::empty() =~= p.last());
        assert(split(b, c) =~= seq![Seq::empty()]);
        assert(split(a + b, c) =~= p.drop_last() + seq![p.last() + split(b, c)[0]] + split(
            b,
            c,
        ).drop_first());
    } else {
        let t = b.drop_last();
        let x = b.last();
        lemma_split_add(a, t, c);
        lemma_split_nonempty(t, c);
        assert(t.push(x) =~= b);
        assert((a + t).push(x) =~= a + b);
        lemma_split_push(a + t, x, c);
        lemma_split_push(t, x, c);
        let q = split(t, c);
        let whole = p.drop_last() + seq![p.last() + q[0]] + q.drop_first();
        assert(split(a + t, c) == whole);
        if x == c {
            assert(split(b, c) == q.push(Seq::empty()));
            assert(split(b, c)[0] == q[0]);
            assert(split(b, c).drop_first() =~= q.drop_first().push(Seq::empty()));
            assert(whole.push(Seq::empty()) =~= p.drop_last() + seq![p.last() + q[0]] + split(
                b,
                c,
            ).drop_first());
        } else {
            let z = q.drop_last().push(q.last().push(x));
            assert(split(b, c) == z);
            if q.len() == 1 {
                assert(z.drop_first() =~= Seq::empty());
                assert(q.drop_first() =~= Seq::empty());
                assert(whole.last() == p.last() + q[0]);
                assert((p.last() + q[0]).push(x) =~= p.last() + q[0].push(x));
                assert(whole.drop_last().push(whole.last().push(x)) =~= p.drop_last() + seq![
                    p.last() + z[0],
                ] + z.drop_first());
            } else {
                assert(z[0] == q[0]);
                assert(whole.last() == q.last());
                assert(whole.drop_last().push(whole.last().push(x)) =~= p.drop_last() + seq![
                    p.last() + z[0],
                ] + z.drop_first());
            }
        }
    }
}

/// A text without the separator is one piece.
pub proof fn lemma_split_whole(s: Seq<char>, c: char)
    requires
        !s.contains(c),
    ensures
        split(s, c) == seq![s],
    decreases s.len(),
{
    if s.len() == 0 {
        assert(s =~= Seq::empty());
    } else {
        let t = s.drop_last();
        assert(s[s.len() - 1] == s.last());
        assert(!t.contains(c)) by {
            if t.contains(c) {
                let k = t.index_of(c);
                assert(s[k] == c);
            }
        }
        lemma_split_whole(t, c);
        assert(t.push(s.last()) =~= s);
        assert(split(s, c) =~= seq![s]);
    }
}

/// How often `c` stands in `s`.
pub open spec fn count_char(s: Seq<char>, c: char) -> nat
    decreases s.len(),
{
    if s.len() == 0 {
        0
    } else if s.last() == c {
        count_char(s.drop_last(), c) + 1
    } else {
        count_char(s.drop_last(), c)
    }
}

/// There is one piece more than there are separators.
pub proof fn lemma_split_count(s: Seq<char>, c: char)
    ensures
        split(s, c).len() == count_char(s, c) + 1,
    decreases s.len(),
{
    if s.len() > 0 {
        lemma_split_count(s.drop_last(), c);
    }
}

/// What stands in two texts stands in one or the other.
pub proof fn lemma_count_add(a: Seq<char>, b: Seq<char>, c: char)
    ensures
        count_char(a + b, c) == count_char(a, c) + count_char(b, c),
    decreases b.len(),
{
    if b.len() == 0 {
        assert(a + b =~= a);
    } else {
        lemma_count_add(a, b.drop_last(), c);
        assert((a + b).drop_last() =~= a + b.drop_last());
        assert((a + b).last() == b.last());
    }
}

/// What does not stand in a text stands there no time.
pub proof fn lemma_count_none(s: Seq<char>, c: char)
    ensures
        count_char(s, c) == 0 <==> !s.contains(c),
    decreases s.len(),
{
    if s.len() > 0 {
        let t = s.drop_last();
        lemma_count_none(t, c);
        assert(s[s.len() - 1] == s.last());
        if t.contains(c) {
            let k = t.index_of(c);
            assert(s[k] == c);
        }
        if s.contains(c) {
            let k = s.index_of(c);
            if k < t.len() {
                assert(t[k] == c);
            }
        }
    }
}

/// The pieces of `s` between occurrences of `c`.
pub fn split_char(s: &str, c: char) -> (r: Vec<String>)
    ensures
        views(r@) == split(s@, c),
{
    let v = to_chars(s);
    let mut out: Vec<String> = Vec::new();
    let mut cur = String::new();
    let mut i: usize = 0;
    while i < v.len()
        invariant
            i <= v@.len(),
            views(out@).push(cur@) == split(v@.take(i as int), c),
        decreases v@.len() - i,
    {
        let ghost before = views(out@).push(cur@);
        let x = v[i];
        proof {
            lemma_split_push(v@.take(i as int), x, c);
            assert(v@.take(i + 1) =~= v@.take(i as int).push(x));
            assert(before.drop_last() =~= views(out@));
        }
        if x == c {
            let ghost old_out = out@;
            out.push(cur);
            cur = String::new();
            assert(views(out@) =~= before);
        } else {
            cur.push(x);
        }
        i = i + 1;
    }
    assert(v@.take(i as int) =~= v@);
    let ghost before = views(out@).push(cur@);
    out.push(cur);
    assert(views(out@) =~= before);
    out
}

/// The texts of `parts` with `sep` between neighbours.
pub open spec fn join(parts: Seq<Seq<char>>, sep: Seq<char>) -> Seq<char>
    decreases parts.len(),
{
    if parts.len() == 0 {
        Seq::empty()
    } else if parts.len() == 1 {
        parts[0]
    } else {
        join(parts.drop_last(), sep) + sep + parts.last()
    }
}

/// The texts of `parts` with `sep` between neighbours.
pub fn join_texts(parts: &Vec<String>, sep: &str) -> (r: String)
    ensures
        r@ == join(views(parts@), sep@),
{
    let mut r = String::new();
    let mut i: usize = 0;
    while i < parts.len()
        invariant
            i <= parts@.len(),
            r@ == join(views(parts@).take(i as int), sep@),
        decreases parts@.len() - i,
    {
        assert(views(parts@).take(i + 1).drop_last() =~= views(parts@).take(i as int));
        if i > 0 {
            r.push_str(sep);
        } else {
            assert(views(parts@).take(0) =~= Seq::empty());
            assert(r@ =~= Seq::empty());
        }
        r.push_str(parts[i].as_str());
        assert(r@ =~= join(views(parts@).take(i + 1), sep@));
        i = i + 1;
    }
    assert(views(parts@).take(i as int) =~= views(parts@));
    r
}

/// `s` without one `c` at its end, if it ends in one.
pub open spec fn strip_last(s: Seq<char>, c: char) -> Seq<char> {
    if s.len() > 0 && s.last() == c {
        s.drop_last()
    } else {
        s
    }
}

/// The lines of a text: pieces between newlines, where a last empty piece is no line and a
/// carriage return before a newline is no part of its line.
pub open spec fn lines(s: Seq<char>) -> Seq<Seq<char>> {
    let p = split(s, '\n');
    let whole = Seq::new((p.len() - 1) as nat, |i: int| strip_last(p[i], '\r'));
    if p.last().len() == 0 {
        whole
    } else {
        whole.push(p.last())
    }
}

/// `s` without one `c` at its end, if it ends in one.
pub fn strip_last_char(s: &str, c: char) -> (r: String)
    ensures
        r@ == strip_last(s@, c),
{
    let v = to_chars(s);
    if v.len() > 0 && v[v.len() - 1] == c {
        assert(v@.subrange(0, v@.len() - 1) =~= s@.drop_last());
        sub_text(&v, 0, v.len() - 1)
    } else {
        s.to_owned()
    }
}

/// The lines of a text.
pub fn text_lines(s: &str) -> (r: Vec<String>)
    ensures
        views(r@) == lines(s@),
{
    let p = split_char(s, '\n');
    proof {
        lemma_split_nonempty(s@, '\n');
        assert(views(p@).len() == p@.len());
    }
    let n: usize = p.len() - 1;
    let mut out: Vec<String> = Vec::new();
    let mut i: usize = 0;
    while i < n
        invariant
            i <= n,
            n + 1 == p@.len(),
            out@.len() == i,
            forall|k: int| 0 <= k < i ==> (#[trigger] out@[k])@ == strip_last(views(p@)[k], '\r'),
        decreases n - i,
    {
        out.push(strip_last_char(p[i].as_str(), '\r'));
        i = i + 1;
    }
    if !p[n].as_str().is_empty() {
        out.push(p[n].clone());
    }
    assert(views(out@) =~= lines(s@));
    out
}

/// The first line of a text; nothing where it has none.
pub open spec fn first_line(s: Seq<char>) -> Seq<char> {
    if lines(s).len() > 0 {
        lines(s)[0]
    } else {
        Seq::empty()
    }
}

/// The last line of a text; nothing where it has none.
pub open spec fn last_line(s: Seq<char>) -> Seq<char> {
    if lines(s).len() > 0 {
        lines(s).last()
    } else {
        Seq::empty()
    }
}

/// The first line of a text.
pub fn head_line(s: &str) -> (r: String)
    ensures
        r@ == first_line(s@),
{
    let v = text_lines(s);
    assert(views(v@).len() == v@.len());
    if v.len() > 0 {
        v[0].clone()
    } else {
        String::new()
    }
}

/// The last line of a text.
pub fn tail_line(s: &str) -> (r: String)
    ensures
        r@ == last_line(s@),
{
    let v = text_lines(s);
    assert(views(v@).len() == v@.len());
    if v.len() > 0 {
        v[v.len() - 1].clone()
    } else {
        String::new()
    }
}

// ---- searching ----

/// Whether `p` stands in `s` at `i`.
pub open spec fn occurs_at(s: Seq<char>, p: Seq<char>, i: int) -> bool {
    &&& 0 <= i
    &&& i + p.len() <= s.len()
    &&& s.subrange(i, i + p.len()) == p
}

/// The first place at or after `i` where `p` stands in `s`.
pub open spec fn find_from(s: Seq<char>, p: Seq<char>, i: int) -> Option<int>
    decreases s.len() - i + 1,
{
    if i + p.len() > s.len() {
        None
    } else if occurs_at(s, p, i) {
        Some(i)
    } else {
        find_from(s, p, i + 1)
    }
}

/// The first place where `p` stands in `s`.
pub open spec fn find(s: Seq<char>, p: Seq<char>) -> Option<int> {
    find_from(s, p, 0)
}

/// Whether `p` stands anywhere in `s`.
pub open spec fn contains(s: Seq<char>, p: Seq<char>) -> bool {
    exists|i: int| occurs_at(s, p, i)
}

/// [`find_from`] gives the least place at or after `i`, and nothing only where there is none.
pub proof fn lemma_find_from(s: Seq<char>, p: Seq<char>, i: int)
    requires
        0 <= i,
    ensures
        match find_from(s, p, i) {
            Some(k) => i <= k && occurs_at(s, p, k) && forall|j: int|
                i <= j < k ==> !occurs_at(s, p, j),
            None => forall|j: int| i <= j ==> !occurs_at(s, p, j),
        },
    decreases s.len() - i + 1,
{
    if i + p.len() <= s.len() && !occurs_at(s, p, i) {
        lemma_find_from(s, p, i + 1);
    }
}

/// Whether `p` stands in `v` at `i`.
pub fn at(v: &[char], p: &[char], i: usize) -> (r: bool)
    ensures
        r == occurs_at(v@, p@, i as int),
{
    let n: usize = v.len();
    if n < p.len() || i > n - p.len() {
        return false;
    }
    let mut k: usize = 0;
    while k < p.len()
        invariant
            k <= p@.len(),
            n == v@.len(),
            i + p@.len() <= v@.len(),
            v@.subrange(i as int, i + k) == p@.take(k as int),
        decreases p@.len() - k,
    {
        if v[i + k] != p[k] {
            assert(v@.subrange(i as int, i + p@.len())[k as int] != p@[k as int]);
            return false;
        }
        assert(v@.subrange(i as int, i + k + 1) =~= v@.subrange(i as int, i + k).push(v@[i + k]));
        assert(p@.take(k + 1) =~= p@.take(k as int).push(p@[k as int]));
        k = k + 1;
    }
    assert(p@.take(k as int) =~= p@);
    true
}

/// The first place at or after `from` where `p` stands in `v`.
pub fn find_chars(v: &[char], p: &[char], from: usize) -> (r: Option<usize>)
    requires
        from <= v@.len(),
    ensures
        match r {
            Some(k) => find_from(v@, p@, from as int) == Some(k as int),
            None => find_from(v@, p@, from as int) is None,
        },
{
    let n: usize = v.len();
    if n < p.len() || from > n - p.len() {
        return None;
    }
    let mut i: usize = from;
    while i < n - p.len()
        invariant
            from <= i <= n - p@.len(),
            n == v@.len(),
            find_from(v@, p@, from as int) == find_from(v@, p@, i as int),
        decreases n - i,
    {
        if at(v, p, i) {
            return Some(i);
        }
        i = i + 1;
    }
    if at(v, p, i) {
        Some(i)
    } else {
        assert(find_from(v@, p@, i + 1) is None);
        None
    }
}

/// A text agrees with its prefix character by character.
pub proof fn lemma_prefix_char(p: Seq<char>, s: Seq<char>, i: int)
    requires
        p.is_prefix_of(s),
        0 <= i < p.len(),
    ensures
        s[i] == p[i],
{
    assert(s.subrange(0, p.len() as int)[i] == p[i]);
}

/// Whether `s` begins with `p`.
pub fn begins_with(s: &str, p: &str) -> (r: bool)
    ensures
        r == p@.is_prefix_of(s@),
{
    let v = to_chars(s);
    let q = to_chars(p);
    let r = at(&v, &q, 0);
    proof {
        if r {
            assert(p@ =~= s@.subrange(0, p@.len() as int));
        }
        if p@.is_prefix_of(s@) {
            assert(s@.subrange(0, p@.len() as int) =~= p@);
        }
    }
    r
}

/// Whether `p` stands anywhere in `s`.
pub fn has_text(s: &str, p: &str) -> (r: bool)
    ensures
        r == contains(s@, p@),
{
    let v = to_chars(s);
    let q = to_chars(p);
    proof {
        lemma_find_from(s@, p@, 0);
    }
    match find_chars(&v, &q, 0) {
        Some(_) => true,
        None => {
            assert forall|j: int| !occurs_at(s@, p@, j) by {
                if j >= 0 {
                }
            }
            false
        },
    }
}

/// How often `p` stands in `s`, each occurrence looked for behind the one before.
pub open spec fn count_matches(s: Seq<char>, p: Seq<char>) -> nat
    decreases s.len(),
{
    match find(s, p) {
        Some(i) => if p.len() > 0 && 0 <= i && i + p.len() <= s.len() {
            1 + count_matches(s.skip(i + p.len()), p)
        } else {
            0
        },
        None => 0,
    }
}

/// `s` with every occurrence of `p` replaced by `w`, each looked for behind the one before. An
/// empty `p` is replaced nowhere.
pub open spec fn replace_all(s: Seq<char>, p: Seq<char>, w: Seq<char>) -> Seq<char>
    decreases s.len(),
{
    match find(s, p) {
        Some(i) => if p.len() > 0 && 0 <= i && i + p.len() <= s.len() {
            s.take(i) + w + replace_all(s.skip(i + p.len()), p, w)
        } else {
            s
        },
        None => s,
    }
}

/// Looking from `from` on is looking in what stands there.
pub proof fn lemma_find_skip(s: Seq<char>, p: Seq<char>, from: int, i: int)
    requires
        0 <= from <= s.len(),
        0 <= i,
    ensures
        find_from(s, p, from + i) == (match find_from(s.skip(from), p, i) {
            Some(k) => Some(from + k),
            None => None,
        }),
    decreases s.len() - from - i + 1,
{
    let t = s.skip(from);
    if i + p.len() <= t.len() {
        assert(t.subrange(i, i + p.len()) =~= s.subrange(from + i, from + i + p.len()));
        if !occurs_at(t, p, i) {
            lemma_find_skip(s, p, from, i + 1);
        }
    }
}

/// A text in which `p` does not stand is left as it is.
pub proof fn lemma_replace_none(s: Seq<char>, p: Seq<char>, w: Seq<char>)
    requires
        !contains(s, p),
    ensures
        replace_all(s, p, w) == s,
{
    lemma_find_from(s, p, 0);
}

/// Replacing goes on from the front: past an occurrence, or else past one character.
pub proof fn lemma_replace_step(s: Seq<char>, p: Seq<char>, w: Seq<char>)
    requires
        p.len() > 0,
        s.len() > 0,
    ensures
        replace_all(s, p, w) == (if occurs_at(s, p, 0) {
            w + replace_all(s.skip(p.len() as int), p, w)
        } else {
            seq![s[0]] + replace_all(s.skip(1), p, w)
        }),
{
    if occurs_at(s, p, 0) {
        assert(s.take(0) + w =~= w);
    } else {
        let t = s.skip(1);
        lemma_find_skip(s, p, 1, 0);
        lemma_find_from(t, p, 0);
        lemma_find_from(s, p, 0);
        match find(t, p) {
            Some(k) => {
                assert(find(s, p) == Some(k + 1));
                assert(s.take(k + 1) =~= seq![s[0]] + t.take(k));
                assert(s.skip(k + 1 + p.len()) =~= t.skip(k + p.len()));
                assert(s.take(k + 1) + w + replace_all(t.skip(k + p.len()), p, w) =~= seq![s[0]] + (
                t.take(k) + w + replace_all(t.skip(k + p.len()), p, w)));
            },
            None => {
                assert(find(s, p) is None);
                assert(s =~= seq![s[0]] + t);
            },
        }
    }
}

/// Giving newlines carriage returns, character by character, from the front.
pub proof fn lemma_returns_step(s: Seq<char>)
    requires
        s.len() > 0,
    ensures
        replace_all(s, "\n"@, "\r\n"@) == (if s[0] == '\n' {
            seq!['\r', '\n']
        } else {
            seq![s[0]]
        }) + replace_all(s.skip(1), "\n"@, "\r\n"@),
{
    reveal_strlit("\n");
    reveal_strlit("\r\n");
    lemma_replace_step(s, "\n"@, "\r\n"@);
    assert("\r\n"@ =~= seq!['\r', '\n']);
    if s[0] == '\n' {
        assert(s.subrange(0, 1) =~= "\n"@);
    } else if occurs_at(s, "\n"@, 0) {
        assert(s.subrange(0, 1)[0] == '\n');
    }
}

/// Nothing to replace in an empty text.
pub proof fn lemma_replace_empty(s: Seq<char>, p: Seq<char>, w: Seq<char>)
    requires
        p.len() > 0,
        s.len() == 0,
    ensures
        replace_all(s, p, w) == s,
{
}

/// Giving newlines carriage returns, one character more at the end.
pub proof fn lemma_returns_push(s: Seq<char>, x: char)
    ensures
        replace_all(s.push(x), "\n"@, "\r\n"@) == replace_all(s, "\n"@, "\r\n"@) + (if x == '\n' {
            seq!['\r', '\n']
        } else {
            seq![x]
        }),
    decreases s.len(),
{
    reveal_strlit("\n");
    let whole = s.push(x);
    let end = if x == '\n' {
        seq!['\r', '\n']
    } else {
        seq![x]
    };
    lemma_returns_step(whole);
    if s.len() == 0 {
        assert(whole.skip(1) =~= Seq::empty());
        lemma_replace_empty(whole.skip(1), "\n"@, "\r\n"@);
        lemma_replace_empty(s, "\n"@, "\r\n"@);
        assert(end + Seq::<char>::empty() =~= s + end);
    } else {
        let t = s.skip(1);
        assert(whole.skip(1) =~= t.push(x));
        lemma_returns_push(t, x);
        lemma_returns_step(s);
        let first = if s[0] == '\n' {
            seq!['\r', '\n']
        } else {
            seq![s[0]]
        };
        assert(first + (replace_all(t, "\n"@, "\r\n"@) + end) =~= first + replace_all(
            t,
            "\n"@,
            "\r\n"@,
        ) + end);
    }
}

/// `s` with every occurrence of `p` replaced by `w`.
pub fn replaced(s: &str, p: &str, w: &str) -> (r: String)
    ensures
        r@ == replace_all(s@, p@, w@),
{
    let v = to_chars(s);
    let q = to_chars(p);
    let mut out = String::new();
    let mut from: usize = 0;
    if q.len() == 0 {
        proof {
            lemma_find_from(s@, p@, 0);
        }
        return s.to_owned();
    }
    assert(v@.skip(0) =~= v@);
    let total: usize = v.len();
    loop
        invariant
            from <= v@.len(),
            total == v@.len(),
            q@.len() > 0,
            v@ == s@,
            q@ == p@,
            replace_all(s@, p@, w@) == out@ + replace_all(v@.skip(from as int), p@, w@),
        ensures
            replace_all(s@, p@, w@) == out@ + v@.skip(from as int),
            from <= v@.len(),
        decreases v@.len() - from,
    {
        proof {
            lemma_find_skip(v@, q@, from as int, 0);
            lemma_find_from(v@, q@, from as int);
        }
        let ghost rest = v@.skip(from as int);
        match find_chars(&v, &q, from) {
            Some(i) => {
                let piece = sub_text(&v, from, i);
                let ghost before = out@;
                out.push_str(piece.as_str());
                out.push_str(w);
                proof {
                    let k = i - from;
                    assert(find(rest, p@) == Some(k));
                    assert(rest.take(k) =~= piece@);
                    assert(rest.skip(k + p@.len()) =~= v@.skip(i + q@.len()));
                    assert(before + (piece@ + w@ + replace_all(v@.skip(i + q@.len()), p@, w@))
                        =~= out@ + replace_all(v@.skip(i + q@.len()), p@, w@));
                }
                from = i + q.len();
            },
            None => {
                break;
            },
        }
    }
    let tail = sub_text(&v, from, v.len());
    assert(tail@ =~= v@.skip(from as int));
    out.push_str(tail.as_str());
    out
}

/// How often `p` stands in `s`; an empty `p` stands nowhere.
pub fn count_of(s: &str, p: &str) -> (r: usize)
    ensures
        r == count_matches(s@, p@),
{
    let v = to_chars(s);
    let q = to_chars(p);
    let mut n: usize = 0;
    let mut from: usize = 0;
    if q.len() == 0 {
        proof {
            lemma_find_from(s@, p@, 0);
        }
        return 0;
    }
    assert(v@.skip(0) =~= v@);
    let total: usize = v.len();
    loop
        invariant
            from <= v@.len(),
            total == v@.len(),
            n <= from,
            q@.len() > 0,
            v@ == s@,
            q@ == p@,
            count_matches(s@, p@) == n + count_matches(v@.skip(from as int), p@),
        ensures
            count_matches(s@, p@) == n,
        decreases v@.len() - from,
    {
        proof {
            lemma_find_skip(v@, q@, from as int, 0);
            lemma_find_from(v@, q@, from as int);
        }
        let ghost rest = v@.skip(from as int);
        match find_chars(&v, &q, from) {
            Some(i) => {
                proof {
                    let k = i - from;
                    assert(find(rest, p@) == Some(k));
                    assert(rest.skip(k + p@.len()) =~= v@.skip(i + q@.len()));
                }
                from = i + q.len();
                n = n + 1;
            },
            None => {
                break;
            },
        }
    }
    n
}

// ---- laws ----

/// The number that decimal digits stand for.
pub open spec fn number_of(s: Seq<char>) -> int
    decreases s.len(),
{
    if s.len() == 0 {
        0
    } else {
        10 * number_of(s.drop_last()) + (s.last() as int - '0' as int)
    }
}

/// A number in decimal is written in digits alone, at least one and without a zero before others,
/// and stands for itself.
pub proof fn law_decimal_stands_for_its_number(n: nat)
    ensures
        number_of(dec(n)) == n,
        dec(n).len() > 0,
        forall|i: int| 0 <= i < dec(n).len() ==> '0' <= #[trigger] dec(n)[i] <= '9',
        n > 0 ==> dec(n)[0] != '0',
    decreases n,
{
    if n < 10 {
        assert(dec(n).drop_last() =~= Seq::empty());
        reveal_with_fuel(number_of, 2);
    } else {
        law_decimal_stands_for_its_number(n / 10);
        assert(dec(n).drop_last() =~= dec(n / 10));
        assert(dec(n)[0] == dec(n / 10)[0]);
    }
}

/// A text without white space at its ends is a part of it: what is left out is white space at its
/// start and at its end, and what is left neither begins nor ends with any.
pub proof fn law_trimming_drops_white_space_alone(s: Seq<char>)
    ensures
        exists|a: int, b: int|
            {
                &&& 0 <= a <= b <= s.len()
                &&& trim(s) == #[trigger] s.subrange(a, b)
                &&& forall|i: int| 0 <= i < a || b <= i < s.len() ==> is_white(#[trigger] s[i])
                &&& a < b ==> !is_white(s[a]) && !is_white(s[b - 1])
            },
        exists|b: int|
            {
                &&& 0 <= b <= s.len()
                &&& trim_end(s) == #[trigger] s.take(b)
                &&& forall|i: int| b <= i < s.len() ==> is_white(#[trigger] s[i])
                &&& 0 < b ==> !is_white(s[b - 1])
            },
        exists|a: int|
            {
                &&& 0 <= a <= s.len()
                &&& trim_start(s) == #[trigger] s.skip(a)
                &&& forall|i: int| 0 <= i < a ==> is_white(#[trigger] s[i])
                &&& a < s.len() ==> !is_white(s[a])
            },
{
    lemma_trim_start_shape(s);
    lemma_trim_end_shape(s);
    let t = trim_start(s);
    lemma_trim_end_shape(t);
    let a = s.len() - t.len();
    let b = a + trim(s).len();
    assert forall|i: int| 0 <= i < a implies is_white(#[trigger] s[i]) by {
        assert(s.take(a)[i] == s[i]);
    }
    assert forall|i: int| b <= i < s.len() implies is_white(#[trigger] s[i]) by {
        assert(t.skip(trim(s).len() as int)[i - b] == s[i]);
    }
    assert(trim(s) =~= s.subrange(a, b));
    assert(t == s.skip(a));
    let e = trim_end(s).len() as int;
    assert forall|i: int| e <= i < s.len() implies is_white(#[trigger] s[i]) by {
        assert(s.skip(e)[i - e] == s[i]);
    }
    assert(trim_end(s) == s.take(e));
}

/// The pieces of a text hold no separator, and with separators between them they are the text.
pub proof fn law_pieces_make_the_text(s: Seq<char>, c: char)
    ensures
        split(s, c).len() >= 1,
        forall|i: int| 0 <= i < split(s, c).len() ==> !(#[trigger] split(s, c)[i]).contains(c),
        join(split(s, c), seq![c]) == s,
    decreases s.len(),
{
    lemma_split_nonempty(s, c);
    lemma_split_pieces(s, c);
    if s.len() == 0 {
        assert(join(split(s, c), seq![c]) =~= s);
    } else {
        let t = s.drop_last();
        law_pieces_make_the_text(t, c);
        let p = split(t, c);
        let q = split(s, c);
        if s.last() == c {
            assert(q.drop_last() =~= p);
            assert(join(q, seq![c]) =~= t + seq![c] + Seq::<char>::empty());
            assert(join(q, seq![c]) =~= s);
        } else if p.len() == 1 {
            assert(join(p, seq![c]) == p[0]);
            assert(q =~= seq![p[0].push(s.last())]);
            assert(join(q, seq![c]) =~= s);
        } else {
            assert(q.drop_last() =~= p.drop_last());
            assert(q.last() == p.last().push(s.last()));
            assert(join(q, seq![c]) =~= join(p, seq![c]).push(s.last()));
            assert(join(q, seq![c]) =~= s);
        }
    }
}

/// Texts that are joined stand behind each other, with the separator between neighbours and nowhere
/// else.
pub proof fn law_joined_texts(parts: Seq<Seq<char>>, x: Seq<char>, sep: Seq<char>)
    ensures
        join(Seq::empty(), sep).len() == 0,
        join(seq![x], sep) == x,
        parts.len() > 0 ==> join(parts.push(x), sep) == join(parts, sep) + sep + x,
{
    assert(parts.push(x).drop_last() =~= parts);
}

/// The lines of a text, from the front: up to the first newline stands the first line, without one
/// carriage return at its end, and behind it the others; a text without a newline is one line as it
/// is, or none where it is empty.
pub proof fn law_lines_end_at_newlines(l: Seq<char>, rest: Seq<char>)
    requires
        !l.contains('\n'),
    ensures
        lines(l.push('\n') + rest) == seq![
            if l.len() > 0 && l.last() == '\r' {
                l.drop_last()
            } else {
                l
            },
        ] + lines(rest),
        l.len() > 0 ==> lines(l) == seq![l],
        l.len() == 0 ==> lines(l).len() == 0,
{
    let a = l.push('\n');
    lemma_split_whole(l, '\n');
    lemma_split_push(l, '\n', '\n');
    lemma_split_add(a, rest, '\n');
    lemma_split_nonempty(rest, '\n');
    let p = split(a, '\n');
    assert(p =~= seq![l, Seq::<char>::empty()]);
    let q = split(rest, '\n');
    assert(Seq::<char>::empty() + q[0] =~= q[0]);
    let w = split(a + rest, '\n');
    assert(w =~= seq![l] + q);
    assert(w.last() == q.last());
    assert(lines(a + rest) =~= seq![strip_last(l, '\r')] + lines(rest));
    if l.len() > 0 {
        assert(lines(l) =~= seq![l]);
    }
}

/// Replacing goes from place to place: up to the first place where a text stands everything stays,
/// the replacement comes there, and what follows is treated in the same way; where it stands
/// nowhere, all stays.
pub proof fn law_every_place_is_replaced(s: Seq<char>, p: Seq<char>, w: Seq<char>, i: int)
    requires
        p.len() > 0,
        0 <= i <= s.len(),
        forall|j: int| 0 <= j < i ==> !occurs_at(s, p, j),
    ensures
        i + p.len() <= s.len() && s.subrange(i, i + p.len()) == p ==> replace_all(s, p, w) == s.take(i)
            + w + replace_all(s.skip(i + p.len()), p, w),
        (forall|j: int| 0 <= j <= s.len() - p.len() ==> #[trigger] s.subrange(j, j + p.len()) != p)
            ==> replace_all(s, p, w) == s,
{
    lemma_find_from(s, p, 0);
    if i + p.len() <= s.len() && s.subrange(i, i + p.len()) == p {
        assert(occurs_at(s, p, i));
        assert(find(s, p) == Some(i));
    }
    if forall|j: int| 0 <= j <= s.len() - p.len() ==> #[trigger] s.subrange(j, j + p.len()) != p {
        if let Some(k) = find(s, p) {
            assert(s.subrange(k, k + p.len()) == p);
        }
    }
}


/// White space is what Unicode gives that property: five characters from the tab on, the blank, and
/// sixteen beyond ASCII, among them the wide blank.
pub proof fn law_white_space(c: char)
    ensures
        is_white(c) <==> {
            let n = c as int;
            ||| 9 <= n <= 13
            ||| n == 32
            ||| n == 133
            ||| n == 160
            ||| n == 5760
            ||| 8192 <= n <= 8202
            ||| n == 8232
            ||| n == 8233
            ||| n == 8239
            ||| n == 8287
            ||| n == 12288
        },
{
}

/// The first characters of a text are as many as asked for, or all; and a text that is repeated
/// stands there that often, one behind the other.
pub proof fn law_parts_of_a_text(s: Seq<char>, n: nat)
    ensures
        first_chars(s, n as int).is_prefix_of(s),
        first_chars(s, n as int).len() == if n <= s.len() {
            n
        } else {
            s.len()
        },
        repeat(s, n).len() == n * s.len(),
        n > 0 ==> s.is_prefix_of(repeat(s, n)) && s.is_suffix_of(repeat(s, n)),
    decreases n,
{
    if n > 0 {
        let k = (n - 1) as nat;
        law_parts_of_a_text(s, k);
        assert(n * s.len() == k * s.len() + s.len()) by (nonlinear_arith)
            requires
                n == k + 1,
        ;
        let r = repeat(s, n);
        if k == 0 {
            assert(r =~= s);
        } else {
            assert(s =~= r.take(s.len() as int));
        }
        assert(s =~= r.skip(r.len() - s.len()));
    } else {
        assert(0 * s.len() == 0) by (nonlinear_arith);
    }
}

} // verus!
