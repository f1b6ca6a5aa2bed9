//! The difference between two texts, line by line: what they share at either end stays, and what
//! stands between is taken out and put in.
use vstd::prelude::*;
use vstd::string::*;
use crate::text::{lines, same, text_lines, views};

verus! {

/// A line of a difference.
#[derive(Debug, PartialEq)]
pub enum DiffLine {
    Add(String),
    Del(String),
    Ctx(String),
}

/// What a line of a difference says.
pub enum DiffView {
    Add(Seq<char>),
    Del(Seq<char>),
    Ctx(Seq<char>),
}

impl View for DiffLine {
    type V = DiffView;

    open spec fn view(&self) -> DiffView {
        match self {
            DiffLine::Add(s) => DiffView::Add(s@),
            DiffLine::Del(s) => DiffView::Del(s@),
            DiffLine::Ctx(s) => DiffView::Ctx(s@),
        }
    }
}

impl Clone for DiffLine {
    fn clone(&self) -> (r: Self)
        ensures
            r@ == self@,
    {
        match self {
            DiffLine::Add(s) => DiffLine::Add(s.clone()),
            DiffLine::Del(s) => DiffLine::Del(s.clone()),
            DiffLine::Ctx(s) => DiffLine::Ctx(s.clone()),
        }
    }
}

/// The views of the lines of a difference.
pub open spec fn diff_views(v: Seq<DiffLine>) -> Seq<DiffView> {
    Seq::new(v.len(), |i: int| v[i]@)
}

/// How many lines of a difference are shown.
pub const MAX_DIFF_LINES: usize = 400;

/// How many lines two texts share from line `i` on.
pub open spec fn shared_from(a: Seq<Seq<char>>, b: Seq<Seq<char>>, i: int) -> int
    decreases a.len() - i,
{
    if 0 <= i < a.len() && i < b.len() && a[i] == b[i] {
        1 + shared_from(a, b, i + 1)
    } else {
        0
    }
}

/// How many lines two texts share at their start.
pub open spec fn shared_start(a: Seq<Seq<char>>, b: Seq<Seq<char>>) -> int {
    shared_from(a, b, 0)
}

/// How many lines two texts share at their end, from the line that `k` come after, none of them
/// among the first `start`.
pub open spec fn shared_back(a: Seq<Seq<char>>, b: Seq<Seq<char>>, start: int, k: int) -> int
    decreases a.len() - k,
{
    if 0 <= start && 0 <= k < a.len() - start && k < b.len() - start && a[a.len() - 1 - k]
        == b[b.len() - 1 - k] {
        1 + shared_back(a, b, start, k + 1)
    } else {
        0
    }
}

/// How many lines two texts share at their end, beyond those that they share at their start.
pub open spec fn shared_end(a: Seq<Seq<char>>, b: Seq<Seq<char>>) -> int {
    shared_back(a, b, shared_start(a, b), 0)
}

/// Lines that stay.
pub open spec fn kept(v: Seq<Seq<char>>) -> Seq<DiffView> {
    v.map_values(|s: Seq<char>| DiffView::Ctx(s))
}

/// Lines that are taken out.
pub open spec fn taken_out(v: Seq<Seq<char>>) -> Seq<DiffView> {
    v.map_values(|s: Seq<char>| DiffView::Del(s))
}

/// Lines that are put in.
pub open spec fn put_in(v: Seq<Seq<char>>) -> Seq<DiffView> {
    v.map_values(|s: Seq<char>| DiffView::Add(s))
}

/// The whole difference.
pub open spec fn whole_diff(a: Seq<Seq<char>>, b: Seq<Seq<char>>) -> Seq<DiffView> {
    let p = shared_start(a, b);
    let s = shared_end(a, b);
    kept(a.subrange(0, p)) + taken_out(a.subrange(p, a.len() - s)) + put_in(
        b.subrange(p, b.len() - s),
    ) + kept(a.subrange(a.len() - s, a.len() as int))
}

/// The difference as it is shown: only its first lines where it is long, and a note.
pub open spec fn shown_diff(d: Seq<DiffView>) -> Seq<DiffView> {
    if d.len() > MAX_DIFF_LINES {
        d.take(MAX_DIFF_LINES as int).push(DiffView::Del("…(diff 已截断)"@))
    } else {
        d
    }
}

proof fn lemma_shared_from(a: Seq<Seq<char>>, b: Seq<Seq<char>>, i: int)
    requires
        0 <= i <= a.len(),
        i <= b.len(),
    ensures
        0 <= shared_from(a, b, i),
        i + shared_from(a, b, i) <= a.len(),
        i + shared_from(a, b, i) <= b.len(),
        forall|k: int| i <= k < i + shared_from(a, b, i) ==> a[k] == b[k],
    decreases a.len() - i,
{
    if i < a.len() && i < b.len() && a[i] == b[i] {
        lemma_shared_from(a, b, i + 1);
    }
}

proof fn lemma_shared_back(a: Seq<Seq<char>>, b: Seq<Seq<char>>, start: int, k: int)
    requires
        0 <= start <= a.len(),
        start <= b.len(),
        0 <= k <= a.len() - start,
        k <= b.len() - start,
    ensures
        0 <= shared_back(a, b, start, k),
        k + shared_back(a, b, start, k) <= a.len() - start,
        k + shared_back(a, b, start, k) <= b.len() - start,
        forall|j: int|
            k <= j < k + shared_back(a, b, start, k) ==> #[trigger] a[a.len() - 1 - j] == b[b.len()
                - 1 - j],
    decreases a.len() - k,
{
    if k < a.len() - start && k < b.len() - start && a[a.len() - 1 - k] == b[b.len() - 1 - k] {
        lemma_shared_back(a, b, start, k + 1);
    }
}

fn push_lines(out: &mut Vec<DiffLine>, v: &Vec<String>, from: usize, to: usize, kind: u8)
    requires
        from <= to <= v@.len(),
        kind < 3,
    ensures
        diff_views(final(out)@) == diff_views(old(out)@) + (if kind == 0 {
            kept(views(v@).subrange(from as int, to as int))
        } else if kind == 1 {
            taken_out(views(v@).subrange(from as int, to as int))
        } else {
            put_in(views(v@).subrange(from as int, to as int))
        }),
{
    let mut i: usize = from;
    let ghost part = views(v@).subrange(from as int, to as int);
    let ghost want = if kind == 0 {
        kept(part)
    } else if kind == 1 {
        taken_out(part)
    } else {
        put_in(part)
    };
    assert(diff_views(out@) =~= diff_views(old(out)@) + want.take(0));
    while i < to
        invariant
            from <= i <= to <= v@.len(),
            kind < 3,
            part == views(v@).subrange(from as int, to as int),
            want == (if kind == 0 {
                kept(part)
            } else if kind == 1 {
                taken_out(part)
            } else {
                put_in(part)
            }),
            diff_views(out@) == diff_views(old(out)@) + want.take(i - from),
        decreases to - i,
    {
        let s = v[i].clone();
        let one = if kind == 0 {
            DiffLine::Ctx(s)
        } else if kind == 1 {
            DiffLine::Del(s)
        } else {
            DiffLine::Add(s)
        };
        assert(part[i - from] == v@[i as int]@);
        let ghost before = out@;
        out.push(one);
        assert(diff_views(out@) =~= diff_views(before).push(one@));
        assert(want.take(i - from + 1) =~= want.take(i - from).push(want[i - from]));
        assert(diff_views(out@) =~= diff_views(old(out)@) + want.take(i - from + 1));
        i = i + 1;
    }
    assert(want.take(i - from) =~= want);
}

/// The difference between two texts; see [`whole_diff`] and [`shown_diff`].
pub fn line_diff(old_text: &str, new_text: &str) -> (r: Vec<DiffLine>)
    ensures
        diff_views(r@) == shown_diff(whole_diff(lines(old_text@), lines(new_text@))),
{
    let a = text_lines(old_text);
    let b = text_lines(new_text);
    let ghost x = views(a@);
    let ghost y = views(b@);
    let n: usize = a.len();
    let m: usize = b.len();
    let mut p: usize = 0;
    while p < n && p < m && same(a[p].as_str(), b[p].as_str())
        invariant
            p <= n,
            p <= m,
            n == a@.len(),
            m == b@.len(),
            x == views(a@),
            y == views(b@),
            shared_start(x, y) == p + shared_from(x, y, p as int),
        decreases n - p,
    {
        p = p + 1;
    }
    assert(shared_start(x, y) == p) by {
        if p < n && p < m {
            assert(x[p as int] == a@[p as int]@);
            assert(y[p as int] == b@[p as int]@);
        }
    }
    let mut s: usize = 0;
    while s < n - p && s < m - p && same(a[n - 1 - s].as_str(), b[m - 1 - s].as_str())
        invariant
            p <= n,
            p <= m,
            s <= n - p,
            s <= m - p,
            n == a@.len(),
            m == b@.len(),
            x == views(a@),
            y == views(b@),
            p == shared_start(x, y),
            shared_end(x, y) == s + shared_back(x, y, p as int, s as int),
        decreases n - s,
    {
        s = s + 1;
    }
    assert(shared_end(x, y) == s) by {
        if s < n - p && s < m - p {
            assert(x[n - 1 - s] == a@[n - 1 - s]@);
            assert(y[m - 1 - s] == b@[m - 1 - s]@);
        }
    }
    let mut out: Vec<DiffLine> = Vec::new();
    assert(diff_views(out@) =~= Seq::empty());
    push_lines(&mut out, &a, 0, p, 0);
    push_lines(&mut out, &a, p, n - s, 1);
    push_lines(&mut out, &b, p, m - s, 2);
    push_lines(&mut out, &a, n - s, n, 0);
    assert(diff_views(out@) =~= whole_diff(x, y));
    if out.len() > MAX_DIFF_LINES {
        let ghost before = out@;
        out.truncate(MAX_DIFF_LINES);
        let note = DiffLine::Del("…(diff 已截断)".to_owned());
        out.push(note);
        assert(diff_views(out@) =~= diff_views(before).take(MAX_DIFF_LINES as int).push(note@));
    }
    out
}

// ---- laws ----

/// The lines of the old text, as a difference has them.
pub open spec fn old_lines(d: Seq<DiffView>) -> Seq<Seq<char>>
    decreases d.len(),
{
    if d.len() == 0 {
        Seq::empty()
    } else {
        match d.last() {
            DiffView::Add(_) => old_lines(d.drop_last()),
            DiffView::Del(s) => old_lines(d.drop_last()).push(s),
            DiffView::Ctx(s) => old_lines(d.drop_last()).push(s),
        }
    }
}

/// The lines of the new text, as a difference has them.
pub open spec fn new_lines(d: Seq<DiffView>) -> Seq<Seq<char>>
    decreases d.len(),
{
    if d.len() == 0 {
        Seq::empty()
    } else {
        match d.last() {
            DiffView::Add(s) => new_lines(d.drop_last()).push(s),
            DiffView::Del(_) => new_lines(d.drop_last()),
            DiffView::Ctx(s) => new_lines(d.drop_last()).push(s),
        }
    }
}

proof fn lemma_add_lines(d: Seq<DiffView>, v: Seq<Seq<char>>)
    ensures
        old_lines(d + kept(v)) == old_lines(d) + v,
        new_lines(d + kept(v)) == new_lines(d) + v,
        old_lines(d + taken_out(v)) == old_lines(d) + v,
        new_lines(d + taken_out(v)) == new_lines(d),
        old_lines(d + put_in(v)) == old_lines(d),
        new_lines(d + put_in(v)) == new_lines(d) + v,
    decreases v.len(),
{
    if v.len() == 0 {
        assert(d + kept(v) =~= d);
        assert(d + taken_out(v) =~= d);
        assert(d + put_in(v) =~= d);
        assert(old_lines(d) + v =~= old_lines(d));
        assert(new_lines(d) + v =~= new_lines(d));
    } else {
        let w = v.drop_last();
        lemma_add_lines(d, w);
        assert((d + kept(v)).drop_last() =~= d + kept(w));
        assert((d + taken_out(v)).drop_last() =~= d + taken_out(w));
        assert((d + put_in(v)).drop_last() =~= d + put_in(w));
        assert((old_lines(d) + w).push(v.last()) =~= old_lines(d) + v);
        assert((new_lines(d) + w).push(v.last()) =~= new_lines(d) + v);
    }
}

/// A difference holds both texts: with the lines that were put in left out it is the old one, with
/// those that were taken out left out it is the new one.
pub proof fn law_diff_holds_both(a: Seq<Seq<char>>, b: Seq<Seq<char>>)
    ensures
        old_lines(whole_diff(a, b)) == a,
        new_lines(whole_diff(a, b)) == b,
{
    let p = shared_start(a, b);
    let s = shared_end(a, b);
    lemma_shared_from(a, b, 0);
    lemma_shared_back(a, b, p, 0);
    let none = Seq::<DiffView>::empty();
    let x = a.subrange(0, p);
    let y = a.subrange(p, a.len() - s);
    let z = b.subrange(p, b.len() - s);
    let w = a.subrange(a.len() - s, a.len() as int);
    lemma_add_lines(none, x);
    assert(none + kept(x) =~= kept(x));
    lemma_add_lines(kept(x), y);
    lemma_add_lines(kept(x) + taken_out(y), z);
    lemma_add_lines(kept(x) + taken_out(y) + put_in(z), w);
    assert(Seq::<Seq<char>>::empty() + x + y + w =~= a);
    let e = b.len() - s;
    assert forall|k: int| 0 <= k < w.len() implies #[trigger] w[k] == b[e + k] by {
        let j = s - 1 - k;
        assert(a[a.len() - 1 - j] == b[b.len() - 1 - j]);
    }
    assert(Seq::<Seq<char>>::empty() + x + z + w =~= b);
}

/// Texts that are the same differ in nothing.
pub proof fn law_same_texts_differ_in_nothing(a: Seq<Seq<char>>)
    ensures
        whole_diff(a, a) == kept(a),
{
    lemma_same(a, 0);
    let p = shared_start(a, a);
    assert(p == a.len());
    lemma_shared_back(a, a, p, 0);
    assert(whole_diff(a, a) =~= kept(a));
}

proof fn lemma_same(a: Seq<Seq<char>>, i: int)
    requires
        0 <= i <= a.len(),
    ensures
        shared_from(a, a, i) == a.len() - i,
    decreases a.len() - i,
{
    if i < a.len() {
        lemma_same(a, i + 1);
    }
}


proof fn lemma_shared_exactly(a: Seq<Seq<char>>, b: Seq<Seq<char>>, i: int, n: int)
    requires
        0 <= i <= n < a.len(),
        n < b.len(),
        forall|k: int| i <= k < n ==> a[k] == b[k],
        a[n] != b[n],
    ensures
        shared_from(a, b, i) == n - i,
    decreases n - i,
{
    if i < n {
        lemma_shared_exactly(a, b, i + 1, n);
    }
}

proof fn lemma_back_exactly(a: Seq<Seq<char>>, b: Seq<Seq<char>>, start: int, k: int, n: int)
    requires
        0 <= start,
        0 <= k <= n < a.len() - start,
        n < b.len() - start,
        forall|j: int| k <= j < n ==> #[trigger] a[a.len() - 1 - j] == b[b.len() - 1 - j],
        a[a.len() - 1 - n] != b[b.len() - 1 - n],
    ensures
        shared_back(a, b, start, k) == n - k,
    decreases n - k,
{
    if k < n {
        assert(a[a.len() - 1 - k] == b[b.len() - 1 - k]);
        lemma_back_exactly(a, b, start, k + 1, n);
    }
}

/// What two texts begin and end with alike is kept, and what stands between is taken out and put in:
/// first all the old lines, then all the new ones.
pub proof fn law_common_lines_are_kept(
    x: Seq<Seq<char>>,
    y: Seq<Seq<char>>,
    z: Seq<Seq<char>>,
    w: Seq<Seq<char>>,
)
    requires
        y.len() > 0,
        z.len() > 0,
        y[0] != z[0],
        y.last() != z.last(),
    ensures
        ({
            let d = whole_diff(x + y + w, x + z + w);
            let p = x.len();
            let q = p + y.len();
            let r = q + z.len();
            &&& d.len() == r + w.len()
            &&& forall|i: int| 0 <= i < p ==> #[trigger] d[i] == DiffView::Ctx(x[i])
            &&& forall|i: int| p <= i < q ==> #[trigger] d[i] == DiffView::Del(y[i - p])
            &&& forall|i: int| q <= i < r ==> #[trigger] d[i] == DiffView::Add(z[i - q])
            &&& forall|i: int| r <= i < d.len() ==> #[trigger] d[i] == DiffView::Ctx(w[i - r])
        }),
{
    let a = x + y + w;
    let b = x + z + w;
    let p = x.len() as int;
    let s = w.len() as int;
    assert(a[p] == y[0] && b[p] == z[0]);
    assert forall|k: int| 0 <= k < p implies a[k] == b[k] by {
        assert(a[k] == x[k] && b[k] == x[k]);
    }
    lemma_shared_exactly(a, b, 0, p);
    assert forall|j: int| 0 <= j < s implies #[trigger] a[a.len() - 1 - j] == b[b.len() - 1 - j] by {
        assert(a[a.len() - 1 - j] == w[s - 1 - j]);
        assert(b[b.len() - 1 - j] == w[s - 1 - j]);
    }
    assert(a[a.len() - 1 - s] == y.last() && b[b.len() - 1 - s] == z.last());
    lemma_back_exactly(a, b, p, 0, s);
    assert(a.subrange(0, p) =~= x);
    assert(a.subrange(p, a.len() - s) =~= y);
    assert(b.subrange(p, b.len() - s) =~= z);
    assert(a.subrange(a.len() - s, a.len() as int) =~= w);
}

/// A difference of up to four hundred lines is shown whole; of a longer one the first four hundred
/// are shown, and a note behind them.
pub proof fn law_long_differences_are_cut(d: Seq<DiffView>)
    ensures
        d.len() <= 400 ==> shown_diff(d) == d,
        d.len() > 400 ==> shown_diff(d).len() == 401 && shown_diff(d).take(400) == d.take(400)
            && shown_diff(d)[400] == DiffView::Del("…(diff 已截断)"@),
{
    if d.len() > 400 {
        assert(shown_diff(d).take(400) =~= d.take(400));
    }
}

} // verus!
