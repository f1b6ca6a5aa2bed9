//! Tool calls that arrive in pieces.
use std::collections::BTreeMap;
use vstd::prelude::*;
use vstd::laws_cmp::obeys_cmp;
use vstd::std_specs::btree::increasing_seq;
use vstd::std_specs::cmp::OrdSpec;
use vstd::std_specs::iter::IteratorSpec;
use vstd::string::*;
use crate::json::{json_read, lemma_object, members, Json, JsonTree};
use crate::text::{blank, trim};

verus! {

/// A call that is still arriving.
#[derive(Debug)]
pub struct ToolAcc {
    pub id: String,
    pub name: String,
    pub json: String,
}

/// What is known of a call so far.
#[verifier::ext_equal]
pub struct AccView {
    pub id: Seq<char>,
    pub name: Seq<char>,
    pub json: Seq<char>,
}

impl View for ToolAcc {
    type V = AccView;

    open spec fn view(&self) -> AccView {
        AccView { id: self.id@, name: self.name@, json: self.json@ }
    }
}

/// Calls by index, in increasing order of index.
pub type Table = Seq<(u64, AccView)>;

/// How many calls stand before index `idx`.
pub open spec fn place(t: Table, idx: u64) -> nat
    decreases t.len(),
{
    if t.len() > 0 && t[0].0 < idx {
        1 + place(t.skip(1), idx)
    } else {
        0
    }
}

/// Whether there is a call with this index.
pub open spec fn has_call(t: Table, idx: u64) -> bool {
    place(t, idx) < t.len() && t[place(t, idx) as int].0 == idx
}

/// The call with this index.
pub open spec fn call_at(t: Table, idx: u64) -> AccView {
    t[place(t, idx) as int].1
}

/// The table in which `idx` has the call `a`, whatever it had before.
pub open spec fn put_call(t: Table, idx: u64, a: AccView) -> Table {
    if has_call(t, idx) {
        t.update(place(t, idx) as int, (idx, a))
    } else {
        t.insert(place(t, idx) as int, (idx, a))
    }
}

/// The table without the call of `idx`.
pub open spec fn drop_call(t: Table, idx: u64) -> Table {
    if has_call(t, idx) {
        t.remove(place(t, idx) as int)
    } else {
        t
    }
}

/// Whether the indices increase.
pub open spec fn in_order(t: Table) -> bool {
    forall|i: int, j: int| 0 <= i < j < t.len() ==> t[i].0 < t[j].0
}

/// Everything before the place of `idx` is smaller, nothing from there on is.
pub proof fn lemma_place(t: Table, idx: u64)
    requires
        in_order(t),
    ensures
        place(t, idx) <= t.len(),
        forall|i: int| 0 <= i < place(t, idx) ==> t[i].0 < idx,
        forall|i: int| place(t, idx) <= i < t.len() ==> t[i].0 >= idx,
    decreases t.len(),
{
    if t.len() > 0 && t[0].0 < idx {
        let u = t.skip(1);
        assert(in_order(u));
        lemma_place(u, idx);
        assert forall|i: int| 0 <= i < place(t, idx) implies t[i].0 < idx by {
            if i > 0 {
                assert(u[i - 1] == t[i]);
            }
        }
        assert forall|i: int| place(t, idx) <= i < t.len() implies t[i].0 >= idx by {
            assert(u[i - 1] == t[i]);
        }
    }
}

/// A table in order stays in order; a call that was put is found, one that was dropped is not, and
/// no other call changes.
pub proof fn law_table(t: Table, idx: u64, a: AccView, other: u64)
    requires
        in_order(t),
    ensures
        in_order(put_call(t, idx, a)),
        in_order(drop_call(t, idx)),
        has_call(put_call(t, idx, a), idx),
        call_at(put_call(t, idx, a), idx) == a,
        !has_call(drop_call(t, idx), idx),
        other != idx ==> {
            &&& has_call(put_call(t, idx, a), other) == has_call(t, other)
            &&& has_call(drop_call(t, idx), other) == has_call(t, other)
            &&& has_call(t, other) ==> call_at(put_call(t, idx, a), other) == call_at(t, other)
            &&& has_call(t, other) ==> call_at(drop_call(t, idx), other) == call_at(t, other)
        },
{
    let p = put_call(t, idx, a);
    let d = drop_call(t, idx);
    lemma_place(t, idx);
    lemma_place(t, other);
    assert(in_order(p));
    assert(in_order(d));
    lemma_place(p, idx);
    lemma_place(d, idx);
    lemma_place(p, other);
    lemma_place(d, other);
    let k = place(t, idx) as int;
    assert(p[k] == (idx, a));
    lemma_found(p, idx, k);
    if other != idx && has_call(t, other) {
        let j = place(t, other) as int;
        if has_call(t, idx) {
            assert(p[j] == t[j]);
            lemma_found(p, other, j);
            if j < k {
                assert(d[j] == t[j]);
                lemma_found(d, other, j);
            } else {
                assert(d[j - 1] == t[j]);
                lemma_found(d, other, j - 1);
            }
        } else {
            if j < k {
                assert(p[j] == t[j]);
                lemma_found(p, other, j);
            } else {
                assert(p[j + 1] == t[j]);
                lemma_found(p, other, j + 1);
            }
        }
    }
    if other != idx && has_call(p, other) {
        let j = place(p, other) as int;
        if has_call(t, idx) || j < k {
            lemma_found(t, other, j);
        } else {
            assert(p[j] == t[j - 1]);
            lemma_found(t, other, j - 1);
        }
    }
    if has_call(d, other) {
        let j = place(d, other) as int;
        if !has_call(t, idx) || j < k {
            lemma_found(t, other, j);
        } else {
            assert(d[j] == t[j + 1]);
            lemma_found(t, other, j + 1);
        }
    }
}

/// In a table in order, an index stands at its place.
pub proof fn lemma_found(t: Table, idx: u64, i: int)
    requires
        in_order(t),
        0 <= i < t.len(),
        t[i].0 == idx,
    ensures
        place(t, idx) == i,
        has_call(t, idx),
{
    lemma_place(t, idx);
    let k = place(t, idx) as int;
    if k < i {
        assert(t[k].0 < t[i].0);
    }
}

/// Whether a table holds the calls of a map, in order.
pub open spec fn holds(t: Table, m: Map<u64, ToolAcc>) -> bool {
    &&& in_order(t)
    &&& forall|k: u64| #[trigger] has_call(t, k) == m.contains_key(k)
    &&& forall|k: u64| m.contains_key(k) ==> #[trigger] call_at(t, k) == m[k]@
}

/// A call that is put into a map stands in its table.
proof fn lemma_holds_put(t: Table, m: Map<u64, ToolAcc>, idx: u64, a: ToolAcc)
    requires
        holds(t, m),
    ensures
        holds(put_call(t, idx, a@), m.insert(idx, a)),
{
    let p = put_call(t, idx, a@);
    law_table(t, idx, a@, idx);
    assert forall|k: u64| #[trigger] has_call(p, k) == m.insert(idx, a).contains_key(k) by {
        law_table(t, idx, a@, k);
        assert(has_call(t, k) == m.contains_key(k));
    }
    assert forall|k: u64| m.insert(idx, a).contains_key(k) implies #[trigger] call_at(p, k) == m.insert(
        idx,
        a,
    )[k]@ by {
        law_table(t, idx, a@, k);
        if k != idx {
            assert(has_call(t, k) == m.contains_key(k));
            assert(call_at(t, k) == m[k]@);
        }
    }
}

/// A call that is taken out of a map does not stand in its table.
proof fn lemma_holds_drop(t: Table, m: Map<u64, ToolAcc>, idx: u64)
    requires
        holds(t, m),
    ensures
        holds(drop_call(t, idx), m.remove(idx)),
{
    let d = drop_call(t, idx);
    let a = AccView { id: Seq::empty(), name: Seq::empty(), json: Seq::empty() };
    law_table(t, idx, a, idx);
    assert forall|k: u64| #[trigger] has_call(d, k) == m.remove(idx).contains_key(k) by {
        law_table(t, idx, a, k);
        assert(has_call(t, k) == m.contains_key(k));
    }
    assert forall|k: u64| m.remove(idx).contains_key(k) implies #[trigger] call_at(d, k) == m.remove(
        idx,
    )[k]@ by {
        law_table(t, idx, a, k);
        assert(has_call(t, k) == m.contains_key(k));
        assert(call_at(t, k) == m[k]@);
    }
}

/// There is a table of every map.
proof fn lemma_table_of(m: Map<u64, ToolAcc>) -> (t: Table)
    requires
        m.dom().finite(),
    ensures
        holds(t, m),
    decreases m.dom().len(),
{
    if m.dom().len() == 0 {
        let t = Seq::<(u64, AccView)>::empty();
        assert(m.dom() =~= Set::empty());
        assert forall|k: u64| #[trigger] has_call(t, k) == m.contains_key(k) by {
            assert(!m.dom().contains(k));
        }
        t
    } else {
        let k = m.dom().choose();
        let rest = m.remove(k);
        assert(rest.dom() =~= m.dom().remove(k));
        let t = lemma_table_of(rest);
        lemma_holds_put(t, rest, k, m[k]);
        assert(rest.insert(k, m[k]) =~= m);
        put_call(t, k, m[k]@)
    }
}

/// There is only one table with the same calls.
proof fn lemma_one_table(x: Table, y: Table, m: Map<u64, ToolAcc>)
    requires
        holds(x, m),
        holds(y, m),
    ensures
        x == y,
    decreases x.len(),
{
    if x.len() == 0 {
        if y.len() > 0 {
            lemma_found(y, y[0].0, 0);
            assert(has_call(x, y[0].0) == has_call(y, y[0].0));
        }
        assert(x =~= y);
    } else {
        let k = x[0].0;
        lemma_found(x, k, 0);
        assert(has_call(y, k) == m.contains_key(k));
        lemma_place(y, k);
        let j = place(y, k) as int;
        let l = y[0].0;
        lemma_found(y, l, 0);
        assert(has_call(x, l) == m.contains_key(l));
        lemma_place(x, l);
        let i = place(x, l) as int;
        if j > 0 {
            assert(y[0].0 < y[j].0);
        }
        if i > 0 {
            assert(x[0].0 < x[i].0);
        }
        assert(k == l);
        assert(call_at(x, k) == m[k]@);
        assert(call_at(y, k) == m[k]@);
        lemma_holds_drop(x, m, k);
        lemma_holds_drop(y, m, k);
        assert(drop_call(x, k) =~= x.skip(1));
        assert(drop_call(y, k) =~= y.skip(1));
        lemma_one_table(x.skip(1), y.skip(1), m.remove(k));
        assert(x =~= seq![x[0]] + x.skip(1));
        assert(y =~= seq![y[0]] + y.skip(1));
    }
}

/// The least index in a map stands first in its table.
proof fn lemma_first(t: Table, m: Map<u64, ToolAcc>, k: u64)
    requires
        holds(t, m),
        m.contains_key(k),
        forall|l: u64| m.contains_key(l) ==> k <= l,
    ensures
        t.len() > 0,
        t[0] == (k, m[k]@),
        drop_call(t, k) == t.skip(1),
{
    assert(has_call(t, k));
    assert(call_at(t, k) == m[k]@);
    lemma_place(t, k);
    lemma_found(t, t[0].0, 0);
    assert(has_call(t, t[0].0) == m.contains_key(t[0].0));
    assert(drop_call(t, k) =~= t.skip(1));
}

/// Calls by index, in increasing order of index.
#[derive(Debug)]
pub struct CallTable {
    slots: BTreeMap<u64, ToolAcc>,
}

impl CallTable {
    /// The calls, in order.
    pub closed spec fn table(&self) -> Table {
        choose|t: Table| holds(t, self.slots@)
    }

    /// The table is that of the map.
    proof fn lemma_table(&self)
        ensures
            holds(self.table(), self.slots@),
    {
        let t = lemma_table_of(self.slots@);
        assert(holds(t, self.slots@));
    }

    /// The table is the one that holds the calls of the map.
    proof fn lemma_table_is(&self, t: Table)
        requires
            holds(t, self.slots@),
        ensures
            self.table() == t,
    {
        lemma_one_table(self.table(), t, self.slots@);
    }

    /// A table without calls.
    pub fn new() -> (r: CallTable)
        ensures
            r.table() == Seq::<(u64, AccView)>::empty(),
    {
        let r = CallTable { slots: BTreeMap::new() };
        proof {
            let t = Seq::<(u64, AccView)>::empty();
            assert(holds(t, r.slots@));
            r.lemma_table_is(t);
        }
        r
    }

    /// Whether there is no call.
    pub fn is_empty(&self) -> (r: bool)
        ensures
            r == (self.table().len() == 0),
    {
        proof {
            self.lemma_table();
            let t = self.table();
            if t.len() > 0 {
                lemma_found(t, t[0].0, 0);
                assert(has_call(t, t[0].0) == self.slots@.contains_key(t[0].0));
            } else {
                assert forall|k: u64| !self.slots@.contains_key(k) by {
                    assert(has_call(t, k) == self.slots@.contains_key(k));
                }
                assert(self.slots@ =~= Map::empty());
            }
        }
        self.slots.is_empty()
    }

    /// Whether there is a call with this index.
    pub fn contains(&self, idx: u64) -> (r: bool)
        ensures
            r == has_call(self.table(), idx),
    {
        proof {
            self.lemma_table();
        }
        self.slots.contains_key(&idx)
    }

    /// Gives `idx` the call `a`, whatever it had before.
    pub fn insert(&mut self, idx: u64, a: ToolAcc)
        ensures
            final(self).table() == put_call(old(self).table(), idx, a@),
    {
        let ghost before = self.slots@;
        let ghost t = self.table();
        proof {
            self.lemma_table();
        }
        self.slots.insert(idx, a);
        proof {
            lemma_holds_put(t, before, idx, a);
            self.lemma_table_is(put_call(t, idx, a@));
        }
    }

    /// Takes the call of `idx` out.
    pub fn remove(&mut self, idx: u64) -> (r: Option<ToolAcc>)
        ensures
            final(self).table() == drop_call(old(self).table(), idx),
            match r {
                Some(a) => has_call(old(self).table(), idx) && a@ == call_at(old(self).table(), idx),
                None => !has_call(old(self).table(), idx),
            },
    {
        let ghost before = self.slots@;
        let ghost t = self.table();
        proof {
            self.lemma_table();
            assert(has_call(t, idx) == before.contains_key(idx));
        }
        let r = self.slots.remove(&idx);
        proof {
            lemma_holds_drop(t, before, idx);
            self.lemma_table_is(drop_call(t, idx));
            if before.contains_key(idx) {
                assert(call_at(t, idx) == before[idx]@);
            }
        }
        r
    }

    /// Gives the call of `idx`, which was taken out of `t`, back as `a`.
    proof fn lemma_put_back(&self, t: Table, before: Map<u64, ToolAcc>, idx: u64, a: ToolAcc)
        requires
            holds(t, before),
            self.slots@ == before.remove(idx).insert(idx, a),
        ensures
            self.table() == put_call(t, idx, a@),
    {
        assert(self.slots@ =~= before.insert(idx, a));
        lemma_holds_put(t, before, idx, a);
        self.lemma_table_is(put_call(t, idx, a@));
    }

    /// Adds a piece to the arguments of the call of `idx`; gives the id of that call.
    pub fn extend(&mut self, idx: u64, piece: &str) -> (r: Option<String>)
        ensures
            match r {
                Some(id) => {
                    let a = call_at(old(self).table(), idx);
                    &&& has_call(old(self).table(), idx)
                    &&& id@ == a.id
                    &&& final(self).table() == put_call(
                        old(self).table(),
                        idx,
                        AccView { id: a.id, name: a.name, json: a.json + piece@ },
                    )
                },
                None => {
                    &&& !has_call(old(self).table(), idx)
                    &&& final(self).table() == old(self).table()
                },
            },
    {
        let ghost before = self.slots@;
        let ghost t = self.table();
        proof {
            self.lemma_table();
            assert(has_call(t, idx) == before.contains_key(idx));
        }
        match self.slots.remove(&idx) {
            Some(mut a) => {
                let id = a.id.clone();
                a.json.push_str(piece);
                self.slots.insert(idx, a);
                proof {
                    assert(call_at(t, idx) == before[idx]@);
                    self.lemma_put_back(t, before, idx, a);
                }
                Some(id)
            },
            None => {
                assert(self.slots@ =~= before);
                None
            },
        }
    }

    /// Names the call of `idx` anew, where there is one.
    pub fn rename(&mut self, idx: u64, name: &str)
        ensures
            final(self).table() == (if has_call(old(self).table(), idx) {
                let a = call_at(old(self).table(), idx);
                put_call(old(self).table(), idx, AccView { id: a.id, name: name@, json: a.json })
            } else {
                old(self).table()
            }),
    {
        let ghost before = self.slots@;
        let ghost t = self.table();
        proof {
            self.lemma_table();
            assert(has_call(t, idx) == before.contains_key(idx));
        }
        match self.slots.remove(&idx) {
            Some(mut a) => {
                a.name = name.to_owned();
                self.slots.insert(idx, a);
                proof {
                    assert(call_at(t, idx) == before[idx]@);
                    self.lemma_put_back(t, before, idx, a);
                }
            },
            None => {
                assert(self.slots@ =~= before);
            },
        }
    }

    /// The least index.
    fn first_index(&self) -> (r: Option<u64>)
        ensures
            match r {
                Some(k) => {
                    &&& self.slots@.contains_key(k)
                    &&& forall|l: u64| self.slots@.contains_key(l) ==> k <= l
                },
                None => forall|l: u64| !self.slots@.contains_key(l),
            },
    {
        broadcast use vstd::laws_cmp::group_laws_cmp;

        for k in it: self.slots.keys()
            invariant
                it.seq() == self.slots.keys().remaining(),
                it.index() == 0,
        {
            proof {
                let all = self.slots.keys().remaining();
                let keys = all.unref();
                assert(obeys_cmp::<&u64>());
                assert(increasing_seq(all));
                assert forall|l: u64| self.slots@.contains_key(l) implies *k <= l by {
                    assert(keys.to_set().contains(l));
                    let j = choose|j: int| 0 <= j < keys.len() && keys[j] == l;
                    if j > 0 {
                        assert(OrdSpec::cmp_spec(&all[0], &all[j]) is Less);
                    }
                }
                assert(keys.to_set().contains(keys[0]));
            }
            return Some(*k);
        }
        proof {
            let keys = self.slots.keys().remaining().unref();
            assert forall|l: u64| !self.slots@.contains_key(l) by {
                if self.slots@.contains_key(l) {
                    assert(keys.to_set().contains(l));
                }
            }
        }
        None
    }

    /// Takes the first call out.
    pub fn pop_first(&mut self) -> (r: Option<ToolAcc>)
        ensures
            match r {
                Some(a) => {
                    &&& old(self).table().len() > 0
                    &&& a@ == old(self).table()[0].1
                    &&& final(self).table() == old(self).table().skip(1)
                },
                None => old(self).table().len() == 0 && final(self).table() == old(self).table(),
            },
    {
        proof {
            self.lemma_table();
        }
        let ghost t = self.table();
        let ghost before = self.slots@;
        match self.first_index() {
            Some(k) => {
                proof {
                    lemma_first(t, before, k);
                    assert(has_call(t, k));
                    assert(call_at(t, k) == before[k]@);
                }
                self.remove(k)
            },
            None => {
                proof {
                    if t.len() > 0 {
                        lemma_found(t, t[0].0, 0);
                        assert(has_call(t, t[0].0) == before.contains_key(t[0].0));
                    }
                }
                None
            },
        }
    }
}

/// What the arguments of a call read as: nothing but white space is an empty object.
pub open spec fn call_input(json: Seq<char>) -> Result<JsonTree, Seq<char>> {
    if trim(json).len() == 0 {
        Ok(JsonTree::Object(Seq::empty()))
    } else {
        json_read(json)
    }
}

/// Reads the arguments of a call.
pub fn read_input(json: &str) -> (r: Result<Json, String>)
    ensures
        match r {
            Ok(j) => call_input(json@) == Ok::<JsonTree, Seq<char>>(j.tree()),
            Err(m) => call_input(json@) == Err::<JsonTree, Seq<char>>(m@),
        },
{
    if blank(json) {
        let m: Vec<(String, Json)> = Vec::new();
        let r = Json::Object(m);
        proof {
            lemma_object(r);
            assert(members(m@) =~= Seq::empty());
        }
        Ok(r)
    } else {
        Json::parse(json)
    }
}

} // verus!
