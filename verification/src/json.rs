//! JSON values.
//!
//! [`Json`] is the value the rest of the library reads; its mathematical value is a
//! [`JsonTree`]. Reading JSON text and quoting a string are done by `serde_json`.
use vstd::prelude::*;
use vstd::string::*;
use serde_json::Value;
use crate::text::{cat2, cat3, dec, dec_text, join, same};

verus! {

/// A JSON number: an unsigned or negative integer, or the text of any other number.
#[derive(Debug, PartialEq)]
pub enum JsonNumber {
    Unsigned(u64),
    Negative(i64),
    Real(String),
}

/// A JSON value. An object keeps its members in order.
#[derive(Debug, PartialEq)]
pub enum Json {
    Null,
    Bool(bool),
    Number(JsonNumber),
    Text(String),
    Array(Vec<Json>),
    Object(Vec<(String, Json)>),
}

/// What a JSON value holds.
pub enum JsonTree {
    Null,
    Bool(bool),
    Unsigned(u64),
    Negative(i64),
    Real(Seq<char>),
    Text(Seq<char>),
    Array(Seq<JsonTree>),
    Object(Seq<(Seq<char>, JsonTree)>),
}

/// The member of `m` at or after `i` that is named `key` first.
pub open spec fn member_from(m: Seq<(Seq<char>, JsonTree)>, key: Seq<char>, i: int) -> Option<JsonTree>
    decreases m.len() - i,
{
    if i >= m.len() {
        None
    } else if m[i].0 == key {
        Some(m[i].1)
    } else {
        member_from(m, key, i + 1)
    }
}

impl JsonTree {
    /// The member named `key`, where the value is an object that has one.
    pub open spec fn get(self, key: Seq<char>) -> Option<JsonTree> {
        match self {
            JsonTree::Object(m) => member_from(m, key, 0),
            _ => None,
        }
    }

    /// The text, where the value is one.
    pub open spec fn as_text(self) -> Option<Seq<char>> {
        match self {
            JsonTree::Text(s) => Some(s),
            _ => None,
        }
    }

    /// The unsigned integer, where the value is one.
    pub open spec fn as_unsigned(self) -> Option<u64> {
        match self {
            JsonTree::Unsigned(n) => Some(n),
            _ => None,
        }
    }

    /// The truth value, where the value is one.
    pub open spec fn as_bool(self) -> Option<bool> {
        match self {
            JsonTree::Bool(b) => Some(b),
            _ => None,
        }
    }

    /// The items, where the value is an array.
    pub open spec fn as_items(self) -> Option<Seq<JsonTree>> {
        match self {
            JsonTree::Array(a) => Some(a),
            _ => None,
        }
    }

    /// The text of the member named `key`, where there is one and it is a text.
    pub open spec fn text_of(self, key: Seq<char>) -> Option<Seq<char>> {
        match self.get(key) {
            Some(t) => t.as_text(),
            None => None,
        }
    }

    /// The unsigned integer of the member named `key`, where there is one.
    pub open spec fn unsigned_of(self, key: Seq<char>) -> Option<u64> {
        match self.get(key) {
            Some(t) => t.as_unsigned(),
            None => None,
        }
    }
}

/// The views of a list of values.
pub open spec fn trees(v: Seq<Json>) -> Seq<JsonTree> {
    Seq::new(v.len(), |i: int| v[i].tree())
}

/// The views of the members of an object.
pub open spec fn members(m: Seq<(String, Json)>) -> Seq<(Seq<char>, JsonTree)> {
    Seq::new(m.len(), |i: int| (m[i].0@, m[i].1.tree()))
}

impl Json {
    /// The mathematical value.
    pub open spec fn tree(&self) -> JsonTree
        decreases self,
    {
        match self {
            Json::Null => JsonTree::Null,
            Json::Bool(b) => JsonTree::Bool(*b),
            Json::Number(JsonNumber::Unsigned(n)) => JsonTree::Unsigned(*n),
            Json::Number(JsonNumber::Negative(n)) => JsonTree::Negative(*n),
            Json::Number(JsonNumber::Real(s)) => JsonTree::Real(s@),
            Json::Text(s) => JsonTree::Text(s@),
            Json::Array(v) => JsonTree::Array(
                Seq::new(
                    v@.len(),
                    |i: int|
                        if 0 <= i < v@.len() {
                            v@[i].tree()
                        } else {
                            JsonTree::Null
                        },
                ),
            ),
            Json::Object(m) => JsonTree::Object(
                Seq::new(
                    m@.len(),
                    |i: int|
                        if 0 <= i < m@.len() {
                            (m@[i].0@, m@[i].1.tree())
                        } else {
                            (Seq::empty(), JsonTree::Null)
                        },
                ),
            ),
        }
    }

    /// The member named `key`, where the value is an object that has one.
    pub fn get(&self, key: &str) -> (r: Option<&Json>)
        ensures
            r matches Some(j) ==> self.tree().get(key@) == Some(j.tree()),
            r is None ==> self.tree().get(key@) is None,
    {
        match self {
            Json::Object(m) => {
                proof {
                    lemma_object(*self);
                }
                let mut i: usize = 0;
                while i < m.len()
                    invariant
                        i <= m@.len(),
                        self.tree().get(key@) == member_from(members(m@), key@, i as int),
                    decreases m@.len() - i,
                {
                    assert(members(m@)[i as int] == (m@[i as int].0@, m@[i as int].1.tree()));
                    if same(m[i].0.as_str(), key) {
                        return Some(&m[i].1);
                    }
                    i = i + 1;
                }
                None
            },
            _ => None,
        }
    }

    /// The text, where the value is one.
    pub fn as_str(&self) -> (r: Option<&str>)
        ensures
            r matches Some(s) ==> self.tree().as_text() == Some(s@),
            r is None ==> self.tree().as_text() is None,
    {
        match self {
            Json::Text(s) => Some(s.as_str()),
            _ => None,
        }
    }

    /// The unsigned integer, where the value is one.
    pub fn as_u64(&self) -> (r: Option<u64>)
        ensures
            r == self.tree().as_unsigned(),
    {
        match self {
            Json::Number(JsonNumber::Unsigned(n)) => Some(*n),
            _ => None,
        }
    }

    /// The truth value, where the value is one.
    pub fn as_bool(&self) -> (r: Option<bool>)
        ensures
            r == self.tree().as_bool(),
    {
        match self {
            Json::Bool(b) => Some(*b),
            _ => None,
        }
    }

    /// The items, where the value is an array.
    pub fn as_array(&self) -> (r: Option<&Vec<Json>>)
        ensures
            r matches Some(v) ==> self.tree().as_items() == Some(trees(v@)),
            r is None ==> self.tree().as_items() is None,
    {
        match self {
            Json::Array(v) => {
                proof {
                    lemma_array(*self);
                }
                Some(v)
            },
            _ => None,
        }
    }

    /// The text of the member named `key`, where there is one and it is a text.
    pub fn text_of(&self, key: &str) -> (r: Option<&str>)
        ensures
            r matches Some(s) ==> self.tree().text_of(key@) == Some(s@),
            r is None ==> self.tree().text_of(key@) is None,
    {
        match self.get(key) {
            Some(j) => j.as_str(),
            None => None,
        }
    }

    /// The unsigned integer of the member named `key`, where there is one.
    pub fn u64_of(&self, key: &str) -> (r: Option<u64>)
        ensures
            r == self.tree().unsigned_of(key@),
    {
        match self.get(key) {
            Some(j) => j.as_u64(),
            None => None,
        }
    }

    /// The compact JSON text of the value, members in order.
    pub fn to_text(&self) -> (r: String)
        ensures
            r@ == json_text(self.tree()),
        decreases self,
    {
        match self {
            Json::Null => "null".to_owned(),
            Json::Bool(b) => if *b {
                "true".to_owned()
            } else {
                "false".to_owned()
            },
            Json::Number(JsonNumber::Unsigned(n)) => dec_text(*n),
            Json::Number(JsonNumber::Negative(n)) => signed_text(*n),
            Json::Number(JsonNumber::Real(s)) => s.clone(),
            Json::Text(s) => quote(s.as_str()),
            Json::Array(v) => {
                proof {
                    lemma_array(*self);
                }
                let mut r = String::new();
                proof {
                    assert(trees(v@).take(0) =~= Seq::empty());
                }
                let mut i: usize = 0;
                while i < v.len()
                    invariant
                        i <= v@.len(),
                        self == Json::Array(*v),
                        item_texts(trees(v@).take(i as int)).len() == i,
                        r@ == join(item_texts(trees(v@).take(i as int)), ","@),
                    decreases v@.len() - i,
                {
                    let ghost done = item_texts(trees(v@).take(i as int));
                    let ghost more = item_texts(trees(v@).take(i + 1));
                    if i > 0 {
                        r.push_str(",");
                    } else {
                        assert(r@ =~= Seq::empty());
                    }
                    proof {
                        lemma_item_height(*self, i as int);
                        assert(trees(v@).take(i + 1).drop_last() =~= trees(v@).take(i as int));
                        assert(more.drop_last() =~= done);
                    }
                    let one = v[i].to_text();
                    r.push_str(one.as_str());
                    assert(more =~= done.push(one@));
                    assert(r@ =~= join(more, ","@));
                    i = i + 1;
                }
                assert(trees(v@).take(i as int) =~= trees(v@));
                cat3("[", r.as_str(), "]")
            },
            Json::Object(m) => {
                proof {
                    lemma_object(*self);
                }
                let mut r = String::new();
                proof {
                    assert(members(m@).take(0) =~= Seq::empty());
                }
                let mut i: usize = 0;
                while i < m.len()
                    invariant
                        i <= m@.len(),
                        self == Json::Object(*m),
                        member_texts(members(m@).take(i as int)).len() == i,
                        r@ == join(member_texts(members(m@).take(i as int)), ","@),
                    decreases m@.len() - i,
                {
                    let ghost done = member_texts(members(m@).take(i as int));
                    let ghost more = member_texts(members(m@).take(i + 1));
                    if i > 0 {
                        r.push_str(",");
                    } else {
                        assert(r@ =~= Seq::empty());
                    }
                    proof {
                        lemma_member_height(*self, i as int);
                        assert(members(m@).take(i + 1).drop_last() =~= members(m@).take(i as int));
                        assert(more.drop_last() =~= done);
                    }
                    let key = quote(m[i].0.as_str());
                    let one = m[i].1.to_text();
                    let pair = cat3(key.as_str(), ":", one.as_str());
                    r.push_str(pair.as_str());
                    assert(more =~= done.push(pair@));
                    assert(r@ =~= join(more, ","@));
                    i = i + 1;
                }
                assert(members(m@).take(i as int) =~= members(m@));
                cat3("{", r.as_str(), "}")
            },
        }
    }

    /// The value that a `serde_json::Value` holds.
    pub fn from_value(v: &Value) -> (r: Json)
        ensures
            r.tree() == value_tree(*v),
    {
        json_of(v)
    }

    /// Reads JSON text; an error carries the reader's message.
    pub fn parse(text: &str) -> (r: Result<Json, String>)
        ensures
            match r {
                Ok(j) => json_read(text@) == Ok::<JsonTree, Seq<char>>(j.tree()),
                Err(m) => json_read(text@) == Err::<JsonTree, Seq<char>>(m@),
            },
    {
        match value_from_str(text) {
            Ok(v) => Ok(json_of(&v)),
            Err(m) => Err(m),
        }
    }
}

impl Clone for Json {
    fn clone(&self) -> (r: Self)
        ensures
            r.tree() == self.tree(),
        decreases self,
    {
        match self {
            Json::Null => Json::Null,
            Json::Bool(b) => Json::Bool(*b),
            Json::Number(JsonNumber::Unsigned(n)) => Json::Number(JsonNumber::Unsigned(*n)),
            Json::Number(JsonNumber::Negative(n)) => Json::Number(JsonNumber::Negative(*n)),
            Json::Number(JsonNumber::Real(s)) => Json::Number(JsonNumber::Real(s.clone())),
            Json::Text(s) => Json::Text(s.clone()),
            Json::Array(v) => {
                let mut out: Vec<Json> = Vec::new();
                let mut i: usize = 0;
                while i < v.len()
                    invariant
                        i <= v@.len(),
                        self == Json::Array(*v),
                        trees(out@) == trees(v@).take(i as int),
                    decreases v@.len() - i,
                {
                    proof {
                        lemma_item_height(*self, i as int);
                    }
                    let one = v[i].clone();
                    let ghost before = out@;
                    out.push(one);
                    assert(trees(out@) =~= trees(before).push(one.tree()));
                    assert(trees(v@).take(i + 1) =~= trees(v@).take(i as int).push(
                        trees(v@)[i as int],
                    ));
                    i = i + 1;
                }
                let r = Json::Array(out);
                proof {
                    lemma_array(r);
                    lemma_array(*self);
                    assert(trees(v@).take(i as int) =~= trees(v@));
                }
                r
            },
            Json::Object(m) => {
                let mut out: Vec<(String, Json)> = Vec::new();
                let mut i: usize = 0;
                while i < m.len()
                    invariant
                        i <= m@.len(),
                        self == Json::Object(*m),
                        members(out@) == members(m@).take(i as int),
                    decreases m@.len() - i,
                {
                    let key = m[i].0.clone();
                    proof {
                        lemma_member_height(*self, i as int);
                    }
                    let one = m[i].1.clone();
                    let ghost before = out@;
                    out.push((key, one));
                    assert(members(out@) =~= members(before).push((key@, one.tree())));
                    assert(members(m@).take(i + 1) =~= members(m@).take(i as int).push(
                        members(m@)[i as int],
                    ));
                    i = i + 1;
                }
                let r = Json::Object(out);
                proof {
                    lemma_object(r);
                    lemma_object(*self);
                    assert(members(m@).take(i as int) =~= members(m@));
                }
                r
            },
        }
    }
}

/// An item is smaller than the array that holds it.
proof fn lemma_item_height(j: Json, i: int)
    requires
        j is Array,
        0 <= i < j->Array_0@.len(),
    ensures
        decreases_to!(j => j->Array_0@[i]),
{
    assert(decreases_to!(j => j->Array_0));
    assert(decreases_to!(j->Array_0 => j->Array_0@));
    assert(decreases_to!(j->Array_0@ => j->Array_0@[i]));
}

/// The value of a member is smaller than the object that holds it.
proof fn lemma_member_height(j: Json, i: int)
    requires
        j is Object,
        0 <= i < j->Object_0@.len(),
    ensures
        decreases_to!(j => j->Object_0@[i].1),
{
    assert(decreases_to!(j => j->Object_0));
    assert(decreases_to!(j->Object_0 => j->Object_0@));
    assert(decreases_to!(j->Object_0@ => j->Object_0@[i]));
    assert(decreases_to!(j->Object_0@[i] => j->Object_0@[i].1));
}

/// The view of an array is the list of the views of its items.
pub proof fn lemma_array(j: Json)
    ensures
        j matches Json::Array(v) ==> j.tree() == JsonTree::Array(trees(v@)),
{
    if let Json::Array(v) = j {
        assert(j.tree()->Array_0 =~= trees(v@));
    }
}

/// The view of a value that may be missing.
pub open spec fn opt_tree(j: Option<Json>) -> Option<JsonTree> {
    match j {
        Some(v) => Some(v.tree()),
        None => None,
    }
}

/// The view of an object is the list of the views of its members.
pub proof fn lemma_object(j: Json)
    ensures
        j matches Json::Object(m) ==> j.tree() == JsonTree::Object(members(m@)),
{
    if let Json::Object(m) = j {
        assert(j.tree()->Object_0 =~= members(m@));
    }
}

/// A digit of a number in base sixteen, in lower case.
pub open spec fn hex_digit(n: nat) -> char {
    if n < 10 {
        ('0' as nat + n) as char
    } else {
        ('a' as nat + n - 10) as char
    }
}

/// A character as it stands in a JSON string: a quotation mark, a backslash and the control
/// characters are escaped, five of those in a short form.
pub open spec fn escaped(c: char) -> Seq<char> {
    if c == '"' || c == '\\' {
        seq!['\\', c]
    } else if c == '\u{8}' {
        seq!['\\', 'b']
    } else if c == '\t' {
        seq!['\\', 't']
    } else if c == '\n' {
        seq!['\\', 'n']
    } else if c == '\u{c}' {
        seq!['\\', 'f']
    } else if c == '\r' {
        seq!['\\', 'r']
    } else if c <= '\u{1f}' {
        seq!['\\', 'u', '0', '0', hex_digit(c as nat / 16), hex_digit(c as nat % 16)]
    } else {
        seq![c]
    }
}

/// A text as it stands in a JSON string, one character after the other.
pub open spec fn escaped_text(s: Seq<char>) -> Seq<char>
    decreases s.len(),
{
    if s.len() == 0 {
        Seq::empty()
    } else {
        escaped_text(s.drop_last()) + escaped(s.last())
    }
}

/// The JSON string literal of a text.
pub open spec fn json_quoted(s: Seq<char>) -> Seq<char> {
    seq!['"'] + escaped_text(s) + seq!['"']
}

/// The compact JSON text of a value: no white space, members in order, and strings as
/// [`json_quoted`] writes them.
pub open spec fn json_text(t: JsonTree) -> Seq<char>
    decreases t,
{
    match t {
        JsonTree::Null => "null"@,
        JsonTree::Bool(b) => if b {
            "true"@
        } else {
            "false"@
        },
        JsonTree::Unsigned(n) => dec(n as nat),
        JsonTree::Negative(n) => signed_dec(n),
        JsonTree::Real(s) => s,
        JsonTree::Text(s) => json_quoted(s),
        JsonTree::Array(a) => "["@ + join(item_texts(a), ","@) + "]"@,
        JsonTree::Object(m) => "{"@ + join(member_texts(m), ","@) + "}"@,
    }
}

/// The compact texts of a list of values.
pub open spec fn item_texts(a: Seq<JsonTree>) -> Seq<Seq<char>>
    decreases a,
{
    if a.len() == 0 {
        Seq::empty()
    } else {
        item_texts(a.drop_last()).push(json_text(a.last()))
    }
}

/// The compact texts of the members of an object.
pub open spec fn member_texts(m: Seq<(Seq<char>, JsonTree)>) -> Seq<Seq<char>>
    decreases m,
{
    if m.len() == 0 {
        Seq::empty()
    } else {
        member_texts(m.drop_last()).push(json_quoted(m.last().0) + ":"@ + json_text(m.last().1))
    }
}

/// The decimal text of a signed integer.
pub open spec fn signed_dec(n: i64) -> Seq<char> {
    if n < 0 {
        "-"@ + dec((-n) as nat)
    } else {
        dec(n as nat)
    }
}

/// Writes a signed integer in decimal.
pub fn signed_text(n: i64) -> (r: String)
    ensures
        r@ == signed_dec(n),
{
    if n < 0 {
        let m: u64 = (-(n + 1)) as u64 + 1;
        cat2("-", dec_text(m).as_str())
    } else {
        dec_text(n as u64)
    }
}

/// A JSON text.
pub fn text_json(s: &str) -> (r: Json)
    ensures
        r.tree() == JsonTree::Text(s@),
{
    Json::Text(s.to_owned())
}

/// An object of one member.
pub fn object1(k: &str, v: Json) -> (r: Json)
    ensures
        r.tree() == JsonTree::Object(seq![(k@, v.tree())]),
{
    let mut m: Vec<(String, Json)> = Vec::new();
    m.push((k.to_owned(), v));
    let r = Json::Object(m);
    proof {
        lemma_object(r);
        assert(members(m@) =~= seq![(k@, v.tree())]);
    }
    r
}

/// The members of an object, with one more at the end.
pub open spec fn with_member(t: JsonTree, k: Seq<char>, v: JsonTree) -> JsonTree {
    match t {
        JsonTree::Object(m) => JsonTree::Object(m.push((k, v))),
        _ => t,
    }
}

/// Adds a member at the end of an object; any other value is handed back.
pub fn add_member(j: Json, k: &str, v: Json) -> (r: Json)
    ensures
        r.tree() == with_member(j.tree(), k@, v.tree()),
{
    match j {
        Json::Object(m0) => {
            let mut m = m0;
            let ghost before = m@;
            m.push((k.to_owned(), v));
            let r = Json::Object(m);
            proof {
                lemma_object(j);
                lemma_object(r);
                assert(members(m@) =~= members(before).push((k@, v.tree())));
            }
            r
        },
        other => other,
    }
}

proof fn lemma_member_from(m: Seq<(Seq<char>, JsonTree)>, key: Seq<char>, i: int)
    requires
        0 <= i,
    ensures
        match member_from(m, key, i) {
            Some(v) => exists|k: int| i <= k < m.len() && #[trigger] m[k] == (key, v) && (forall|
                j: int,
            |
                i <= j < k ==> (#[trigger] m[j]).0 != key),
            None => forall|j: int| i <= j < m.len() ==> (#[trigger] m[j]).0 != key,
        },
    decreases m.len() - i,
{
    if i < m.len() {
        if m[i].0 == key {
            assert(m[i] == (key, m[i].1));
        } else {
            lemma_member_from(m, key, i + 1);
            if member_from(m, key, i + 1) is Some {
                let v = member_from(m, key, i + 1)->0;
                let k = choose|k: int|
                    i + 1 <= k < m.len() && #[trigger] m[k] == (key, v) && (forall|j: int|
                        i + 1 <= j < k ==> (#[trigger] m[j]).0 != key);
                assert(m[k] == (key, v));
            }
        }
    }
}

/// The member of an object under a name is the first one that has this name, and there is one
/// exactly where some member has it. Other values have no members.
pub proof fn law_member_is_the_first_of_its_name(t: JsonTree, key: Seq<char>)
    ensures
        match (t, t.get(key)) {
            (JsonTree::Object(m), Some(v)) => exists|k: int|
                0 <= k < m.len() && #[trigger] m[k] == (key, v) && (forall|j: int|
                    0 <= j < k ==> (#[trigger] m[j]).0 != key),
            (JsonTree::Object(m), None) => forall|j: int|
                0 <= j < m.len() ==> (#[trigger] m[j]).0 != key,
            (_, r) => r is None,
        },
        t.text_of(key) is Some <==> t.get(key) is Some && t.get(key)->0 is Text,
        t.text_of(key) matches Some(s) ==> t.get(key) == Some(JsonTree::Text(s)),
        t.unsigned_of(key) is Some <==> t.get(key) is Some && t.get(key)->0 is Unsigned,
        t.unsigned_of(key) matches Some(n) ==> t.get(key) == Some(JsonTree::Unsigned(n)),
{
    if let JsonTree::Object(m) = t {
        lemma_member_from(m, key, 0);
    }
}

/// The member at `i` is the one its name gives, where no member before it has that name.
pub proof fn lemma_get(t: JsonTree, i: int)
    requires
        t is Object,
        0 <= i < t->Object_0.len(),
        forall|j: int| 0 <= j < i ==> (#[trigger] t->Object_0[j]).0 != t->Object_0[i].0,
    ensures
        t.get(t->Object_0[i].0) == Some(t->Object_0[i].1),
{
    let m = t->Object_0;
    lemma_member_from(m, m[i].0, 0);
    if t.get(m[i].0) is None {
        assert(m[i].0 != m[i].0);
    } else {
        let v = t.get(m[i].0)->0;
        let k = choose|k: int|
            0 <= k < m.len() && #[trigger] m[k] == (m[i].0, v) && (forall|j: int|
                0 <= j < k ==> (#[trigger] m[j]).0 != m[i].0);
        assert(k == i);
    }
}

/// A member that is put behind the others is found under its name, unless one of them has it, and
/// all the others are found as before.
pub proof fn lemma_get_with(t: JsonTree, k: Seq<char>, v: JsonTree, key: Seq<char>)
    requires
        t is Object,
    ensures
        with_member(t, k, v) is Object,
        with_member(t, k, v).get(key) == (if t.get(key) is None && key == k {
            Some(v)
        } else {
            t.get(key)
        }),
{
    let m = t->Object_0;
    let n = m.push((k, v));
    lemma_member_from(m, key, 0);
    lemma_member_from(n, key, 0);
    if t.get(key) is Some {
        let a = t.get(key)->0;
        let i = choose|i: int|
            0 <= i < m.len() && #[trigger] m[i] == (key, a) && (forall|j: int|
                0 <= j < i ==> (#[trigger] m[j]).0 != key);
        assert(n[i] == (key, a));
        assert forall|j: int| 0 <= j < i implies (#[trigger] n[j]).0 != key by {
            assert(n[j] == m[j]);
        }
        lemma_get(JsonTree::Object(n), i);
    } else {
        assert forall|j: int| 0 <= j < m.len() implies (#[trigger] n[j]).0 != key by {
            assert(n[j] == m[j]);
        }
        if key == k {
            lemma_get(JsonTree::Object(n), m.len() as int);
        }
    }
}

/// A value of one member.
pub proof fn lemma_get_one(k: Seq<char>, v: JsonTree, key: Seq<char>)
    ensures
        JsonTree::Object(seq![(k, v)]).get(key) == (if key == k {
            Some(v)
        } else {
            None
        }),
{
    reveal_with_fuel(member_from, 2);
}

// ---- serde_json ----

/// `serde_json`'s value type.
#[verifier::external_type_specification]
#[verifier::external_body]
pub struct ExValue(serde_json::Value);

/// What a `serde_json::Value` holds: arrays in order, the members of an object in the order in
/// which the value keeps them, integers by their value and other numbers by their text.
pub uninterp spec fn value_tree(v: serde_json::Value) -> JsonTree;

/// What `serde_json::from_str` makes of a text: the value, or the message of its error.
pub uninterp spec fn json_read(text: Seq<char>) -> Result<JsonTree, Seq<char>>;

/// `serde_json::from_str` into a `serde_json::Value`. The outcome is a function of the text
/// alone; an error is handed on as its message.
#[verifier::external_body]
fn value_from_str(text: &str) -> (r: Result<serde_json::Value, String>)
    ensures
        match r {
            Ok(v) => json_read(text@) == Ok::<JsonTree, Seq<char>>(value_tree(v)),
            Err(m) => json_read(text@) == Err::<JsonTree, Seq<char>>(m@),
        },
{
    serde_json::from_str::<serde_json::Value>(text).map_err(|e| e.to_string())
}

/// Takes a `serde_json::Value` apart, variant by variant, through `as_u64`, `as_i64` and
/// `to_string` of `serde_json::Number` for its numbers.
#[verifier::external_body]
fn json_of(v: &Value) -> (r: Json)
    ensures
        r.tree() == value_tree(*v),
{
    match v {
        Value::Null => Json::Null,
        Value::Bool(b) => Json::Bool(*b),
        Value::Number(n) => Json::Number(match (n.as_u64(), n.as_i64()) {
            (Some(u), _) => JsonNumber::Unsigned(u),
            (None, Some(i)) => JsonNumber::Negative(i),
            (None, None) => JsonNumber::Real(n.to_string()),
        }),
        Value::String(s) => Json::Text(s.clone()),
        Value::Array(a) => Json::Array(a.iter().map(json_of).collect()),
        Value::Object(m) => Json::Object(
            m.iter().map(|(k, x)| (k.clone(), json_of(x))).collect(),
        ),
    }
}

/// `serde_json::to_string` on a `str`, which writes the JSON string literal: quotation marks round
/// the characters, each as [`escaped`] says. Writing a string into memory does not fail.
#[verifier::external_body]
fn quote(s: &str) -> (r: String)
    ensures
        r@ == json_quoted(s@),
{
    serde_json::to_string(s).unwrap_or_default()
}

} // verus!
