//! Structured values: the trees that documents, fragments and resolved
//! fields are made of, and their mathematical model.

use vstd::prelude::*;
use crate::text::same_text;

verus! {

/// A number of a structured value.
#[derive(Debug, PartialEq, Eq)]
pub enum Number {
    /// An integer that fits in 64 bits with a sign.
    Int(i64),
    /// Any other number, held as its decimal text.
    Text(String),
}

/// A structured value. An object is a list of members; where a key occurs
/// more than once, the first member with that key is the one that counts.
#[derive(Debug, PartialEq, Eq)]
pub enum StructuredValue {
    Null,
    Bool(bool),
    Number(Number),
    String(String),
    Array(Vec<StructuredValue>),
    Object(Vec<(String, StructuredValue)>),
}

/// The model of a [`Number`].
pub enum JsonNumber {
    Int(i64),
    Text(Seq<char>),
}

/// The model of a [`StructuredValue`]: the same tree over sequences.
pub enum Json {
    Null,
    Bool(bool),
    Number(JsonNumber),
    String(Seq<char>),
    Array(Seq<Json>),
    Object(Seq<(Seq<char>, Json)>),
}

impl View for Number {
    type V = JsonNumber;

    open spec fn view(&self) -> JsonNumber {
        match self {
            Number::Int(i) => JsonNumber::Int(*i),
            Number::Text(t) => JsonNumber::Text(t@),
        }
    }
}

impl View for StructuredValue {
    type V = Json;

    open spec fn view(&self) -> Json
        decreases *self, 0nat,
    {
        match self {
            StructuredValue::Null => Json::Null,
            StructuredValue::Bool(b) => Json::Bool(*b),
            StructuredValue::Number(n) => Json::Number(n@),
            StructuredValue::String(s) => Json::String(s@),
            StructuredValue::Array(items) => Json::Array(items_view(*items, items@.len())),
            StructuredValue::Object(members) => Json::Object(
                members_view(*members, members@.len()),
            ),
        }
    }
}

/// The models of the first `n` of `items`.
pub open spec fn items_view(items: Vec<StructuredValue>, n: nat) -> Seq<Json>
    decreases items, n,
{
    if n == 0 || n > items@.len() {
        Seq::empty()
    } else {
        items_view(items, (n - 1) as nat).push(items@[n - 1]@)
    }
}

/// The models of the first `n` of `members`.
pub open spec fn members_view(members: Vec<(String, StructuredValue)>, n: nat) -> Seq<
    (Seq<char>, Json),
>
    decreases members, n,
{
    if n == 0 || n > members@.len() {
        Seq::empty()
    } else {
        members_view(members, (n - 1) as nat).push((members@[n - 1].0@, members@[n - 1].1@))
    }
}

/// `items_view` holds the model of each item at its place.
pub proof fn lemma_items_view(items: Vec<StructuredValue>, n: nat)
    requires
        n <= items@.len(),
    ensures
        items_view(items, n).len() == n,
        forall|i: int| 0 <= i < n ==> #[trigger] items_view(items, n)[i] == items@[i]@,
    decreases n,
{
    if n > 0 {
        lemma_items_view(items, (n - 1) as nat);
        let prev = items_view(items, (n - 1) as nat);
        assert(items_view(items, n) == prev.push(items@[n - 1]@));
    } else {
        assert(items_view(items, n).len() == 0);
    }
}

/// `members_view` holds the key and the model of each member at its place.
pub proof fn lemma_members_view(members: Vec<(String, StructuredValue)>, n: nat)
    requires
        n <= members@.len(),
    ensures
        members_view(members, n).len() == n,
        forall|i: int|
            0 <= i < n ==> #[trigger] members_view(members, n)[i] == (
                members@[i].0@,
                members@[i].1@,
            ),
    decreases n,
{
    if n > 0 {
        lemma_members_view(members, (n - 1) as nat);
        let prev = members_view(members, (n - 1) as nat);
        assert(members_view(members, n) == prev.push((members@[n - 1].0@, members@[n - 1].1@)));
    } else {
        assert(members_view(members, n).len() == 0);
    }
}

/// The model of an array holds the models of its items.
pub proof fn lemma_array_view(items: Vec<StructuredValue>)
    ensures
        StructuredValue::Array(items)@ is Array,
        StructuredValue::Array(items)@->Array_0.len() == items@.len(),
        forall|i: int|
            0 <= i < items@.len() ==> #[trigger] StructuredValue::Array(items)@->Array_0[i]
                == items@[i]@,
{
    lemma_items_view(items, items@.len());
}

/// The model of an object holds the keys and models of its members.
pub proof fn lemma_object_view(members: Vec<(String, StructuredValue)>)
    ensures
        StructuredValue::Object(members)@ is Object,
        StructuredValue::Object(members)@->Object_0.len() == members@.len(),
        forall|i: int|
            0 <= i < members@.len() ==> #[trigger] StructuredValue::Object(
                members,
            )@->Object_0[i] == (members@[i].0@, members@[i].1@),
{
    lemma_members_view(members, members@.len());
}

/// The model of a value that may be missing.
pub open spec fn option_model(v: Option<StructuredValue>) -> Option<Json> {
    match v {
        Some(value) => Some(value@),
        None => None,
    }
}

/// The members of an object, as the model has them.
pub open spec fn members_model(members: Vec<(String, StructuredValue)>) -> Seq<(Seq<char>, Json)> {
    members_view(members, members@.len())
}

/// The index, from `from` on, of the first member with the key `key`; the
/// number of members where there is none.
pub open spec fn key_position_from<K, V>(members: Seq<(K, V)>, key: K, from: int) -> int
    decreases members.len() - from,
{
    if from < 0 || from >= members.len() {
        members.len() as int
    } else if members[from].0 == key {
        from
    } else {
        key_position_from(members, key, from + 1)
    }
}

/// The index of the first member with the key `key`; the number of members
/// where there is none.
pub open spec fn key_position<K, V>(members: Seq<(K, V)>, key: K) -> int {
    key_position_from(members, key, 0)
}

/// The value that `members` bind to `key`: that of the first member with it.
pub open spec fn member(members: Seq<(Seq<char>, Json)>, key: Seq<char>) -> Option<Json> {
    if key_position(members, key) < members.len() {
        Some(members[key_position(members, key)].1)
    } else {
        None
    }
}

/// The value of the field `key` of `v`; `None` where `v` is no object or has
/// no such field.
pub open spec fn field(v: Json, key: Seq<char>) -> Option<Json> {
    match v {
        Json::Object(members) => member(members, key),
        _ => None,
    }
}

/// `members` with `key` bound to `value`: in place where `key` is bound
/// already, at the end otherwise.
pub open spec fn with_member(members: Seq<(Seq<char>, Json)>, key: Seq<char>, value: Json) -> Seq<
    (Seq<char>, Json),
> {
    if key_position(members, key) < members.len() {
        members.update(key_position(members, key), (key, value))
    } else {
        members.push((key, value))
    }
}

/// `key_position` is the least index that holds `key`.
pub proof fn lemma_key_position<K, V>(members: Seq<(K, V)>, key: K, from: int)
    requires
        0 <= from <= members.len(),
    ensures
        from <= key_position_from(members, key, from) <= members.len(),
        key_position_from(members, key, from) < members.len() ==> members[key_position_from(
            members,
            key,
            from,
        )].0 == key,
        forall|j: int| from <= j < key_position_from(members, key, from) ==> members[j].0 != key,
    decreases members.len() - from,
{
    if from < members.len() && members[from].0 != key {
        lemma_key_position(members, key, from + 1);
    }
}

/// The least index that holds `key` is `key_position`.
pub proof fn lemma_key_position_is<K, V>(members: Seq<(K, V)>, key: K, at: int)
    requires
        0 <= at <= members.len(),
        at < members.len() ==> members[at].0 == key,
        forall|j: int| 0 <= j < at ==> members[j].0 != key,
    ensures
        key_position(members, key) == at,
{
    lemma_key_position(members, key, 0);
}

impl Number {
    /// A copy of this number.
    pub fn duplicate(&self) -> (out: Number)
        ensures
            out@ == self@,
    {
        match self {
            Number::Int(i) => Number::Int(*i),
            Number::Text(t) => Number::Text(t.clone()),
        }
    }
}

impl StructuredValue {
    /// A copy of this value.
    #[verifier::loop_isolation(false)]
    pub fn duplicate(&self) -> (out: StructuredValue)
        ensures
            out@ == self@,
        decreases self,
    {
        match self {
            StructuredValue::Null => StructuredValue::Null,
            StructuredValue::Bool(b) => StructuredValue::Bool(*b),
            StructuredValue::Number(n) => StructuredValue::Number(n.duplicate()),
            StructuredValue::String(s) => StructuredValue::String(s.clone()),
            StructuredValue::Array(items) => {
                let mut out: Vec<StructuredValue> = Vec::new();
                let mut i: usize = 0;
                while i < items.len()
                    invariant
                        i <= items.len(),
                        out.len() == i,
                        forall|j: int| 0 <= j < i ==> out@[j]@ == items@[j]@,
                    decreases items.len() - i,
                {
                    out.push(items[i].duplicate());
                    i += 1;
                }
                proof {
                    lemma_array_view(out);
                    lemma_array_view(*items);
                    assert(StructuredValue::Array(out)@->Array_0 =~= self@->Array_0);
                }
                StructuredValue::Array(out)
            },
            StructuredValue::Object(members) => {
                let mut out: Vec<(String, StructuredValue)> = Vec::new();
                let mut i: usize = 0;
                while i < members.len()
                    invariant
                        i <= members.len(),
                        out.len() == i,
                        forall|j: int|
                            0 <= j < i ==> out@[j].0@ == members@[j].0@ && out@[j].1@
                                == members@[j].1@,
                    decreases members.len() - i,
                {
                    out.push((members[i].0.clone(), members[i].1.duplicate()));
                    i += 1;
                }
                proof {
                    lemma_object_view(out);
                    lemma_object_view(*members);
                    assert(StructuredValue::Object(out)@->Object_0 =~= self@->Object_0);
                }
                StructuredValue::Object(out)
            },
        }
    }
}

/// A key is bound to the value that was last given to it.
pub proof fn lemma_with_member_same(members: Seq<(Seq<char>, Json)>, key: Seq<char>, value: Json)
    ensures
        member(with_member(members, key, value), key) == Some(value),
{
    lemma_key_position(members, key, 0);
    let at = key_position(members, key);
    lemma_key_position_is(with_member(members, key, value), key, at);
}

/// Binding one key leaves what another key is bound to.
pub proof fn lemma_with_member_other(
    members: Seq<(Seq<char>, Json)>,
    key: Seq<char>,
    value: Json,
    other: Seq<char>,
)
    requires
        other != key,
    ensures
        member(with_member(members, key, value), other) == member(members, other),
{
    lemma_key_position(members, key, 0);
    lemma_key_position(members, other, 0);
    let at = key_position(members, other);
    let after = with_member(members, key, value);
    if at < members.len() {
        lemma_key_position_is(after, other, at);
    } else {
        lemma_key_position_is(after, other, after.len() as int);
    }
}

/// A key that no member has is bound to nothing, and the other way round.
pub proof fn lemma_member_none(members: Seq<(Seq<char>, Json)>, key: Seq<char>)
    ensures
        member(members, key) is None <==> (forall|i: int|
            0 <= i < members.len() ==> (#[trigger] members[i]).0 != key),
{
    lemma_key_position(members, key, 0);
}

/// The index of the first of `members` with the key `key`, or their number.
pub fn find_member(members: &Vec<(String, StructuredValue)>, key: &str) -> (at: usize)
    ensures
        at == key_position(members_model(*members), key@),
        at <= members.len(),
{
    let mut i: usize = 0;
    proof {
        lemma_members_view(*members, members@.len());
    }
    while i < members.len() && !same_text(members[i].0.as_str(), key)
        invariant
            i <= members.len(),
            members_model(*members).len() == members@.len(),
            forall|j: int|
                0 <= j < members@.len() ==> #[trigger] members_model(*members)[j] == (
                    members@[j].0@,
                    members@[j].1@,
                ),
            forall|j: int| 0 <= j < i ==> members_model(*members)[j].0 != key@,
        decreases members.len() - i,
    {
        i += 1;
    }
    proof {
        lemma_key_position_is(members_model(*members), key@, i as int);
    }
    i
}

impl StructuredValue {
    /// The value of the field `key`, where this is an object that has it.
    pub fn get(&self, key: &str) -> (out: Option<&StructuredValue>)
        ensures
            match out {
                Some(v) => field(self@, key@) == Some(v@),
                None => field(self@, key@) is None,
            },
    {
        match self {
            StructuredValue::Object(members) => {
                let at = find_member(members, key);
                proof {
                    lemma_members_view(*members, members@.len());
                }
                if at < members.len() {
                    Some(&members[at].1)
                } else {
                    None
                }
            },
            _ => None,
        }
    }

    /// The text, where this is a string.
    pub fn as_str(&self) -> (out: Option<&String>)
        ensures
            match out {
                Some(s) => self@ == Json::String(s@),
                None => !(self@ is String),
            },
    {
        match self {
            StructuredValue::String(s) => Some(s),
            _ => None,
        }
    }

    /// The truth value, where this is one.
    pub fn as_bool(&self) -> (out: Option<bool>)
        ensures
            match out {
                Some(b) => self@ == Json::Bool(b),
                None => !(self@ is Bool),
            },
    {
        match self {
            StructuredValue::Bool(b) => Some(*b),
            _ => None,
        }
    }

    /// The integer, where this is a number that is one.
    pub fn as_i64(&self) -> (out: Option<i64>)
        ensures
            match out {
                Some(i) => self@ == Json::Number(JsonNumber::Int(i)),
                None => !(self@ matches Json::Number(JsonNumber::Int(_))),
            },
    {
        match self {
            StructuredValue::Number(Number::Int(i)) => Some(*i),
            _ => None,
        }
    }
}

/// Binds `key` to `value` in `members`: in place where `key` is bound
/// already, at the end otherwise.
pub fn set_member(members: &mut Vec<(String, StructuredValue)>, key: String, value: StructuredValue)
    ensures
        members_model(*final(members)) == with_member(members_model(*old(members)), key@, value@),
{
    let at = find_member(members, key.as_str());
    proof {
        lemma_members_view(*members, members@.len());
    }
    let ghost before = *members;
    let ghost k = key@;
    let ghost v = value@;
    if at < members.len() {
        members.set(at, (key, value));
        proof {
            lemma_members_view(*members, members@.len());
            assert(members_model(*members) =~= members_model(before).update(at as int, (k, v)));
        }
    } else {
        members.push((key, value));
        proof {
            lemma_members_view(*members, members@.len());
            assert(members_model(*members) =~= members_model(before).push((k, v)));
        }
    }
}

/// Copies of `members`, in order.
pub fn copy_members(members: &Vec<(String, StructuredValue)>) -> (out: Vec<(String, StructuredValue)>)
    ensures
        members_model(out) == members_model(*members),
{
    let mut out: Vec<(String, StructuredValue)> = Vec::new();
    let mut i: usize = 0;
    while i < members.len()
        invariant
            i <= members.len(),
            out.len() == i,
            forall|j: int|
                0 <= j < i ==> out@[j].0@ == members@[j].0@ && out@[j].1@ == members@[j].1@,
        decreases members.len() - i,
    {
        out.push((members[i].0.clone(), members[i].1.duplicate()));
        i += 1;
    }
    proof {
        lemma_members_view(out, out@.len());
        lemma_members_view(*members, members@.len());
        assert(members_model(out) =~= members_model(*members));
    }
    out
}

} // verus!
