//! The bridge to `serde_json`: parsing text, looking a pointer up and printing
//! a value are done by that crate; the conversions between its values and
//! [`StructuredValue`] are verified, one level of the tree at a time.

use vstd::prelude::*;
use crate::value::{
    find_member, key_position, lemma_array_view, lemma_members_view, lemma_object_view,
    members_model, Json, Number, StructuredValue,
};

verus! {

#[verifier::external_type_specification]
#[verifier::external_body]
pub struct ExJsonValue(serde_json::Value);

/// One level of a `serde_json` value: its variant, with the children still
/// in the outside form.
pub(crate) enum Node {
    Null,
    Bool(bool),
    Number(Number),
    String(String),
    Array(Vec<serde_json::Value>),
    Object(Vec<(String, serde_json::Value)>),
}

/// What a `serde_json` value holds. Members of an object come in the order in
/// which its map hands them out.
pub uninterp spec fn json_content(j: serde_json::Value) -> Json;

/// What the `serde_json` value holds that is built from one level whose
/// children hold the children of `level`.
pub uninterp spec fn packed(level: Json) -> Json;

/// What `serde_json` reads from a text: the value's content, or `None` where
/// the text is no JSON document.
pub uninterp spec fn parsed(text: Seq<char>) -> Option<Json>;

/// The content that a JSON pointer addresses inside a value's content, if any.
pub uninterp spec fn pointer_target(root: Json, pointer: Seq<char>) -> Option<Json>;

/// The compact JSON text of a value's content.
pub uninterp spec fn json_text(content: Json) -> Seq<char>;

/// The content of one level, given by the contents of its children.
pub(crate) open spec fn node_content(node: Node) -> Json {
    match node {
        Node::Null => Json::Null,
        Node::Bool(b) => Json::Bool(b),
        Node::Number(n) => Json::Number(n@),
        Node::String(s) => Json::String(s@),
        Node::Array(items) => Json::Array(
            Seq::new(items@.len(), |i: int| json_content(items@[i])),
        ),
        Node::Object(members) => Json::Object(members_content(members)),
    }
}

/// Takes one level off a `serde_json::Value`: tells its variants apart and
/// hands out what each holds. A number is `Int` exactly where
/// `serde_json::Number::as_i64` gives one, and is held as the text that its
/// `Display` prints otherwise; the members of an object come as
/// `serde_json::Map::iter` hands them out. The claim is that the level so
/// taken, with the contents of its children, is the content of the value.
#[verifier::external_body]
fn unpack(j: &serde_json::Value) -> (node: Node)
    ensures
        node_content(node) == json_content(*j),
{
    match j {
        serde_json::Value::Null => Node::Null,
        serde_json::Value::Bool(b) => Node::Bool(*b),
        serde_json::Value::Number(n) => Node::Number(
            match n.as_i64() {
                Some(i) => Number::Int(i),
                None => Number::Text(n.to_string()),
            },
        ),
        serde_json::Value::String(s) => Node::String(s.clone()),
        serde_json::Value::Array(items) => Node::Array(items.clone()),
        serde_json::Value::Object(map) => Node::Object(
            map.iter().map(|(k, v)| (k.clone(), v.clone())).collect(),
        ),
    }
}

/// Builds a `serde_json::Value` from one level: an integer by
/// `serde_json::Number::from`, any other number by
/// `serde_json::Number::from_str`, where a text that it refuses becomes
/// `null`, and the members of an object by collecting them into a
/// `serde_json::Map`. The claim is only that the content of the result is a
/// function of the level and of the contents of its children.
#[verifier::external_body]
fn pack(node: Node) -> (j: serde_json::Value)
    ensures
        json_content(j) == packed(node_content(node)),
{
    match node {
        Node::Null => serde_json::Value::Null,
        Node::Bool(b) => serde_json::Value::Bool(b),
        Node::Number(Number::Int(i)) => serde_json::Value::Number(serde_json::Number::from(i)),
        Node::Number(Number::Text(t)) => match t.parse::<serde_json::Number>() {
            Ok(n) => serde_json::Value::Number(n),
            Err(_) => serde_json::Value::Null,
        },
        Node::String(s) => serde_json::Value::String(s),
        Node::Array(items) => serde_json::Value::Array(items),
        Node::Object(members) => serde_json::Value::Object(members.into_iter().collect()),
    }
}

/// `serde_json::from_str` for a `serde_json::Value`: the value read, or `None`
/// where the parser reports an error.
#[verifier::external_body]
fn parse_json(text: &str) -> (out: Option<serde_json::Value>)
    ensures
        match out {
            Some(j) => parsed(text@) == Some(json_content(j)),
            None => parsed(text@) is None,
        },
{
    match serde_json::from_str::<serde_json::Value>(text) {
        Ok(j) => Some(j),
        Err(_) => None,
    }
}

/// `serde_json::Value::pointer`: a copy of the value that the JSON pointer
/// addresses, or `None` where it addresses nothing.
#[verifier::external_body]
fn pointer_json(root: &serde_json::Value, pointer: &str) -> (out: Option<serde_json::Value>)
    ensures
        match out {
            Some(j) => pointer_target(json_content(*root), pointer@) == Some(json_content(j)),
            None => pointer_target(json_content(*root), pointer@) is None,
        },
{
    root.pointer(pointer).cloned()
}

/// The `Display` of `serde_json::Value`: its compact JSON text.
#[verifier::external_body]
fn display_json(j: &serde_json::Value) -> (text: String)
    ensures
        text@ == json_text(json_content(*j)),
{
    j.to_string()
}

/// The value that a `serde_json` value holds.
fn decode(j: &serde_json::Value) -> (out: StructuredValue)
    ensures
        out@ == json_content(*j),
    decreases json_content(*j),
{
    match unpack(j) {
        Node::Null => StructuredValue::Null,
        Node::Bool(b) => StructuredValue::Bool(b),
        Node::Number(n) => StructuredValue::Number(n),
        Node::String(s) => StructuredValue::String(s),
        Node::Array(items) => {
            let mut out: Vec<StructuredValue> = Vec::new();
            let mut i: usize = 0;
            while i < items.len()
                invariant
                    i <= items.len(),
                    out.len() == i,
                    json_content(*j) == node_content(Node::Array(items)),
                    forall|k: int| 0 <= k < i ==> out@[k]@ == json_content(items@[k]),
                decreases items.len() - i,
            {
                proof {
                    let elements = json_content(*j)->Array_0;
                    assert(elements[i as int] == json_content(items@[i as int]));
                    assert(decreases_to!(json_content(*j) => elements[i as int]));
                }
                out.push(decode(&items[i]));
                i += 1;
            }
            proof {
                lemma_array_view(out);
                assert(StructuredValue::Array(out)@->Array_0 =~= json_content(*j)->Array_0);
            }
            StructuredValue::Array(out)
        },
        Node::Object(members) => {
            let mut out: Vec<(String, StructuredValue)> = Vec::new();
            let mut i: usize = 0;
            while i < members.len()
                invariant
                    i <= members.len(),
                    out.len() == i,
                    json_content(*j) == node_content(Node::Object(members)),
                    forall|k: int|
                        0 <= k < i ==> out@[k].0@ == members@[k].0@ && out@[k].1@ == json_content(
                            members@[k].1,
                        ),
                decreases members.len() - i,
            {
                proof {
                    let pairs = json_content(*j)->Object_0;
                    assert(pairs[i as int].1 == json_content(members@[i as int].1));
                    assert(decreases_to!(json_content(*j) => pairs[i as int].1));
                }
                out.push((members[i].0.clone(), decode(&members[i].1)));
                i += 1;
            }
            proof {
                lemma_object_view(out);
                assert(StructuredValue::Object(out)@->Object_0 =~= json_content(*j)->Object_0);
            }
            StructuredValue::Object(out)
        },
    }
}

/// The value that a text holds, read as JSON.
pub fn parse_value(text: &str) -> (out: Option<StructuredValue>)
    ensures
        match out {
            Some(v) => parsed(text@) == Some(v@),
            None => parsed(text@) is None,
        },
{
    match parse_json(text) {
        Some(j) => Some(decode(&j)),
        None => None,
    }
}

/// The content of the `serde_json` value that is built from a value, level by
/// level from the leaves up.
pub open spec fn canonical(v: Json) -> Json
    decreases v, 0nat,
{
    match v {
        Json::Array(items) => packed(Json::Array(canonical_items(items, items.len()))),
        Json::Object(members) => packed(
            Json::Object(canonical_members(members, members.len())),
        ),
        _ => packed(v),
    }
}

/// `canonical` of each of the first `n` of `items`.
pub open spec fn canonical_items(items: Seq<Json>, n: nat) -> Seq<Json>
    decreases items, n,
{
    if n == 0 || n > items.len() {
        Seq::empty()
    } else {
        canonical_items(items, (n - 1) as nat).push(canonical(items[n - 1]))
    }
}

/// Those of the first `n` of `members` whose key stands at no earlier
/// member, each with `canonical` of its value.
pub open spec fn canonical_members(members: Seq<(Seq<char>, Json)>, n: nat) -> Seq<
    (Seq<char>, Json),
>
    decreases members, n,
{
    if n == 0 || n > members.len() {
        Seq::empty()
    } else {
        let so_far = canonical_members(members, (n - 1) as nat);
        if key_position(members, members[n - 1].0) == n - 1 {
            so_far.push((members[n - 1].0, canonical(members[n - 1].1)))
        } else {
            so_far
        }
    }
}

/// The keys of `members` with the content of each value.
pub open spec fn members_content(members: Vec<(String, serde_json::Value)>) -> Seq<
    (Seq<char>, Json),
> {
    Seq::new(members@.len(), |i: int| (members@[i].0@, json_content(members@[i].1)))
}

proof fn lemma_canonical_items(items: Seq<Json>, n: nat)
    requires
        n <= items.len(),
    ensures
        canonical_items(items, n).len() == n,
        forall|i: int| 0 <= i < n ==> #[trigger] canonical_items(items, n)[i] == canonical(items[i]),
    decreases n,
{
    if n > 0 {
        lemma_canonical_items(items, (n - 1) as nat);
        assert(canonical_items(items, n) == canonical_items(items, (n - 1) as nat).push(
            canonical(items[n - 1]),
        ));
    } else {
        assert(canonical_items(items, n).len() == 0);
    }
}

/// The `serde_json` value built from a value.
#[verifier::loop_isolation(false)]
fn encode(v: &StructuredValue) -> (j: serde_json::Value)
    ensures
        json_content(j) == canonical(v@),
    decreases v,
{
    match v {
        StructuredValue::Null => pack(Node::Null),
        StructuredValue::Bool(b) => pack(Node::Bool(*b)),
        StructuredValue::Number(n) => pack(Node::Number(n.duplicate())),
        StructuredValue::String(s) => pack(Node::String(s.clone())),
        StructuredValue::Array(items) => {
            let mut out: Vec<serde_json::Value> = Vec::new();
            let mut i: usize = 0;
            while i < items.len()
                invariant
                    i <= items.len(),
                    out.len() == i,
                    forall|k: int| 0 <= k < i ==> json_content(out@[k]) == canonical(items@[k]@),
                decreases items.len() - i,
            {
                out.push(encode(&items[i]));
                i += 1;
            }
            let node = Node::Array(out);
            proof {
                lemma_array_view(*items);
                lemma_canonical_items(v@->Array_0, v@->Array_0.len());
                assert(node_content(node)->Array_0 =~= canonical_items(
                    v@->Array_0,
                    v@->Array_0.len(),
                ));
            }
            pack(node)
        },
        StructuredValue::Object(members) => {
            let mut out: Vec<(String, serde_json::Value)> = Vec::new();
            let mut i: usize = 0;
            proof {
                lemma_object_view(*members);
                lemma_members_view(*members, members@.len());
            }
            let ghost models = members_model(*members);
            assert(models =~= v@->Object_0);
            assert(members_content(out) =~= canonical_members(models, 0));
            while i < members.len()
                invariant
                    i <= members.len(),
                    members_content(out) == canonical_members(models, i as nat),
                decreases members.len() - i,
            {
                if find_member(members, members[i].0.as_str()) == i {
                    let ghost before = members_content(out);
                    let inner = encode(&members[i].1);
                    out.push((members[i].0.clone(), inner));
                    assert(members_content(out) =~= before.push(
                        (models[i as int].0, canonical(models[i as int].1)),
                    ));
                }
                i += 1;
            }
            pack(Node::Object(out))
        },
    }
}

/// The compact JSON text of a value.
pub fn render_json(v: &StructuredValue) -> (text: String)
    ensures
        text@ == json_text(canonical(v@)),
{
    let j = encode(v);
    display_json(&j)
}

/// What a document text holds at a JSON pointer.
#[derive(Debug, PartialEq, Eq)]
pub enum Fragment {
    /// The text is no JSON document.
    Unreadable,
    /// The text is a document, and the pointer addresses nothing in it.
    Absent,
    /// The value that the pointer addresses.
    Found(StructuredValue),
}

/// What the document read from `text` holds at `pointer`, by the model.
pub open spec fn fragment_at(text: Seq<char>, pointer: Seq<char>) -> Option<Option<Json>> {
    match parsed(text) {
        None => None,
        Some(root) => Some(pointer_target(root, pointer)),
    }
}

/// Reads `text` as a JSON document and looks `pointer` up in it.
pub fn read_fragment(text: &str, pointer: &str) -> (out: Fragment)
    ensures
        match out {
            Fragment::Unreadable => fragment_at(text@, pointer@) is None,
            Fragment::Absent => fragment_at(text@, pointer@) == Some(None::<Json>),
            Fragment::Found(v) => fragment_at(text@, pointer@) == Some(Some(v@)),
        },
{
    match parse_json(text) {
        None => Fragment::Unreadable,
        Some(root) => match pointer_json(&root, pointer) {
            None => Fragment::Absent,
            Some(j) => Fragment::Found(decode(&j)),
        },
    }
}

} // verus!
