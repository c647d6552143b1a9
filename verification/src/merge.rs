//! The merger: walks a value, puts the fragment that a `$ref` member points
//! to under the members written beside it, drops what `$exclude` names, and
//! lists the source files that the result depends on.

use vstd::prelude::*;
use crate::text::{chars_of, find_char, position, same_text, texts};
use crate::value::{
    copy_members, field, find_member, key_position, lemma_array_view, lemma_key_position, lemma_member_none,
    lemma_members_view, lemma_object_view, lemma_with_member_other, lemma_with_member_same, member,
    members_model, option_model, set_member, with_member, Json, StructuredValue,
};

verus! {

/// What one reference resolves to: the path of the source file, empty where
/// the file gave nothing, and the fragment addressed there, if any.
pub type Resolved = (Seq<char>, Option<Json>);

/// That which resolves references.
pub trait Resolver {
    /// What `reference` resolves to.
    spec fn resolution(&self, reference: Seq<char>) -> Resolved;

    /// Resolves `reference`.
    fn resolve(&self, reference: &str) -> (out: (String, Option<StructuredValue>))
        ensures
            (out.0@, option_model(out.1)) == self.resolution(reference@),
    ;
}

/// A resolver as a function from references to what they resolve to.
pub open spec fn resolver_of<R: Resolver>(resolver: &R) -> spec_fn(Seq<char>) -> Resolved {
    |reference: Seq<char>| resolver.resolution(reference)
}

/// The key of the member that holds a reference.
pub open spec fn ref_key() -> Seq<char> {
    "$ref"@
}

/// The key of the member that lists the names to leave out.
pub open spec fn exclude_key() -> Seq<char> {
    "$exclude"@
}

/// `key` is one of the two keys that direct the merger.
pub open spec fn is_marker(key: Seq<char>) -> bool {
    key == ref_key() || key == exclude_key()
}

/// The reference of an object: the text of its member `$ref`.
pub open spec fn reference_of(members: Seq<(Seq<char>, Json)>) -> Option<Seq<char>> {
    match member(members, ref_key()) {
        Some(Json::String(target)) => Some(target),
        _ => None,
    }
}

/// `name` holds a dot.
pub open spec fn dotted(name: Seq<char>) -> bool {
    position(name, '.') < name.len()
}

/// The names among the first `n` of `items` that are left out: the strings
/// without a dot.
pub open spec fn excluded_upto(items: Seq<Json>, n: nat) -> Seq<Seq<char>>
    decreases n,
{
    if n == 0 || n > items.len() {
        Seq::empty()
    } else {
        let so_far = excluded_upto(items, (n - 1) as nat);
        match items[n - 1] {
            Json::String(name) => if dotted(name) {
                so_far
            } else {
                so_far.push(name)
            },
            _ => so_far,
        }
    }
}

/// The names that an object leaves out of the fragment it refers to: the
/// strings without a dot in its member `$exclude`, where that is an array.
pub open spec fn excluded_names(members: Seq<(Seq<char>, Json)>) -> Seq<Seq<char>> {
    match member(members, exclude_key()) {
        Some(Json::Array(items)) => excluded_upto(items, items.len()),
        _ => Seq::empty(),
    }
}

/// Those of the first `n` of `members` whose key is not among `names`.
pub open spec fn kept_upto(members: Seq<(Seq<char>, Json)>, names: Seq<Seq<char>>, n: nat) -> Seq<
    (Seq<char>, Json),
>
    decreases n,
{
    if n == 0 || n > members.len() {
        Seq::empty()
    } else {
        let so_far = kept_upto(members, names, (n - 1) as nat);
        if names.contains(members[n - 1].0) {
            so_far
        } else {
            so_far.push(members[n - 1])
        }
    }
}

/// `members` without those whose key is among `names`.
pub open spec fn without(members: Seq<(Seq<char>, Json)>, names: Seq<Seq<char>>) -> Seq<
    (Seq<char>, Json),
> {
    kept_upto(members, names, members.len())
}

/// The members that a fragment brings: its own where it is an object, none
/// where it is missing or of another kind.
pub open spec fn base_of(fragment: Option<Json>) -> Seq<(Seq<char>, Json)> {
    match fragment {
        Some(Json::Object(members)) => members,
        _ => Seq::empty(),
    }
}

/// The member at `at` is one that the merger works on: its key is no marker
/// and stands at no earlier member.
pub open spec fn counts(members: Seq<(Seq<char>, Json)>, at: int) -> bool {
    !is_marker(members[at].0) && key_position(members, members[at].0) == at
}

/// The merged form of `v`. A scalar stays. Of an array only the first item
/// stays, merged. An object with a reference starts from the members of the
/// fragment, less the excluded names; one without starts from its own
/// members; the merged members of the object are then laid over that.
pub open spec fn merged(v: Json, r: spec_fn(Seq<char>) -> Resolved) -> Json
    decreases v, 0nat,
{
    match v {
        Json::Array(items) => if items.len() == 0 {
            v
        } else {
            Json::Array(seq![merged(items[0], r)])
        },
        Json::Object(members) => Json::Object(
            overlaid(start_of(members, r), members, r, members.len()),
        ),
        _ => v,
    }
}

/// The members that the merged form of an object starts from.
pub open spec fn start_of(members: Seq<(Seq<char>, Json)>, r: spec_fn(Seq<char>) -> Resolved) -> Seq<
    (Seq<char>, Json),
> {
    match reference_of(members) {
        Some(target) => without(base_of(r(target).1), excluded_names(members)),
        None => members,
    }
}

/// `base` with the first `n` of `members` laid over it: each member that
/// counts is bound to its merged value.
pub open spec fn overlaid(
    base: Seq<(Seq<char>, Json)>,
    members: Seq<(Seq<char>, Json)>,
    r: spec_fn(Seq<char>) -> Resolved,
    n: nat,
) -> Seq<(Seq<char>, Json)>
    decreases members, n,
{
    if n == 0 || n > members.len() {
        base
    } else {
        let so_far = overlaid(base, members, r, (n - 1) as nat);
        if counts(members, n - 1) {
            with_member(so_far, members[n - 1].0, merged(members[n - 1].1, r))
        } else {
            so_far
        }
    }
}

/// The source files that the merged form of `v` depends on, in the order in
/// which the merger meets the references; a reference that gave nothing
/// stands in the list as an empty path.
pub open spec fn dependencies(v: Json, r: spec_fn(Seq<char>) -> Resolved) -> Seq<Seq<char>>
    decreases v, 0nat,
{
    match v {
        Json::Array(items) => if items.len() == 0 {
            Seq::empty()
        } else {
            dependencies(items[0], r)
        },
        Json::Object(members) => own_dependency(members, r) + member_dependencies(
            members,
            r,
            members.len(),
        ),
        _ => Seq::empty(),
    }
}

/// The source file of the reference of an object itself.
pub open spec fn own_dependency(members: Seq<(Seq<char>, Json)>, r: spec_fn(Seq<char>) -> Resolved) -> Seq<
    Seq<char>,
> {
    match reference_of(members) {
        Some(target) => seq![r(target).0],
        None => Seq::empty(),
    }
}

/// The source files that the first `n` of `members` depend on.
pub open spec fn member_dependencies(
    members: Seq<(Seq<char>, Json)>,
    r: spec_fn(Seq<char>) -> Resolved,
    n: nat,
) -> Seq<Seq<char>>
    decreases members, n,
{
    if n == 0 || n > members.len() {
        Seq::empty()
    } else {
        let so_far = member_dependencies(members, r, (n - 1) as nat);
        if counts(members, n - 1) {
            so_far + dependencies(members[n - 1].1, r)
        } else {
            so_far
        }
    }
}

/// Whether `key` is one of the two keys that direct the merger.
pub fn is_marker_key(key: &str) -> (out: bool)
    ensures
        out == is_marker(key@),
{
    same_text(key, "$ref") || same_text(key, "$exclude")
}

/// The reference of an object with the members `members`.
pub fn reference_target(members: &Vec<(String, StructuredValue)>) -> (out: Option<&String>)
    ensures
        match out {
            Some(target) => reference_of(members_model(*members)) == Some(target@),
            None => reference_of(members_model(*members)) is None,
        },
{
    let at = find_member(members, "$ref");
    proof {
        lemma_members_view(*members, members@.len());
    }
    if at < members.len() {
        members[at].1.as_str()
    } else {
        None
    }
}

/// The names that an object with the members `members` leaves out.
pub fn excluded(members: &Vec<(String, StructuredValue)>) -> (names: Vec<String>)
    ensures
        texts(names@) == excluded_names(members_model(*members)),
{
    let mut names: Vec<String> = Vec::new();
    let at = find_member(members, "$exclude");
    proof {
        lemma_members_view(*members, members@.len());
    }
    if at < members.len() {
        if let StructuredValue::Array(items) = &members[at].1 {
            proof {
                lemma_array_view(*items);
            }
            let ghost models = members[at as int].1@->Array_0;
            let mut i: usize = 0;
            assert(texts(names@) =~= excluded_upto(models, 0));
            while i < items.len()
                invariant
                    i <= items.len(),
                    models.len() == items@.len(),
                    forall|j: int| 0 <= j < items@.len() ==> models[j] == #[trigger] items@[j]@,
                    texts(names@) == excluded_upto(models, i as nat),
                decreases items.len() - i,
            {
                assert(models[i as int] == items@[i as int]@);
                if let StructuredValue::String(name) = &items[i] {
                    assert(models[i as int] == Json::String(name@));
                    let chars = chars_of(name.as_str());
                    if find_char(&chars, '.') >= chars.len() {
                        let ghost before = names@;
                        names.push(name.clone());
                        assert(texts(names@) =~= texts(before).push(name@));
                    }
                } else {
                    assert(!(models[i as int] is String));
                }
                i += 1;
            }
            return names;
        }
    }
    assert(texts(names@) =~= Seq::<Seq<char>>::empty());
    names
}

/// Whether `key` is among `names`.
pub fn is_listed(names: &Vec<String>, key: &str) -> (out: bool)
    ensures
        out == texts(names@).contains(key@),
{
    let mut i: usize = 0;
    while i < names.len()
        invariant
            i <= names.len(),
            forall|j: int| 0 <= j < i ==> texts(names@)[j] != key@,
        decreases names.len() - i,
    {
        if same_text(names[i].as_str(), key) {
            assert(texts(names@)[i as int] == key@);
            return true;
        }
        i += 1;
    }
    false
}

/// Copies of those of `members` whose key is not among `names`.
pub fn keep_members(members: &Vec<(String, StructuredValue)>, names: &Vec<String>) -> (out: Vec<
    (String, StructuredValue),
>)
    ensures
        members_model(out) == without(members_model(*members), texts(names@)),
{
    let mut out: Vec<(String, StructuredValue)> = Vec::new();
    let mut i: usize = 0;
    proof {
        lemma_members_view(*members, members@.len());
        lemma_members_view(out, 0);
        assert(members_model(out) =~= kept_upto(members_model(*members), texts(names@), 0));
    }
    while i < members.len()
        invariant
            i <= members.len(),
            members_model(*members).len() == members@.len(),
            forall|j: int|
                0 <= j < members@.len() ==> #[trigger] members_model(*members)[j] == (
                    members@[j].0@,
                    members@[j].1@,
                ),
            members_model(out) == kept_upto(members_model(*members), texts(names@), i as nat),
        decreases members.len() - i,
    {
        if !is_listed(names, members[i].0.as_str()) {
            let ghost before = out;
            out.push((members[i].0.clone(), members[i].1.duplicate()));
            proof {
                lemma_members_view(before, before@.len());
                lemma_members_view(out, out@.len());
                assert(members_model(out) =~= members_model(before).push(
                    members_model(*members)[i as int],
                ));
            }
        }
        i += 1;
    }
    out
}

/// The members that a fragment brings.
pub fn base_members(fragment: Option<StructuredValue>) -> (out: Vec<(String, StructuredValue)>)
    ensures
        members_model(out) == base_of(option_model(fragment)),
{
    match fragment {
        Some(StructuredValue::Object(members)) => {
            proof {
                lemma_object_view(members);
                lemma_members_view(members, members@.len());
                assert(members_model(members) =~= StructuredValue::Object(members)@->Object_0);
            }
            members
        },
        _ => {
            let out: Vec<(String, StructuredValue)> = Vec::new();
            proof {
                lemma_members_view(out, 0);
                assert(members_model(out) =~= Seq::<(Seq<char>, Json)>::empty());
            }
            out
        },
    }
}

/// The text lists of two lists of strings, one after the other.
pub proof fn lemma_texts_add(a: Seq<String>, b: Seq<String>)
    ensures
        texts(a + b) == texts(a) + texts(b),
{
    assert(texts(a + b) =~= texts(a) + texts(b));
}

/// Merges `value`, resolving each reference with `resolver`. Gives the source
/// files that the result depends on, and the result.
#[verifier::loop_isolation(false)]
pub fn merge_with<R: Resolver>(value: &StructuredValue, resolver: &R) -> (out: (
    Vec<String>,
    StructuredValue,
))
    ensures
        texts(out.0@) == dependencies(value@, resolver_of(resolver)),
        out.1@ == merged(value@, resolver_of(resolver)),
    decreases value,
{
    let ghost r = resolver_of(resolver);
    match value {
        StructuredValue::Array(items) => {
            proof {
                lemma_array_view(*items);
            }
            if items.len() == 0 {
                let deps: Vec<String> = Vec::new();
                assert(texts(deps@) =~= Seq::<Seq<char>>::empty());
                (deps, value.duplicate())
            } else {
                let (deps, first) = merge_with(&items[0], resolver);
                let mut out: Vec<StructuredValue> = Vec::new();
                out.push(first);
                proof {
                    lemma_array_view(out);
                    assert(StructuredValue::Array(out)@->Array_0 =~= seq![merged(items@[0]@, r)]);
                }
                (deps, StructuredValue::Array(out))
            }
        },
        StructuredValue::Object(members) => {
            proof {
                lemma_object_view(*members);
                lemma_members_view(*members, members@.len());
            }
            let ghost models = members_model(*members);
            assert(models =~= value@->Object_0);
            let mut deps: Vec<String> = Vec::new();
            let mut base: Vec<(String, StructuredValue)>;
            match reference_target(members) {
                Some(target) => {
                    let (source, fragment) = resolver.resolve(target.as_str());
                    deps.push(source);
                    let names = excluded(members);
                    let brought = base_members(fragment);
                    base = keep_members(&brought, &names);
                    assert(texts(deps@) =~= own_dependency(models, r));
                },
                None => {
                    base = copy_members(members);
                    assert(texts(deps@) =~= Seq::<Seq<char>>::empty());
                },
            }
            assert(members_model(base) == start_of(models, r));
            let ghost start = members_model(base);
            let ghost own = texts(deps@);
            let mut i: usize = 0;
            assert(texts(deps@) =~= own + member_dependencies(models, r, 0));
            while i < members.len()
                invariant
                    i <= members.len(),
                    members_model(base) == overlaid(start, models, r, i as nat),
                    texts(deps@) == own + member_dependencies(models, r, i as nat),
                decreases members.len() - i,
            {
                let key = &members[i].0;
                if !is_marker_key(key.as_str()) && find_member(members, key.as_str()) == i {
                    let (mut more, resolved) = merge_with(&members[i].1, resolver);
                    let ghost before = deps@;
                    let ghost added = more@;
                    deps.append(&mut more);
                    proof {
                        lemma_texts_add(before, added);
                        assert(own + member_dependencies(models, r, i as nat) + texts(added)
                            =~= own + (member_dependencies(models, r, i as nat) + texts(added)));
                    }
                    set_member(&mut base, key.clone(), resolved);
                }
                i += 1;
            }
            proof {
                lemma_object_view(base);
                lemma_members_view(base, base@.len());
                assert(StructuredValue::Object(base)@->Object_0 =~= members_model(base));
            }
            (deps, StructuredValue::Object(base))
        },
        _ => {
            let deps: Vec<String> = Vec::new();
            assert(texts(deps@) =~= Seq::<Seq<char>>::empty());
            (deps, value.duplicate())
        },
    }
}

/// Once the member at `at` was laid over, its key stays bound to its merged
/// value.
proof fn lemma_overlaid_binds(
    base: Seq<(Seq<char>, Json)>,
    members: Seq<(Seq<char>, Json)>,
    r: spec_fn(Seq<char>) -> Resolved,
    n: nat,
    at: int,
)
    requires
        0 <= at < n <= members.len(),
        counts(members, at),
    ensures
        member(overlaid(base, members, r, n), members[at].0) == Some(merged(members[at].1, r)),
    decreases n,
{
    let so_far = overlaid(base, members, r, (n - 1) as nat);
    if n - 1 == at {
        lemma_with_member_same(so_far, members[at].0, merged(members[at].1, r));
    } else {
        lemma_overlaid_binds(base, members, r, (n - 1) as nat, at);
        if counts(members, n - 1) {
            lemma_with_member_other(
                so_far,
                members[n - 1].0,
                merged(members[n - 1].1, r),
                members[at].0,
            );
        }
    }
}

/// A key that neither `base` nor `members` bind is not bound after the
/// members were laid over the base.
proof fn lemma_overlaid_lacks(
    base: Seq<(Seq<char>, Json)>,
    members: Seq<(Seq<char>, Json)>,
    r: spec_fn(Seq<char>) -> Resolved,
    n: nat,
    key: Seq<char>,
)
    requires
        n <= members.len(),
        member(base, key) is None,
        member(members, key) is None,
    ensures
        member(overlaid(base, members, r, n), key) is None,
    decreases n,
{
    if n > 0 {
        lemma_overlaid_lacks(base, members, r, (n - 1) as nat, key);
        lemma_member_none(members, key);
        if counts(members, n - 1) {
            lemma_with_member_other(
                overlaid(base, members, r, (n - 1) as nat),
                members[n - 1].0,
                merged(members[n - 1].1, r),
                key,
            );
        }
    }
}

/// What is kept holds no member whose key is among the names left out.
proof fn lemma_kept_lacks(
    members: Seq<(Seq<char>, Json)>,
    names: Seq<Seq<char>>,
    n: nat,
    key: Seq<char>,
)
    requires
        n <= members.len(),
        names.contains(key),
    ensures
        member(kept_upto(members, names, n), key) is None,
    decreases n,
{
    let kept = kept_upto(members, names, n);
    lemma_member_none(kept, key);
    if n > 0 {
        let so_far = kept_upto(members, names, (n - 1) as nat);
        lemma_kept_lacks(members, names, (n - 1) as nat, key);
        lemma_member_none(so_far, key);
        assert forall|i: int| 0 <= i < kept.len() implies (#[trigger] kept[i]).0 != key by {
            if i < so_far.len() {
                assert(kept[i] == so_far[i]);
            }
        }
    }
}

/// A string without a dot among the first `n` of `items` is among the names
/// left out.
proof fn lemma_excluded_holds(items: Seq<Json>, n: nat, name: Seq<char>, at: int)
    requires
        0 <= at < n <= items.len(),
        items[at] == Json::String(name),
        !dotted(name),
    ensures
        excluded_upto(items, n).contains(name),
    decreases n,
{
    let so_far = excluded_upto(items, (n - 1) as nat);
    if n - 1 == at {
        assert(excluded_upto(items, n) == so_far.push(name));
        assert(so_far.push(name)[so_far.len() as int] == name);
    } else {
        lemma_excluded_holds(items, (n - 1) as nat, name, at);
        let i = choose|i: int| 0 <= i < so_far.len() && so_far[i] == name;
        assert(excluded_upto(items, n)[i] == name);
    }
}

/// Precedence: a member written in an object keeps its own merged value in
/// the merged object, whatever the fragment that the object refers to holds
/// under the same key.
pub proof fn law_local_member_wins(
    members: Seq<(Seq<char>, Json)>,
    r: spec_fn(Seq<char>) -> Resolved,
    key: Seq<char>,
    local: Json,
)
    requires
        member(members, key) == Some(local),
        !is_marker(key),
    ensures
        field(merged(Json::Object(members), r), key) == Some(merged(local, r)),
{
    lemma_key_position(members, key, 0);
    lemma_overlaid_binds(
        start_of(members, r),
        members,
        r,
        members.len(),
        key_position(members, key),
    );
}

/// Exclusion: where an object has a reference, names `name` in its member
/// `$exclude` and does not bind `name` itself, the merged object has no
/// member `name`. A name with a dot in it is not left out, and is no case of
/// this law.
pub proof fn law_excluded_member_absent(
    members: Seq<(Seq<char>, Json)>,
    r: spec_fn(Seq<char>) -> Resolved,
    items: Seq<Json>,
    name: Seq<char>,
)
    requires
        reference_of(members) is Some,
        member(members, exclude_key()) == Some(Json::Array(items)),
        items.contains(Json::String(name)),
        !dotted(name),
        member(members, name) is None,
    ensures
        field(merged(Json::Object(members), r), name) is None,
{
    let at = choose|i: int| 0 <= i < items.len() && items[i] == Json::String(name);
    lemma_excluded_holds(items, items.len(), name, at);
    let brought = base_of(r(reference_of(members)->0).1);
    lemma_kept_lacks(brought, excluded_names(members), brought.len(), name);
    lemma_overlaid_lacks(start_of(members, r), members, r, members.len(), name);
}

/// Array template: of an array that is not empty, the merged form is the
/// array of one item, the merged form of the first.
pub proof fn law_array_keeps_first(items: Seq<Json>, r: spec_fn(Seq<char>) -> Resolved)
    requires
        items.len() > 0,
    ensures
        merged(Json::Array(items), r) == Json::Array(seq![merged(items[0], r)]),
        merged(Json::Array(items), r)->Array_0.len() == 1,
{
}

} // verus!
