//! Notices: what a caller may want to tell the user about a document that
//! was resolved all the same. They are advice; the resolved values do not
//! depend on them.

use vstd::prelude::*;
use crate::codec::{parse_value, parsed};
use crate::db::{
    document_order, entries_of, entry_fragment, entry_reference, is_document, is_document_path,
    part, part_of, BasicData,
};
use crate::fields::truth_of;
use crate::merge::{
    counts, is_marker_key, reference_of, reference_target, resolver_of, Resolved, Resolver,
};
use crate::reference::{sources_model, SourceFile};
use crate::repair::{fix_json, repaired};
use crate::resolve::{document_resolver, DocumentResolver};
use crate::value::{
    field, find_member, lemma_array_view, lemma_members_view, lemma_object_view, members_model,
    Json, StructuredValue,
};

verus! {

/// One notice.
#[derive(Debug, PartialEq, Eq)]
pub enum Notice {
    /// An array without items was left as it is.
    EmptyArray,
    /// The reference, given here, resolved to no fragment: the file could not
    /// be read, is no document, or holds nothing at the dotted path.
    Unresolved(String),
    /// The fragment of the reference, given here, is no object, and was taken
    /// as the empty object.
    FragmentNotObject(String),
    /// The field with the key given here was passed over: a truth value was
    /// wanted and it holds a value of another kind.
    NotTruthValue(String),
}

/// The model of a [`Notice`].
pub enum NoticeModel {
    EmptyArray,
    Unresolved(Seq<char>),
    FragmentNotObject(Seq<char>),
    NotTruthValue(Seq<char>),
}

impl View for Notice {
    type V = NoticeModel;

    open spec fn view(&self) -> NoticeModel {
        match self {
            Notice::EmptyArray => NoticeModel::EmptyArray,
            Notice::Unresolved(reference) => NoticeModel::Unresolved(reference@),
            Notice::FragmentNotObject(reference) => NoticeModel::FragmentNotObject(reference@),
            Notice::NotTruthValue(key) => NoticeModel::NotTruthValue(key@),
        }
    }
}

/// The models of a list of notices.
pub open spec fn notice_models(notices: Seq<Notice>) -> Seq<NoticeModel> {
    Seq::new(notices.len(), |i: int| notices[i]@)
}

/// The notice on the fragment that `reference` resolved to, as the base of
/// an object.
pub open spec fn base_notices(reference: Seq<char>, fragment: Option<Json>) -> Seq<NoticeModel> {
    match fragment {
        None => seq![NoticeModel::Unresolved(reference)],
        Some(Json::Object(_)) => Seq::empty(),
        Some(_) => seq![NoticeModel::FragmentNotObject(reference)],
    }
}

/// The notice on the reference of an object itself.
pub open spec fn own_notices(members: Seq<(Seq<char>, Json)>, r: spec_fn(Seq<char>) -> Resolved) -> Seq<
    NoticeModel,
> {
    match reference_of(members) {
        Some(target) => base_notices(target, r(target).1),
        None => Seq::empty(),
    }
}

/// The notices that merging `v` gives, in the order of the walk.
pub open spec fn notices(v: Json, r: spec_fn(Seq<char>) -> Resolved) -> Seq<NoticeModel>
    decreases v, 0nat,
{
    match v {
        Json::Array(items) => if items.len() == 0 {
            seq![NoticeModel::EmptyArray]
        } else {
            notices(items[0], r)
        },
        Json::Object(members) => own_notices(members, r) + member_notices(
            members,
            r,
            members.len(),
        ),
        _ => Seq::empty(),
    }
}

/// The notices that merging the first `n` of `members` gives.
pub open spec fn member_notices(
    members: Seq<(Seq<char>, Json)>,
    r: spec_fn(Seq<char>) -> Resolved,
    n: nat,
) -> Seq<NoticeModel>
    decreases members, n,
{
    if n == 0 || n > members.len() {
        Seq::empty()
    } else {
        let so_far = member_notices(members, r, (n - 1) as nat);
        if counts(members, n - 1) {
            so_far + notices(members[n - 1].1, r)
        } else {
            so_far
        }
    }
}

/// The notice on one place where a truth value was looked for.
pub open spec fn truth_notices(key: Seq<char>, found: Option<Json>) -> Seq<NoticeModel> {
    match found {
        None => Seq::empty(),
        Some(Json::Bool(_)) => Seq::empty(),
        Some(_) => seq![NoticeModel::NotTruthValue(key)],
    }
}

/// The notices that resolving the truth field `key` gives: one for each
/// place that was looked at and holds a value of another kind.
pub open spec fn bool_notices(key: Seq<char>, local: Json, referred: Json, globals: Json) -> Seq<
    NoticeModel,
> {
    let first = truth_notices(key, field(local, key));
    if truth_of(field(local, key)) is Some {
        first
    } else {
        let second = first + truth_notices(key, field(referred, key));
        if truth_of(field(referred, key)) is Some {
            second
        } else {
            match field(globals, "api"@) {
                Some(defaults) => second + truth_notices(key, field(defaults, key)),
                None => second,
            }
        }
    }
}

/// The notices that resolving the endpoint entry `entry` gives: on its own
/// reference, on its field `auth`, and on its body, query and response.
pub open spec fn endpoint_notices(entry: Json, globals: Json, r: spec_fn(Seq<char>) -> Resolved) -> Seq<
    NoticeModel,
> {
    let referred = entry_fragment(entry, r);
    let own = match entry_reference(entry) {
        Some(target) => match r(target).1 {
            None => seq![NoticeModel::Unresolved(target)],
            Some(_) => Seq::empty(),
        },
        None => Seq::empty(),
    };
    own + bool_notices("auth"@, entry, referred, globals) + notices(
        part(entry, referred, "body"@),
        r,
    ) + notices(part(entry, referred, "query"@), r) + notices(
        part(entry, referred, "response"@),
        r,
    )
}

/// The notices that resolving the first `n` of `entries` gives.
pub open spec fn entries_notices(
    entries: Seq<Json>,
    globals: Json,
    r: spec_fn(Seq<char>) -> Resolved,
    n: nat,
) -> Seq<NoticeModel>
    decreases n,
{
    if n == 0 || n > entries.len() {
        Seq::empty()
    } else {
        entries_notices(entries, globals, r, (n - 1) as nat) + endpoint_notices(
            entries[n - 1],
            globals,
            r,
        )
    }
}

/// The notices on the file at `doc` with the text `text`: those of its
/// endpoint entries where it is a document that is taken, none otherwise.
pub open spec fn document_notices(
    doc: Seq<char>,
    text: Seq<char>,
    globals: Json,
    sources: Seq<(Seq<char>, Seq<char>)>,
) -> Seq<NoticeModel> {
    if !is_document_path(doc) {
        Seq::empty()
    } else {
        match parsed(repaired(text)) {
            None => Seq::empty(),
            Some(root) => if !(root is Object) || document_order(root) is None {
                Seq::empty()
            } else {
                entries_notices(
                    entries_of(root),
                    globals,
                    document_resolver(root, doc, sources),
                    entries_of(root).len(),
                )
            },
        }
    }
}

/// Appends the notices `more` to `notices`.
fn append_notices(notices: &mut Vec<Notice>, more: Vec<Notice>)
    ensures
        notice_models(final(notices)@) == notice_models(old(notices)@) + notice_models(more@),
{
    let mut more = more;
    let ghost before = notices@;
    let ghost added = more@;
    notices.append(&mut more);
    assert(notice_models(notices@) =~= notice_models(before) + notice_models(added));
}

/// The notice on the fragment that `reference` resolved to, as the base of
/// an object.
pub fn base_notice(reference: &str, fragment: &Option<StructuredValue>) -> (out: Vec<Notice>)
    ensures
        notice_models(out@) == base_notices(
            reference@,
            match *fragment {
                Some(v) => Some(v@),
                None => None,
            },
        ),
{
    let mut out: Vec<Notice> = Vec::new();
    match fragment {
        None => {
            out.push(Notice::Unresolved(reference.to_owned()));
            assert(notice_models(out@) =~= seq![NoticeModel::Unresolved(reference@)]);
        },
        Some(StructuredValue::Object(members)) => {
            proof {
                lemma_object_view(*members);
            }
            assert(notice_models(out@) =~= Seq::<NoticeModel>::empty());
        },
        Some(_) => {
            out.push(Notice::FragmentNotObject(reference.to_owned()));
            assert(notice_models(out@) =~= seq![NoticeModel::FragmentNotObject(reference@)]);
        },
    }
    out
}

/// The notices that merging `value` with `resolver` gives.
#[verifier::loop_isolation(false)]
pub fn merge_notices<R: Resolver>(value: &StructuredValue, resolver: &R) -> (out: Vec<Notice>)
    ensures
        notice_models(out@) == notices(value@, resolver_of(resolver)),
    decreases value,
{
    let ghost r = resolver_of(resolver);
    let mut out: Vec<Notice> = Vec::new();
    match value {
        StructuredValue::Array(items) => {
            proof {
                lemma_array_view(*items);
            }
            if items.len() == 0 {
                out.push(Notice::EmptyArray);
                assert(notice_models(out@) =~= seq![NoticeModel::EmptyArray]);
                out
            } else {
                merge_notices(&items[0], resolver)
            }
        },
        StructuredValue::Object(members) => {
            proof {
                lemma_object_view(*members);
                lemma_members_view(*members, members@.len());
            }
            let ghost models = members_model(*members);
            assert(models =~= value@->Object_0);
            if let Some(target) = reference_target(members) {
                let found = resolver.resolve(target.as_str());
                out = base_notice(target.as_str(), &found.1);
            } else {
                assert(notice_models(out@) =~= Seq::<NoticeModel>::empty());
            }
            let ghost own = notice_models(out@);
            assert(own == own_notices(models, r));
            assert(notice_models(out@) =~= own + member_notices(models, r, 0));
            let mut i: usize = 0;
            while i < members.len()
                invariant
                    i <= members.len(),
                    notice_models(out@) == own + member_notices(models, r, i as nat),
                decreases members.len() - i,
            {
                let key = &members[i].0;
                if !is_marker_key(key.as_str()) && find_member(members, key.as_str()) == i {
                    let more = merge_notices(&members[i].1, resolver);
                    let ghost added = notice_models(more@);
                    append_notices(&mut out, more);
                    assert(own + member_notices(models, r, i as nat) + added =~= own + (
                    member_notices(models, r, i as nat) + added));
                }
                i += 1;
            }
            out
        },
        _ => {
            assert(notice_models(out@) =~= Seq::<NoticeModel>::empty());
            out
        },
    }
}

/// The notice on one place where a truth value for `key` was looked for.
fn truth_notice(key: &str, found: Option<&StructuredValue>) -> (out: (Vec<Notice>, bool))
    ensures
        notice_models(out.0@) == truth_notices(
            key@,
            match found {
                Some(v) => Some(v@),
                None => None,
            },
        ),
        out.1 == (truth_of(
            match found {
                Some(v) => Some(v@),
                None => None,
            },
        ) is Some),
{
    let mut out: Vec<Notice> = Vec::new();
    match found {
        None => {
            assert(notice_models(out@) =~= Seq::<NoticeModel>::empty());
            (out, false)
        },
        Some(v) => match v.as_bool() {
            Some(_) => {
                assert(notice_models(out@) =~= Seq::<NoticeModel>::empty());
                (out, true)
            },
            None => {
                out.push(Notice::NotTruthValue(key.to_owned()));
                assert(notice_models(out@) =~= seq![NoticeModel::NotTruthValue(key@)]);
                (out, false)
            },
        },
    }
}

/// The notices that resolving the truth field `key` gives.
pub fn truth_field_notices(
    key: &str,
    api: &StructuredValue,
    ref_data: &StructuredValue,
    global_data: &StructuredValue,
) -> (out: Vec<Notice>)
    ensures
        notice_models(out@) == bool_notices(key@, api@, ref_data@, global_data@),
{
    let (mut out, done) = truth_notice(key, api.get(key));
    if done {
        return out;
    }
    let (second, done) = truth_notice(key, ref_data.get(key));
    append_notices(&mut out, second);
    if done {
        return out;
    }
    if let Some(defaults) = global_data.get("api") {
        let (third, _) = truth_notice(key, defaults.get(key));
        append_notices(&mut out, third);
    }
    out
}

/// The notices that resolving the endpoint entry `entry` gives.
pub fn entry_notices<R: Resolver>(
    entry: &StructuredValue,
    global_value: &StructuredValue,
    resolver: &R,
) -> (out: Vec<Notice>)
    ensures
        notice_models(out@) == endpoint_notices(entry@, global_value@, resolver_of(resolver)),
{
    let ghost r = resolver_of(resolver);
    let mut out: Vec<Notice> = Vec::new();
    let mut referred = StructuredValue::Null;
    let target = match entry.get("$ref") {
        Some(v) => v.as_str(),
        None => None,
    };
    if let Some(reference) = target {
        let (_, fragment) = resolver.resolve(reference.as_str());
        match fragment {
            Some(v) => {
                referred = v;
            },
            None => {
                out.push(Notice::Unresolved(reference.clone()));
            },
        }
    }
    assert(referred@ == entry_fragment(entry@, r));
    let ghost own = notice_models(out@);
    assert(own =~= match entry_reference(entry@) {
        Some(target) => match r(target).1 {
            None => seq![NoticeModel::Unresolved(target)],
            Some(_) => Seq::empty(),
        },
        None => Seq::empty(),
    });
    let auth = truth_field_notices("auth", entry, &referred, global_value);
    let body = merge_notices(&part_of(entry, &referred, "body"), resolver);
    let query = merge_notices(&part_of(entry, &referred, "query"), resolver);
    let response = merge_notices(&part_of(entry, &referred, "response"), resolver);
    append_notices(&mut out, auth);
    append_notices(&mut out, body);
    append_notices(&mut out, query);
    append_notices(&mut out, response);
    out
}

/// The notices on the file at `doc_file` with the text `text`, resolved
/// against the global defaults and `sources`.
pub fn notices_of_document(
    doc_file: &str,
    text: &str,
    basic_data: &BasicData,
    sources: &Vec<SourceFile>,
) -> (out: Vec<Notice>)
    ensures
        notice_models(out@) == document_notices(
            doc_file@,
            text@,
            basic_data.global_value@,
            sources_model(*sources),
        ),
{
    let mut out: Vec<Notice> = Vec::new();
    assert(notice_models(out@) =~= Seq::<NoticeModel>::empty());
    if !is_document(doc_file) {
        return out;
    }
    let fixed = fix_json(text.to_owned());
    let root = match parse_value(fixed.as_str()) {
        Some(root) => root,
        None => {
            return out;
        },
    };
    match root {
        StructuredValue::Object(_) => {},
        _ => {
            return out;
        },
    }
    if let Some(v) = root.get("order") {
        if v.as_i64().is_none() {
            return out;
        }
    }
    let resolver = DocumentResolver { root: &root, doc_file, sources };
    let ghost r = document_resolver(root@, doc_file@, sources_model(*sources));
    assert(resolver_of(&resolver) =~= r);
    let ghost entries = entries_of(root@);
    let ghost globals = basic_data.global_value@;
    assert(notice_models(out@) =~= entries_notices(entries, globals, r, 0));
    if let Some(StructuredValue::Array(items)) = root.get("api") {
        proof {
            lemma_array_view(*items);
        }
        let mut i: usize = 0;
        while i < items.len()
            invariant
                i <= items.len(),
                r == resolver_of(&resolver),
                globals == basic_data.global_value@,
                entries.len() == items@.len(),
                forall|j: int| 0 <= j < items@.len() ==> entries[j] == #[trigger] items@[j]@,
                notice_models(out@) == entries_notices(entries, globals, r, i as nat),
            decreases items.len() - i,
        {
            assert(entries[i as int] == items@[i as int]@);
            let more = entry_notices(&items[i], &basic_data.global_value, &resolver);
            append_notices(&mut out, more);
            i += 1;
        }
    }
    out
}

} // verus!
