//! Fields of an endpoint entry: a field is taken from the entry, else from
//! the fragment that the entry refers to, else from the global defaults.

use vstd::prelude::*;
use crate::codec::{canonical, json_text, render_json};
use crate::value::{field, Json, StructuredValue};

verus! {

/// The text that stands for a value in a text field: the text of a string,
/// the compact JSON text of any other value.
pub open spec fn text_of(v: Json) -> Seq<char> {
    match v {
        Json::String(s) => s,
        _ => json_text(canonical(v)),
    }
}

/// The truth value that a field holds, if it holds one.
pub open spec fn truth_of(v: Option<Json>) -> Option<bool> {
    match v {
        Some(Json::Bool(b)) => Some(b),
        _ => None,
    }
}

/// The value of the field `key` in the first that has it: the entry, the
/// fragment it refers to, the member `api` of the global defaults.
pub open spec fn found_field(key: Seq<char>, local: Json, referred: Json, globals: Json) -> Option<
    Json,
> {
    match field(local, key) {
        Some(v) => Some(v),
        None => match field(referred, key) {
            Some(v) => Some(v),
            None => match field(globals, "api"@) {
                Some(defaults) => field(defaults, key),
                None => None,
            },
        },
    }
}

/// The text field `key`: the text of the first value found, `default` where
/// none is found.
pub open spec fn string_field(
    key: Seq<char>,
    default: Seq<char>,
    local: Json,
    referred: Json,
    globals: Json,
) -> Seq<char> {
    match found_field(key, local, referred, globals) {
        Some(v) => text_of(v),
        None => default,
    }
}

/// The truth field `key`: the first truth value among the entry, the fragment
/// it refers to and the global defaults; a value of another kind counts as
/// missing. `default` where none is found.
pub open spec fn bool_field(key: Seq<char>, default: bool, local: Json, referred: Json, globals: Json) -> bool {
    match truth_of(field(local, key)) {
        Some(b) => b,
        None => match truth_of(field(referred, key)) {
            Some(b) => b,
            None => match field(globals, "api"@) {
                Some(defaults) => match truth_of(field(defaults, key)) {
                    Some(b) => b,
                    None => default,
                },
                None => default,
            },
        },
    }
}

/// The text that stands for `v` in a text field.
pub fn field_text(v: &StructuredValue) -> (text: String)
    ensures
        text@ == text_of(v@),
{
    match v {
        StructuredValue::String(s) => s.clone(),
        _ => render_json(v),
    }
}

/// The value of the field `key` in the first of `api`, `ref_data` and the
/// member `api` of `global_data` that has it.
pub fn find_field<'a>(
    key: &str,
    api: &'a StructuredValue,
    ref_data: &'a StructuredValue,
    global_data: &'a StructuredValue,
) -> (out: Option<&'a StructuredValue>)
    ensures
        match out {
            Some(v) => found_field(key@, api@, ref_data@, global_data@) == Some(v@),
            None => found_field(key@, api@, ref_data@, global_data@) is None,
        },
{
    match api.get(key) {
        Some(v) => Some(v),
        None => match ref_data.get(key) {
            Some(v) => Some(v),
            None => match global_data.get("api") {
                Some(defaults) => defaults.get(key),
                None => None,
            },
        },
    }
}

/// Resolves the text field `key` of an endpoint entry.
pub fn get_api_field_string_value(
    key: &str,
    default_value: String,
    api: &StructuredValue,
    ref_data: &StructuredValue,
    global_data: &StructuredValue,
) -> (out: String)
    ensures
        out@ == string_field(key@, default_value@, api@, ref_data@, global_data@),
{
    match find_field(key, api, ref_data, global_data) {
        Some(v) => field_text(v),
        None => default_value,
    }
}

/// The truth value of a field that may be missing.
fn truth(v: Option<&StructuredValue>) -> (out: Option<bool>)
    ensures
        out == truth_of(
            match v {
                Some(value) => Some(value@),
                None => None,
            },
        ),
{
    match v {
        Some(value) => value.as_bool(),
        None => None,
    }
}

/// Resolves the truth field `key` of an endpoint entry.
pub fn get_api_field_bool_value(
    key: &str,
    default_value: bool,
    api: &StructuredValue,
    ref_data: &StructuredValue,
    global_data: &StructuredValue,
) -> (out: bool)
    ensures
        out == bool_field(key@, default_value, api@, ref_data@, global_data@),
{
    if let Some(b) = truth(api.get(key)) {
        return b;
    }
    if let Some(b) = truth(ref_data.get(key)) {
        return b;
    }
    match global_data.get("api") {
        Some(defaults) => match truth(defaults.get(key)) {
            Some(b) => b,
            None => default_value,
        },
        None => default_value,
    }
}

/// Where neither the entry nor the fragment it refers to has the field, and
/// the global defaults have it, a text field is the global value: its text
/// where it is a string, its compact JSON text otherwise.
pub proof fn law_text_field_falls_back_to_global(
    key: Seq<char>,
    default: Seq<char>,
    local: Json,
    referred: Json,
    globals: Json,
    defaults: Json,
    value: Json,
)
    requires
        field(local, key) is None,
        field(referred, key) is None,
        field(globals, "api"@) == Some(defaults),
        field(defaults, key) == Some(value),
    ensures
        string_field(key, default, local, referred, globals) == text_of(value),
        value is String ==> string_field(key, default, local, referred, globals) == value->String_0,
{
}

/// Where neither the entry nor the fragment it refers to has the field, and
/// the global defaults hold a truth value for it, a truth field is that value.
pub proof fn law_truth_field_falls_back_to_global(
    key: Seq<char>,
    default: bool,
    local: Json,
    referred: Json,
    globals: Json,
    defaults: Json,
    value: bool,
)
    requires
        field(local, key) is None,
        field(referred, key) is None,
        field(globals, "api"@) == Some(defaults),
        field(defaults, key) == Some(Json::Bool(value)),
    ensures
        bool_field(key, default, local, referred, globals) == value,
{
}

} // verus!
