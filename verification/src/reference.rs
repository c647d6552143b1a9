//! Reference pointers: a file, and after a colon a dotted path into the
//! document that the file holds. A pointer is resolved against the texts of
//! the source files that the caller has read.

use vstd::prelude::*;
use crate::codec::{fragment_at, read_fragment, Fragment};
use crate::repair::{fix_json, repaired};
use crate::text::{
    after, append_chars, before, chars_of, find_char, find_last_char, has_prefix,
    last_position_before, same_text, slice_of, starts_with, string_of, swap_char, swapped,
    trim_leading, trim_start,
};
use crate::value::{key_position, lemma_key_position_is, option_model, Json, StructuredValue};

verus! {

/// A source file that was read: its path from the project root, with
/// slashes and without a leading `./`, and its text.
#[derive(Debug, PartialEq, Eq)]
pub struct SourceFile {
    pub path: String,
    pub text: String,
}

/// The paths and texts of `sources`, in order.
pub open spec fn sources_model(sources: Vec<SourceFile>) -> Seq<(Seq<char>, Seq<char>)> {
    Seq::new(sources@.len(), |i: int| (sources@[i].path@, sources@[i].text@))
}

/// The text that `sources` hold for `path`: that of the first file with this
/// path; `None` where no file has it.
pub open spec fn read_text(sources: Seq<(Seq<char>, Seq<char>)>, path: Seq<char>) -> Option<
    Seq<char>,
> {
    if key_position(sources, path) < sources.len() {
        Some(sources[key_position(sources, path)].1)
    } else {
        None
    }
}

/// The file that a pointer names: what stands before its first colon.
pub open spec fn file_part(pointer: Seq<char>) -> Seq<char> {
    before(pointer, ':')
}

/// The dotted path of a pointer: what stands between its first colon and
/// its second; `None` where it has no colon.
pub open spec fn path_part(pointer: Seq<char>) -> Option<Seq<char>> {
    match after(pointer, ':') {
        Some(rest) => Some(before(rest, ':')),
        None => None,
    }
}

/// The JSON pointer for a dotted path: a slash, then the path with its dots
/// turned into slashes.
pub open spec fn json_pointer_of(dotted: Seq<char>) -> Seq<char> {
    seq!['/'] + swapped(dotted, '.', '/')
}

/// The directory of a path: what stands before its last slash; empty where
/// it has none.
pub open spec fn directory_of(path: Seq<char>) -> Seq<char> {
    let at = last_position_before(path, '/', path.len() as int);
    if at < 0 {
        Seq::empty()
    } else {
        path.take(at)
    }
}

/// The path, from the project root, of the file that `file` names in a
/// document at `doc`. A name that begins with `./_data` is taken from the
/// directory of the document; one that begins with `/_data`, and any other,
/// from the project root. The result has no leading slash.
pub open spec fn resolved_path(file: Seq<char>, doc: Seq<char>) -> Seq<char> {
    let joined = if starts_with(file, "./_data"@) {
        directory_of(doc) + "/"@ + trim_start(file, "./"@)
    } else if starts_with(file, "/_data"@) {
        trim_start(file, "/"@)
    } else {
        file
    };
    trim_start(joined, "/"@)
}

/// What a reference gives once the file at `path` was looked at: nothing and
/// no path where the file is no document; the path, and the fragment where
/// a dotted path was given and addresses one, otherwise.
pub open spec fn outcome(path: Seq<char>, keyed: bool, fragment: Option<Option<Json>>) -> (
    Seq<char>,
    Option<Json>,
) {
    match fragment {
        None => (Seq::empty(), None),
        Some(None) => (path, None),
        Some(Some(v)) => if keyed {
            (path, Some(v))
        } else {
            (path, None)
        },
    }
}

/// What the pointer `pointer`, written in the document at `doc`, resolves
/// to: the path of the source file and the fragment it addresses there.
pub open spec fn loaded(pointer: Seq<char>, doc: Seq<char>, sources: Seq<(Seq<char>, Seq<char>)>) -> (
    Seq<char>,
    Option<Json>,
) {
    let path = resolved_path(file_part(pointer), doc);
    match read_text(sources, path) {
        None => (Seq::empty(), None),
        Some(text) => outcome(
            path,
            path_part(pointer) is Some,
            fragment_at(
                repaired(text),
                match path_part(pointer) {
                    Some(dotted) => json_pointer_of(dotted),
                    None => Seq::empty(),
                },
            ),
        ),
    }
}

/// The text of the first of `sources` with the path `path`.
pub fn find_source<'a>(sources: &'a Vec<SourceFile>, path: &str) -> (out: Option<&'a String>)
    ensures
        match out {
            Some(text) => read_text(sources_model(*sources), path@) == Some(text@),
            None => read_text(sources_model(*sources), path@) is None,
        },
{
    let mut i: usize = 0;
    while i < sources.len() && !same_text(sources[i].path.as_str(), path)
        invariant
            i <= sources.len(),
            forall|j: int| 0 <= j < i ==> sources_model(*sources)[j].0 != path@,
        decreases sources.len() - i,
    {
        i += 1;
    }
    proof {
        lemma_key_position_is(sources_model(*sources), path@, i as int);
    }
    if i < sources.len() {
        Some(&sources[i].text)
    } else {
        None
    }
}

/// The directory of the path `path`.
pub fn directory(path: &Vec<char>) -> (out: Vec<char>)
    ensures
        out@ == directory_of(path@),
{
    match find_last_char(path, '/') {
        Some(at) => {
            assert(path@.subrange(0, at as int) =~= path@.take(at as int));
            slice_of(path, 0, at)
        },
        None => Vec::new(),
    }
}

/// The path, from the project root, of the file that `file` names in the
/// document at `doc_file`.
pub fn resolve_path(file: &str, doc_file: &str) -> (path: String)
    ensures
        path@ == resolved_path(file@, doc_file@),
{
    let name = chars_of(file);
    let doc = chars_of(doc_file);
    let slash = chars_of("/");
    let joined: Vec<char> = if has_prefix(&name, &chars_of("./_data")) {
        let mut dir = directory(&doc);
        append_chars(&mut dir, &slash);
        let rest = trim_leading(&name, &chars_of("./"));
        append_chars(&mut dir, &rest);
        dir
    } else if has_prefix(&name, &chars_of("/_data")) {
        trim_leading(&name, &slash)
    } else {
        name
    };
    let trimmed = trim_leading(&joined, &slash);
    string_of(&trimmed)
}

/// Cuts a pointer into the file it names and its dotted path.
pub fn split_pointer(pointer: &str) -> (parts: (String, Option<String>))
    ensures
        parts.0@ == file_part(pointer@),
        match parts.1 {
            Some(dotted) => path_part(pointer@) == Some(dotted@),
            None => path_part(pointer@) is None,
        },
{
    let whole = chars_of(pointer);
    let colon = find_char(&whole, ':');
    assert(whole@.subrange(0, colon as int) =~= whole@.take(colon as int));
    let file = string_of(&slice_of(&whole, 0, colon));
    if colon < whole.len() {
        let rest = slice_of(&whole, colon + 1, whole.len());
        assert(rest@ =~= whole@.skip(colon + 1));
        let next = find_char(&rest, ':');
        assert(rest@.subrange(0, next as int) =~= rest@.take(next as int));
        let dotted = string_of(&slice_of(&rest, 0, next));
        (file, Some(dotted))
    } else {
        (file, None)
    }
}

/// The JSON pointer for the dotted path `dotted`.
pub fn json_pointer(dotted: &str) -> (pointer: String)
    ensures
        pointer@ == json_pointer_of(dotted@),
{
    let mut out: Vec<char> = Vec::new();
    out.push('/');
    let path = swap_char(&chars_of(dotted), '.', '/');
    append_chars(&mut out, &path);
    assert(out@ =~= seq!['/'] + path@);
    string_of(&out)
}

/// What a reference gives once the file at `path` was looked at, `keyed`
/// telling whether the pointer had a dotted path.
pub fn reference_outcome(path: String, keyed: bool, fragment: Fragment) -> (out: (
    String,
    Option<StructuredValue>,
))
    ensures
        (out.0@, option_model(out.1)) == outcome(
            path@,
            keyed,
            match fragment {
                Fragment::Unreadable => None,
                Fragment::Absent => Some(None),
                Fragment::Found(v) => Some(Some(v@)),
            },
        ),
{
    match fragment {
        Fragment::Unreadable => (String::new(), None),
        Fragment::Absent => (path, None),
        Fragment::Found(v) => if keyed {
            (path, Some(v))
        } else {
            (path, None)
        },
    }
}

/// Resolves the pointer `ref_file`, written in the document at `doc_file`:
/// gives the path of the source file and the fragment it addresses there.
/// Where the file was not read or is no document, both are empty.
pub fn load_ref_file_data(ref_file: &str, doc_file: &str, sources: &Vec<SourceFile>) -> (out: (
    String,
    Option<StructuredValue>,
))
    ensures
        (out.0@, option_model(out.1)) == loaded(ref_file@, doc_file@, sources_model(*sources)),
{
    let parts = split_pointer(ref_file);
    let path = resolve_path(parts.0.as_str(), doc_file);
    match find_source(sources, path.as_str()) {
        None => (String::new(), None),
        Some(text) => {
            let fixed = fix_json(text.clone());
            match parts.1 {
                Some(dotted) => {
                    let pointer = json_pointer(dotted.as_str());
                    let fragment = read_fragment(fixed.as_str(), pointer.as_str());
                    reference_outcome(path, true, fragment)
                },
                None => {
                    let fragment = read_fragment(fixed.as_str(), "");
                    reference_outcome(path, false, fragment)
                },
            }
        },
    }
}

} // verus!
