//! Resolvers of references: one that goes by a table of what each reference
//! resolves to, and one that reads the source files, after the variables of
//! the document were put into the reference.

use vstd::prelude::*;
use crate::merge::{dependencies, merge_with, merged, resolver_of, Resolved, Resolver};
use crate::pattern::{find_first, first_match};
use crate::reference::{
    file_part, load_ref_file_data, loaded, read_text, resolve_path, resolved_path, sources_model,
    split_pointer, SourceFile,
};
use crate::text::{append_chars, chars_of, same_text, slice_of, string_of, texts};
use crate::value::{field, option_model, Json, StructuredValue};

verus! {

/// The regular expression for a variable: a dollar sign and one or more
/// word characters.
pub open spec fn variable_pattern() -> Seq<char> {
    "\\$\\w+"@
}

/// The key of the member of a document that defines its variables.
pub open spec fn define_key() -> Seq<char> {
    "define"@
}

/// `reference` with the variable found in it replaced by the text that the
/// document defines for it. `found` is the variable as the text before it,
/// the variable with its dollar sign, and the text after it. Where there is
/// none, or the document defines no text for its name, `reference` stays.
pub open spec fn substituted(
    reference: Seq<char>,
    found: Option<(Seq<char>, Seq<char>, Seq<char>)>,
    root: Json,
) -> Seq<char> {
    match found {
        Some((head, token, tail)) => if token.len() == 0 {
            reference
        } else {
            match field(root, define_key()) {
                Some(defined) => match field(defined, token.skip(1)) {
                    Some(Json::String(value)) => head + value + tail,
                    _ => reference,
                },
                None => reference,
            }
        },
        None => reference,
    }
}

/// `reference` with its first variable replaced by what the document with
/// the root `root` defines for it.
pub open spec fn expanded(reference: Seq<char>, root: Json) -> Seq<char> {
    substituted(reference, first_match(variable_pattern(), reference), root)
}

/// The texts of the three parts of a match.
pub open spec fn parts_model(found: Option<(String, String, String)>) -> Option<
    (Seq<char>, Seq<char>, Seq<char>),
> {
    match found {
        Some(parts) => Some((parts.0@, parts.1@, parts.2@)),
        None => None,
    }
}

/// Replaces the variable `found` in `reference` by the text that the
/// document `doc_root` defines for it.
pub fn substitute_variable(
    reference: &str,
    found: Option<(String, String, String)>,
    doc_root: &StructuredValue,
) -> (out: String)
    ensures
        out@ == substituted(reference@, parts_model(found), doc_root@),
{
    if let Some(parts) = found {
        let token = chars_of(parts.1.as_str());
        if token.len() > 0 {
            assert(token@.subrange(1, token@.len() as int) =~= token@.skip(1));
            let name = string_of(&slice_of(&token, 1, token.len()));
            if let Some(defined) = doc_root.get("define") {
                if let Some(value) = defined.get(name.as_str()) {
                    if let Some(text) = value.as_str() {
                        let mut out = chars_of(parts.0.as_str());
                        append_chars(&mut out, &chars_of(text.as_str()));
                        append_chars(&mut out, &chars_of(parts.2.as_str()));
                        return string_of(&out);
                    }
                }
            }
        }
    }
    reference.to_owned()
}

/// Replaces the first variable of `reference` by the text that the document
/// `doc_root` defines for it.
pub fn expand_reference(reference: &str, doc_root: &StructuredValue) -> (out: String)
    ensures
        out@ == expanded(reference@, doc_root@),
{
    let found = find_first("\\$\\w+", reference);
    substitute_variable(reference, found, doc_root)
}

/// What one reference resolves to.
#[derive(Debug, PartialEq, Eq)]
pub struct Resolution {
    /// The reference, as it is written in the document.
    pub reference: String,
    /// The path of the source file; empty where the file gave nothing.
    pub source: String,
    /// The fragment that the reference addresses, if any.
    pub fragment: Option<StructuredValue>,
}

/// A table of resolutions. The first entry for a reference counts; a
/// reference without an entry resolves to nothing.
#[derive(Debug, PartialEq, Eq)]
pub struct Resolutions {
    pub entries: Vec<Resolution>,
}

/// What the table `entries` gives for `reference`, looking from `from` on.
pub open spec fn table_resolution_from(entries: Seq<Resolution>, reference: Seq<char>, from: int) -> Resolved
    decreases entries.len() - from,
{
    if from < 0 || from >= entries.len() {
        (Seq::empty(), None)
    } else if entries[from].reference@ == reference {
        (entries[from].source@, option_model(entries[from].fragment))
    } else {
        table_resolution_from(entries, reference, from + 1)
    }
}

impl Resolver for Resolutions {
    open spec fn resolution(&self, reference: Seq<char>) -> Resolved {
        table_resolution_from(self.entries@, reference, 0)
    }

    fn resolve(&self, reference: &str) -> (out: (String, Option<StructuredValue>)) {
        let mut i: usize = 0;
        while i < self.entries.len() && !same_text(self.entries[i].reference.as_str(), reference)
            invariant
                i <= self.entries.len(),
                table_resolution_from(self.entries@, reference@, 0) == table_resolution_from(
                    self.entries@,
                    reference@,
                    i as int,
                ),
            decreases self.entries.len() - i,
        {
            i += 1;
        }
        if i < self.entries.len() {
            let fragment = match &self.entries[i].fragment {
                Some(v) => Some(v.duplicate()),
                None => None,
            };
            (self.entries[i].source.clone(), fragment)
        } else {
            (String::new(), None)
        }
    }
}

/// The resolver of a document: puts the variables that the document defines
/// into a reference, and resolves the result against the source files.
pub struct DocumentResolver<'a> {
    /// The root of the document that holds the references.
    pub root: &'a StructuredValue,
    /// The path of that document.
    pub doc_file: &'a str,
    /// The source files that were read.
    pub sources: &'a Vec<SourceFile>,
}

/// What `reference`, written in the document with the root `root` at the path
/// `doc`, resolves to against `sources`.
pub open spec fn document_resolution(
    reference: Seq<char>,
    root: Json,
    doc: Seq<char>,
    sources: Seq<(Seq<char>, Seq<char>)>,
) -> Resolved {
    loaded(expanded(reference, root), doc, sources)
}

/// The resolution of the references of a document, as a function.
pub open spec fn document_resolver(root: Json, doc: Seq<char>, sources: Seq<(Seq<char>, Seq<char>)>) -> spec_fn(
    Seq<char>,
) -> Resolved {
    |reference: Seq<char>| document_resolution(reference, root, doc, sources)
}

impl<'a> Resolver for DocumentResolver<'a> {
    open spec fn resolution(&self, reference: Seq<char>) -> Resolved {
        document_resolution(reference, self.root@, self.doc_file@, sources_model(*self.sources))
    }

    fn resolve(&self, reference: &str) -> (out: (String, Option<StructuredValue>)) {
        let target = expand_reference(reference, self.root);
        load_ref_file_data(target.as_str(), self.doc_file, self.sources)
    }
}

/// The path of the source file that `reference`, written in the document
/// with the root `root` at the path `doc`, names.
pub open spec fn consulted_path(reference: Seq<char>, root: Json, doc: Seq<char>) -> Seq<char> {
    resolved_path(file_part(expanded(reference, root)), doc)
}

/// What a resolver gives that tells which source file each reference names:
/// the path of that file, whether or not it was read, and the fragment as
/// the resolver of the document gives it.
pub open spec fn probing_resolution(
    reference: Seq<char>,
    root: Json,
    doc: Seq<char>,
    sources: Seq<(Seq<char>, Seq<char>)>,
) -> Resolved {
    (consulted_path(reference, root, doc), document_resolution(reference, root, doc, sources).1)
}

/// The probing resolution of the references of a document, as a function.
pub open spec fn probing_resolver(root: Json, doc: Seq<char>, sources: Seq<(Seq<char>, Seq<char>)>) -> spec_fn(
    Seq<char>,
) -> Resolved {
    |reference: Seq<char>| probing_resolution(reference, root, doc, sources)
}

/// A resolver that tells which source file each reference names. It serves
/// to find out which files have to be read before a document is resolved.
pub struct ProbingResolver<'a> {
    /// The root of the document that holds the references.
    pub root: &'a StructuredValue,
    /// The path of that document.
    pub doc_file: &'a str,
    /// The source files that were read so far.
    pub sources: &'a Vec<SourceFile>,
}

impl<'a> Resolver for ProbingResolver<'a> {
    open spec fn resolution(&self, reference: Seq<char>) -> Resolved {
        probing_resolution(reference, self.root@, self.doc_file@, sources_model(*self.sources))
    }

    fn resolve(&self, reference: &str) -> (out: (String, Option<StructuredValue>)) {
        let target = expand_reference(reference, self.root);
        let parts = split_pointer(target.as_str());
        let path = resolve_path(parts.0.as_str(), self.doc_file);
        let found = load_ref_file_data(target.as_str(), self.doc_file, self.sources);
        (path, found.1)
    }
}

/// What a reference resolves to depends on the source files only through
/// the text of the one file that it names.
pub proof fn law_resolution_reads_one_file(
    reference: Seq<char>,
    root: Json,
    doc: Seq<char>,
    first: Seq<(Seq<char>, Seq<char>)>,
    second: Seq<(Seq<char>, Seq<char>)>,
)
    requires
        read_text(first, consulted_path(reference, root, doc)) == read_text(
            second,
            consulted_path(reference, root, doc),
        ),
    ensures
        document_resolution(reference, root, doc, first) == document_resolution(
            reference,
            root,
            doc,
            second,
        ),
{
}

/// Merges `value`, a part of the document with the root `doc_file_obj` at
/// the path `doc_file`: resolves each reference against `sources`, and gives
/// the source files that the result depends on, and the result.
pub fn parse_attribute_ref_value(
    value: &StructuredValue,
    doc_file_obj: &StructuredValue,
    doc_file: &str,
    sources: &Vec<SourceFile>,
) -> (out: (Vec<String>, StructuredValue))
    ensures
        texts(out.0@) == dependencies(
            value@,
            document_resolver(doc_file_obj@, doc_file@, sources_model(*sources)),
        ),
        out.1@ == merged(
            value@,
            document_resolver(doc_file_obj@, doc_file@, sources_model(*sources)),
        ),
{
    let resolver = DocumentResolver { root: doc_file_obj, doc_file, sources };
    assert(resolver_of(&resolver) =~= document_resolver(
        doc_file_obj@,
        doc_file@,
        sources_model(*sources),
    ));
    merge_with(value, &resolver)
}

} // verus!
