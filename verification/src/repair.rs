//! Repair of document text before it is parsed: a line break that stands
//! inside a quoted value is written as an escape.

use vstd::prelude::*;
use crate::pattern::{all_matches, find_all};
use crate::text::{chars_of, contains, has_part, replace_all, replaced, string_of, texts};

verus! {

/// The regular expression for a colon, white space and a quoted value.
pub open spec fn quoted_value_pattern() -> Seq<char> {
    ":\\s*\"[\\s\\S]*?\\n*[\\s\\S]*?\""@
}

/// A line break.
pub open spec fn line_break() -> Seq<char> {
    seq!['\n']
}

/// The escape that stands for a line break: a backslash and the letter n.
pub open spec fn line_break_escape() -> Seq<char> {
    seq!['\\', 'n']
}

/// `text` after the first `n` of `found` were treated: each of them that
/// holds a line break is replaced, wherever it stands in the text so far, by
/// itself with its line breaks escaped.
pub open spec fn repaired_upto(text: Seq<char>, found: Seq<Seq<char>>, n: nat) -> Seq<char>
    decreases n,
{
    if n == 0 || n > found.len() {
        text
    } else {
        let so_far = repaired_upto(text, found, (n - 1) as nat);
        let piece = found[n - 1];
        if contains(piece, line_break()) {
            replaced(so_far, piece, replaced(piece, line_break(), line_break_escape()))
        } else {
            so_far
        }
    }
}

/// `text` with the line breaks inside its quoted values escaped.
pub open spec fn repaired(text: Seq<char>) -> Seq<char> {
    let found = all_matches(quoted_value_pattern(), text);
    repaired_upto(text, found, found.len())
}

/// Treats `text` for each of `found`, in order: one that holds a line break
/// is replaced, wherever it stands, by itself with its line breaks escaped.
pub fn apply_repairs(text: &str, found: &Vec<String>) -> (out: String)
    ensures
        out@ == repaired_upto(text@, texts(found@), found@.len()),
{
    let mut current = chars_of(text);
    let mut breaker: Vec<char> = Vec::new();
    breaker.push('\n');
    let mut escape: Vec<char> = Vec::new();
    escape.push('\\');
    escape.push('n');
    assert(breaker@ =~= line_break());
    assert(escape@ =~= line_break_escape());
    let mut i: usize = 0;
    while i < found.len()
        invariant
            i <= found.len(),
            breaker@ == line_break(),
            escape@ == line_break_escape(),
            current@ == repaired_upto(text@, texts(found@), i as nat),
        decreases found.len() - i,
    {
        let piece = chars_of(found[i].as_str());
        assert(texts(found@)[i as int] == piece@);
        if has_part(&piece, &breaker) {
            let escaped = replace_all(&piece, &breaker, &escape);
            current = replace_all(&current, &piece, &escaped);
        }
        i += 1;
    }
    string_of(&current)
}

/// Escapes the line breaks that stand inside quoted values of `org_string`.
pub fn fix_json(org_string: String) -> (new_string: String)
    ensures
        new_string@ == repaired(org_string@),
{
    let found = find_all(":\\s*\"[\\s\\S]*?\\n*[\\s\\S]*?\"", org_string.as_str());
    apply_repairs(org_string.as_str(), &found)
}

} // verus!
