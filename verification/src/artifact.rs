//! Artifact identifiers.
//!
//! An artifact identifier names the stored binary of a release. It is handed
//! to whoever fetches the bytes, so it must be a plain file name: no path
//! separators, no way to climb out of the store.

use vstd::prelude::*;

verus! {

/// The content type under which every artifact is delivered.
pub const CONTENT_TYPE: &'static str = "binary/octet-stream";

/// The bytes of a stored binary, ready to be sent.
#[derive(Debug, PartialEq, Eq)]
pub struct Payload {
    /// Always [`CONTENT_TYPE`].
    pub content_type: String,
    /// The whole binary.
    pub bytes: Vec<u8>,
}

/// The characters an artifact identifier may be made of: ASCII letters and
/// digits, `.`, `_` and `-`.
pub open spec fn artifact_char(c: char) -> bool {
    ||| 'a' <= c <= 'z'
    ||| 'A' <= c <= 'Z'
    ||| '0' <= c <= '9'
    ||| c == '.'
    ||| c == '_'
    ||| c == '-'
}

/// An artifact identifier is not empty, is made of [`artifact_char`]s only
/// and does not begin with a dot.
pub open spec fn valid_artifact_id(id: Seq<char>) -> bool {
    &&& id.len() > 0
    &&& id[0] != '.'
    &&& forall|i: int| 0 <= i < id.len() ==> artifact_char(#[trigger] id[i])
}

/// Whether `c` may occur in an artifact identifier.
pub fn is_artifact_char(c: char) -> (r: bool)
    ensures
        r == artifact_char(c),
{
    ('a' <= c && c <= 'z') || ('A' <= c && c <= 'Z') || ('0' <= c && c <= '9') || c == '.'
        || c == '_' || c == '-'
}

/// Whether `id` is a valid artifact identifier.
pub fn is_valid_artifact_id(id: &str) -> (r: bool)
    ensures
        r == valid_artifact_id(id@),
{
    let mut first = true;
    let mut ok = true;
    for c in it: id.chars()
        invariant
            it.seq() == id@,
            first == (it.index() == 0),
            ok == ((forall|i: int| 0 <= i < it.index() ==> artifact_char(#[trigger] id@[i]))
                && (it.index() > 0 ==> id@[0] != '.')),
    {
        if !is_artifact_char(c) || (first && c == '.') {
            ok = false;
        }
        first = false;
    }
    ok && !first
}

} // verus!
