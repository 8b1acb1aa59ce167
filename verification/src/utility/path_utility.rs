//! Paths, read as the system reads them.
//!
//! What the components of a path are depends on the system: which
//! characters separate them, and what may stand before the first of them.
//! So every reading of a path here is `std::path`'s own, and only what
//! holds of it on every system is said of what it gives.

use std::path::Path;
use vstd::prelude::*;

verus! {

/// Whether `part` stands somewhere in `whole`, in one piece.
pub open spec fn is_part_of(part: Seq<char>, whole: Seq<char>) -> bool {
    exists|start: int|
        0 <= start && start + part.len() <= whole.len() && #[trigger] whole.subrange(
            start,
            start + part.len(),
        ) == part
}

/// Whether `whole` begins with `head`.
pub open spec fn begins_with(whole: Seq<char>, head: Seq<char>) -> bool {
    head.len() <= whole.len() && whole.subrange(0, head.len() as int) == head
}

/// `Path::file_name`: the final component of the path, if it has one that
/// is a name. What counts as a component depends on the system; on every
/// system a component is a piece of the path that is not empty, and an
/// empty path has none.
#[verifier::external_body]
fn std_file_name(path: &str) -> (name: Option<String>)
    ensures
        name matches Some(text) ==> text@.len() > 0 && is_part_of(text@, path@),
        path@.len() == 0 ==> name is None,
{
    match Path::new(path).file_name() {
        Some(name) => match name.to_str() {
            Some(text) => Some(text.to_owned()),
            None => None,
        },
        None => None,
    }
}

/// `Path::with_extension`: the path with the extension of its file name
/// replaced. An extension that holds a path separator makes it panic, and
/// what separates depends on the system; so only the empty extension is
/// admitted, which holds none. With it the extension is taken away and
/// nothing is put in its place, so what is left is how the path begins.
#[verifier::external_body]
fn std_with_extension(path: &str, extension: &str) -> (changed: String)
    requires
        extension@.len() == 0,
    ensures
        begins_with(path@, changed@),
{
    Path::new(path).with_extension(extension).to_string_lossy().into_owned()
}

/// The file name of a path, as text of its own, as the system reads the
/// path: a piece of the path that is not empty. An empty path has none.
pub fn filename_as_string(path: &str) -> (name: Option<String>)
    ensures
        name matches Some(text) ==> text@.len() > 0 && is_part_of(text@, path@),
        path@.len() == 0 ==> name is None,
{
    std_file_name(path)
}

/// The path without the extension of its file name, as the system reads
/// the path: the path itself, or what it begins with.
pub fn remove_extension(path: &str) -> (stripped: String)
    ensures
        begins_with(path@, stripped@),
{
    proof {
        reveal_strlit("");
    }
    std_with_extension(path, "")
}

/// A piece of how a text begins is a piece of the text.
pub proof fn lemma_part_of_head(part: Seq<char>, head: Seq<char>, whole: Seq<char>)
    requires
        is_part_of(part, head),
        begins_with(whole, head),
    ensures
        is_part_of(part, whole),
{
    let start = choose|start: int|
        0 <= start && start + part.len() <= head.len() && #[trigger] head.subrange(
            start,
            start + part.len(),
        ) == part;
    assert(whole.subrange(start, start + part.len()) =~= whole.subrange(
        0,
        head.len() as int,
    ).subrange(start, start + part.len()));
}

} // verus!
