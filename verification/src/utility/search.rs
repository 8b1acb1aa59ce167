//! What a search is given, and the choices that need no reading.

use crate::utility::text::same_text;
use vstd::prelude::*;
use vstd::string::StrSliceExecFns;
use vstd::string::StringExecFns;

verus! {

/// The options of a search for an engine installation.
#[derive(Clone, Debug, PartialEq, Eq)]
pub struct SearchOptions {
    /// How many steps below a search root the search descends.
    pub max_depth: usize,
    /// The directory of the project file.
    pub project_directory: String,
    pub ue_major_version: u16,
    pub ue_minor_version: u16,
    pub ue_patch_version: u16,
    /// The roots to search, in order.
    pub search_dir: Vec<String>,
}

/// The letters that name drives, in the order of the bits of a drive mask.
pub open spec fn drive_letters() -> Seq<char> {
    "ABCDEFGHIJKLMNOPQRSTUVWXYZ"@
}

/// Whether bit `index` of a drive mask is set.
pub open spec fn has_drive(drives: u32, index: int) -> bool {
    0 <= index < 26 && drives & (1u32 << (index as u32)) != 0
}

/// The roots of the drives below `upto`, each written as a space, the
/// letter, a colon and a backslash.
pub open spec fn drive_roots(drives: u32, upto: int) -> Seq<char>
    decreases upto,
{
    if upto <= 0 {
        Seq::empty()
    } else if has_drive(drives, upto - 1) {
        drive_roots(drives, upto - 1) + seq![' ', drive_letters()[upto - 1], ':', '\\']
    } else {
        drive_roots(drives, upto - 1)
    }
}

/// The default search roots as one text: where the system has drive
/// letters, the root of every drive of the mask; elsewhere `/`.
pub open spec fn default_roots(drives: Option<u32>) -> Seq<char> {
    match drives {
        Some(mask) => drive_roots(mask, 26),
        None => seq!['/'],
    }
}

/// The default search roots. `drives` is the mask of the drives that
/// exist, bit 0 for `A`, or `None` on a system without drive letters.
pub fn default_dir(drives: Option<u32>) -> (roots: String)
    ensures
        roots@ == default_roots(drives),
{
    match drives {
        None => {
            proof {
                reveal_strlit("/");
            }
            let root = String::from_str("/");
            assert(root@ =~= seq!['/']);
            root
        },
        Some(mask) => {
            let letters = "ABCDEFGHIJKLMNOPQRSTUVWXYZ";
            proof {
                reveal_strlit("ABCDEFGHIJKLMNOPQRSTUVWXYZ");
                reveal_strlit(" ");
                reveal_strlit(":\\");
            }
            let mut roots = String::new();
            let mut index: usize = 0;
            while index < 26
                invariant
                    index <= 26,
                    letters@ == drive_letters(),
                    letters@.len() == 26,
                    " "@ =~= seq![' '],
                    ":\\"@ =~= seq![':', '\\'],
                    roots@ == drive_roots(mask, index as int),
                decreases 26 - index,
            {
                let bit: u32 = 1u32 << (index as u32);
                if mask & bit != 0 {
                    roots.append(" ");
                    roots.append(letters.substring_char(index, index + 1));
                    roots.append(":\\");
                    assert(letters@.subrange(index as int, index + 1) =~= seq![letters@[index as int]]);
                    assert(roots@ =~= drive_roots(mask, index as int) + seq![
                        ' ',
                        drive_letters()[index as int],
                        ':',
                        '\\',
                    ]);
                }
                index = index + 1;
            }
            roots
        },
    }
}

/// One entry of a directory listing: its path and the extension of its
/// file name, as the system that listed it reads the path; `None` where
/// the file name has none.
#[derive(Clone, Debug, PartialEq, Eq)]
pub struct ListedFile {
    pub path: String,
    pub extension: Option<String>,
}

/// Whether an entry has the extension `target`.
pub open spec fn has_extension(entry: ListedFile, target: Seq<char>) -> bool {
    entry.extension matches Some(extension) && extension@ == target
}

/// The index of the first entry of a listing that has the extension
/// `target`, or the length of the listing where none has.
pub open spec fn first_with_extension(entries: Seq<ListedFile>, target: Seq<char>) -> int
    decreases entries.len(),
{
    if entries.len() == 0 {
        0
    } else if has_extension(entries[0], target) {
        0
    } else {
        1 + first_with_extension(entries.drop_first(), target)
    }
}

/// The path of the first entry of a directory listing whose extension is
/// `target_ext`, in the order of the listing.
pub fn file_with_extension(entries: &Vec<ListedFile>, target_ext: &str) -> (found: Option<String>)
    ensures
        0 <= first_with_extension(entries@, target_ext@) <= entries.len(),
        match found {
            Some(path) => first_with_extension(entries@, target_ext@) < entries.len() && path
                == entries[first_with_extension(entries@, target_ext@)].path,
            None => first_with_extension(entries@, target_ext@) == entries.len(),
        },
{
    let mut index: usize = 0;
    assert(entries@.skip(0) =~= entries@);
    while index < entries.len()
        invariant
            index <= entries.len(),
            first_with_extension(entries@, target_ext@) == index + first_with_extension(
                entries@.skip(index as int),
                target_ext@,
            ),
        decreases entries.len() - index,
    {
        let hit = match &entries[index].extension {
            Some(extension) => same_text(extension.as_str(), target_ext),
            None => false,
        };
        assert(entries@.skip(index as int)[0] == entries@[index as int]);
        if hit {
            return Some(entries[index].path.clone());
        }
        assert(entries@.skip(index as int).drop_first() =~= entries@.skip(index + 1));
        index = index + 1;
    }
    assert(entries@.skip(index as int).len() == 0);
    None
}

} // verus!
