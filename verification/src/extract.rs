//! The decisions of extraction, entry by entry: an entry name must consist
//! of plain names only (no root, no leading `.`, no `..`), so that nothing
//! is written outside the destination; directories are created, files are
//! written after their parent directory.

use vstd::prelude::*;

use crate::paths::{all_normal, is_all_normal, join_path, join_path_chars, parent};
use crate::text::{chars_of, string_from_chars};

verus! {

/// What to do with one entry of an archive.
#[derive(Debug, Clone, PartialEq, Eq)]
pub enum EntryPlan {
    /// Create the directory `path`.
    Directory { path: String },
    /// Create `parent` (when there is one), then write the file `path`.
    File { path: String, parent: Option<String> },
}

/// The message for an entry name that would leave the destination.
pub open spec fn unsafe_entry_message(name: Seq<char>) -> Seq<char> {
    "安全でないエントリ名です: "@ + name
}

/// The message when the destination directory exists already.
pub open spec fn dest_exists_message(dest: Seq<char>) -> Seq<char> {
    "展開先が既に存在します: "@ + dest
}

/// Decides whether an extraction into `dest` may go ahead: it is refused
/// when the destination exists already, since nothing is overwritten.
pub fn check_dest_free(dest: &str, exists: bool) -> (r: Result<(), String>)
    ensures
        exists ==> (r matches Err(e) && e@ == dest_exists_message(dest@)),
        !exists ==> r is Ok,
{
    if exists {
        let mut m = String::from_str("展開先が既に存在します: ");
        m.append(dest);
        return Err(m);
    }
    Ok(())
}

/// Plans one entry, given its decoded name and whether it is a directory:
/// an error for a name that is not made of plain names only, else the path
/// under `dest_dir` (`dest_dir` joined with the name).
pub fn plan_entry(dest_dir: &str, name: &str, is_dir: bool) -> (r: Result<EntryPlan, String>)
    ensures
        !all_normal(name@) ==> (r matches Err(e) && e@ == unsafe_entry_message(name@)),
        all_normal(name@) && is_dir ==> (r matches Ok(EntryPlan::Directory { path })
            && path@ == join_path(dest_dir@, name@)),
        all_normal(name@) && !is_dir ==> (r matches Ok(EntryPlan::File { path, parent: p })
            && path@ == join_path(dest_dir@, name@)
            && match parent(join_path(dest_dir@, name@)) {
                Some(q) => p matches Some(s) && s@ == q,
                None => p is None,
            }),
{
    if !is_all_normal(name) {
        let mut e = String::from_str("安全でないエントリ名です: ");
        e.append(name);
        return Err(e);
    }
    let d = chars_of(dest_dir);
    let n = chars_of(name);
    let out = join_path_chars(d.as_slice(), n.as_slice());
    let path = string_from_chars(out.as_slice());
    if is_dir {
        return Ok(EntryPlan::Directory { path });
    }
    let p = match crate::paths::parent_chars(path.as_str()) {
        Some(v) => Some(string_from_chars(v.as_slice())),
        None => None,
    };
    Ok(EntryPlan::File { path, parent: p })
}

} // verus!
