//! Entry names of a new archive: a file is stored under its own name, a
//! directory's contents under `<directory name>/...`, with `/` as the
//! separator whatever the system.

use vstd::prelude::*;

use crate::auto::{auto_decision, lemma_directory_archive_name, PathKind};
use crate::paths::{file_name, file_name_chars};
use crate::text::string_from_chars;

verus! {

/// The entry name of an input given on its own, or the error for it.
pub open spec fn input_entry(p: Seq<char>, kind: PathKind) -> Result<Seq<char>, Seq<char>> {
    if kind == PathKind::Missing {
        Err("入力パスが見つかりません: "@ + p)
    } else if file_name(p) is None {
        if kind == PathKind::Directory {
            Err("ディレクトリ名を取得できません: "@ + p)
        } else {
            Err("ファイル名を取得できません: "@ + p)
        }
    } else {
        Ok(file_name(p)->0)
    }
}

/// The entry name of an input path: its final name, which for a directory
/// is the prefix of everything in it.
pub fn input_entry_name(input: &str, kind: PathKind) -> (r: Result<String, String>)
    ensures
        match input_entry(input@, kind) {
            Ok(n) => r matches Ok(s) && s@ == n,
            Err(m) => r matches Err(e) && e@ == m,
        },
{
    if kind == PathKind::Missing {
        let mut e = String::from_str("入力パスが見つかりません: ");
        e.append(input);
        return Err(e);
    }
    match file_name_chars(input) {
        Some(n) => Ok(string_from_chars(n.as_slice())),
        None => {
            let mut e = if kind == PathKind::Directory {
                String::from_str("ディレクトリ名を取得できません: ")
            } else {
                String::from_str("ファイル名を取得できません: ")
            };
            e.append(input);
            Err(e)
        },
    }
}

/// An input that exists and has a final name is stored under that whole
/// name, dots included, whether it is a file or a directory (whose
/// contents then go under `<name>/...`).
pub proof fn lemma_entry_is_whole_name(p: Seq<char>, kind: PathKind, n: Seq<char>)
    requires
        kind != PathKind::Missing,
        file_name(p) == Some(n),
    ensures
        input_entry(p, kind) == Ok::<Seq<char>, Seq<char>>(n),
{
}

/// The prefix under which a directory's contents are stored is the name of
/// the archive that `auto` makes of it, without `.zip`; so extracting that
/// archive yields a directory of the same name as the prefix.
pub proof fn lemma_entry_prefix_matches_archive(d: Seq<char>, x: Seq<char>)
    requires
        input_entry(d, PathKind::Directory) == Ok::<Seq<char>, Seq<char>>(x),
    ensures
        auto_decision(d, PathKind::Directory) matches Ok((false, out))
            && file_name(out) == Some(x + seq!['.', 'z', 'i', 'p']),
{
    reveal_strlit(".zip");
    assert(".zip"@ =~= seq!['.', 'z', 'i', 'p']);
    lemma_directory_archive_name(d);
}

/// The entry name of `name` inside the entry `prefix`: `prefix/name`.
pub fn entry_name_in(prefix: &str, name: &str) -> (r: String)
    ensures
        r@ == prefix@ + "/"@ + name@,
{
    let mut r = String::from_str(prefix);
    r.append("/");
    r.append(name);
    r
}

} // verus!
