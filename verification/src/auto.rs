//! The decision behind `auto`, shared by the drop area and the file-manager
//! menus: a `.zip` file (any letter case) is extracted next to itself into a
//! directory named by its stem; any other file, or a directory, is
//! compressed next to itself into `<name>.zip`, where a directory keeps its
//! whole name (dots included) and a file loses its extension.

use vstd::prelude::*;

use crate::paths::{
    extension_of,
    file_name,
    file_name_chars,
    has_zip_extension,
    is_plain_name,
    join_path,
    join_path_chars,
    last_dot,
    lemma_last_dot_bound,
    lemma_file_name_is_plain,
    lemma_join_file_name,
    lemma_named_has_parent,
    parent,
    parent_chars,
    stem_chars,
    stem_of,
};
use crate::text::{chars_of, decimal, eq_ignore_ascii_case, push_decimal, string_from_chars};

verus! {

/// What the file system says a path is.
#[derive(Debug, Clone, Copy, PartialEq, Eq, Structural)]
pub enum PathKind {
    File,
    Directory,
    Missing,
}

/// What `auto` decides to do with a path.
#[derive(Debug, Clone, PartialEq, Eq)]
pub enum AutoPlan {
    /// Extract the archive at `archive` into the new directory `dest_dir`.
    Extract { archive: String, dest_dir: String },
    /// Compress `source` into the new archive `output`.
    Compress { source: String, output: String },
}

/// Whether a path names a `.zip` file (extension `zip` in any case).
pub open spec fn is_zip_name(p: Seq<char>) -> bool {
    match file_name(p) {
        Some(n) => match extension_of(n) {
            Some(e) => eq_ignore_ascii_case(e, "zip"@),
            None => false,
        },
        None => false,
    }
}

/// The message for a path that is neither a file nor a directory.
pub open spec fn not_found_message(p: Seq<char>) -> Seq<char> {
    "入力パスが見つかりません: "@ + p
}

/// The message for a path whose name or parent cannot be taken.
pub open spec fn unparsable_message(p: Seq<char>) -> Seq<char> {
    "パスを解析できませんでした: "@ + p
}

/// The decision for a path of a kind: `Ok((true, dest))` to extract into
/// `dest`, `Ok((false, output))` to compress into `output`, or the error.
pub open spec fn auto_decision(p: Seq<char>, kind: PathKind) -> Result<(bool, Seq<char>), Seq<char>> {
    if kind == PathKind::File && is_zip_name(p) {
        Ok((true, join_path(parent(p)->0, stem_of(file_name(p)->0))))
    } else if kind == PathKind::Missing {
        Err(not_found_message(p))
    } else if file_name(p) is None {
        Err(unparsable_message(p))
    } else {
        let n = file_name(p)->0;
        let name = if kind == PathKind::Directory { n } else { stem_of(n) };
        Ok((false, join_path(parent(p)->0, name + ".zip"@)))
    }
}

fn unparsable(path: &str) -> (e: String)
    ensures
        e@ == unparsable_message(path@),
{
    let mut e = String::from_str("パスを解析できませんでした: ");
    e.append(path);
    e
}

/// Decides what to do with a path, given what the file system says it is
/// (see `auto_decision`).
pub fn auto(path: &str, kind: PathKind) -> (r: Result<AutoPlan, String>)
    ensures
        match auto_decision(path@, kind) {
            Ok((true, dest)) => r matches Ok(AutoPlan::Extract { archive, dest_dir })
                && archive@ == path@ && dest_dir@ == dest,
            Ok((false, out)) => r matches Ok(AutoPlan::Compress { source, output })
                && source@ == path@ && output@ == out,
            Err(msg) => r matches Err(e) && e@ == msg,
        },
{
    proof {
        lemma_named_has_parent(path@);
    }
    let name = file_name_chars(path);
    let is_zip = match &name {
        Some(n) => has_zip_extension(n.as_slice()),
        None => false,
    };
    if kind == PathKind::File && is_zip {
        let n = name.unwrap();
        let dir = parent_chars(path).unwrap();
        let stem = stem_chars(n.as_slice());
        let dest = join_path_chars(dir.as_slice(), stem.as_slice());
        return Ok(AutoPlan::Extract { archive: String::from_str(path), dest_dir: string_from_chars(dest.as_slice()) });
    }
    if kind == PathKind::Missing {
        let mut e = String::from_str("入力パスが見つかりません: ");
        e.append(path);
        return Err(e);
    }
    match name {
        None => Err(unparsable(path)),
        Some(n) => {
            let dir = parent_chars(path).unwrap();
            let mut base = if kind == PathKind::Directory { n } else { stem_chars(n.as_slice()) };
            let ext = chars_of(".zip");
            let ghost before = base@;
            let mut k: usize = 0;
            while k < ext.len()
                invariant
                    k <= ext.len(),
                    base@ == before + ext@.subrange(0, k as int),
                decreases ext.len() - k,
            {
                base.push(ext[k]);
                k = k + 1;
            }
            assert(ext@.subrange(0, ext.len() as int) == ext@);
            let out = join_path_chars(dir.as_slice(), base.as_slice());
            Ok(AutoPlan::Compress { source: String::from_str(path), output: string_from_chars(out.as_slice()) })
        },
    }
}

/// The message after extracting `count` files into `dest`.
pub open spec fn extracted_message(dest: Seq<char>, count: nat) -> Seq<char> {
    dest + " に展開しました(エントリ数: "@ + decimal(count) + ")"@
}

/// The message after compressing `count` entries into `output`.
pub open spec fn compressed_message(output: Seq<char>, count: nat) -> Seq<char> {
    output + " を作成しました(エントリ数: "@ + decimal(count) + ")"@
}

/// The message when the target of a compression already exists.
pub open spec fn exists_message(output: Seq<char>) -> Seq<char> {
    "既に存在します: "@ + output
}

/// The result messages name the target first and then say what was done.
pub proof fn lemma_messages_say_what_was_done(target: Seq<char>, count: nat)
    ensures
        crate::text::starts_with(extracted_message(target, count), target),
        crate::text::contains(extracted_message(target, count), "展開しました"@),
        crate::text::starts_with(compressed_message(target, count), target),
        crate::text::contains(compressed_message(target, count), "作成しました"@),
{
    reveal_strlit(" に展開しました(エントリ数: ");
    reveal_strlit(" を作成しました(エントリ数: ");
    reveal_strlit("展開しました");
    reveal_strlit("作成しました");
    let e = extracted_message(target, count);
    assert(e.subrange(0, target.len() as int) =~= target);
    let x = "展開しました"@;
    assert(e.subrange(target.len() as int + 2, target.len() as int + 2 + x.len()) =~= x);
    assert(crate::text::occurs_at(e, x, target.len() as int + 2));
    let c = compressed_message(target, count);
    assert(c.subrange(0, target.len() as int) =~= target);
    let y = "作成しました"@;
    assert(c.subrange(target.len() as int + 2, target.len() as int + 2 + y.len()) =~= y);
    assert(crate::text::occurs_at(c, y, target.len() as int + 2));
}

/// Reports an extraction of `count` files into `dest`.
pub fn extracted(dest: &str, count: usize) -> (m: String)
    ensures
        m@ == extracted_message(dest@, count as nat),
{
    let mut m = String::from_str(dest);
    m.append(" に展開しました(エントリ数: ");
    push_decimal(&mut m, count);
    m.append(")");
    m
}

/// Reports a compression of `count` entries into `output`.
pub fn compressed(output: &str, count: usize) -> (m: String)
    ensures
        m@ == compressed_message(output@, count as nat),
{
    let mut m = String::from_str(output);
    m.append(" を作成しました(エントリ数: ");
    push_decimal(&mut m, count);
    m.append(")");
    m
}

/// Decides whether a compression into `output` may go ahead: it is refused
/// when the archive exists already, since nothing is overwritten.
pub fn check_output_free(output: &str, exists: bool) -> (r: Result<(), String>)
    ensures
        exists ==> (r matches Err(e) && e@ == exists_message(output@)),
        !exists ==> r is Ok,
{
    if exists {
        let mut m = String::from_str("既に存在します: ");
        m.append(output);
        return Err(m);
    }
    Ok(())
}

/// The name of the archive for a directory or file named `n`, with the
/// facts the laws below need: it is a plain name, its extension is `zip`,
/// and its stem is `n`.
proof fn lemma_zip_name(n: Seq<char>)
    requires
        is_plain_name(n),
    ensures
        is_plain_name(n + ".zip"@),
        extension_of(n + ".zip"@) == Some("zip"@),
        stem_of(n + ".zip"@) == n,
{
    reveal_strlit(".zip");
    reveal_strlit("zip");
    let z = n + ".zip"@;
    assert(z.len() == n.len() + 4);
    assert forall|k: int| 0 <= k < z.len() implies z[k] != '/' by {
        if k >= n.len() {
            assert(z[k] == ".zip"@[k - n.len()]);
        }
    }
    assert(z != seq!['.']);
    assert(z != seq!['.', '.']) by {
        if n.len() == 1 {
            assert(z.len() == 5);
        }
    }
    let z1 = z.drop_last();
    let z2 = z1.drop_last();
    let z3 = z2.drop_last();
    assert(z.last() == 'p');
    assert(z1.last() == 'i');
    assert(z2.last() == 'z');
    assert(z3 =~= n.push('.'));
    assert(last_dot(z3) == n.len());
    assert(last_dot(z2) == last_dot(z3));
    assert(last_dot(z1) == last_dot(z2));
    assert(last_dot(z) == last_dot(z1));
    assert(z.subrange(n.len() as int + 1, z.len() as int) =~= "zip"@);
    assert(z.subrange(0, n.len() as int) =~= n);
}

/// The last `.` of `s.e`, where `e` holds no `.`, is the one before `e`.
proof fn lemma_last_dot_before(s: Seq<char>, e: Seq<char>)
    requires
        forall|k: int| 0 <= k < e.len() ==> e[k] != '.',
    ensures
        last_dot(s + seq!['.'] + e) == s.len(),
    decreases e.len(),
{
    let n = s + seq!['.'] + e;
    if e.len() > 0 {
        assert(n.last() == e.last());
        assert(n.drop_last() =~= s + seq!['.'] + e.drop_last());
        lemma_last_dot_before(s, e.drop_last());
    } else {
        assert(n.last() == '.');
    }
}

/// A name `s.e` (with `s` not empty and no `.` in `e`) has the stem `s`
/// and the extension `e`.
proof fn lemma_stem_and_extension(s: Seq<char>, e: Seq<char>)
    requires
        s.len() > 0,
        forall|k: int| 0 <= k < e.len() ==> e[k] != '.',
    ensures
        stem_of(s + seq!['.'] + e) == s,
        extension_of(s + seq!['.'] + e) == Some(e),
{
    let n = s + seq!['.'] + e;
    lemma_last_dot_before(s, e);
    assert(n.subrange(0, s.len() as int) =~= s);
    assert(n.subrange(s.len() as int + 1, n.len() as int) =~= e);
}

/// A file named `s.e` (`s` not empty, no `.` in `e`) that is not a `.zip`
/// file is compressed next to itself into `s.zip`: only the last extension
/// is dropped, so dots in `s` are kept.
pub proof fn lemma_file_archive_name(p: Seq<char>, s: Seq<char>, e: Seq<char>)
    requires
        file_name(p) == Some(s + seq!['.'] + e),
        s.len() > 0,
        forall|k: int| 0 <= k < e.len() ==> e[k] != '.',
        !eq_ignore_ascii_case(e, seq!['z', 'i', 'p']),
    ensures
        auto_decision(p, PathKind::File) == Ok::<(bool, Seq<char>), Seq<char>>(
            (false, join_path(parent(p)->0, s + seq!['.', 'z', 'i', 'p'])),
        ),
{
    reveal_strlit("zip");
    reveal_strlit(".zip");
    lemma_stem_and_extension(s, e);
    assert("zip"@ =~= seq!['z', 'i', 'p']);
    assert(".zip"@ =~= seq!['.', 'z', 'i', 'p']);
}

/// A file whose name `n` has no `.` but perhaps a leading one is
/// compressed next to itself into `n.zip`.
pub proof fn lemma_plain_file_archive_name(p: Seq<char>, n: Seq<char>)
    requires
        file_name(p) == Some(n),
        forall|k: int| 0 < k < n.len() ==> n[k] != '.',
    ensures
        auto_decision(p, PathKind::File) == Ok::<(bool, Seq<char>), Seq<char>>(
            (false, join_path(parent(p)->0, n + seq!['.', 'z', 'i', 'p'])),
        ),
{
    reveal_strlit(".zip");
    lemma_last_dot_bound(n);
    assert(".zip"@ =~= seq!['.', 'z', 'i', 'p']);
}

/// A file named `s.e` whose extension `e` is `zip` in any letter case is
/// extracted next to itself into the directory `s`.
pub proof fn lemma_zip_extract_dir(p: Seq<char>, s: Seq<char>, e: Seq<char>)
    requires
        file_name(p) == Some(s + seq!['.'] + e),
        s.len() > 0,
        forall|k: int| 0 <= k < e.len() ==> e[k] != '.',
        eq_ignore_ascii_case(e, seq!['z', 'i', 'p']),
    ensures
        auto_decision(p, PathKind::File) == Ok::<(bool, Seq<char>), Seq<char>>((true, join_path(parent(p)->0, s))),
{
    reveal_strlit("zip");
    lemma_stem_and_extension(s, e);
    assert("zip"@ =~= seq!['z', 'i', 'p']);
    lemma_named_has_parent(p);
}

/// A directory named `n` is compressed next to itself into `n.zip`.
pub proof fn lemma_directory_archive_path(d: Seq<char>, n: Seq<char>)
    requires
        file_name(d) == Some(n),
    ensures
        auto_decision(d, PathKind::Directory) == Ok::<(bool, Seq<char>), Seq<char>>(
            (false, join_path(parent(d)->0, n + seq!['.', 'z', 'i', 'p'])),
        ),
{
    reveal_strlit(".zip");
    assert(".zip"@ =~= seq!['.', 'z', 'i', 'p']);
}

/// Compressing a directory makes `<its whole name>.zip` next to it; dots
/// in the directory's name are kept.
pub proof fn lemma_directory_archive_name(d: Seq<char>)
    requires
        file_name(d) is Some,
    ensures
        auto_decision(d, PathKind::Directory) matches Ok((false, out))
            && file_name(out) == Some(file_name(d)->0 + ".zip"@),
{
    let n = file_name(d)->0;
    lemma_file_name_is_plain(d);
    lemma_zip_name(n);
    lemma_named_has_parent(d);
    lemma_join_file_name(parent(d)->0, n + ".zip"@);
}

/// What `auto` compresses, `auto` extracts again under the same name: the
/// archive made from a directory is taken for a `.zip` file, and its
/// extraction target carries the directory's name.
pub proof fn lemma_compress_then_extract_names(d: Seq<char>)
    requires
        file_name(d) is Some,
    ensures
        auto_decision(d, PathKind::Directory) matches Ok((false, out))
            && auto_decision(out, PathKind::File) matches Ok((true, dest))
            && file_name(dest) == file_name(d),
{
    let n = file_name(d)->0;
    lemma_file_name_is_plain(d);
    lemma_directory_archive_name(d);
    let out = join_path(parent(d)->0, n + ".zip"@);
    lemma_zip_name(n);
    lemma_named_has_parent(out);
    assert(eq_ignore_ascii_case("zip"@, "zip"@));
    assert(is_zip_name(out));
    lemma_join_file_name(parent(out)->0, n);
}

} // verus!
