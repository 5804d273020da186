//! Unix path strings, read the way `std::path::Path` reads them: the
//! components (repeated `/` and `.` in the middle are ignored, a leading `.`
//! is kept), the final component's name, stem and extension, the parent,
//! and joining (`PathBuf::push`).

use vstd::prelude::*;

use crate::text::{
    chars_of,
    lemma_split_on_concat,
    lemma_split_on_nonempty,
    lemma_split_pieces_lack_sep,
    lemma_split_without_sep,
    split_chars,
    split_on,
    views,
};

verus! {

/// A component of a path.
pub enum Component {
    RootDir,
    CurDir,
    ParentDir,
    Normal(Seq<char>),
}

/// A piece between separators that contributes no component: an empty one
/// (repeated or trailing `/`) or `.`.
pub open spec fn is_skipped(piece: Seq<char>) -> bool {
    piece.len() == 0 || piece == seq!['.']
}

/// The pieces that become components, in order.
pub open spec fn kept_pieces(pieces: Seq<Seq<char>>) -> Seq<Seq<char>>
    decreases pieces.len(),
{
    if pieces.len() == 0 {
        Seq::<Seq<char>>::empty()
    } else {
        let k = kept_pieces(pieces.drop_last());
        if is_skipped(pieces.last()) {
            k
        } else {
            k.push(pieces.last())
        }
    }
}

/// Whether the path starts at the root.
pub open spec fn has_root(p: Seq<char>) -> bool {
    p.len() > 0 && p[0] == '/'
}

/// Whether a relative path starts with a `.` component (`.` or `./...`).
pub open spec fn has_cur_dir(p: Seq<char>) -> bool {
    !has_root(p) && split_on(p, '/')[0] == seq!['.']
}

/// The component that a kept piece becomes.
pub open spec fn component_of(piece: Seq<char>) -> Component {
    if piece == seq!['.', '.'] {
        Component::ParentDir
    } else {
        Component::Normal(piece)
    }
}

/// The components of a path.
pub open spec fn components(p: Seq<char>) -> Seq<Component> {
    (if has_root(p) { seq![Component::RootDir] } else { Seq::<Component>::empty() })
        + (if has_cur_dir(p) { seq![Component::CurDir] } else { Seq::<Component>::empty() })
        + kept_pieces(split_on(p, '/')).map_values(|x: Seq<char>| component_of(x))
}

/// `PathBuf::push`: an absolute `t` replaces `base`; otherwise `t` is
/// appended, with a `/` between unless `base` is empty or ends in `/`.
pub open spec fn join_path(base: Seq<char>, t: Seq<char>) -> Seq<char> {
    if t.len() > 0 && t[0] == '/' {
        t
    } else if base.len() > 0 && base.last() != '/' {
        base + seq!['/'] + t
    } else {
        base + t
    }
}

/// The text of a component.
pub open spec fn component_text(c: Component) -> Seq<char> {
    match c {
        Component::RootDir => seq!['/'],
        Component::CurDir => seq!['.'],
        Component::ParentDir => seq!['.', '.'],
        Component::Normal(x) => x,
    }
}

/// The final component's name, unless the path ends in a root, `.` or `..`
/// (as `Path::file_name`).
pub open spec fn file_name(p: Seq<char>) -> Option<Seq<char>> {
    let cs = components(p);
    if cs.len() > 0 && cs.last() is Normal {
        Some(cs.last()->Normal_0)
    } else {
        None
    }
}

/// How many characters come before the pieces that are read from the
/// back: a root `/`, or a leading `.` component (`.` or `./...`).
pub open spec fn body_start(p: Seq<char>) -> int {
    if has_root(p) || p == seq!['.'] || (p.len() >= 2 && p[0] == '.' && p[1] == '/') {
        1
    } else {
        0
    }
}

/// The index of the last `/` of `p` at or after `from`, or -1.
pub open spec fn last_sep_from(p: Seq<char>, from: int) -> int
    decreases p.len(),
{
    if p.len() == 0 || p.len() <= from {
        -1
    } else if p.last() == '/' {
        p.len() - 1
    } else {
        last_sep_from(p.drop_last(), from)
    }
}

/// The text before the last piece of `p`'s body, and that piece.
pub open spec fn split_last_piece(p: Seq<char>) -> (Seq<char>, Seq<char>) {
    let s = body_start(p);
    let j = last_sep_from(p, s);
    if s <= j < p.len() {
        (p.subrange(0, j), p.subrange(j + 1, p.len() as int))
    } else {
        (p.subrange(0, s), p.subrange(s, p.len() as int))
    }
}

/// `p` without trailing separators and `.` pieces (never cutting into a
/// root or a leading `.` component).
pub open spec fn trim_back(p: Seq<char>) -> Seq<char>
    decreases p.len(),
{
    if p.len() > body_start(p) {
        let (rest, piece) = split_last_piece(p);
        if is_skipped(piece) {
            trim_back(rest)
        } else {
            p
        }
    } else {
        p
    }
}

/// The path without its final component, as the text before it (as
/// `Path::parent`): none for an empty path or the root, empty for `.`.
pub open spec fn parent(p: Seq<char>) -> Option<Seq<char>> {
    let t = trim_back(p);
    if t.len() > body_start(t) {
        Some(trim_back(split_last_piece(t).0))
    } else if has_root(t) || t.len() == 0 {
        None
    } else {
        Some(Seq::<char>::empty())
    }
}

/// Index of the last `.` in a name, or -1.
pub open spec fn last_dot(name: Seq<char>) -> int
    decreases name.len(),
{
    if name.len() == 0 {
        -1
    } else if name.last() == '.' {
        name.len() - 1
    } else {
        last_dot(name.drop_last())
    }
}

/// The stem of a file name (as `Path::file_stem` documents it): the whole
/// name when it has no `.` or only a leading one, else the part before the
/// last `.`.
pub open spec fn stem_of(name: Seq<char>) -> Seq<char> {
    if last_dot(name) <= 0 {
        name
    } else {
        name.subrange(0, last_dot(name))
    }
}

/// The extension of a file name (as `Path::extension` documents it): the
/// part after the last `.`, none when there is no `.` or only a leading one.
pub open spec fn extension_of(name: Seq<char>) -> Option<Seq<char>> {
    if last_dot(name) <= 0 {
        None
    } else {
        Some(name.subrange(last_dot(name) + 1, name.len() as int))
    }
}

/// Whether every component of a path is a plain name: no root, no leading
/// `.`, no `..`. Only such names stay inside the directory they are joined
/// to.
pub open spec fn all_normal(p: Seq<char>) -> bool {
    forall|i: int| 0 <= i < components(p).len() ==> #[trigger] components(p)[i] is Normal
}

/// A kept piece is the text of the component it becomes.
proof fn lemma_kept_texts(ks: Seq<Seq<char>>)
    ensures
        ks.map_values(|x: Seq<char>| component_of(x)).map_values(|c: Component| component_text(c)) =~= ks,
{
    assert forall|i: int| 0 <= i < ks.len() implies
        #[trigger] component_text(component_of(ks[i])) == ks[i] by {}
}

/// Joins `t` onto `base` (see `join_path`).
pub fn join_path_chars(base: &[char], t: &[char]) -> (r: Vec<char>)
    ensures
        r@ == join_path(base@, t@),
{
    let mut r: Vec<char> = Vec::new();
    if t.len() > 0 && t[0] == '/' {
        let mut i: usize = 0;
        while i < t.len()
            invariant
                i <= t.len(),
                r@ == t@.subrange(0, i as int),
            decreases t.len() - i,
        {
            r.push(t[i]);
            i = i + 1;
        }
        assert(t@.subrange(0, t.len() as int) == t@);
        return r;
    }
    let mut i: usize = 0;
    while i < base.len()
        invariant
            i <= base.len(),
            r@ == base@.subrange(0, i as int),
        decreases base.len() - i,
    {
        r.push(base[i]);
        i = i + 1;
    }
    assert(base@.subrange(0, base.len() as int) == base@);
    if base.len() > 0 && base[base.len() - 1] != '/' {
        r.push('/');
    }
    let ghost head = r@;
    let mut j: usize = 0;
    while j < t.len()
        invariant
            j <= t.len(),
            r@ == head + t@.subrange(0, j as int),
        decreases t.len() - j,
    {
        r.push(t[j]);
        j = j + 1;
    }
    assert(t@.subrange(0, t.len() as int) == t@);
    r
}

/// The pieces of a path that become components.
fn kept_pieces_exec(pieces: &Vec<Vec<char>>) -> (kept: Vec<Vec<char>>)
    ensures
        views(kept@) == kept_pieces(views(pieces@)),
{
    let mut kept: Vec<Vec<char>> = Vec::new();
    let mut i: usize = 0;
    while i < pieces.len()
        invariant
            i <= pieces.len(),
            views(kept@) == kept_pieces(views(pieces@).subrange(0, i as int)),
        decreases pieces.len() - i,
    {
        let piece = &pieces[i];
        let ghost pre = views(pieces@).subrange(0, i + 1);
        assert(pre.drop_last() == views(pieces@).subrange(0, i as int));
        assert(pre.last() == piece@);
        let skipped = piece.len() == 0 || (piece.len() == 1 && piece[0] == '.');
        assert(skipped == is_skipped(piece@)) by {
            if piece.len() == 1 && piece[0] == '.' {
                assert(piece@ =~= seq!['.']);
            }
        }
        if !skipped {
            let ghost before = views(kept@);
            kept.push(piece.clone());
            assert(views(kept@) =~= before.push(piece@));
        }
        i = i + 1;
    }
    assert(views(pieces@).subrange(0, pieces.len() as int) == views(pieces@));
    kept
}

/// The components of a path in three parts: whether it starts at the root,
/// whether it starts with `.`, and the texts of the remaining components.
pub struct PathParts {
    pub root: bool,
    pub cur: bool,
    pub kept: Vec<Vec<char>>,
}

/// Splits a path into its parts (see `PathParts`).
pub fn path_parts(p: &str) -> (parts: PathParts)
    ensures
        parts.root == has_root(p@),
        parts.cur == has_cur_dir(p@),
        views(parts.kept@) == kept_pieces(split_on(p@, '/')),
{
    let chars = chars_of(p);
    let root = chars.len() > 0 && chars[0] == '/';
    let pieces = split_chars(chars.as_slice(), '/');
    assert(pieces@[0]@ == views(pieces@)[0]);
    let first_is_dot = pieces[0].len() == 1 && pieces[0][0] == '.';
    assert(first_is_dot == (split_on(p@, '/')[0] == seq!['.'])) by {
        if first_is_dot {
            assert(pieces@[0]@ =~= seq!['.']);
        }
    }
    let kept = kept_pieces_exec(&pieces);
    PathParts { root, cur: !root && first_is_dot, kept }
}

/// The components of a path, from its parts.
proof fn lemma_components_parts(p: Seq<char>)
    ensures
        components(p).map_values(|c: Component| component_text(c))
            =~= (if has_root(p) { seq![seq!['/']] } else { Seq::<Seq<char>>::empty() })
                + (if has_cur_dir(p) { seq![seq!['.']] } else { Seq::<Seq<char>>::empty() })
                + kept_pieces(split_on(p, '/')),
        components(p).len() == (if has_root(p) { 1int } else { 0int }) + (if has_cur_dir(p) { 1int } else { 0int })
            + kept_pieces(split_on(p, '/')).len(),
{
    let ks = kept_pieces(split_on(p, '/'));
    lemma_kept_texts(ks);
}

/// The final component's name (see `file_name`).
pub fn file_name_chars(p: &str) -> (r: Option<Vec<char>>)
    ensures
        match file_name(p@) {
            Some(n) => r matches Some(v) && v@ == n,
            None => r is None,
        },
{
    let parts = path_parts(p);
    let ghost cs = components(p@);
    let ghost ks = kept_pieces(split_on(p@, '/'));
    proof {
        lemma_components_parts(p@);
    }
    let n = parts.kept.len();
    if n == 0 {
        assert(cs.len() > 0 ==> cs.last() is RootDir || cs.last() is CurDir) by {
            if cs.len() > 0 {
                let i = cs.len() - 1;
                assert(component_text(cs[i]) == cs.map_values(|c: Component| component_text(c))[i]);
            }
        }
        return None;
    }
    let last = parts.kept[n - 1].clone();
    assert(last@ == ks.last());
    assert(cs.last() == component_of(ks.last())) by {
        assert(cs =~= (if has_root(p@) { seq![Component::RootDir] } else { Seq::<Component>::empty() })
            + (if has_cur_dir(p@) { seq![Component::CurDir] } else { Seq::<Component>::empty() })
            + ks.map_values(|x: Seq<char>| component_of(x)));
    }
    let dots = last.len() == 2 && last[0] == '.' && last[1] == '.';
    assert(dots == (last@ == seq!['.', '.'])) by {
        if dots {
            assert(last@ =~= seq!['.', '.']);
        }
    }
    if dots {
        None
    } else {
        Some(last)
    }
}

fn body_start_exec(p: &Vec<char>) -> (s: usize)
    ensures
        s == body_start(p@),
{
    let single_dot = p.len() == 1 && p[0] == '.';
    assert(single_dot == (p@ == seq!['.'])) by {
        if single_dot {
            assert(p@ =~= seq!['.']);
        }
    }
    if (p.len() > 0 && p[0] == '/') || single_dot || (p.len() >= 2 && p[0] == '.' && p[1] == '/') {
        1
    } else {
        0
    }
}

/// Splits off the last piece of `p`'s body (see `split_last_piece`).
fn split_last_piece_exec(p: &Vec<char>) -> (r: (Vec<char>, Vec<char>))
    ensures
        (r.0@, r.1@) == split_last_piece(p@),
{
    let s = body_start_exec(p);
    let mut i: usize = p.len();
    assert(p@.subrange(0, i as int) =~= p@);
    while i > s && p[i - 1] != '/'
        invariant
            s == body_start(p@),
            i <= p.len(),
            last_sep_from(p@, s as int) == last_sep_from(p@.subrange(0, i as int), s as int),
        decreases i,
    {
        assert(p@.subrange(0, i as int).drop_last() =~= p@.subrange(0, i - 1));
        i = i - 1;
    }
    let ghost j = last_sep_from(p@, s as int);
    let cut: usize = if i > s { i - 1 } else { s };
    let skip: usize = if i > s { i } else { s };
    proof {
        if i > s {
            assert(j == i - 1);
        } else {
            assert(j == -1);
        }
    }
    let mut rest: Vec<char> = Vec::new();
    let mut k: usize = 0;
    while k < cut && k < p.len()
        invariant
            k <= cut,
            k <= p.len(),
            rest@ == p@.subrange(0, k as int),
        decreases cut - k,
    {
        rest.push(p[k]);
        k = k + 1;
    }
    let mut piece: Vec<char> = Vec::new();
    let mut m: usize = skip;
    while m < p.len()
        invariant
            skip <= m <= p.len() || (skip > p.len() && m == skip),
            piece@ == p@.subrange(skip as int, m as int),
        decreases p.len() - m,
    {
        piece.push(p[m]);
        m = m + 1;
    }
    proof {
        if skip > p.len() {
            assert(false);
        }
    }
    (rest, piece)
}

/// `p` without trailing separators and `.` pieces (see `trim_back`).
fn trim_back_exec(p: Vec<char>) -> (r: Vec<char>)
    ensures
        r@ == trim_back(p@),
{
    let mut t = p;
    loop
        invariant
            trim_back(t@) == trim_back(p@),
        decreases t.len(),
    {
        let s = body_start_exec(&t);
        if t.len() <= s {
            return t;
        }
        let (rest, piece) = split_last_piece_exec(&t);
        let skipped = piece.len() == 0 || (piece.len() == 1 && piece[0] == '.');
        assert(skipped == is_skipped(piece@)) by {
            if piece.len() == 1 && piece[0] == '.' {
                assert(piece@ =~= seq!['.']);
            }
        }
        if !skipped {
            return t;
        }
        t = rest;
    }
}

/// Where the last separator at or after `from` is, and that none follows.
proof fn lemma_last_sep_from(p: Seq<char>, from: int)
    ensures
        last_sep_from(p, from) >= 0 ==> from <= last_sep_from(p, from) < p.len()
            && p[last_sep_from(p, from)] == '/'
            && forall|k: int| last_sep_from(p, from) < k < p.len() ==> p[k] != '/',
        last_sep_from(p, from) < 0 ==> forall|k: int| from <= k < p.len() && 0 <= k ==> p[k] != '/',
    decreases p.len(),
{
    if p.len() == 0 || p.len() <= from {
    } else if p.last() == '/' {
    } else {
        lemma_last_sep_from(p.drop_last(), from);
        assert forall|k: int| last_sep_from(p, from) < k < p.len() && last_sep_from(p, from) >= 0 implies p[k] != '/' by {
            if k < p.len() - 1 {
                assert(p[k] == p.drop_last()[k]);
            }
        }
        assert forall|k: int| from <= k < p.len() && 0 <= k && last_sep_from(p, from) < 0 implies p[k] != '/' by {
            if k < p.len() - 1 {
                assert(p[k] == p.drop_last()[k]);
            }
        }
    }
}

/// Removing a skipped last piece leaves the kept pieces unchanged.
proof fn lemma_split_last_keeps_kept(p: Seq<char>)
    requires
        p.len() > body_start(p),
        is_skipped(split_last_piece(p).1),
        kept_pieces(split_on(p, '/')).len() > 0,
    ensures
        kept_pieces(split_on(split_last_piece(p).0, '/')) == kept_pieces(split_on(p, '/')),
{
    let s = body_start(p);
    let j = last_sep_from(p, s);
    lemma_last_sep_from(p, s);
    let (rest, piece) = split_last_piece(p);
    if s <= j < p.len() {
        assert(p =~= rest + seq!['/'] + piece);
        lemma_split_on_concat(rest, '/', piece);
        lemma_split_without_sep(piece, '/');
        let a = split_on(rest, '/');
        assert((a + seq![piece]).drop_last() =~= a);
    } else if s == 0 {
        lemma_split_without_sep(p, '/');
        assert(piece =~= p);
        assert(seq![p].drop_last() =~= Seq::<Seq<char>>::empty());
        assert(kept_pieces(split_on(p, '/')).len() == 0);
    } else if has_root(p) {
        let q = p.subrange(1, p.len() as int);
        assert(p =~= Seq::<char>::empty() + seq!['/'] + q);
        lemma_split_on_concat(Seq::<char>::empty(), '/', q);
        lemma_split_without_sep(q, '/');
        assert(piece =~= q);
        assert(split_on(Seq::<char>::empty(), '/') =~= seq![Seq::<char>::empty()]);
        let ps = split_on(p, '/');
        assert(ps =~= seq![Seq::<char>::empty(), q]);
        assert(ps.drop_last() =~= seq![Seq::<char>::empty()]);
        assert(ps.drop_last().drop_last() =~= Seq::<Seq<char>>::empty());
        reveal_with_fuel(kept_pieces, 3);
        assert(kept_pieces(ps).len() == 0);
    } else {
        assert(p.len() >= 2 && p[1] == '/');
        assert(false);
    }
}

/// A path with a kept piece keeps a body after trimming.
proof fn lemma_trim_back_keeps_body(p: Seq<char>)
    requires
        kept_pieces(split_on(p, '/')).len() > 0,
    ensures
        trim_back(p).len() > body_start(trim_back(p)),
    decreases p.len(),
{
    if p.len() > body_start(p) {
        let (rest, piece) = split_last_piece(p);
        if is_skipped(piece) {
            lemma_split_last_keeps_kept(p);
            lemma_trim_back_keeps_body(rest);
        }
    } else {
        let ps = split_on(p, '/');
        if p.len() == 0 {
            assert(ps =~= seq![Seq::<char>::empty()]);
            assert(ps.drop_last() =~= Seq::<Seq<char>>::empty());
        } else {
            assert(p.len() == 1);
            assert(p.drop_last() =~= Seq::<char>::empty());
            assert(split_on(p.drop_last(), '/') =~= seq![Seq::<char>::empty()]);
            if p[0] == '/' {
                assert(ps =~= seq![Seq::<char>::empty(), Seq::<char>::empty()]);
                assert(ps.drop_last() =~= seq![Seq::<char>::empty()]);
                assert(ps.drop_last().drop_last() =~= Seq::<Seq<char>>::empty());
            } else {
                assert(p =~= seq!['.']);
                assert(ps =~= seq![seq!['.']]);
                assert(ps.drop_last() =~= Seq::<Seq<char>>::empty());
            }
        }
        reveal_with_fuel(kept_pieces, 3);
        assert(kept_pieces(ps).len() == 0);
    }
}

/// A path with a final name has a parent.
pub proof fn lemma_named_has_parent(p: Seq<char>)
    ensures
        file_name(p) is Some ==> parent(p) is Some,
{
    if file_name(p) is Some {
        let ks = kept_pieces(split_on(p, '/'));
        let cs = components(p);
        lemma_components_parts(p);
        if ks.len() == 0 {
            let i = cs.len() - 1;
            assert(component_text(cs[i]) == cs.map_values(|c: Component| component_text(c))[i]);
        }
        lemma_trim_back_keeps_body(p);
    }
}

/// The path without its final component (see `parent`).
pub fn parent_chars(p: &str) -> (r: Option<Vec<char>>)
    ensures
        match parent(p@) {
            Some(q) => r matches Some(v) && v@ == q,
            None => r is None,
        },
{
    let t = trim_back_exec(chars_of(p));
    let s = body_start_exec(&t);
    if t.len() > s {
        let (rest, _) = split_last_piece_exec(&t);
        return Some(trim_back_exec(rest));
    }
    if (t.len() > 0 && t[0] == '/') || t.len() == 0 {
        return None;
    }
    Some(Vec::new())
}

/// Whether every component of a path is a plain name (see `all_normal`).
pub fn is_all_normal(p: &str) -> (r: bool)
    ensures
        r == all_normal(p@),
{
    let parts = path_parts(p);
    let ghost cs = components(p@);
    let ghost ks = kept_pieces(split_on(p@, '/'));
    let ghost pre = (if has_root(p@) { seq![Component::RootDir] } else { Seq::<Component>::empty() })
        + (if has_cur_dir(p@) { seq![Component::CurDir] } else { Seq::<Component>::empty() });
    proof {
        lemma_components_parts(p@);
        assert(cs =~= pre + ks.map_values(|x: Seq<char>| component_of(x)));
    }
    if parts.root || parts.cur {
        assert(!(components(p@)[0] is Normal));
        return false;
    }
    assert(pre.len() == 0);
    let mut i: usize = 0;
    while i < parts.kept.len()
        invariant
            i <= parts.kept.len(),
            views(parts.kept@) == ks,
            cs == components(p@),
            cs == ks.map_values(|x: Seq<char>| component_of(x)),
            forall|k: int| 0 <= k < i ==> #[trigger] cs[k] is Normal,
        decreases parts.kept.len() - i,
    {
        let piece = &parts.kept[i];
        assert(piece@ == ks[i as int]);
        if piece.len() == 2 && piece[0] == '.' && piece[1] == '.' {
            assert(piece@ =~= seq!['.', '.']);
            assert(!(components(p@)[i as int] is Normal));
            return false;
        }
        assert(piece@ != seq!['.', '.']);
        i = i + 1;
    }
    true
}

pub proof fn lemma_last_dot_bound(name: Seq<char>)
    ensures
        -1 <= last_dot(name) < name.len(),
        last_dot(name) >= 0 ==> name[last_dot(name)] == '.',
    decreases name.len(),
{
    if name.len() > 0 && name.last() != '.' {
        lemma_last_dot_bound(name.drop_last());
    }
}

/// Index of the last `.` in a name, if any.
fn last_dot_index(name: &[char]) -> (r: Option<usize>)
    ensures
        match r {
            Some(i) => last_dot(name@) == i as int,
            None => last_dot(name@) == -1,
        },
{
    assert(name@.subrange(0, name.len() as int) == name@);
    let mut j: usize = name.len();
    while j > 0
        invariant
            j <= name.len(),
            last_dot(name@) == last_dot(name@.subrange(0, j as int)),
        decreases j,
    {
        let ghost pre = name@.subrange(0, j as int);
        assert(pre.drop_last() == name@.subrange(0, j - 1));
        if name[j - 1] == '.' {
            return Some(j - 1);
        }
        j = j - 1;
    }
    None
}

/// The stem of a file name (see `stem_of`).
pub fn stem_chars(name: &[char]) -> (r: Vec<char>)
    ensures
        r@ == stem_of(name@),
{
    let dot = last_dot_index(name);
    proof {
        lemma_last_dot_bound(name@);
    }
    let end: usize = match dot {
        Some(i) => if i == 0 { name.len() } else { i },
        None => name.len(),
    };
    let mut r: Vec<char> = Vec::new();
    let mut k: usize = 0;
    while k < end
        invariant
            end <= name.len(),
            k <= end,
            r@ == name@.subrange(0, k as int),
        decreases end - k,
    {
        r.push(name[k]);
        k = k + 1;
    }
    assert(name@.subrange(0, name.len() as int) == name@);
    r
}

/// Whether the extension of a file name is `zip`, in any letter case.
pub fn has_zip_extension(name: &[char]) -> (r: bool)
    ensures
        r == (match extension_of(name@) {
            Some(e) => crate::text::eq_ignore_ascii_case(e, "zip"@),
            None => false,
        }),
{
    let dot = last_dot_index(name);
    let n = name.len();
    proof {
        lemma_last_dot_bound(name@);
    }
    match dot {
        Some(i) => {
            if i == 0 {
                return false;
            }
            let mut ext: Vec<char> = Vec::new();
            let mut k: usize = i + 1;
            while k < name.len()
                invariant
                    i < name.len(),
                    i + 1 <= k <= name.len(),
                    ext@ == name@.subrange(i + 1, k as int),
                decreases name.len() - k,
            {
                ext.push(name[k]);
                k = k + 1;
            }
            let zip = chars_of("zip");
            crate::text::chars_eq_ignore_ascii_case(ext.as_slice(), zip.as_slice())
        },
        None => false,
    }
}

proof fn lemma_kept_concat(a: Seq<Seq<char>>, b: Seq<Seq<char>>)
    ensures
        kept_pieces(a + b) == kept_pieces(a) + kept_pieces(b),
    decreases b.len(),
{
    if b.len() == 0 {
        assert(a + b =~= a);
        assert(kept_pieces(a) + kept_pieces(b) =~= kept_pieces(a));
    } else {
        lemma_kept_concat(a, b.drop_last());
        assert((a + b).drop_last() =~= a + b.drop_last());
        assert((a + b).last() == b.last());
        if !is_skipped(b.last()) {
            assert((kept_pieces(a) + kept_pieces(b.drop_last())).push(b.last())
                =~= kept_pieces(a) + kept_pieces(b.drop_last()).push(b.last()));
        }
    }
}

proof fn lemma_kept_single_empty()
    ensures
        kept_pieces(seq![Seq::<char>::empty()]) =~= Seq::<Seq<char>>::empty(),
{
    let s = seq![Seq::<char>::empty()];
    assert(s.drop_last() =~= Seq::<Seq<char>>::empty());
    assert(kept_pieces(Seq::<Seq<char>>::empty()) =~= Seq::<Seq<char>>::empty());
    assert(is_skipped(s.last()));
    assert(kept_pieces(s) == kept_pieces(s.drop_last()));
}

proof fn lemma_components_of_relative(n: Seq<char>)
    requires
        !has_root(n),
        !has_cur_dir(n),
    ensures
        components(n) =~= kept_pieces(split_on(n, '/')).map_values(|x: Seq<char>| component_of(x)),
{
}

/// Joining a name made of plain names only (see `all_normal`) onto a
/// directory adds exactly the name's components after the directory's own,
/// and each of them is a plain name: such a name never climbs out of the
/// directory, whatever the directory is. This is what keeps extraction
/// inside its destination.
pub proof fn lemma_join_stays_inside(d: Seq<char>, n: Seq<char>)
    requires
        all_normal(n),
    ensures
        components(join_path(d, n)) == components(d) + components(n),
        forall|i: int| 0 <= i < components(n).len() ==> #[trigger] components(n)[i] is Normal,
{
    lemma_split_on_nonempty(n, '/');
    if has_root(n) {
        assert(components(n)[0] is RootDir);
    }
    if has_cur_dir(n) {
        assert(components(n)[0] is CurDir);
    }
    lemma_components_of_relative(n);
    let f = |x: Seq<char>| component_of(x);
    let j = join_path(d, n);
    if d.len() == 0 {
        assert(j =~= n);
        assert(split_on(d, '/') =~= seq![Seq::<char>::empty()]);
        lemma_kept_single_empty();
        assert(split_on(d, '/')[0].len() == 0);
        assert(seq!['.'].len() == 1);
        assert(!has_cur_dir(d));
        assert(!has_root(d));
        assert(kept_pieces(split_on(d, '/')).map_values(f) =~= Seq::<Component>::empty());
        assert(components(d) =~= Seq::<Component>::empty());
        assert(components(j) =~= components(d) + components(n));
    } else {
        let base = if d.last() == '/' { d.drop_last() } else { d };
        assert(j =~= base + seq!['/'] + n);
        lemma_split_on_concat(base, '/', n);
        lemma_split_on_nonempty(base, '/');
        let sb = split_on(base, '/');
        let sn = split_on(n, '/');
        if d.last() == '/' {
            assert(d =~= base + seq!['/'] + Seq::<char>::empty());
            lemma_split_on_concat(base, '/', Seq::<char>::empty());
            assert(split_on(Seq::<char>::empty(), '/') =~= seq![Seq::<char>::empty()]);
            lemma_kept_concat(sb, seq![Seq::<char>::empty()]);
            lemma_kept_single_empty();
            assert(split_on(d, '/') == sb + seq![Seq::<char>::empty()]);
            assert(split_on(d, '/')[0] == sb[0]);
            assert(kept_pieces(split_on(d, '/')) =~= kept_pieces(sb));
        }
        assert(split_on(j, '/')[0] == sb[0]);
        assert(split_on(d, '/')[0] == sb[0]);
        assert(has_root(j) == has_root(d)) by {
            if base.len() == 0 {
                assert(d.len() == 1 && d[0] == '/');
            }
        }
        lemma_kept_concat(sb, sn);
        assert((kept_pieces(sb) + kept_pieces(sn)).map_values(f)
            =~= kept_pieces(sb).map_values(f) + kept_pieces(sn).map_values(f));
        assert(components(j) =~= components(d) + components(n));
    }
}

/// A plain name as a path component can be: non-empty, without `/`, and
/// neither `.` nor `..`.
pub open spec fn is_plain_name(x: Seq<char>) -> bool {
    x.len() > 0 && (forall|k: int| 0 <= k < x.len() ==> x[k] != '/') && x != seq!['.']
        && x != seq!['.', '.']
}

proof fn lemma_kept_are_pieces(ps: Seq<Seq<char>>)
    ensures
        forall|i: int| 0 <= i < kept_pieces(ps).len() ==> !is_skipped(#[trigger] kept_pieces(ps)[i])
            && exists|j: int| 0 <= j < ps.len() && kept_pieces(ps)[i] == ps[j],
    decreases ps.len(),
{
    if ps.len() > 0 {
        lemma_kept_are_pieces(ps.drop_last());
        let k = kept_pieces(ps.drop_last());
        assert forall|i: int| 0 <= i < kept_pieces(ps).len() implies !is_skipped(#[trigger] kept_pieces(ps)[i])
            && exists|j: int| 0 <= j < ps.len() && kept_pieces(ps)[i] == ps[j] by {
            if i < k.len() {
                assert(kept_pieces(ps)[i] == k[i]);
                let j = choose|j: int| 0 <= j < ps.drop_last().len() && k[i] == ps.drop_last()[j];
                assert(ps[j] == ps.drop_last()[j]);
            } else {
                assert(kept_pieces(ps)[i] == ps.last());
                assert(ps[ps.len() - 1] == ps.last());
            }
        }
    }
}

/// The final name of a path is a plain name.
pub proof fn lemma_file_name_is_plain(p: Seq<char>)
    ensures
        file_name(p) matches Some(x) ==> is_plain_name(x),
{
    if file_name(p) is Some {
        let ps = split_on(p, '/');
        let ks = kept_pieces(ps);
        lemma_kept_are_pieces(ps);
        lemma_split_pieces_lack_sep(p, '/');
        lemma_components_parts(p);
        let cs = components(p);
        let x = file_name(p)->0;
        let pre = (if has_root(p) { seq![Component::RootDir] } else { Seq::<Component>::empty() })
            + (if has_cur_dir(p) { seq![Component::CurDir] } else { Seq::<Component>::empty() });
        assert(cs =~= pre + ks.map_values(|y: Seq<char>| component_of(y)));
        if ks.len() == 0 {
            assert(cs.len() == pre.len());
            assert(cs.last() == pre.last());
        }
        assert(ks.len() > 0);
        assert(cs.last() == component_of(ks.last()));
        assert(x == ks.last());
        assert(ks[ks.len() - 1] == ks.last());
        let j = choose|j: int| 0 <= j < ps.len() && ks[ks.len() - 1] == ps[j];
        assert forall|k: int| 0 <= k < x.len() implies x[k] != '/' by {
            assert(ps[j][k] == x[k]);
        }
    }
}

/// Joining a plain name onto any path gives a path whose final name is
/// that name.
pub proof fn lemma_join_file_name(base: Seq<char>, x: Seq<char>)
    requires
        is_plain_name(x),
    ensures
        file_name(join_path(base, x)) == Some(x),
{
    let j = join_path(base, x);
    lemma_split_without_sep(x, '/');
    assert(!is_skipped(x));
    assert(kept_pieces(seq![x]) =~= seq![x]) by {
        assert(seq![x].drop_last() =~= Seq::<Seq<char>>::empty());
        assert(kept_pieces(Seq::<Seq<char>>::empty()) =~= Seq::<Seq<char>>::empty());
    }
    if base.len() == 0 {
        assert(j =~= x);
        assert(!has_root(x));
        assert(!has_cur_dir(x));
        assert(components(j) =~= seq![component_of(x)]);
    } else {
        let b = if base.last() == '/' { base.drop_last() } else { base };
        assert(j =~= b + seq!['/'] + x);
        lemma_split_on_concat(b, '/', x);
        lemma_kept_concat(split_on(b, '/'), seq![x]);
        lemma_components_parts(j);
        let cs = components(j);
        let ks = kept_pieces(split_on(j, '/'));
        assert(ks.last() == x);
        let pre = (if has_root(j) { seq![Component::RootDir] } else { Seq::<Component>::empty() })
            + (if has_cur_dir(j) { seq![Component::CurDir] } else { Seq::<Component>::empty() });
        assert(cs =~= pre + ks.map_values(|y: Seq<char>| component_of(y)));
        assert(cs.last() == component_of(x));
    }
}

} // verus!
