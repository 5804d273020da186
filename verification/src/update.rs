use vstd::prelude::*;

use crate::text::{
    strip_cr,
    decimal,
    chars_eq,
    chars_eq_ignore_ascii_case,
    chars_of,
    eq_ignore_ascii_case,
    lines_chars,
    lines_of,
    split_chars,
    split_on,
    string_from_chars,
    strip_leading,
    strip_leading_chars,
    tokens,
    tokens_chars,
    views,
};

verus! {

/// An ASCII decimal digit.
pub open spec fn is_ascii_digit(c: char) -> bool {
    '0' <= c && c <= '9'
}

/// The value of a string of decimal digits.
pub open spec fn digits_value(d: Seq<char>) -> nat
    decreases d.len(),
{
    if d.len() == 0 {
        0
    } else {
        digits_value(d.drop_last()) * 10 + ((d.last() as nat) - ('0' as nat)) as nat
    }
}

/// The digits of an unsigned number: the text after an optional `+`.
pub open spec fn unsigned_digits(s: Seq<char>) -> Seq<char> {
    if s.len() > 0 && s[0] == '+' {
        s.drop_first()
    } else {
        s
    }
}

/// What `str::parse::<u32>` accepts: an optional `+`, then one or more
/// ASCII digits whose value fits in a `u32`.
pub open spec fn parse_u32(s: Seq<char>) -> Option<u32> {
    let d = unsigned_digits(s);
    if d.len() > 0 && (forall|i: int| 0 <= i < d.len() ==> #[trigger] is_ascii_digit(d[i]))
        && digits_value(d) <= u32::MAX {
        Some(digits_value(d) as u32)
    } else {
        None
    }
}

proof fn lemma_digits_value_grows(d: Seq<char>, i: int)
    requires
        0 <= i <= d.len(),
        forall|k: int| 0 <= k < d.len() ==> #[trigger] is_ascii_digit(d[k]),
    ensures
        digits_value(d.subrange(0, i)) <= digits_value(d),
    decreases d.len() - i,
{
    if i < d.len() {
        lemma_digits_value_grows(d, i + 1);
        let p = d.subrange(0, i + 1);
        assert(p.drop_last() == d.subrange(0, i));
    } else {
        assert(d.subrange(0, i) == d);
    }
}

/// Parses a decimal `u32` as `str::parse::<u32>` does.
pub fn parse_u32_chars(s: &[char]) -> (r: Option<u32>)
    ensures
        r == parse_u32(s@),
{
    let start: usize = if s.len() > 0 && s[0] == '+' { 1 } else { 0 };
    let ghost d = unsigned_digits(s@);
    assert(d == s@.subrange(start as int, s@.len() as int));
    if start >= s.len() {
        return None;
    }
    let mut value: u32 = 0;
    let mut i: usize = start;
    while i < s.len()
        invariant
            start <= i <= s.len(),
            d == s@.subrange(start as int, s@.len() as int),
            d == unsigned_digits(s@),
            forall|k: int| start <= k < i ==> #[trigger] is_ascii_digit(s@[k]),
            value as nat == digits_value(d.subrange(0, i - start)),
        decreases s.len() - i,
    {
        let c = s[i];
        assert(d[i - start] == s@[i as int]);
        if !('0' <= c && c <= '9') {
            assert(!is_ascii_digit(d[i - start]));
            return None;
        }
        let digit: u32 = (c as u32) - ('0' as u32);
        let ghost p = d.subrange(0, i - start + 1);
        assert(p.drop_last() == d.subrange(0, i - start));
        assert(digits_value(p) == value * 10 + digit);
        if value > 429496729 || (value == 429496729 && digit > 5) {
            proof {
                if forall|k: int| 0 <= k < d.len() ==> #[trigger] is_ascii_digit(d[k]) {
                    lemma_digits_value_grows(d, i - start + 1);
                }
            }
            return None;
        }
        value = value * 10 + digit;
        i = i + 1;
    }
    assert(d.subrange(0, d.len() as int) == d);
    Some(value)
}

/// A version `X.Y.Z` as a triple of numbers.
pub type Version = (u32, u32, u32);

/// The version that a text names: exactly three `.`-separated parts, each
/// a `u32`.
pub open spec fn version_of(s: Seq<char>) -> Option<Version> {
    let parts = split_on(s, '.');
    if parts.len() == 3 && parse_u32(parts[0]) is Some && parse_u32(parts[1]) is Some
        && parse_u32(parts[2]) is Some {
        Some((parse_u32(parts[0])->0, parse_u32(parts[1])->0, parse_u32(parts[2])->0))
    } else {
        None
    }
}

/// Numeric (not textual) order of versions: major, then minor, then patch.
pub open spec fn version_lt(a: Version, b: Version) -> bool {
    a.0 < b.0 || (a.0 == b.0 && (a.1 < b.1 || (a.1 == b.1 && a.2 < b.2)))
}

/// A text without its first character when that is a `v`.
pub open spec fn without_v(s: Seq<char>) -> Seq<char> {
    if s.len() > 0 && s[0] == 'v' {
        s.drop_first()
    } else {
        s
    }
}

/// Drops one leading `v`.
pub fn without_v_chars(s: &[char]) -> (r: Vec<char>)
    ensures
        r@ == without_v(s@),
{
    let start: usize = if s.len() > 0 && s[0] == 'v' { 1 } else { 0 };
    let mut r: Vec<char> = Vec::new();
    let mut i: usize = start;
    while i < s.len()
        invariant
            start <= i <= s.len(),
            start == (if s@.len() > 0 && s@[0] == 'v' { 1usize } else { 0usize }),
            r@ == s@.subrange(start as int, i as int),
        decreases s.len() - i,
    {
        r.push(s[i]);
        i = i + 1;
    }
    r
}

/// Whether `latest` is newer than `current`, or `None` when either is not
/// an `X.Y.Z` version; `latest` may carry one leading `v`.
pub open spec fn newer_spec(current: Seq<char>, latest: Seq<char>) -> Option<bool> {
    match (version_of(current), version_of(without_v(latest))) {
        (Some(c), Some(l)) => Some(version_lt(c, l)),
        _ => None,
    }
}

/// Parses an `X.Y.Z` version.
pub fn parse_version(s: &str) -> (r: Option<Version>)
    ensures
        r == version_of(s@),
{
    let chars = chars_of(s);
    let parts = split_chars(chars.as_slice(), '.');
    assert(views(parts@) == split_on(s@, '.'));
    if parts.len() != 3 {
        return None;
    }
    assert(parts@[0]@ == views(parts@)[0]);
    assert(parts@[1]@ == views(parts@)[1]);
    assert(parts@[2]@ == views(parts@)[2]);
    let major = parse_u32_chars(parts[0].as_slice());
    let minor = parse_u32_chars(parts[1].as_slice());
    let patch = parse_u32_chars(parts[2].as_slice());
    match (major, minor, patch) {
        (Some(a), Some(b), Some(c)) => Some((a, b, c)),
        _ => None,
    }
}

/// Compares `current` (e.g. "0.1.0") with `latest` (e.g. "0.2.0", a leading
/// `v` allowed): `Some(true)` when `latest` is newer. Versions compare as
/// number triples, so "0.9.0" is older than "0.10.0". `None` when either
/// side is not an `X.Y.Z` version.
pub fn is_newer(current: &str, latest: &str) -> (r: Option<bool>)
    ensures
        r == newer_spec(current@, latest@),
{
    let c = parse_version(current);
    let latest_chars = chars_of(latest);
    let body = without_v_chars(latest_chars.as_slice());
    let l = parse_version(string_from_chars(body.as_slice()).as_str());
    match (c, l) {
        (Some(c), Some(l)) => Some(c.0 < l.0 || (c.0 == l.0 && (c.1 < l.1 || (c.1 == l.1 && c.2 < l.2)))),
        _ => None,
    }
}

/// The lower-case hexadecimal digit for a value below 16.
pub open spec fn hex_digit(n: u8) -> char {
    if n < 10 {
        (('0' as u8) + n) as char
    } else {
        (('a' as u8) + n - 10) as char
    }
}

/// Lower-case hexadecimal text of a byte string, two digits per byte, high
/// nibble first (as `format!("{:x}", ..)` writes a digest).
pub open spec fn hex_lower(bytes: Seq<u8>) -> Seq<char>
    decreases bytes.len(),
{
    if bytes.len() == 0 {
        Seq::<char>::empty()
    } else {
        hex_lower(bytes.drop_last()).push(hex_digit(bytes.last() / 16)).push(hex_digit(bytes.last() % 16))
    }
}

fn hex_digit_char(n: u8) -> (c: char)
    requires
        n < 16,
    ensures
        c == hex_digit(n),
{
    if n < 10 {
        (('0' as u8) + n) as char
    } else {
        (('a' as u8) + n - 10) as char
    }
}

/// Writes a byte string as lower-case hexadecimal.
pub fn to_hex_lower(bytes: &[u8]) -> (s: Vec<char>)
    ensures
        s@ == hex_lower(bytes@),
{
    let mut s: Vec<char> = Vec::new();
    let mut i: usize = 0;
    while i < bytes.len()
        invariant
            i <= bytes.len(),
            s@ == hex_lower(bytes@.subrange(0, i as int)),
        decreases bytes.len() - i,
    {
        let b = bytes[i];
        s.push(hex_digit_char(b / 16));
        s.push(hex_digit_char(b % 16));
        assert(bytes@.subrange(0, i + 1).drop_last() == bytes@.subrange(0, i as int));
        i = i + 1;
    }
    assert(bytes@.subrange(0, bytes.len() as int) == bytes@);
    s
}

/// The value of a lower-case hexadecimal digit.
pub open spec fn hex_value(c: char) -> int {
    if '0' <= c && c <= '9' {
        c as int - '0' as int
    } else if 'a' <= c && c <= 'f' {
        c as int - 'a' as int + 10
    } else {
        -1
    }
}

/// A byte string written in hexadecimal takes two lower-case digits per
/// byte, the high nibble first: reading the digits back gives the bytes.
pub proof fn lemma_hex_lower_reads_back(bytes: Seq<u8>)
    ensures
        hex_lower(bytes).len() == 2 * bytes.len(),
        forall|i: int| 0 <= i < bytes.len() ==> 0 <= #[trigger] hex_value(hex_lower(bytes)[2 * i]) < 16
            && 0 <= hex_value(hex_lower(bytes)[2 * i + 1]) < 16
            && hex_value(hex_lower(bytes)[2 * i]) * 16 + hex_value(hex_lower(bytes)[2 * i + 1]) == bytes[i],
    decreases bytes.len(),
{
    if bytes.len() > 0 {
        let p = bytes.drop_last();
        lemma_hex_lower_reads_back(p);
        let h = hex_lower(bytes);
        let b = bytes.last();
        assert(h == hex_lower(p).push(hex_digit(b / 16)).push(hex_digit(b % 16)));
        assert(hex_value(hex_digit(b / 16)) == b / 16);
        assert(hex_value(hex_digit(b % 16)) == b % 16);
        assert forall|i: int| 0 <= i < bytes.len() implies 0 <= #[trigger] hex_value(h[2 * i]) < 16
            && 0 <= hex_value(h[2 * i + 1]) < 16
            && hex_value(h[2 * i]) * 16 + hex_value(h[2 * i + 1]) == bytes[i] by {
            if i < p.len() {
                assert(h[2 * i] == hex_lower(p)[2 * i]);
                assert(h[2 * i + 1] == hex_lower(p)[2 * i + 1]);
                assert(bytes[i] == p[i]);
                assert(hex_value(hex_lower(p)[2 * i]) * 16 + hex_value(hex_lower(p)[2 * i + 1]) == p[i]);
            } else {
                assert(i == p.len());
                assert((b / 16) * 16 + b % 16 == b) by (nonlinear_arith);
            }
        }
    }
}

/// What `sha2::Sha256::digest` returns for a byte string.
pub uninterp spec fn sha256_of(data: Seq<u8>) -> Seq<u8>;

/// Calls `sha2::Sha256::digest`. The contract claims that the result is the
/// SHA-256 digest of these bytes, which is 32 bytes long.
#[verifier::external_body]
fn sha256(data: &[u8]) -> (d: Vec<u8>)
    ensures
        d@ == sha256_of(data@),
        d@.len() == 32,
{
    <sha2::Sha256 as sha2::Digest>::digest(data).to_vec()
}

/// Whether a digest matches an expected hexadecimal text, whatever the
/// case of its letters.
pub open spec fn checksum_matches(digest: Seq<u8>, expected_hex: Seq<char>) -> bool {
    eq_ignore_ascii_case(hex_lower(digest), expected_hex)
}

/// Compares a digest with an expected hexadecimal text as `verify_checksum`
/// does, given the digest.
pub fn digest_matches(digest: &[u8], expected_hex: &str) -> (r: bool)
    ensures
        r == checksum_matches(digest@, expected_hex@),
{
    let actual = to_hex_lower(digest);
    let expected = chars_of(expected_hex);
    chars_eq_ignore_ascii_case(actual.as_slice(), expected.as_slice())
}

/// Whether the SHA-256 digest of `data` equals `expected_hex` (hexadecimal,
/// letters in either case).
pub fn verify_checksum(data: &[u8], expected_hex: &str) -> (r: bool)
    ensures
        r == checksum_matches(sha256_of(data@), expected_hex@),
{
    let digest = sha256(data);
    digest_matches(digest.as_slice(), expected_hex)
}

/// The file name at the end of a URL: the text after its last `/`.
pub open spec fn url_file_name(url: Seq<char>) -> Seq<char> {
    split_on(url, '/').last()
}

/// The hash that a `sha256sum` line gives for `file_name`: the first word,
/// when the second word (without leading `*`s) is `file_name`.
pub open spec fn checksum_entry(line: Seq<char>, file_name: Seq<char>) -> Option<Seq<char>> {
    let t = tokens(line);
    if t.len() >= 2 && strip_leading(t[1], '*') == file_name {
        Some(t[0])
    } else {
        None
    }
}

/// The hash of the first of `lines`, from index `i` on, that names `file_name`.
pub open spec fn first_checksum_from(lines: Seq<Seq<char>>, file_name: Seq<char>, i: int) -> Option<Seq<char>>
    decreases lines.len() - i,
{
    if i < 0 || i >= lines.len() {
        None
    } else {
        match checksum_entry(lines[i], file_name) {
            Some(h) => Some(h),
            None => first_checksum_from(lines, file_name, i + 1),
        }
    }
}

/// The hash that a checksum file gives for the file that `deb_url` names.
pub open spec fn checksum_for(checksum_text: Seq<char>, deb_url: Seq<char>) -> Option<Seq<char>> {
    first_checksum_from(lines_of(checksum_text), url_file_name(deb_url), 0)
}

/// The message when a checksum file has no line for the package.
pub open spec fn missing_checksum_message() -> Seq<char> {
    "チェックサムファイルに該当するエントリが見つかりません"@
}

fn checksum_entry_exec(line: &[char], file_name: &[char]) -> (r: Option<Vec<char>>)
    ensures
        match checksum_entry(line@, file_name@) {
            Some(h) => r matches Some(v) && v@ == h,
            None => r is None,
        },
{
    let toks = tokens_chars(line);
    if toks.len() < 2 {
        return None;
    }
    assert(toks@[1]@ == views(toks@)[1]);
    assert(toks@[0]@ == views(toks@)[0]);
    let name = strip_leading_chars(toks[1].as_slice(), '*');
    if chars_eq(name.as_slice(), file_name) {
        Some(toks[0].clone())
    } else {
        None
    }
}

/// From a checksum file in `sha256sum` form (`<hash>  <file name>` per line),
/// takes the hash on the line for the file named at the end of `deb_url`.
pub fn extract_checksum_for(checksum_text: &str, deb_url: &str) -> (r: Result<String, String>)
    ensures
        match checksum_for(checksum_text@, deb_url@) {
            Some(h) => r matches Ok(s) && s@ == h,
            None => r matches Err(e) && e@ == missing_checksum_message(),
        },
{
    let url = chars_of(deb_url);
    let url_parts = split_chars(url.as_slice(), '/');
    let file_name = url_parts[url_parts.len() - 1].clone();
    assert(file_name@ == views(url_parts@).last());
    let text = chars_of(checksum_text);
    let lines = lines_chars(text.as_slice());
    let ghost ls = lines_of(checksum_text@);
    let mut i: usize = 0;
    while i < lines.len()
        invariant
            i <= lines.len(),
            views(lines@) == ls,
            file_name@ == url_file_name(deb_url@),
            first_checksum_from(ls, file_name@, i as int) == checksum_for(checksum_text@, deb_url@),
        decreases lines.len() - i,
    {
        assert(lines@[i as int]@ == ls[i as int]);
        match checksum_entry_exec(lines[i].as_slice(), file_name.as_slice()) {
            Some(h) => {
                return Ok(string_from_chars(h.as_slice()));
            },
            None => {},
        }
        i = i + 1;
    }
    Err(String::from_str("チェックサムファイルに該当するエントリが見つかりません"))
}

/// The checksum file names the package by the last part of its URL: a line
/// `<hash>  <name>` at the top of the file gives the hash for a URL that
/// ends in `/<name>`, whatever lines follow.
pub proof fn lemma_checksum_first_line(h: Seq<char>, f: Seq<char>, prefix: Seq<char>, rest: Seq<char>)
    requires
        h.len() > 0,
        f.len() > 0,
        forall|k: int| 0 <= k < h.len() ==> !crate::text::is_space(h[k]),
        forall|k: int| 0 <= k < f.len() ==> !crate::text::is_space(f[k]) && f[k] != '/',
        f[0] != '*',
    ensures
        checksum_for(h + seq![' ', ' '] + f + seq!['\n'] + rest, prefix + seq!['/'] + f) == Some(h),
{
    let line = h + seq![' ', ' '] + f;
    let text = line + seq!['\n'] + rest;
    assert(text =~= h + seq![' ', ' '] + f + seq!['\n'] + rest);
    // the file name of the URL
    crate::text::lemma_split_on_concat(prefix, '/', f);
    crate::text::lemma_split_without_sep(f, '/');
    // the first line
    assert forall|k: int| 0 <= k < line.len() implies line[k] != '\n' by {
        if k < h.len() {
            assert(line[k] == h[k]);
        } else if k >= h.len() + 2 {
            assert(line[k] == f[k - h.len() - 2]);
        }
    }
    crate::text::lemma_split_on_concat(line, '\n', rest);
    crate::text::lemma_split_without_sep(line, '\n');
    crate::text::lemma_split_on_nonempty(rest, '\n');
    let p = split_on(text, '\n');
    assert(p[0] == line);
    assert(p.len() >= 2);
    assert(line.last() == f.last());
    let ls = lines_of(text);
    assert(ls[0] == strip_cr(line));
    assert(strip_cr(line) == line);
    // its tokens
    crate::text::lemma_tokens_word_after_space(Seq::<char>::empty(), ' ', h);
    assert(Seq::<char>::empty() + seq![' '] + h =~= seq![' '] + h);
    assert(tokens(Seq::<char>::empty()) =~= Seq::<Seq<char>>::empty());
    lemma_tokens_leading(h);
    crate::text::lemma_tokens_trailing_space(h, ' ');
    crate::text::lemma_tokens_word_after_space(h + seq![' '], ' ', f);
    assert(line =~= h + seq![' '] + seq![' '] + f);
    assert(tokens(line) =~= seq![h, f]);
    assert(strip_leading(f, '*') == f);
    assert(checksum_entry(ls[0], f) == Some(h));
}

/// A word without whitespace is its own only token.
proof fn lemma_tokens_leading(h: Seq<char>)
    requires
        h.len() > 0,
        forall|k: int| 0 <= k < h.len() ==> !crate::text::is_space(h[k]),
    ensures
        tokens(h) == seq![h],
    decreases h.len(),
{
    assert(!crate::text::is_space(h[h.len() - 1]));
    if h.len() == 1 {
        assert(h.drop_last() =~= Seq::<char>::empty());
        assert(tokens(h.drop_last()) =~= Seq::<Seq<char>>::empty());
        assert(h =~= seq![h[0]]);
    } else {
        let v = h.drop_last();
        lemma_tokens_leading(v);
        assert(!crate::text::is_space(h[h.len() - 2]));
        assert(h[h.len() - 2] == v.last());
        assert(v.push(h.last()) =~= h);
        assert(seq![v].update(0, v.push(h.last())) =~= seq![h]);
    }
}

/// What an update needs from the latest release: its version (`X.Y.Z`,
/// the tag without its leading `v`) and the download URLs of the `.deb`
/// package and of the checksum file.
#[derive(Debug, PartialEq, Eq, Clone)]
pub struct UpdateInfo {
    pub version: String,
    pub deb_url: String,
    pub checksum_url: String,
}

/// One downloadable asset of a release.
#[derive(Debug, Clone)]
pub struct ReleaseAsset {
    pub name: String,
    pub browser_download_url: String,
}

/// The part of a release description that an update reads.
#[derive(Debug, Clone)]
pub struct Release {
    pub tag_name: String,
    pub assets: Vec<ReleaseAsset>,
}

/// Whether `s` ends with `suffix`.
pub open spec fn ends_with(s: Seq<char>, suffix: Seq<char>) -> bool {
    s.len() >= suffix.len() && s.subrange(s.len() - suffix.len(), s.len() as int) == suffix
}

/// The name of the checksum asset.
pub open spec fn checksum_asset_name() -> Seq<char> {
    "SHA256SUMS.txt"@
}

/// The URL of the first asset, from index `i` on, whose name ends in `.deb`.
pub open spec fn first_deb_url(assets: Seq<ReleaseAsset>, i: int) -> Option<Seq<char>>
    decreases assets.len() - i,
{
    if i < 0 || i >= assets.len() {
        None
    } else if ends_with(assets[i].name@, ".deb"@) {
        Some(assets[i].browser_download_url@)
    } else {
        first_deb_url(assets, i + 1)
    }
}

/// The URL of the first asset, from index `i` on, named `SHA256SUMS.txt`.
pub open spec fn first_checksum_url(assets: Seq<ReleaseAsset>, i: int) -> Option<Seq<char>>
    decreases assets.len() - i,
{
    if i < 0 || i >= assets.len() {
        None
    } else if assets[i].name@ == checksum_asset_name() {
        Some(assets[i].browser_download_url@)
    } else {
        first_checksum_url(assets, i + 1)
    }
}

/// The update that a release offers: the version is the tag without its
/// leading `v`; both a `.deb` asset and the checksum asset must be there.
pub open spec fn release_update(release: Release) -> Option<(Seq<char>, Seq<char>, Seq<char>)> {
    match (first_deb_url(release.assets@, 0), first_checksum_url(release.assets@, 0)) {
        (Some(deb), Some(sums)) => Some((without_v(release.tag_name@), deb, sums)),
        _ => None,
    }
}

/// Whether an asset's name ends in `.deb`.
pub open spec fn is_deb_name(name: Seq<char>) -> bool {
    name.len() >= 4 && name.subrange(name.len() - 4, name.len() as int) == seq!['.', 'd', 'e', 'b']
}

proof fn lemma_first_deb(assets: Seq<ReleaseAsset>, i: int)
    requires
        0 <= i <= assets.len(),
    ensures
        first_deb_url(assets, i) matches Some(u) ==> exists|k: int| i <= k < assets.len()
            && is_deb_name(#[trigger] assets[k].name@) && u == assets[k].browser_download_url@
            && forall|m: int| i <= m < k ==> !is_deb_name(#[trigger] assets[m].name@),
        first_deb_url(assets, i) is None ==> forall|m: int| i <= m < assets.len() ==> !is_deb_name(#[trigger] assets[m].name@),
    decreases assets.len() - i,
{
    reveal_strlit(".deb");
    assert(".deb"@ =~= seq!['.', 'd', 'e', 'b']);
    if i < assets.len() {
        lemma_first_deb(assets, i + 1);
        if !ends_with(assets[i].name@, ".deb"@) {
            if first_deb_url(assets, i) is Some {
                let k = choose|k: int| i + 1 <= k < assets.len()
                    && is_deb_name(#[trigger] assets[k].name@) && first_deb_url(assets, i)->0 == assets[k].browser_download_url@
                    && forall|m: int| i + 1 <= m < k ==> !is_deb_name(#[trigger] assets[m].name@);
                assert forall|m: int| i <= m < k implies !is_deb_name(#[trigger] assets[m].name@) by {}
            }
        }
    }
}

proof fn lemma_first_sums(assets: Seq<ReleaseAsset>, i: int)
    requires
        0 <= i <= assets.len(),
    ensures
        first_checksum_url(assets, i) matches Some(u) ==> exists|k: int| i <= k < assets.len()
            && #[trigger] assets[k].name@ == "SHA256SUMS.txt"@ && u == assets[k].browser_download_url@
            && forall|m: int| i <= m < k ==> #[trigger] assets[m].name@ != "SHA256SUMS.txt"@,
        first_checksum_url(assets, i) is None ==> forall|m: int| i <= m < assets.len() ==> #[trigger] assets[m].name@ != "SHA256SUMS.txt"@,
    decreases assets.len() - i,
{
    if i < assets.len() {
        lemma_first_sums(assets, i + 1);
        if assets[i].name@ != checksum_asset_name() {
            if first_checksum_url(assets, i) is Some {
                let k = choose|k: int| i + 1 <= k < assets.len()
                    && #[trigger] assets[k].name@ == "SHA256SUMS.txt"@ && first_checksum_url(assets, i)->0 == assets[k].browser_download_url@
                    && forall|m: int| i + 1 <= m < k ==> #[trigger] assets[m].name@ != "SHA256SUMS.txt"@;
                assert forall|m: int| i <= m < k implies #[trigger] assets[m].name@ != "SHA256SUMS.txt"@ by {}
            }
        }
    }
}

/// A release offers an update exactly when it has an asset whose name ends
/// in `.deb` and one named `SHA256SUMS.txt`; the update takes the first of
/// each, and its version is the tag without one leading `v`.
pub proof fn lemma_release_choice(release: Release)
    ensures
        release_update(release) is Some <==> (exists|k: int| 0 <= k < release.assets@.len()
            && is_deb_name(#[trigger] release.assets@[k].name@))
            && (exists|k: int| 0 <= k < release.assets@.len() && #[trigger] release.assets@[k].name@ == "SHA256SUMS.txt"@),
        release_update(release) matches Some((v, deb, sums)) ==> {
            &&& (exists|k: int| 0 <= k < release.assets@.len() && is_deb_name(#[trigger] release.assets@[k].name@)
                && deb == release.assets@[k].browser_download_url@
                && forall|m: int| 0 <= m < k ==> !is_deb_name(#[trigger] release.assets@[m].name@))
            &&& (exists|k: int| 0 <= k < release.assets@.len() && #[trigger] release.assets@[k].name@ == "SHA256SUMS.txt"@
                && sums == release.assets@[k].browser_download_url@
                && forall|m: int| 0 <= m < k ==> #[trigger] release.assets@[m].name@ != "SHA256SUMS.txt"@)
            &&& (release.tag_name@.len() > 0 && release.tag_name@[0] == 'v' ==> v == release.tag_name@.drop_first())
            &&& (release.tag_name@.len() == 0 || release.tag_name@[0] != 'v' ==> v == release.tag_name@)
        },
{
    lemma_first_deb(release.assets@, 0);
    lemma_first_sums(release.assets@, 0);
}

/// Whether a text ends with a suffix.
pub fn chars_end_with(s: &[char], suffix: &[char]) -> (r: bool)
    ensures
        r == ends_with(s@, suffix@),
{
    if s.len() < suffix.len() {
        return false;
    }
    let offset = s.len() - suffix.len();
    let mut i: usize = 0;
    while i < suffix.len()
        invariant
            offset == s.len() - suffix.len(),
            i <= suffix.len(),
            forall|k: int| 0 <= k < i ==> s@[offset + k] == suffix@[k],
        decreases suffix.len() - i,
    {
        if s[offset + i] != suffix[i] {
            return false;
        }
        i = i + 1;
    }
    assert(s@.subrange(offset as int, s.len() as int) =~= suffix@);
    true
}

/// Takes the update that a release offers (see `release_update`).
pub fn update_info_from_release(release: &Release) -> (r: Option<UpdateInfo>)
    ensures
        match release_update(*release) {
            Some((v, deb, sums)) => r matches Some(info) && info.version@ == v
                && info.deb_url@ == deb && info.checksum_url@ == sums,
            None => r is None,
        },
{
    let deb_suffix = chars_of(".deb");
    let sums_name = chars_of("SHA256SUMS.txt");
    let mut deb: Option<String> = None;
    let mut sums: Option<String> = None;
    let ghost assets = release.assets@;
    let mut i: usize = 0;
    while i < release.assets.len()
        invariant
            i <= release.assets.len(),
            assets == release.assets@,
            deb_suffix@ == ".deb"@,
            sums_name@ == checksum_asset_name(),
            deb is None ==> first_deb_url(assets, 0) == first_deb_url(assets, i as int),
            deb matches Some(u) ==> first_deb_url(assets, 0) == Some(u@),
            sums is None ==> first_checksum_url(assets, 0) == first_checksum_url(assets, i as int),
            sums matches Some(u) ==> first_checksum_url(assets, 0) == Some(u@),
        decreases release.assets.len() - i,
    {
        let asset = &release.assets[i];
        let name = chars_of(asset.name.as_str());
        if deb.is_none() && chars_end_with(name.as_slice(), deb_suffix.as_slice()) {
            deb = Some(asset.browser_download_url.clone());
        }
        if sums.is_none() && chars_eq(name.as_slice(), sums_name.as_slice()) {
            sums = Some(asset.browser_download_url.clone());
        }
        i = i + 1;
    }
    match (deb, sums) {
        (Some(deb_url), Some(checksum_url)) => {
            let tag = chars_of(release.tag_name.as_str());
            let version = without_v_chars(tag.as_slice());
            Some(UpdateInfo { version: string_from_chars(version.as_slice()), deb_url, checksum_url })
        },
        _ => None,
    }
}

/// No version is newer than itself: comparing a text with itself gives
/// `Some(false)`, or `None` when it is not a version.
pub proof fn lemma_newer_irreflexive(v: Seq<char>)
    ensures
        newer_spec(v, v) != Some(true),
{
    lemma_version_has_no_v(v);
}

/// When `latest` is newer than `current`, and `latest` is written without
/// a `v`, `current` is not newer than `latest`.
pub proof fn lemma_newer_asymmetric(current: Seq<char>, latest: Seq<char>)
    requires
        newer_spec(current, latest) == Some(true),
        version_of(latest) is Some,
    ensures
        newer_spec(latest, current) == Some(false),
{
    lemma_version_has_no_v(latest);
    lemma_version_has_no_v(current);
}

/// Newer-than is transitive.
pub proof fn lemma_newer_transitive(a: Seq<char>, b: Seq<char>, c: Seq<char>)
    requires
        newer_spec(a, b) == Some(true),
        newer_spec(b, c) == Some(true),
    ensures
        newer_spec(a, c) == Some(true),
{
    lemma_version_has_no_v(b);
}

/// Two texts that both name versions compare one way or the other, or are
/// the same version.
pub proof fn lemma_newer_total(a: Seq<char>, b: Seq<char>)
    requires
        version_of(a) is Some,
        version_of(b) is Some,
    ensures
        newer_spec(a, b) == Some(true) || newer_spec(b, a) == Some(true) || version_of(a) == version_of(b),
{
    lemma_version_has_no_v(a);
    lemma_version_has_no_v(b);
}

/// One leading `v` on `latest` does not change the result.
pub proof fn lemma_leading_v_ignored(current: Seq<char>, latest: Seq<char>)
    requires
        version_of(latest) is Some,
    ensures
        newer_spec(current, seq!['v'] + latest) == newer_spec(current, latest),
{
    assert((seq!['v'] + latest).drop_first() =~= latest);
    lemma_version_has_no_v(latest);
}

/// A text that names a version does not start with `v`, so dropping one
/// leading `v` leaves it as it is.
pub proof fn lemma_version_has_no_v(v: Seq<char>)
    ensures
        version_of(v) is Some ==> without_v(v) == v,
{
    if version_of(v) is Some && v.len() > 0 && v[0] == 'v' {
        crate::text::lemma_split_on_first_piece(v, '.');
        let p0 = split_on(v, '.')[0];
        assert(unsigned_digits(p0) == p0);
        assert(!is_ascii_digit(p0[0]));
    }
}

/// The decimal digits of a number read back as digits give the number:
/// writing a count and parsing a number are inverse.
pub proof fn lemma_decimal_digits(n: nat)
    ensures
        decimal(n).len() > 0,
        forall|i: int| 0 <= i < decimal(n).len() ==> #[trigger] is_ascii_digit(decimal(n)[i]),
        digits_value(decimal(n)) == n,
    decreases n,
{
    if n < 10 {
        let d = decimal(n);
        assert(d.drop_last() =~= Seq::<char>::empty());
        assert(d.last() as nat == 48 + n);
        assert(digits_value(d.drop_last()) == 0);
        assert(digits_value(d) == n);
    } else {
        lemma_decimal_digits(n / 10);
        let d = decimal(n);
        assert(d.drop_last() =~= decimal(n / 10));
        assert(d.last() as nat == 48 + n % 10);
        assert((n / 10) * 10 + n % 10 == n) by (nonlinear_arith);
        assert(digits_value(d) == digits_value(decimal(n / 10)) * 10 + n % 10);
        assert(digits_value(decimal(n / 10)) == n / 10);
        assert(digits_value(d) == n);
    }
}

/// A number written in decimal parses back to itself.
pub proof fn lemma_parse_decimal(n: u32)
    ensures
        parse_u32(decimal(n as nat)) == Some(n),
{
    lemma_decimal_digits(n as nat);
    let d = decimal(n as nat);
    assert(is_ascii_digit(d[0]));
    assert(unsigned_digits(d) == d);
}

/// A version written as `X.Y.Z` in decimal is read back as `(X, Y, Z)`.
pub proof fn lemma_version_of_written(v: Version)
    ensures
        version_of(decimal(v.0 as nat) + seq!['.'] + decimal(v.1 as nat) + seq!['.'] + decimal(v.2 as nat)) == Some(v),
{
    let a = decimal(v.0 as nat);
    let b = decimal(v.1 as nat);
    let c = decimal(v.2 as nat);
    lemma_decimal_digits(v.0 as nat);
    lemma_decimal_digits(v.1 as nat);
    lemma_decimal_digits(v.2 as nat);
    lemma_parse_decimal(v.0);
    lemma_parse_decimal(v.1);
    lemma_parse_decimal(v.2);
    assert forall|k: int| 0 <= k < a.len() implies a[k] != '.' by { assert(is_ascii_digit(a[k])); }
    assert forall|k: int| 0 <= k < b.len() implies b[k] != '.' by { assert(is_ascii_digit(b[k])); }
    assert forall|k: int| 0 <= k < c.len() implies c[k] != '.' by { assert(is_ascii_digit(c[k])); }
    crate::text::lemma_split_without_sep(a, '.');
    crate::text::lemma_split_without_sep(b, '.');
    crate::text::lemma_split_without_sep(c, '.');
    crate::text::lemma_split_on_concat(a, '.', b);
    crate::text::lemma_split_on_concat(a + seq!['.'] + b, '.', c);
    let parts = split_on(a + seq!['.'] + b + seq!['.'] + c, '.');
    assert(parts =~= seq![a, b, c]);
}

/// A version as one number: major, minor and patch as digits in base
/// 2^32, so that numbers compare as the versions do.
pub open spec fn version_number(v: Version) -> int {
    v.0 * 0x1_0000_0000_0000_0000 + v.1 * 0x1_0000_0000 + v.2
}

/// Versions compare numerically, part by part: `latest` is newer exactly
/// when its number is larger (so 1.0.10 is newer than 1.0.9, and 0.10.0
/// than 0.9.0).
pub proof fn lemma_newer_is_numeric(current: Seq<char>, latest: Seq<char>, c: Version, l: Version)
    requires
        version_of(current) == Some(c),
        version_of(without_v(latest)) == Some(l),
    ensures
        newer_spec(current, latest) == Some(version_number(c) < version_number(l)),
{
    assert(version_lt(c, l) == (version_number(c) < version_number(l))) by (nonlinear_arith)
        requires
            0 <= c.0 < 0x1_0000_0000, 0 <= c.1 < 0x1_0000_0000, 0 <= c.2 < 0x1_0000_0000,
            0 <= l.0 < 0x1_0000_0000, 0 <= l.1 < 0x1_0000_0000, 0 <= l.2 < 0x1_0000_0000,
    ;
}

/// Equal major and minor parts compare by the patch number alone.
pub proof fn lemma_newer_by_patch(current: Seq<char>, latest: Seq<char>, c: Version, l: Version)
    requires
        version_of(current) == Some(c),
        version_of(without_v(latest)) == Some(l),
        c.0 == l.0,
        c.1 == l.1,
    ensures
        newer_spec(current, latest) == Some(c.2 < l.2),
{
    lemma_newer_is_numeric(current, latest, c, l);
}

/// The letter case of the expected text does not matter: texts that are
/// equal up to ASCII case match the same digests.
pub proof fn lemma_checksum_ignores_case(digest: Seq<u8>, e1: Seq<char>, e2: Seq<char>)
    requires
        eq_ignore_ascii_case(e1, e2),
    ensures
        checksum_matches(digest, e1) == checksum_matches(digest, e2),
{
    let h = hex_lower(digest);
    if checksum_matches(digest, e1) {
        assert forall|i: int| 0 <= i < h.len() implies #[trigger] crate::text::ascii_lower(h[i])
            == crate::text::ascii_lower(e2[i]) by {
            assert(crate::text::ascii_lower(e1[i]) == crate::text::ascii_lower(e2[i]));
        }
    }
    if checksum_matches(digest, e2) {
        assert forall|i: int| 0 <= i < h.len() implies #[trigger] crate::text::ascii_lower(h[i])
            == crate::text::ascii_lower(e1[i]) by {
            assert(crate::text::ascii_lower(e1[i]) == crate::text::ascii_lower(e2[i]));
        }
    }
}

} // verus!
