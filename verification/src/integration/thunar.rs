//! Thunar (XFCE) custom actions in `~/.config/Thunar/uca.xml`. The file
//! may hold the user's own actions, so ours are merged in before the
//! `</actions>` close tag that the XML reader finds (not a text search),
//! keeping everything else byte for byte. Fixed `<unique-id>` values mark our
//! actions, which makes merging idempotent and lets them be removed again.

use vstd::prelude::*;
use vstd::string::StringSliceAdditionalSpecFns;
use vstd::utf8::{decode_utf8, is_char_boundary};

use super::xml::{bom_len, has_bom, open_xml, xml_event, xml_offset, XmlEvent, XmlEventView};
use super::GeneratedFile;
use crate::text::{
    chars_of,
    chars_start_with,
    contains,
    contains_chars,
    lemma_contains_insert,
    lemma_contains_left,
    lemma_contains_right,
    occurs_at,
    starts_with,
    str_eq,
};

verus! {

broadcast use vstd::string::group_string_axioms;

/// Where `uca.xml` lives, relative to the home directory.
pub const THUNAR_UCA_RELATIVE_PATH: &'static str = ".config/Thunar/uca.xml";

/// The unique id of our extract action.
pub const EXTRACT_UNIQUE_ID: &'static str = "easy-archive-extract-here";

/// The unique id of our compress action.
pub const COMPRESS_UNIQUE_ID: &'static str = "easy-archive-compress-here";

/// The `uca.xml` that merging starts from when there is none.
pub const EMPTY_UCA_XML: &'static str = "<?xml version=\"1.0\" encoding=\"UTF-8\"?>\n<actions>\n</actions>\n";

/// Extract action text up to its unique id.
pub const EXTRACT_HEAD: &'static str = "  <action>\n    <icon>archive-extract</icon>\n    <name>ここに解凍</name>\n    <submenu></submenu>\n    <unique-id>";

/// Extract action text between its unique id and the binary path.
pub const EXTRACT_MIDDLE: &'static str = "</unique-id>\n    <command>";

/// Extract action text after the binary path.
pub const EXTRACT_TAIL: &'static str = " auto %f</command>\n    <description>ZIPファイルをこの場所に解凍します</description>\n    <patterns>*.zip;*.ZIP</patterns>\n    <other-files/>\n  </action>\n";

/// Compress action text up to its unique id.
pub const COMPRESS_HEAD: &'static str = "  <action>\n    <icon>archive-insert</icon>\n    <name>ここを圧縮</name>\n    <submenu></submenu>\n    <unique-id>";

/// Compress action text between its unique id and the binary path.
pub const COMPRESS_MIDDLE: &'static str = "</unique-id>\n    <command>";

/// Compress action text after the binary path.
pub const COMPRESS_TAIL: &'static str = " auto %f</command>\n    <description>選択したファイル/フォルダをZIPに圧縮します</description>\n    <patterns>*</patterns>\n    <directories/>\n    <other-files/>\n  </action>\n";

/// The text that the close tag of the `actions` element starts with.
pub const ACTIONS_CLOSE: &'static str = "</actions";

/// Our extract `<action>` element for a binary.
pub open spec fn extract_action(binary_path: Seq<char>) -> Seq<char> {
    EXTRACT_HEAD@ + EXTRACT_UNIQUE_ID@ + EXTRACT_MIDDLE@ + binary_path + EXTRACT_TAIL@
}

/// Our compress `<action>` element for a binary.
pub open spec fn compress_action(binary_path: Seq<char>) -> Seq<char> {
    COMPRESS_HEAD@ + COMPRESS_UNIQUE_ID@ + COMPRESS_MIDDLE@ + binary_path + COMPRESS_TAIL@
}

/// Builds our extract `<action>` element.
pub fn extract_action_xml(binary_path: &str) -> (s: String)
    ensures
        s@ == extract_action(binary_path@),
{
    let mut s = String::from_str(EXTRACT_HEAD);
    s.append(EXTRACT_UNIQUE_ID);
    s.append(EXTRACT_MIDDLE);
    s.append(binary_path);
    s.append(EXTRACT_TAIL);
    s
}

/// Builds our compress `<action>` element.
pub fn compress_action_xml(binary_path: &str) -> (s: String)
    ensures
        s@ == compress_action(binary_path@),
{
    let mut s = String::from_str(COMPRESS_HEAD);
    s.append(COMPRESS_UNIQUE_ID);
    s.append(COMPRESS_MIDDLE);
    s.append(binary_path);
    s.append(COMPRESS_TAIL);
    s
}

/// The `<action>` elements that merging adds to `base`: each of ours whose
/// unique id does not occur in it yet, extract first.
pub open spec fn actions_to_insert(base: Seq<char>, binary_path: Seq<char>) -> Seq<char> {
    (if contains(base, EXTRACT_UNIQUE_ID@) { Seq::<char>::empty() } else { extract_action(binary_path) })
        + (if contains(base, COMPRESS_UNIQUE_ID@) { Seq::<char>::empty() } else { compress_action(binary_path) })
}

/// The `uca.xml` that merging starts from.
pub open spec fn uca_base(existing: Option<&str>) -> Seq<char> {
    match existing {
        Some(e) => e@,
        None => EMPTY_UCA_XML@,
    }
}

/// What a merge of `base` may produce: `base` itself when both of our ids
/// occur in it; otherwise `base` with the missing actions inserted right
/// before a `</actions` close tag, everything else unchanged.
pub open spec fn merge_outcome(base: Seq<char>, binary_path: Seq<char>, content: Seq<char>) -> bool {
    let insert = actions_to_insert(base, binary_path);
    if insert.len() == 0 {
        content == base
    } else {
        exists|before: Seq<char>, after: Seq<char>|
            base == before + after && starts_with(after, ACTIONS_CLOSE@)
                && content == before + insert + after
    }
}

/// The message when `uca.xml` has no `actions` element.
pub open spec fn no_actions_message() -> Seq<char> {
    "uca.xmlに<actions>要素が見つかりませんでした"@
}

/// The prefix of the message when `uca.xml` cannot be parsed.
pub open spec fn parse_failure_prefix() -> Seq<char> {
    "uca.xmlの解析に失敗しました: "@
}

/// The text of a string slice is the decoding of its bytes.
proof fn lemma_str_bytes(s: &str)
    ensures
        vstd::utf8::valid_utf8(s.spec_bytes()),
        decode_utf8(s.spec_bytes()) == s@,
{
    vstd::utf8::encode_utf8_valid_utf8(s@);
    vstd::utf8::encode_utf8_decode_utf8(s@);
}

/// Splits `s` at byte `k`, which must be a character boundary; the two
/// texts make up `s`, and the second is the decoding of the bytes from `k`.
fn split_text<'a>(s: &'a str, k: usize) -> (parts: (&'a str, &'a str))
    requires
        is_char_boundary(s.spec_bytes(), k as int),
    ensures
        s@ == parts.0@ + parts.1@,
        parts.0@ == decode_utf8(s.spec_bytes().subrange(0, k as int)),
        parts.1@ == decode_utf8(s.spec_bytes().subrange(k as int, s.spec_bytes().len() as int)),
{
    let parts = s.split_at(k);
    proof {
        lemma_str_bytes(s);
        lemma_str_bytes(parts.0);
        lemma_str_bytes(parts.1);
        vstd::utf8::decode_utf8_split(s.spec_bytes(), k as int);
    }
    parts
}

/// The byte offset in `text` where the reader stood after `n` events: its
/// position plus the byte order mark it did not count.
pub open spec fn text_offset(text: Seq<char>, n: nat) -> int {
    xml_offset(text, n) + bom_len(text)
}

/// A leading byte order mark takes the first 3 bytes of a text's UTF-8
/// encoding, which end on a character boundary.
proof fn lemma_bom_boundary(s: &str)
    ensures
        bom_len(s@) <= s.spec_bytes().len(),
        is_char_boundary(s.spec_bytes(), bom_len(s@) as int),
{
    lemma_str_bytes(s);
    let bytes = s.spec_bytes();
    if has_bom(s@) {
        assert(bytes.len() > 0);
        vstd::utf8::decode_utf8_first_scalar(bytes);
        assert(s@[0] == vstd::utf8::decode_first_scalar(bytes) as char);
        assert(0xfeffu32 == '\u{feff}' as u32);
        assert(vstd::utf8::encode_scalar(0xfeffu32).len() == 3);
        assert(vstd::utf8::take_first_scalar(bytes).len() == 3);
        assert(is_char_boundary(vstd::utf8::pop_first_scalar(bytes), 0));
    }
}

/// How many bytes a leading byte order mark takes (`bom_len`).
fn bom_length(s: &str) -> (n: usize)
    ensures
        n == bom_len(s@),
{
    let chars = chars_of(s);
    if chars.len() > 0 && chars[0] == '\u{feff}' {
        3
    } else {
        0
    }
}

/// Whether byte `k` of `bytes` is a character boundary where a
/// `</actions` close tag starts.
pub open spec fn close_tag_starts_at(bytes: Seq<u8>, k: int) -> bool {
    is_char_boundary(bytes, k) && starts_with(decode_utf8(bytes.subrange(k, bytes.len() as int)), ACTIONS_CLOSE@)
}

/// Whether an event ends the search for the `</actions>` close tag: that
/// end tag, the end of input, or an error.
pub open spec fn is_search_stop(ev: XmlEventView) -> bool {
    match ev {
        XmlEventView::End(name) => name == "actions"@,
        XmlEventView::Eof => true,
        XmlEventView::Error(_) => true,
        _ => false,
    }
}

/// Whether event `m` of `text` is the first that ends the search.
pub open spec fn first_search_stop(text: Seq<char>, m: nat) -> bool {
    &&& is_search_stop(xml_event(text, m))
    &&& forall|i: nat| i < m ==> !is_search_stop(#[trigger] xml_event(text, i))
}

/// The index of the event that ends the search.
pub open spec fn search_stop_index(text: Seq<char>) -> nat {
    choose|m: nat| first_search_stop(text, m)
}

/// What the search gives when event `m` ends it: the byte offset where the
/// `</actions>` tag begins, or the error message.
pub open spec fn close_tag_outcome(text: Seq<char>, m: nat) -> Result<usize, Seq<char>> {
    match xml_event(text, m) {
        XmlEventView::End(_) => Ok(text_offset(text, m) as usize),
        XmlEventView::Error(e) => Err(parse_failure_prefix() + e),
        _ => Err(no_actions_message()),
    }
}

/// Only one event is the first to end the search.
proof fn lemma_first_search_stop_unique(text: Seq<char>, m1: nat, m2: nat)
    requires
        first_search_stop(text, m1),
        first_search_stop(text, m2),
    ensures
        m1 == m2,
{
    if m1 < m2 {
        assert(!is_search_stop(xml_event(text, m1)));
    } else if m2 < m1 {
        assert(!is_search_stop(xml_event(text, m2)));
    }
}

/// The result as plain values.
pub open spec fn result_view(r: Result<usize, String>) -> Result<usize, Seq<char>> {
    match r {
        Ok(k) => Ok(k),
        Err(e) => Err(e@),
    }
}

/// Finds the byte offset of the `</actions>` close tag with the XML reader,
/// so that the same text inside a comment or CDATA is not taken for it. The
/// events are read up to the first that is that end tag, the end of input
/// or an error; the result is `Ok` exactly when it is the end tag, with the
/// byte offset of its `<`.
pub fn find_actions_close_tag_offset(xml: &str) -> (r: Result<usize, String>)
    ensures
        first_search_stop(xml@, search_stop_index(xml@)),
        result_view(r) == close_tag_outcome(xml@, search_stop_index(xml@)),
        r is Ok <==> xml_event(xml@, search_stop_index(xml@)) is End,
        r matches Ok(k) ==> close_tag_starts_at(xml.spec_bytes(), k as int),
        r matches Err(e) ==> e@ == no_actions_message() || starts_with(e@, parse_failure_prefix()),
{
    let n_bytes = xml.as_bytes().len();
    let bom = bom_length(xml);
    let mut cursor = open_xml(xml);
    proof {
        lemma_str_bytes(xml);
        lemma_bom_boundary(xml);
        reveal_strlit("actions");
        reveal_strlit("</actions");
        reveal_strlit("</");
        assert("</actions"@ =~= "</"@ + "actions"@);
    }
    loop
        invariant
            cursor.source() == xml@,
            cursor.source_bytes() == xml.spec_bytes(),
            n_bytes == xml.spec_bytes().len(),
            bom == bom_len(xml@),
            text_offset(xml@, cursor.events_read()) <= n_bytes,
            forall|i: nat| i < cursor.events_read() ==> !is_search_stop(#[trigger] xml_event(xml@, i)),
            is_char_boundary(xml.spec_bytes(), text_offset(xml@, cursor.events_read())),
            vstd::utf8::valid_utf8(xml.spec_bytes()),
            ACTIONS_CLOSE@ == "</"@ + "actions"@,
        decreases n_bytes - text_offset(xml@, cursor.events_read()),
    {
        let before = cursor.position() as usize + bom;
        let ghost n = cursor.events_read();
        let ev = cursor.next_event();
        match &ev {
            XmlEvent::End(name) => {
                if str_eq(name.as_str(), "actions") {
                    proof {
                        assert(first_search_stop(xml@, n));
                        lemma_first_search_stop_unique(xml@, n, search_stop_index(xml@));
                        assert(close_tag_starts_at(xml.spec_bytes(), before as int));
                    }
                    return Ok(before);
                }
            },
            XmlEvent::Eof => {
                proof {
                    assert(first_search_stop(xml@, n));
                    lemma_first_search_stop_unique(xml@, n, search_stop_index(xml@));
                }
                return Err(String::from_str("uca.xmlに<actions>要素が見つかりませんでした"));
            },
            XmlEvent::Error(e) => {
                proof {
                    assert(first_search_stop(xml@, n));
                    lemma_first_search_stop_unique(xml@, n, search_stop_index(xml@));
                }
                let mut message = String::from_str("uca.xmlの解析に失敗しました: ");
                let ghost prefix = message@;
                message.append(e.as_str());
                assert(message@.subrange(0, prefix.len() as int) == prefix);
                return Err(message);
            },
            _ => {},
        }
        proof {
            assert(!is_search_stop(xml_event(xml@, n)));
            assert forall|i: nat| i < n + 1 implies !is_search_stop(#[trigger] xml_event(xml@, i)) by {}
        }
    }
}

/// The `uca.xml` text that merging starts from.
pub open spec fn uca_base_str<'a>(existing: Option<&'a str>) -> &'a str {
    match existing {
        Some(e) => e,
        None => EMPTY_UCA_XML,
    }
}

/// What `merge` gives as the new content of `uca.xml`, or the error
/// message: the base unchanged when nothing is to be inserted; otherwise the
/// base with the missing actions inserted at the offset of the `</actions>`
/// close tag that the search finds.
pub open spec fn merge_result(existing: Option<&str>, binary_path: Seq<char>) -> Result<Seq<char>, Seq<char>> {
    let base = uca_base_str(existing);
    let insert = actions_to_insert(base@, binary_path);
    if insert.len() == 0 {
        Ok(base@)
    } else {
        match close_tag_outcome(base@, search_stop_index(base@)) {
            Ok(k) => Ok(decode_utf8(base.spec_bytes().subrange(0, k as int)) + insert
                + decode_utf8(base.spec_bytes().subrange(k as int, base.spec_bytes().len() as int))),
            Err(e) => Err(e),
        }
    }
}

/// Merges our two actions into an existing `uca.xml` (or into an empty one
/// when there is none). An action whose unique id already occurs is not
/// added again; when nothing is to be added, the content is returned
/// unchanged. Otherwise the actions go right before the `</actions>` tag.
pub fn merge(existing: Option<&str>, binary_path: &str) -> (r: Result<GeneratedFile, String>)
    ensures
        r matches Ok(file) ==> file.relative_path@ == THUNAR_UCA_RELATIVE_PATH@ && !file.executable
            && merge_result(existing, binary_path@) == Ok::<Seq<char>, Seq<char>>(file.content@)
            && merge_outcome(uca_base(existing), binary_path@, file.content@),
        r matches Err(e) ==> merge_result(existing, binary_path@) == Err::<Seq<char>, Seq<char>>(e@),
        contains(uca_base(existing), EXTRACT_UNIQUE_ID@) && contains(uca_base(existing), COMPRESS_UNIQUE_ID@)
            ==> r is Ok,
        r matches Err(e) ==> e@ == no_actions_message() || starts_with(e@, parse_failure_prefix()),
{
    let base: &str = match existing {
        Some(e) => e,
        None => EMPTY_UCA_XML,
    };
    let ghost b = uca_base(existing);
    assert(base@ == b);
    assert(base == uca_base_str(existing));
    let base_chars = chars_of(base);
    let extract_id = chars_of(EXTRACT_UNIQUE_ID);
    let compress_id = chars_of(COMPRESS_UNIQUE_ID);
    let has_extract = contains_chars(base_chars.as_slice(), extract_id.as_slice());
    let has_compress = contains_chars(base_chars.as_slice(), compress_id.as_slice());
    let mut to_insert = String::new();
    if !has_extract {
        let x = extract_action_xml(binary_path);
        to_insert.append(x.as_str());
    }
    if !has_compress {
        let x = compress_action_xml(binary_path);
        to_insert.append(x.as_str());
    }
    let ghost insert = actions_to_insert(b, binary_path@);
    assert(to_insert@ =~= insert);
    let content = if has_extract && has_compress {
        assert(insert.len() == 0);
        String::from_str(base)
    } else {
        proof {
            reveal_strlit("easy-archive-extract-here");
            reveal_strlit("easy-archive-compress-here");
            assert(insert.len() > 0);
        }
        let insert_at = match find_actions_close_tag_offset(base) {
            Ok(k) => k,
            Err(e) => {
                return Err(e);
            },
        };
        let (before, after) = split_text(base, insert_at);
        let mut result = String::from_str(before);
        result.append(to_insert.as_str());
        result.append(after);
        assert(result@ == before@ + insert + after@);
        result
    };
    Ok(GeneratedFile { relative_path: String::from_str(THUNAR_UCA_RELATIVE_PATH), content, executable: false })
}

/// Our actions contain their unique ids.
proof fn lemma_actions_hold_ids(binary_path: Seq<char>)
    ensures
        contains(extract_action(binary_path), EXTRACT_UNIQUE_ID@),
        contains(compress_action(binary_path), COMPRESS_UNIQUE_ID@),
{
    let e = extract_action(binary_path);
    let n = EXTRACT_HEAD@.len() as int;
    assert(e.subrange(n, n + EXTRACT_UNIQUE_ID@.len()) =~= EXTRACT_UNIQUE_ID@);
    assert(occurs_at(e, EXTRACT_UNIQUE_ID@, n));
    let c = compress_action(binary_path);
    let m = COMPRESS_HEAD@.len() as int;
    assert(c.subrange(m, m + COMPRESS_UNIQUE_ID@.len()) =~= COMPRESS_UNIQUE_ID@);
    assert(occurs_at(c, COMPRESS_UNIQUE_ID@, m));
}

/// Whatever a merge produces holds both of our unique ids; so once the
/// merged file is in place, the Thunar part of the installation check
/// (our extract id in `uca.xml`) holds.
pub proof fn lemma_merge_holds_ids(base: Seq<char>, binary_path: Seq<char>, content: Seq<char>)
    requires
        merge_outcome(base, binary_path, content),
    ensures
        contains(content, EXTRACT_UNIQUE_ID@),
        contains(content, COMPRESS_UNIQUE_ID@),
{
    reveal_strlit("easy-archive-extract-here");
    reveal_strlit("easy-archive-compress-here");
    reveal_strlit("</actions");
    lemma_actions_hold_ids(binary_path);
    let insert = actions_to_insert(base, binary_path);
    let e_part = if contains(base, EXTRACT_UNIQUE_ID@) { Seq::<char>::empty() } else { extract_action(binary_path) };
    let c_part = if contains(base, COMPRESS_UNIQUE_ID@) { Seq::<char>::empty() } else { compress_action(binary_path) };
    assert(insert == e_part + c_part);
    if insert.len() == 0 {
        if !contains(base, EXTRACT_UNIQUE_ID@) {
            let i = choose|i: int| occurs_at(extract_action(binary_path), EXTRACT_UNIQUE_ID@, i);
            assert(e_part.len() >= EXTRACT_UNIQUE_ID@.len());
        }
        if !contains(base, COMPRESS_UNIQUE_ID@) {
            let i = choose|i: int| occurs_at(compress_action(binary_path), COMPRESS_UNIQUE_ID@, i);
            assert(c_part.len() >= COMPRESS_UNIQUE_ID@.len());
        }
    } else {
        let (before, after) = choose|before: Seq<char>, after: Seq<char>|
            base == before + after && starts_with(after, ACTIONS_CLOSE@)
                && content == before + insert + after;
        assert(after[0] == ACTIONS_CLOSE@[0]);
        if contains(base, EXTRACT_UNIQUE_ID@) {
            lemma_contains_insert(before, insert, after, EXTRACT_UNIQUE_ID@);
        } else {
            lemma_contains_left(e_part, c_part, EXTRACT_UNIQUE_ID@);
            lemma_contains_right(before, insert, EXTRACT_UNIQUE_ID@);
            lemma_contains_left(before + insert, after, EXTRACT_UNIQUE_ID@);
        }
        if contains(base, COMPRESS_UNIQUE_ID@) {
            lemma_contains_insert(before, insert, after, COMPRESS_UNIQUE_ID@);
        } else {
            lemma_contains_right(e_part, c_part, COMPRESS_UNIQUE_ID@);
            lemma_contains_right(before, insert, COMPRESS_UNIQUE_ID@);
            lemma_contains_left(before + insert, after, COMPRESS_UNIQUE_ID@);
        }
    }
}

/// Merging is idempotent: merging again into what a merge produced adds
/// nothing and gives that content back unchanged (and `merge` succeeds on
/// it, since both unique ids occur).
pub proof fn lemma_merge_idempotent(base: Seq<char>, binary_path: Seq<char>, content: Seq<char>, again: Seq<char>)
    requires
        merge_outcome(base, binary_path, content),
    ensures
        contains(content, EXTRACT_UNIQUE_ID@) && contains(content, COMPRESS_UNIQUE_ID@),
        merge_outcome(content, binary_path, again) <==> again == content,
{
    lemma_merge_holds_ids(base, binary_path, content);
    assert(actions_to_insert(content, binary_path) =~= Seq::<char>::empty());
}

/// Each of our actions runs `<binary> auto %f`: its `<command>` right
/// after its own unique id holds the binary path followed by ` auto %f`.
pub proof fn lemma_actions_run_binary(binary_path: Seq<char>)
    ensures
        contains(extract_action(binary_path), "easy-archive-extract-here</unique-id>\n    <command>"@ + binary_path + " auto %f</command>"@),
        contains(compress_action(binary_path), "easy-archive-compress-here</unique-id>\n    <command>"@ + binary_path + " auto %f</command>"@),
{
    reveal_strlit("easy-archive-extract-here");
    reveal_strlit("easy-archive-compress-here");
    reveal_strlit("</unique-id>\n    <command>");
    reveal_strlit(" auto %f</command>\n    <description>ZIPファイルをこの場所に解凍します</description>\n    <patterns>*.zip;*.ZIP</patterns>\n    <other-files/>\n  </action>\n");
    reveal_strlit(" auto %f</command>\n    <description>選択したファイル/フォルダをZIPに圧縮します</description>\n    <patterns>*</patterns>\n    <directories/>\n    <other-files/>\n  </action>\n");
    reveal_strlit("easy-archive-extract-here</unique-id>\n    <command>");
    reveal_strlit("easy-archive-compress-here</unique-id>\n    <command>");
    reveal_strlit(" auto %f</command>");
    let x = "easy-archive-extract-here</unique-id>\n    <command>"@ + binary_path + " auto %f</command>"@;
    let e = extract_action(binary_path);
    let n = EXTRACT_HEAD@.len() as int;
    assert(e.subrange(n, n + x.len()) =~= x);
    assert(occurs_at(e, x, n));
    let y = "easy-archive-compress-here</unique-id>\n    <command>"@ + binary_path + " auto %f</command>"@;
    let c = compress_action(binary_path);
    let m = COMPRESS_HEAD@.len() as int;
    assert(c.subrange(m, m + y.len()) =~= y);
    assert(occurs_at(c, y, m));
}

/// Our extract action is offered for `.zip` files (in either letter case)
/// and our compress action for any file and for directories.
pub proof fn lemma_actions_apply_to(binary_path: Seq<char>)
    ensures
        contains(extract_action(binary_path), "<patterns>*.zip;*.ZIP</patterns>"@),
        contains(compress_action(binary_path), "<patterns>*</patterns>\n    <directories/>"@),
{
    reveal_strlit(" auto %f</command>\n    <description>ZIPファイルをこの場所に解凍します</description>\n    <patterns>*.zip;*.ZIP</patterns>\n    <other-files/>\n  </action>\n");
    reveal_strlit(" auto %f</command>\n    <description>選択したファイル/フォルダをZIPに圧縮します</description>\n    <patterns>*</patterns>\n    <directories/>\n    <other-files/>\n  </action>\n");
    reveal_strlit("<patterns>*.zip;*.ZIP</patterns>");
    reveal_strlit("<patterns>*</patterns>\n    <directories/>");
    let x = "<patterns>*.zip;*.ZIP</patterns>"@;
    let e = extract_action(binary_path);
    let k = e.len() - EXTRACT_TAIL@.len() + 73;
    assert(e.subrange(k, k + x.len()) =~= x);
    assert(occurs_at(e, x, k));
    let y = "<patterns>*</patterns>\n    <directories/>"@;
    let c = compress_action(binary_path);
    let m = c.len() - COMPRESS_TAIL@.len() + 78;
    assert(c.subrange(m, m + y.len()) =~= y);
    assert(occurs_at(c, y, m));
}

/// A merge that has to add an action adds one that runs the binary: the
/// merged text holds the action's unique id followed by its `<command>`
/// with `<binary> auto %f`.
pub proof fn lemma_merge_inserts_commands(base: Seq<char>, binary_path: Seq<char>, content: Seq<char>)
    requires
        merge_outcome(base, binary_path, content),
    ensures
        !contains(base, "easy-archive-extract-here"@) ==> contains(content, "easy-archive-extract-here</unique-id>\n    <command>"@ + binary_path + " auto %f</command>"@),
        !contains(base, "easy-archive-compress-here"@) ==> contains(content, "easy-archive-compress-here</unique-id>\n    <command>"@ + binary_path + " auto %f</command>"@),
{
    lemma_actions_run_binary(binary_path);
    let x = "easy-archive-extract-here</unique-id>\n    <command>"@ + binary_path + " auto %f</command>"@;
    let y = "easy-archive-compress-here</unique-id>\n    <command>"@ + binary_path + " auto %f</command>"@;
    let insert = actions_to_insert(base, binary_path);
    let e_part = if contains(base, EXTRACT_UNIQUE_ID@) { Seq::<char>::empty() } else { extract_action(binary_path) };
    let c_part = if contains(base, COMPRESS_UNIQUE_ID@) { Seq::<char>::empty() } else { compress_action(binary_path) };
    assert(insert == e_part + c_part);
    if !contains(base, EXTRACT_UNIQUE_ID@) || !contains(base, COMPRESS_UNIQUE_ID@) {
        reveal_strlit("easy-archive-extract-here");
        reveal_strlit("easy-archive-compress-here");
        assert(insert.len() > 0);
        let (before, after) = choose|before: Seq<char>, after: Seq<char>|
            base == before + after && starts_with(after, ACTIONS_CLOSE@)
                && content == before + insert + after;
        if !contains(base, EXTRACT_UNIQUE_ID@) {
            lemma_contains_left(e_part, c_part, x);
            lemma_contains_right(before, insert, x);
            lemma_contains_left(before + insert, after, x);
        }
        if !contains(base, COMPRESS_UNIQUE_ID@) {
            lemma_contains_right(e_part, c_part, y);
            lemma_contains_right(before, insert, y);
            lemma_contains_left(before + insert, after, y);
        }
    }
}

/// Whether a unique id is one of ours.
pub open spec fn is_our_id(id: Seq<char>) -> bool {
    id == EXTRACT_UNIQUE_ID@ || id == COMPRESS_UNIQUE_ID@
}

/// The state of the scan for our `<action>` elements: the byte spans found
/// so far, where the current `<action>` began, the unique id read in it,
/// and whether the reader is inside a `<unique-id>` element.
pub struct RemoveScan {
    pub spans: Vec<(usize, usize)>,
    pub action_start: Option<usize>,
    pub unique_id: Option<String>,
    pub in_unique_id: bool,
}

/// The scan state as plain values.
pub struct ScanState {
    pub spans: Seq<(usize, usize)>,
    pub action_start: Option<usize>,
    pub unique_id: Option<Seq<char>>,
    pub in_unique_id: bool,
}

impl RemoveScan {
    /// The scan state as plain values.
    pub open spec fn state(&self) -> ScanState {
        ScanState {
            spans: self.spans@,
            action_start: self.action_start,
            unique_id: match self.unique_id {
                Some(s) => Some(s@),
                None => None,
            },
            in_unique_id: self.in_unique_id,
        }
    }
}

/// One step of the scan, for an event read between byte offsets `before`
/// and `after`: an `<action>` start tag records where it began, text inside
/// `<unique-id>` is taken as the id, and an `</action>` end tag records the
/// whole element's span when its id is ours.
pub open spec fn scan_step(s: ScanState, ev: XmlEventView, before: usize, after: usize) -> ScanState {
    match ev {
        XmlEventView::Start(n) => if n == "action"@ {
            ScanState { action_start: Some(before), unique_id: None, ..s }
        } else if n == "unique-id"@ {
            ScanState { in_unique_id: true, ..s }
        } else {
            s
        },
        XmlEventView::End(n) => if n == "unique-id"@ {
            ScanState { in_unique_id: false, ..s }
        } else if n == "action"@ {
            let spans = match (s.action_start, s.unique_id) {
                (Some(start), Some(id)) => if is_our_id(id) { s.spans.push((start, after)) } else { s.spans },
                _ => s.spans,
            };
            ScanState { spans, action_start: None, unique_id: None, in_unique_id: s.in_unique_id }
        } else {
            s
        },
        XmlEventView::Text(t) => if s.in_unique_id {
            ScanState { unique_id: Some(t), ..s }
        } else {
            s
        },
        _ => s,
    }
}

/// A step of the scan records a span only at the end of an `<action>`
/// element whose unique id is one of ours, and the span runs from where
/// that element began to where its end tag ends; any other step keeps the
/// spans as they are.
pub proof fn lemma_scan_records_only_ours(s: ScanState, ev: XmlEventView, before: usize, after: usize)
    ensures
        scan_step(s, ev, before, after).spans == s.spans || {
            &&& ev == XmlEventView::End("action"@)
            &&& s.action_start is Some
            &&& (s.unique_id == Some("easy-archive-extract-here"@) || s.unique_id == Some("easy-archive-compress-here"@))
            &&& scan_step(s, ev, before, after).spans == s.spans.push((s.action_start->0, after))
        },
{
}

/// The scan before any event.
pub open spec fn scan_start() -> ScanState {
    ScanState { spans: Seq::empty(), action_start: None, unique_id: None, in_unique_id: false }
}

/// Whether an event ends the scan: the end of input or an error.
pub open spec fn is_scan_end(ev: XmlEventView) -> bool {
    ev is Eof || ev is Error
}

/// Whether event `m` of `text` is the first that ends the scan.
pub open spec fn first_scan_end(text: Seq<char>, m: nat) -> bool {
    &&& is_scan_end(xml_event(text, m))
    &&& forall|i: nat| i < m ==> !is_scan_end(#[trigger] xml_event(text, i))
}

/// The index of the event that ends the scan.
pub open spec fn scan_end_index(text: Seq<char>) -> nat {
    choose|m: nat| first_scan_end(text, m)
}

/// Only one event is the first to end the scan.
proof fn lemma_first_scan_end_unique(text: Seq<char>, m1: nat, m2: nat)
    requires
        first_scan_end(text, m1),
        first_scan_end(text, m2),
    ensures
        m1 == m2,
{
    if m1 < m2 {
        assert(!is_scan_end(xml_event(text, m1)));
    } else if m2 < m1 {
        assert(!is_scan_end(xml_event(text, m2)));
    }
}

/// The scan state after the first `m` events of `text`, each read between
/// the byte offsets where the reader stood before and after it.
pub open spec fn scan_upto(text: Seq<char>, m: nat) -> ScanState
    decreases m,
{
    if m == 0 {
        scan_start()
    } else {
        let k = (m - 1) as nat;
        scan_step(scan_upto(text, k), xml_event(text, k), text_offset(text, k) as usize, text_offset(text, m) as usize)
    }
}

/// The message tail when the spans to cut are out of order or not on
/// character boundaries.
pub open spec fn bad_spans() -> Seq<char> {
    "範囲が不正です"@
}

/// What `remove` returns once the scan has ended in `s`.
pub open spec fn cut_result(bytes: Seq<u8>, spans: Seq<(usize, usize)>) -> Result<Seq<char>, Seq<char>> {
    if spans_in_order(bytes, spans, 0, 0) {
        Ok(text_without(bytes, spans, 0, 0))
    } else {
        Err(parse_failure_prefix() + bad_spans())
    }
}

/// What `remove` returns for a text: the reader's error when the scan ends
/// on one, otherwise the text without the spans the scan found.
pub open spec fn remove_result(text: &str) -> Result<Seq<char>, Seq<char>> {
    let m = scan_end_index(text@);
    match xml_event(text@, m) {
        XmlEventView::Error(e) => Err(parse_failure_prefix() + e),
        _ => cut_result(text.spec_bytes(), scan_upto(text@, m).spans),
    }
}

/// A text result as plain values.
pub open spec fn text_result_view(r: Result<String, String>) -> Result<Seq<char>, Seq<char>> {
    match r {
        Ok(s) => Ok(s@),
        Err(e) => Err(e@),
    }
}

impl RemoveScan {
    /// A scan that has seen nothing yet.
    pub fn new() -> (scan: RemoveScan)
        ensures
            scan.state() == scan_start(),
    {
        RemoveScan { spans: Vec::new(), action_start: None, unique_id: None, in_unique_id: false }
    }

    /// Advances the scan by one event (see `scan_step`).
    pub fn step(&mut self, ev: &XmlEvent, before: usize, after: usize)
        ensures
            final(self).state() == scan_step(old(self).state(), ev@, before, after),
    {
        match ev {
            XmlEvent::Start(n) => {
                if str_eq(n.as_str(), "action") {
                    self.action_start = Some(before);
                    self.unique_id = None;
                } else if str_eq(n.as_str(), "unique-id") {
                    self.in_unique_id = true;
                }
            },
            XmlEvent::End(n) => {
                if str_eq(n.as_str(), "unique-id") {
                    self.in_unique_id = false;
                } else if str_eq(n.as_str(), "action") {
                    if let Some(start) = self.action_start {
                        let ours = match &self.unique_id {
                            Some(id) => str_eq(id.as_str(), EXTRACT_UNIQUE_ID) || str_eq(id.as_str(), COMPRESS_UNIQUE_ID),
                            None => false,
                        };
                        if ours {
                            self.spans.push((start, after));
                        }
                    }
                    self.action_start = None;
                    self.unique_id = None;
                }
            },
            XmlEvent::Text(t) => {
                if self.in_unique_id {
                    self.unique_id = Some(t.clone());
                }
            },
            _ => {},
        }
    }
}

/// The text of the bytes `a..b` of `s`, both character boundaries.
fn slice_text<'a>(s: &'a str, a: usize, b: usize) -> (t: &'a str)
    requires
        a <= b,
        is_char_boundary(s.spec_bytes(), a as int),
        is_char_boundary(s.spec_bytes(), b as int),
    ensures
        t@ == decode_utf8(s.spec_bytes().subrange(a as int, b as int)),
{
    proof {
        lemma_str_bytes(s);
    }
    let (head, _) = s.split_at(b);
    proof {
        lemma_str_bytes(head);
        let hb = head.spec_bytes();
        let sb = s.spec_bytes();
        assert(hb == sb.subrange(0, b as int));
        if a < b {
            vstd::utf8::is_char_boundary_iff_not_is_continuation_byte(hb, a as int);
            vstd::utf8::is_char_boundary_iff_not_is_continuation_byte(sb, a as int);
        } else {
            vstd::utf8::is_char_boundary_start_end_of_seq(hb);
        }
    }
    let (_, mid) = head.split_at(a);
    proof {
        lemma_str_bytes(mid);
        assert(mid.spec_bytes() =~= s.spec_bytes().subrange(a as int, b as int));
    }
    mid
}

/// Whether the spans from index `i` on are in order, start at or after
/// `last`, and begin and end on character boundaries of `bytes`.
pub open spec fn spans_in_order(bytes: Seq<u8>, spans: Seq<(usize, usize)>, last: int, i: int) -> bool
    decreases spans.len() - i,
{
    if i < 0 || i >= spans.len() {
        true
    } else {
        last <= spans[i].0 <= spans[i].1 && is_char_boundary(bytes, spans[i].0 as int)
            && is_char_boundary(bytes, spans[i].1 as int)
            && spans_in_order(bytes, spans, spans[i].1 as int, i + 1)
    }
}

/// The text of `bytes` from `last` on without the spans from index `i` on.
pub open spec fn text_without(bytes: Seq<u8>, spans: Seq<(usize, usize)>, last: int, i: int) -> Seq<char>
    decreases spans.len() - i,
{
    if i < 0 || i >= spans.len() {
        decode_utf8(bytes.subrange(last, bytes.len() as int))
    } else {
        decode_utf8(bytes.subrange(last, spans[i].0 as int)) + text_without(bytes, spans, spans[i].1 as int, i + 1)
    }
}

/// Cuts the byte spans out of a text. The spans must be in order and on
/// character boundaries; otherwise the result is an error.
pub fn cut_spans(text: &str, spans: &Vec<(usize, usize)>) -> (r: Result<String, String>)
    ensures
        text_result_view(r) == cut_result(text.spec_bytes(), spans@),
        r matches Err(e) ==> starts_with(e@, parse_failure_prefix()),
{
    let ghost bytes = text.spec_bytes();
    proof {
        lemma_str_bytes(text);
        vstd::utf8::is_char_boundary_start_end_of_seq(bytes);
    }
    let n = text.as_bytes().len();
    assert(n == bytes.len());
    let mut result = String::new();
    let mut last: usize = 0;
    let mut i: usize = 0;
    while i < spans.len()
        invariant
            bytes == text.spec_bytes(),
            n == bytes.len(),
            vstd::utf8::valid_utf8(bytes),
            i <= spans.len(),
            last <= bytes.len(),
            is_char_boundary(bytes, last as int),
            spans_in_order(bytes, spans@, 0, 0) == spans_in_order(bytes, spans@, last as int, i as int),
            result@ + text_without(bytes, spans@, last as int, i as int) == text_without(bytes, spans@, 0, 0),
        decreases spans.len() - i,
    {
        let (start, end) = spans[i];
        if !(last <= start && start <= end && end <= n && text.is_char_boundary(start)
            && text.is_char_boundary(end)) {
            assert(!spans_in_order(bytes, spans@, last as int, i as int));
            let mut message = String::from_str("uca.xmlの解析に失敗しました: ");
            let ghost prefix = message@;
            message.append("範囲が不正です");
            assert(message@.subrange(0, prefix.len() as int) == prefix);
            return Err(message);
        }
        let kept = slice_text(text, last, start);
        let ghost old_result = result@;
        result.append(kept);
        assert(result@ + text_without(bytes, spans@, end as int, i + 1)
            =~= old_result + text_without(bytes, spans@, last as int, i as int));
        last = end;
        i = i + 1;
    }
    let rest = slice_text(text, last, n);
    result.append(rest);
    assert(text_without(bytes, spans@, last as int, i as int) == rest@);
    Ok(result)
}

/// Whether the spans found so far, and where the current `<action>`
/// began, are in order, on character boundaries and before `pos`.
pub open spec fn scan_in_order(bytes: Seq<u8>, s: ScanState, pos: int) -> bool {
    let last_end: int = if s.spans.len() > 0 { s.spans.last().1 as int } else { 0 };
    &&& spans_in_order(bytes, s.spans, 0, 0)
    &&& last_end <= pos
    &&& s.action_start matches Some(a) ==> last_end <= a <= pos && is_char_boundary(bytes, a as int)
}

/// Appending a span after the last one keeps the spans in order.
proof fn lemma_spans_push(bytes: Seq<u8>, spans: Seq<(usize, usize)>, x: (usize, usize), last: int, i: int)
    requires
        0 <= i <= spans.len(),
        spans_in_order(bytes, spans, last, i),
        (if i < spans.len() { spans.last().1 as int } else { last }) <= x.0 <= x.1,
        is_char_boundary(bytes, x.0 as int),
        is_char_boundary(bytes, x.1 as int),
    ensures
        spans_in_order(bytes, spans.push(x), last, i),
    decreases spans.len() - i,
{
    let t = spans.push(x);
    if i < spans.len() {
        assert(t[i] == spans[i]);
        lemma_spans_push(bytes, spans, x, spans[i].1 as int, i + 1);
        assert(spans_in_order(bytes, t, t[i].1 as int, i + 1));
    } else {
        assert(t[i] == x);
        assert(spans_in_order(bytes, t, x.1 as int, i + 1));
    }
}

/// When the scan ends at the end of input without finding any of our
/// actions, removing gives the text back unchanged.
pub proof fn lemma_remove_without_ours(text: &str)
    requires
        xml_event(text@, scan_end_index(text@)) is Eof,
        scan_upto(text@, scan_end_index(text@)).spans.len() == 0,
    ensures
        remove_result(text) == Ok::<Seq<char>, Seq<char>>(text@),
{
    lemma_str_bytes(text);
    let bytes = text.spec_bytes();
    assert(bytes.subrange(0, bytes.len() as int) =~= bytes);
}

/// Removes the two `<action>` elements that `merge` adds (those whose
/// `<unique-id>` is one of ours) and keeps every other part of the text,
/// including the user's own actions, byte for byte. The events are read up
/// to the end of input or the first error; the result is `Ok` exactly when
/// the reader reports no error.
pub fn remove(existing: &str) -> (r: Result<String, String>)
    ensures
        first_scan_end(existing@, scan_end_index(existing@)),
        text_result_view(r) == remove_result(existing),
        r is Ok <==> xml_event(existing@, scan_end_index(existing@)) is Eof,
        r matches Ok(s) ==> exists|spans: Seq<(usize, usize)>|
            spans_in_order(existing.spec_bytes(), spans, 0, 0)
                && s@ == text_without(existing.spec_bytes(), spans, 0, 0),
        r matches Err(e) ==> starts_with(e@, parse_failure_prefix()),
{
    let n_bytes = existing.as_bytes().len();
    let ghost bytes = existing.spec_bytes();
    let ghost text = existing@;
    let bom = bom_length(existing);
    let mut cursor = open_xml(existing);
    let mut scan = RemoveScan::new();
    proof {
        lemma_str_bytes(existing);
        lemma_bom_boundary(existing);
    }
    loop
        invariant
            cursor.source() == text,
            cursor.source_bytes() == bytes,
            text == existing@,
            bytes == existing.spec_bytes(),
            vstd::utf8::valid_utf8(bytes),
            n_bytes == bytes.len(),
            bom == bom_len(text),
            text_offset(text, cursor.events_read()) <= n_bytes,
            forall|i: nat| i < cursor.events_read() ==> !is_scan_end(#[trigger] xml_event(text, i)),
            scan.state() == scan_upto(text, cursor.events_read()),
            is_char_boundary(bytes, text_offset(text, cursor.events_read())),
            scan_in_order(bytes, scan.state(), text_offset(text, cursor.events_read())),
        decreases n_bytes - text_offset(text, cursor.events_read()),
    {
        let before = cursor.position() as usize + bom;
        let ghost n = cursor.events_read();
        let ghost s0 = scan.state();
        let ev = cursor.next_event();
        match &ev {
            XmlEvent::Eof => {
                proof {
                    assert(first_scan_end(text, n));
                    lemma_first_scan_end_unique(text, n, scan_end_index(text));
                }
                let r = cut_spans(existing, &scan.spans);
                proof {
                    if r is Ok {
                        assert(spans_in_order(bytes, scan.spans@, 0, 0));
                    }
                }
                return r;
            },
            XmlEvent::Error(e) => {
                proof {
                    assert(first_scan_end(text, n));
                    lemma_first_scan_end_unique(text, n, scan_end_index(text));
                }
                let mut message = String::from_str("uca.xmlの解析に失敗しました: ");
                let ghost prefix = message@;
                message.append(e.as_str());
                assert(message@.subrange(0, prefix.len() as int) == prefix);
                return Err(message);
            },
            _ => {},
        }
        let after = cursor.position() as usize + bom;
        scan.step(&ev, before, after);
        proof {
            assert(!is_scan_end(xml_event(text, n)));
            assert forall|i: nat| i < n + 1 implies !is_scan_end(#[trigger] xml_event(text, i)) by {}
            let s1 = scan.state();
            if s1.spans.len() > s0.spans.len() {
                let start = s0.action_start->0;
                lemma_spans_push(bytes, s0.spans, (start, after), 0, 0);
                assert(s1.spans == s0.spans.push((start, after)));
            }
            assert(scan_in_order(bytes, s1, after as int));
        }
    }
}

} // verus!
