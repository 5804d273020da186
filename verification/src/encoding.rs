use vstd::prelude::*;
use vstd::utf8::{decode_utf8, valid_utf8};

use crate::text::string_push;

verus! {

/// The character encoding that was used to decode an entry name.
#[derive(Debug, Clone, Copy, PartialEq, Eq, Structural)]
pub enum EncodingUsed {
    Utf8,
    ShiftJis,
    Cp437,
}

impl EncodingUsed {
    /// Display label of the encoding.
    pub fn label(self) -> (s: &'static str)
        ensures
            self == EncodingUsed::Utf8 ==> s@ == "UTF-8"@,
            self == EncodingUsed::ShiftJis ==> s@ == "Shift-JIS"@,
            self == EncodingUsed::Cp437 ==> s@ == "CP437"@,
    {
        match self {
            EncodingUsed::Utf8 => "UTF-8",
            EncodingUsed::ShiftJis => "Shift-JIS",
            EncodingUsed::Cp437 => "CP437",
        }
    }
}

/// Code page 437 characters for the bytes 0x80..=0xff, in byte order.
pub open spec fn cp437_upper_half() -> Seq<char> {
    seq![
        '\u{00c7}', '\u{00fc}', '\u{00e9}', '\u{00e2}', '\u{00e4}', '\u{00e0}', '\u{00e5}', '\u{00e7}',
        '\u{00ea}', '\u{00eb}', '\u{00e8}', '\u{00ef}', '\u{00ee}', '\u{00ec}', '\u{00c4}', '\u{00c5}',
        '\u{00c9}', '\u{00e6}', '\u{00c6}', '\u{00f4}', '\u{00f6}', '\u{00f2}', '\u{00fb}', '\u{00f9}',
        '\u{00ff}', '\u{00d6}', '\u{00dc}', '\u{00a2}', '\u{00a3}', '\u{00a5}', '\u{20a7}', '\u{0192}',
        '\u{00e1}', '\u{00ed}', '\u{00f3}', '\u{00fa}', '\u{00f1}', '\u{00d1}', '\u{00aa}', '\u{00ba}',
        '\u{00bf}', '\u{2310}', '\u{00ac}', '\u{00bd}', '\u{00bc}', '\u{00a1}', '\u{00ab}', '\u{00bb}',
        '\u{2591}', '\u{2592}', '\u{2593}', '\u{2502}', '\u{2524}', '\u{2561}', '\u{2562}', '\u{2556}',
        '\u{2555}', '\u{2563}', '\u{2551}', '\u{2557}', '\u{255d}', '\u{255c}', '\u{255b}', '\u{2510}',
        '\u{2514}', '\u{2534}', '\u{252c}', '\u{251c}', '\u{2500}', '\u{253c}', '\u{255e}', '\u{255f}',
        '\u{255a}', '\u{2554}', '\u{2569}', '\u{2566}', '\u{2560}', '\u{2550}', '\u{256c}', '\u{2567}',
        '\u{2568}', '\u{2564}', '\u{2565}', '\u{2559}', '\u{2558}', '\u{2552}', '\u{2553}', '\u{256b}',
        '\u{256a}', '\u{2518}', '\u{250c}', '\u{2588}', '\u{2584}', '\u{258c}', '\u{2590}', '\u{2580}',
        '\u{03b1}', '\u{00df}', '\u{0393}', '\u{03c0}', '\u{03a3}', '\u{03c3}', '\u{00b5}', '\u{03c4}',
        '\u{03a6}', '\u{0398}', '\u{03a9}', '\u{03b4}', '\u{221e}', '\u{03c6}', '\u{03b5}', '\u{2229}',
        '\u{2261}', '\u{00b1}', '\u{2265}', '\u{2264}', '\u{2320}', '\u{2321}', '\u{00f7}', '\u{2248}',
        '\u{00b0}', '\u{2219}', '\u{00b7}', '\u{221a}', '\u{207f}', '\u{00b2}', '\u{25a0}', '\u{00a0}',
    ]
}

/// The character that code page 437 assigns to a byte: ASCII for the lower
/// half, the fixed IBM PC table for the upper half.
pub open spec fn cp437_char(b: u8) -> char {
    if b < 0x80 {
        b as char
    } else {
        cp437_upper_half()[b - 0x80]
    }
}

/// The byte that code page 437 assigns to a character, for the characters
/// it has: ASCII for the lower half, the table for the upper half.
pub open spec fn cp437_byte(c: char) -> u8 {
    match c {
        '\u{00c7}' => 0x80, '\u{00fc}' => 0x81, '\u{00e9}' => 0x82, '\u{00e2}' => 0x83,
        '\u{00e4}' => 0x84, '\u{00e0}' => 0x85, '\u{00e5}' => 0x86, '\u{00e7}' => 0x87,
        '\u{00ea}' => 0x88, '\u{00eb}' => 0x89, '\u{00e8}' => 0x8a, '\u{00ef}' => 0x8b,
        '\u{00ee}' => 0x8c, '\u{00ec}' => 0x8d, '\u{00c4}' => 0x8e, '\u{00c5}' => 0x8f,
        '\u{00c9}' => 0x90, '\u{00e6}' => 0x91, '\u{00c6}' => 0x92, '\u{00f4}' => 0x93,
        '\u{00f6}' => 0x94, '\u{00f2}' => 0x95, '\u{00fb}' => 0x96, '\u{00f9}' => 0x97,
        '\u{00ff}' => 0x98, '\u{00d6}' => 0x99, '\u{00dc}' => 0x9a, '\u{00a2}' => 0x9b,
        '\u{00a3}' => 0x9c, '\u{00a5}' => 0x9d, '\u{20a7}' => 0x9e, '\u{0192}' => 0x9f,
        '\u{00e1}' => 0xa0, '\u{00ed}' => 0xa1, '\u{00f3}' => 0xa2, '\u{00fa}' => 0xa3,
        '\u{00f1}' => 0xa4, '\u{00d1}' => 0xa5, '\u{00aa}' => 0xa6, '\u{00ba}' => 0xa7,
        '\u{00bf}' => 0xa8, '\u{2310}' => 0xa9, '\u{00ac}' => 0xaa, '\u{00bd}' => 0xab,
        '\u{00bc}' => 0xac, '\u{00a1}' => 0xad, '\u{00ab}' => 0xae, '\u{00bb}' => 0xaf,
        '\u{2591}' => 0xb0, '\u{2592}' => 0xb1, '\u{2593}' => 0xb2, '\u{2502}' => 0xb3,
        '\u{2524}' => 0xb4, '\u{2561}' => 0xb5, '\u{2562}' => 0xb6, '\u{2556}' => 0xb7,
        '\u{2555}' => 0xb8, '\u{2563}' => 0xb9, '\u{2551}' => 0xba, '\u{2557}' => 0xbb,
        '\u{255d}' => 0xbc, '\u{255c}' => 0xbd, '\u{255b}' => 0xbe, '\u{2510}' => 0xbf,
        '\u{2514}' => 0xc0, '\u{2534}' => 0xc1, '\u{252c}' => 0xc2, '\u{251c}' => 0xc3,
        '\u{2500}' => 0xc4, '\u{253c}' => 0xc5, '\u{255e}' => 0xc6, '\u{255f}' => 0xc7,
        '\u{255a}' => 0xc8, '\u{2554}' => 0xc9, '\u{2569}' => 0xca, '\u{2566}' => 0xcb,
        '\u{2560}' => 0xcc, '\u{2550}' => 0xcd, '\u{256c}' => 0xce, '\u{2567}' => 0xcf,
        '\u{2568}' => 0xd0, '\u{2564}' => 0xd1, '\u{2565}' => 0xd2, '\u{2559}' => 0xd3,
        '\u{2558}' => 0xd4, '\u{2552}' => 0xd5, '\u{2553}' => 0xd6, '\u{256b}' => 0xd7,
        '\u{256a}' => 0xd8, '\u{2518}' => 0xd9, '\u{250c}' => 0xda, '\u{2588}' => 0xdb,
        '\u{2584}' => 0xdc, '\u{258c}' => 0xdd, '\u{2590}' => 0xde, '\u{2580}' => 0xdf,
        '\u{03b1}' => 0xe0, '\u{00df}' => 0xe1, '\u{0393}' => 0xe2, '\u{03c0}' => 0xe3,
        '\u{03a3}' => 0xe4, '\u{03c3}' => 0xe5, '\u{00b5}' => 0xe6, '\u{03c4}' => 0xe7,
        '\u{03a6}' => 0xe8, '\u{0398}' => 0xe9, '\u{03a9}' => 0xea, '\u{03b4}' => 0xeb,
        '\u{221e}' => 0xec, '\u{03c6}' => 0xed, '\u{03b5}' => 0xee, '\u{2229}' => 0xef,
        '\u{2261}' => 0xf0, '\u{00b1}' => 0xf1, '\u{2265}' => 0xf2, '\u{2264}' => 0xf3,
        '\u{2320}' => 0xf4, '\u{2321}' => 0xf5, '\u{00f7}' => 0xf6, '\u{2248}' => 0xf7,
        '\u{00b0}' => 0xf8, '\u{2219}' => 0xf9, '\u{00b7}' => 0xfa, '\u{221a}' => 0xfb,
        '\u{207f}' => 0xfc, '\u{00b2}' => 0xfd, '\u{25a0}' => 0xfe, '\u{00a0}' => 0xff,
        _ => c as u8,
    }
}

/// Decoding a byte and looking up the character's byte gives the byte back.
#[verifier::rlimit(100)]
proof fn lemma_cp437_round_trip(b: u8)
    ensures
        cp437_byte(cp437_char(b)) == b,
        b >= 0x80 ==> cp437_char(b) as u32 >= 0x80,
{
}

/// Code page 437 decoding is one-to-one, and the upper half never decodes
/// to ASCII.
pub proof fn lemma_cp437_one_to_one(x: u8, y: u8)
    ensures
        cp437_char(x) == cp437_char(y) ==> x == y,
        x >= 0x80 ==> cp437_char(x) as u32 >= 0x80,
{
    lemma_cp437_round_trip(x);
    lemma_cp437_round_trip(y);
}

/// Decodes one byte as code page 437.
#[verifier::rlimit(100)]
pub fn cp437_to_char(b: u8) -> (c: char)
    ensures
        c == cp437_char(b),
{
    match b {
        0x00..=0x7f => b as char,
        0x80 => '\u{00c7}', 0x81 => '\u{00fc}', 0x82 => '\u{00e9}', 0x83 => '\u{00e2}',
        0x84 => '\u{00e4}', 0x85 => '\u{00e0}', 0x86 => '\u{00e5}', 0x87 => '\u{00e7}',
        0x88 => '\u{00ea}', 0x89 => '\u{00eb}', 0x8a => '\u{00e8}', 0x8b => '\u{00ef}',
        0x8c => '\u{00ee}', 0x8d => '\u{00ec}', 0x8e => '\u{00c4}', 0x8f => '\u{00c5}',
        0x90 => '\u{00c9}', 0x91 => '\u{00e6}', 0x92 => '\u{00c6}', 0x93 => '\u{00f4}',
        0x94 => '\u{00f6}', 0x95 => '\u{00f2}', 0x96 => '\u{00fb}', 0x97 => '\u{00f9}',
        0x98 => '\u{00ff}', 0x99 => '\u{00d6}', 0x9a => '\u{00dc}', 0x9b => '\u{00a2}',
        0x9c => '\u{00a3}', 0x9d => '\u{00a5}', 0x9e => '\u{20a7}', 0x9f => '\u{0192}',
        0xa0 => '\u{00e1}', 0xa1 => '\u{00ed}', 0xa2 => '\u{00f3}', 0xa3 => '\u{00fa}',
        0xa4 => '\u{00f1}', 0xa5 => '\u{00d1}', 0xa6 => '\u{00aa}', 0xa7 => '\u{00ba}',
        0xa8 => '\u{00bf}', 0xa9 => '\u{2310}', 0xaa => '\u{00ac}', 0xab => '\u{00bd}',
        0xac => '\u{00bc}', 0xad => '\u{00a1}', 0xae => '\u{00ab}', 0xaf => '\u{00bb}',
        0xb0 => '\u{2591}', 0xb1 => '\u{2592}', 0xb2 => '\u{2593}', 0xb3 => '\u{2502}',
        0xb4 => '\u{2524}', 0xb5 => '\u{2561}', 0xb6 => '\u{2562}', 0xb7 => '\u{2556}',
        0xb8 => '\u{2555}', 0xb9 => '\u{2563}', 0xba => '\u{2551}', 0xbb => '\u{2557}',
        0xbc => '\u{255d}', 0xbd => '\u{255c}', 0xbe => '\u{255b}', 0xbf => '\u{2510}',
        0xc0 => '\u{2514}', 0xc1 => '\u{2534}', 0xc2 => '\u{252c}', 0xc3 => '\u{251c}',
        0xc4 => '\u{2500}', 0xc5 => '\u{253c}', 0xc6 => '\u{255e}', 0xc7 => '\u{255f}',
        0xc8 => '\u{255a}', 0xc9 => '\u{2554}', 0xca => '\u{2569}', 0xcb => '\u{2566}',
        0xcc => '\u{2560}', 0xcd => '\u{2550}', 0xce => '\u{256c}', 0xcf => '\u{2567}',
        0xd0 => '\u{2568}', 0xd1 => '\u{2564}', 0xd2 => '\u{2565}', 0xd3 => '\u{2559}',
        0xd4 => '\u{2558}', 0xd5 => '\u{2552}', 0xd6 => '\u{2553}', 0xd7 => '\u{256b}',
        0xd8 => '\u{256a}', 0xd9 => '\u{2518}', 0xda => '\u{250c}', 0xdb => '\u{2588}',
        0xdc => '\u{2584}', 0xdd => '\u{258c}', 0xde => '\u{2590}', 0xdf => '\u{2580}',
        0xe0 => '\u{03b1}', 0xe1 => '\u{00df}', 0xe2 => '\u{0393}', 0xe3 => '\u{03c0}',
        0xe4 => '\u{03a3}', 0xe5 => '\u{03c3}', 0xe6 => '\u{00b5}', 0xe7 => '\u{03c4}',
        0xe8 => '\u{03a6}', 0xe9 => '\u{0398}', 0xea => '\u{03a9}', 0xeb => '\u{03b4}',
        0xec => '\u{221e}', 0xed => '\u{03c6}', 0xee => '\u{03b5}', 0xef => '\u{2229}',
        0xf0 => '\u{2261}', 0xf1 => '\u{00b1}', 0xf2 => '\u{2265}', 0xf3 => '\u{2264}',
        0xf4 => '\u{2320}', 0xf5 => '\u{2321}', 0xf6 => '\u{00f7}', 0xf7 => '\u{2248}',
        0xf8 => '\u{00b0}', 0xf9 => '\u{2219}', 0xfa => '\u{00b7}', 0xfb => '\u{221a}',
        0xfc => '\u{207f}', 0xfd => '\u{00b2}', 0xfe => '\u{25a0}', 0xff => '\u{00a0}',
    }
}

/// Code page 437 decoding of a byte string: one character per byte.
pub open spec fn cp437_decode(raw: Seq<u8>) -> Seq<char> {
    raw.map_values(|b: u8| cp437_char(b))
}

/// Decodes a byte string as code page 437.
pub fn decode_cp437(raw: &[u8]) -> (s: String)
    ensures
        s@ == cp437_decode(raw@),
{
    let mut s = String::new();
    let mut i: usize = 0;
    while i < raw.len()
        invariant
            i <= raw.len(),
            s@ == cp437_decode(raw@.subrange(0, i as int)),
        decreases raw.len() - i,
    {
        let c = cp437_to_char(raw[i]);
        string_push(&mut s, c);
        assert(raw@.subrange(0, i + 1) == raw@.subrange(0, i as int).push(raw@[i as int]));
        i = i + 1;
    }
    assert(raw@.subrange(0, raw.len() as int) == raw@);
    s
}

/// What `encoding_rs::SHIFT_JIS.decode_without_bom_handling` returns for a
/// byte string: the decoded text and whether malformed sequences were met.
pub uninterp spec fn shift_jis_decoding(raw: Seq<u8>) -> (Seq<char>, bool);

/// What `String::from_utf8_lossy` returns for a byte string.
pub uninterp spec fn utf8_lossy(raw: Seq<u8>) -> Seq<char>;

/// Calls `encoding_rs::SHIFT_JIS.decode_without_bom_handling`. The contract
/// claims only that the text and the error flag are those of that decoder on
/// these bytes.
#[verifier::external_body]
fn shift_jis_decode(raw: &[u8]) -> (res: (String, bool))
    ensures
        (res.0@, res.1) == shift_jis_decoding(raw@),
{
    let (text, had_errors) = encoding_rs::SHIFT_JIS.decode_without_bom_handling(raw);
    (text.into_owned(), had_errors)
}

/// Calls `String::from_utf8_lossy`. The contract claims that the text is the
/// lossy decoding of these bytes, and, as std documents, that valid UTF-8 is
/// decoded exactly.
#[verifier::external_body]
fn utf8_decode_lossy(raw: &[u8]) -> (s: String)
    ensures
        s@ == utf8_lossy(raw@),
        valid_utf8(raw@) ==> s@ == decode_utf8(raw@),
{
    String::from_utf8_lossy(raw).into_owned()
}

/// The decoding rule for an entry name that carries no UTF-8 flag, given
/// what the Shift-JIS decoder made of it: Shift-JIS when it decoded without
/// errors, code page 437 otherwise.
pub open spec fn unflagged_name(raw: Seq<u8>, sjis: (Seq<char>, bool)) -> (Seq<char>, EncodingUsed) {
    if !sjis.1 {
        (sjis.0, EncodingUsed::ShiftJis)
    } else {
        (cp437_decode(raw), EncodingUsed::Cp437)
    }
}

/// The name and encoding that an entry name decodes to.
pub open spec fn entry_name_decoding(raw: Seq<u8>, utf8_flag_set: bool) -> (Seq<char>, EncodingUsed) {
    if utf8_flag_set {
        (utf8_lossy(raw), EncodingUsed::Utf8)
    } else {
        unflagged_name(raw, shift_jis_decoding(raw))
    }
}

/// How an unflagged entry name is decoded, whatever its bytes: the
/// Shift-JIS decoder's text whenever that decoder reports no error, and
/// otherwise one code page 437 character per byte.
pub proof fn lemma_unflagged_decoding(raw: Seq<u8>, text: Seq<char>, had_errors: bool)
    ensures
        !had_errors ==> unflagged_name(raw, (text, had_errors)) == (text, EncodingUsed::ShiftJis),
        had_errors ==> unflagged_name(raw, (text, had_errors)).1 == EncodingUsed::Cp437
            && unflagged_name(raw, (text, had_errors)).0.len() == raw.len()
            && forall|i: int| 0 <= i < raw.len()
                ==> #[trigger] unflagged_name(raw, (text, had_errors)).0[i] == cp437_char(raw[i]),
{
}

/// Each entry name is decoded on its own bytes and flag: with the flag,
/// the lossy UTF-8 decoding; without it, the Shift-JIS decoding whenever
/// that decoder accepts the bytes, and code page 437 only when it does not.
pub proof fn lemma_entry_name_rule(raw: Seq<u8>, utf8_flag_set: bool)
    ensures
        utf8_flag_set ==> entry_name_decoding(raw, utf8_flag_set) == (utf8_lossy(raw), EncodingUsed::Utf8),
        !utf8_flag_set && !shift_jis_decoding(raw).1 ==> entry_name_decoding(raw, utf8_flag_set)
            == (shift_jis_decoding(raw).0, EncodingUsed::ShiftJis),
        !utf8_flag_set && shift_jis_decoding(raw).1 ==> entry_name_decoding(raw, utf8_flag_set).1
            == EncodingUsed::Cp437,
{
    lemma_unflagged_decoding(raw, shift_jis_decoding(raw).0, shift_jis_decoding(raw).1);
}

/// Chooses the decoded name of an unflagged entry from the Shift-JIS
/// decoder's output (`sjis_text`, `sjis_had_errors`) for the raw bytes.
pub fn resolve_unflagged_name(raw: &[u8], sjis_text: String, sjis_had_errors: bool) -> (res: (String, EncodingUsed))
    ensures
        (res.0@, res.1) == unflagged_name(raw@, (sjis_text@, sjis_had_errors)),
{
    if !sjis_had_errors {
        (sjis_text, EncodingUsed::ShiftJis)
    } else {
        (decode_cp437(raw), EncodingUsed::Cp437)
    }
}

/// Decodes the raw file name of an archive entry. With the UTF-8 flag
/// (general purpose bit 11) the name is UTF-8; otherwise it is Shift-JIS when
/// the bytes decode as Shift-JIS without errors, and code page 437 when not.
/// The decision is made for each entry on its own bytes.
pub fn decode_entry_name(raw: &[u8], utf8_flag_set: bool) -> (res: (String, EncodingUsed))
    ensures
        (res.0@, res.1) == entry_name_decoding(raw@, utf8_flag_set),
        utf8_flag_set && valid_utf8(raw@) ==> res.0@ == decode_utf8(raw@),
{
    if utf8_flag_set {
        return (utf8_decode_lossy(raw), EncodingUsed::Utf8);
    }
    let (text, had_errors) = shift_jis_decode(raw);
    resolve_unflagged_name(raw, text, had_errors)
}

/// Whether general purpose flags of an entry have the language encoding
/// flag (bit 11) set, which says the name is UTF-8.
pub fn language_encoding_flag(flags: u16) -> (r: bool)
    ensures
        r == (flags & 0x0800 != 0),
{
    flags & 0x0800 != 0
}

} // verus!
