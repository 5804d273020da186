use easy_archive::encoding::{cp437_to_char, decode_cp437, decode_entry_name, resolve_unflagged_name, EncodingUsed};
use encoding_rs::SHIFT_JIS;

#[test]
fn utf8_flag_skips_detection() {
    let raw = "日本語.txt".as_bytes();
    let (name, used) = decode_entry_name(raw, true);
    assert_eq!(used, EncodingUsed::Utf8);
    assert_eq!(name, "日本語.txt");
}

#[test]
fn shift_jis_with_half_width_kana_is_detected() {
    let original = "ﾃｽﾄ_日本語ﾌｧｲﾙ.txt";
    let (raw, _, had_errors) = SHIFT_JIS.encode(original);
    assert!(!had_errors);
    let (name, used) = decode_entry_name(&raw, false);
    assert_eq!(used, EncodingUsed::ShiftJis);
    assert_eq!(name, original);
}

#[test]
fn shift_jis_without_half_width_kana_is_still_detected() {
    let original = "運動会案内.docx";
    let (raw, _, had_errors) = SHIFT_JIS.encode(original);
    assert!(!had_errors);
    let (name, used) = decode_entry_name(&raw, false);
    assert_eq!(used, EncodingUsed::ShiftJis);
    assert_eq!(name, original);
}

#[test]
fn invalid_shift_jis_bytes_fall_back_to_cp437() {
    let raw = b"caf\xe9";
    let (decoded, had_errors) = SHIFT_JIS.decode_without_bom_handling(raw);
    assert!(had_errors, "テスト前提: このバイト列はShift-JISとして不正であること (got {decoded:?})");

    let (name, used) = decode_entry_name(raw, false);
    assert_eq!(used, EncodingUsed::Cp437);
    assert_eq!(name, "cafΘ");
}

#[test]
fn two_entries_independently_decode_their_own_encoding() {
    let (sjis_raw, _, _) = SHIFT_JIS.encode("ﾃｽﾄ_日本語.txt");
    let (sjis_name, sjis_used) = decode_entry_name(&sjis_raw, false);
    assert_eq!(sjis_used, EncodingUsed::ShiftJis);
    assert_eq!(sjis_name, "ﾃｽﾄ_日本語.txt");

    let cp437_raw = b"caf\xe9";
    let (cp437_name, cp437_used) = decode_entry_name(cp437_raw, false);
    assert_eq!(cp437_used, EncodingUsed::Cp437);
    assert_eq!(cp437_name, "cafΘ");
}

#[test]
fn utf8_flag_with_invalid_bytes_uses_replacement_character() {
    let (name, used) = decode_entry_name(b"a\xffb", true);
    assert_eq!(used, EncodingUsed::Utf8);
    assert_eq!(name, "a\u{fffd}b");
}

#[test]
fn labels_name_each_encoding() {
    assert_eq!(EncodingUsed::Utf8.label(), "UTF-8");
    assert_eq!(EncodingUsed::ShiftJis.label(), "Shift-JIS");
    assert_eq!(EncodingUsed::Cp437.label(), "CP437");
}

#[test]
fn cp437_table_spot_checks() {
    assert_eq!(cp437_to_char(0x41), 'A');
    assert_eq!(cp437_to_char(0x7f), '\u{7f}');
    assert_eq!(cp437_to_char(0x80), 'Ç');
    assert_eq!(cp437_to_char(0xb3), '│');
    assert_eq!(cp437_to_char(0xe9), 'Θ');
    assert_eq!(cp437_to_char(0xff), '\u{a0}');
    assert_eq!(decode_cp437(&[0x9b, 0x9c, 0x9d]), "¢£¥");
    assert_eq!(decode_cp437(&[]), "");
}

#[test]
fn cp437_upper_half_is_a_bijection() {
    let mut seen = std::collections::HashSet::new();
    for b in 0u8..=255 {
        assert!(seen.insert(cp437_to_char(b)), "duplicate for {b:#x}");
    }
}

#[test]
fn unflagged_name_uses_shift_jis_text_only_without_errors() {
    let raw = b"abc";
    let (name, used) = resolve_unflagged_name(raw, "from sjis".to_string(), false);
    assert_eq!((name.as_str(), used), ("from sjis", EncodingUsed::ShiftJis));
    let (name, used) = resolve_unflagged_name(raw, "from sjis".to_string(), true);
    assert_eq!((name.as_str(), used), ("abc", EncodingUsed::Cp437));
}
