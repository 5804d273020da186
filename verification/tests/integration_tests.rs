use easy_archive::integration::{all_generated_files, dolphin, installation_complete, nautilus, nemo, pcmanfm_qt, thunar};
use easy_archive::integration::xml::{open_xml, XmlEvent};
use easy_archive::integration::thunar::{
    find_actions_close_tag_offset, merge, remove, RemoveScan, COMPRESS_UNIQUE_ID, EXTRACT_UNIQUE_ID,
};

#[test]
fn generates_service_menu_with_both_actions() {
    let file = dolphin::generate("/usr/bin/easy-archive");

    assert_eq!(file.relative_path, ".local/share/kio/servicemenus/easy-archive.desktop");
    assert!(file.executable);
    assert!(file.content.contains("Type=Service"));
    assert!(file.content.contains("Actions=extractHere;compressHere;"));
    assert!(file.content.contains("[Desktop Action extractHere]"));
    assert!(file.content.contains("[Desktop Action compressHere]"));
    assert_eq!(file.content.matches("Exec=/usr/bin/easy-archive auto %f").count(), 2);
}

#[test]
fn dolphin_service_menu_is_exact() {
    let file = dolphin::generate("/opt/ea");
    assert_eq!(
        file.content,
        "[Desktop Entry]\nType=Service\nMimeType=application/zip;inode/directory;application/octet-stream;\nActions=extractHere;compressHere;\n\n[Desktop Action extractHere]\nName=ここに解凍\nIcon=archive-extract\nExec=/opt/ea auto %f\n\n[Desktop Action compressHere]\nName=ここを圧縮\nIcon=archive-insert\nExec=/opt/ea auto %f\n"
    );
}

#[test]
fn generates_executable_wrapper_script_under_submenu_dir() {
    let file = nautilus::generate("/usr/bin/easy-archive");

    assert_eq!(file.relative_path, ".local/share/nautilus/scripts/Easy Archive/ここに解凍・圧縮");
    assert!(file.executable);
    assert!(file.content.starts_with("#!/bin/sh\n"));
    assert!(file.content.contains("NAUTILUS_SCRIPT_SELECTED_FILE_PATHS"));
    assert!(file.content.contains("\"/usr/bin/easy-archive\" auto \"$path\""));
    assert!(file.content.contains("notify-send"));
}

#[test]
fn guards_notify_send_call_with_command_dash_v() {
    let file = nautilus::generate("/usr/bin/easy-archive");
    assert!(file.content.contains("if command -v notify-send >/dev/null 2>&1; then"));
}

#[test]
fn nautilus_script_reads_first_selected_path() {
    let file = nautilus::generate("/usr/bin/easy-archive");
    assert!(file.content.contains("path=$(printf '%s\\n' \"$NAUTILUS_SCRIPT_SELECTED_FILE_PATHS\" | head -n1)\n"));
    assert!(file.content.ends_with("    fi\nfi\n"));
}

#[test]
fn generates_extract_and_compress_actions() {
    let files = nemo::generate("/usr/bin/easy-archive");
    assert_eq!(files.len(), 2);

    let extract = &files[0];
    assert_eq!(extract.relative_path, ".local/share/nemo/actions/easy-archive-extract.nemo_action");
    assert!(extract.content.contains("[Nemo Action]"));
    assert!(extract.content.contains("Exec=/usr/bin/easy-archive auto %f"));
    assert!(extract.content.contains("Selection=s"));
    assert!(extract.content.contains("Extensions=zip;"));
    assert!(!extract.executable);

    let compress = &files[1];
    assert_eq!(compress.relative_path, ".local/share/nemo/actions/easy-archive-compress.nemo_action");
    assert!(compress.content.contains("Exec=/usr/bin/easy-archive auto %f"));
    assert!(compress.content.contains("Extensions=any;"));
}

#[test]
fn generates_des_ema_action() {
    let file = pcmanfm_qt::generate("/usr/bin/easy-archive");

    assert_eq!(file.relative_path, ".local/share/file-manager/actions/easy-archive.desktop");
    assert!(!file.executable);
    assert!(file.content.contains("Type=Action"));
    assert!(file.content.contains("Profiles=auto;"));
    assert!(file.content.contains("[X-Action-Profile auto]"));
    assert!(file.content.contains("Exec=/usr/bin/easy-archive auto %f"));
    assert!(file.content.contains("SelectionCount=1"));
}

#[test]
fn all_generated_files_covers_every_supported_file_manager() {
    let files = all_generated_files("/usr/bin/easy-archive", None).unwrap();

    assert_eq!(files.len(), 6);

    let paths: Vec<String> = files.iter().map(|f| f.relative_path.clone()).collect();
    assert!(paths.iter().any(|p| p.contains("nemo/actions") && p.contains("extract")));
    assert!(paths.iter().any(|p| p.contains("nemo/actions") && p.contains("compress")));
    assert!(paths.iter().any(|p| p.contains("kio/servicemenus")));
    assert!(paths.iter().any(|p| p.contains("nautilus/scripts")));
    assert!(paths.iter().any(|p| p.contains("file-manager/actions")));
    assert!(paths.iter().any(|p| p.contains(".config/Thunar/uca.xml")));
}

#[test]
fn all_generated_files_fails_on_uca_without_actions_element() {
    let result = all_generated_files("/usr/bin/easy-archive", Some("<?xml version=\"1.0\"?>\n<other/>\n"));
    assert_eq!(result.unwrap_err(), "uca.xmlに<actions>要素が見つかりませんでした");
}

#[test]
fn installation_complete_requires_thunar_marker_and_other_files() {
    let files = all_generated_files("/usr/bin/easy-archive", None).unwrap();
    let merged = files[5].content.clone();
    let all_present = vec![true; 6];
    assert!(installation_complete(Some(&merged), &files, &all_present));

    let unrelated = "<?xml version=\"1.0\" encoding=\"UTF-8\"?>\n<actions>\n  <action><unique-id>someone-else</unique-id></action>\n</actions>\n";
    assert!(!installation_complete(Some(unrelated), &files, &all_present));
    assert!(!installation_complete(None, &files, &all_present));

    let mut missing_one = all_present.clone();
    missing_one[2] = false;
    assert!(!installation_complete(Some(&merged), &files, &missing_one));

    // The Thunar file itself counts by its content, not by being present.
    let mut thunar_absent = all_present.clone();
    thunar_absent[5] = false;
    assert!(installation_complete(Some(&merged), &files, &thunar_absent));
}

fn assert_actions_close_tag_is_findable(xml: &str) {
    let offset = find_actions_close_tag_offset(xml).unwrap();
    assert_eq!(&xml[offset..offset + "</actions>".len()], "</actions>");
}

#[test]
fn merge_creates_new_uca_xml_when_absent() {
    let result = merge(None, "/usr/bin/easy-archive").unwrap();

    assert_eq!(result.relative_path, ".config/Thunar/uca.xml");
    assert!(!result.executable);
    assert!(result.content.contains(EXTRACT_UNIQUE_ID));
    assert!(result.content.contains(COMPRESS_UNIQUE_ID));
    assert!(result.content.contains("<actions>"));
    assert!(result.content.contains("</actions>"));
    assert!(result.content.contains("/usr/bin/easy-archive auto %f"));

    assert_actions_close_tag_is_findable(&result.content);
}

#[test]
fn merge_preserves_existing_unrelated_action() {
    let existing = "<?xml version=\"1.0\" encoding=\"UTF-8\"?>\n\
                     <actions>\n\
                     \x20\x20<action>\n\
                     \x20\x20\x20\x20<icon>utilities-terminal</icon>\n\
                     \x20\x20\x20\x20<name>Open Terminal Here</name>\n\
                     \x20\x20\x20\x20<unique-id>1633867917298852-1</unique-id>\n\
                     \x20\x20\x20\x20<command>xfce4-terminal --working-directory %f</command>\n\
                     \x20\x20\x20\x20<patterns>*</patterns>\n\
                     \x20\x20\x20\x20<directories/>\n\
                     \x20\x20</action>\n\
                     </actions>\n";

    let result = merge(Some(existing), "/usr/bin/easy-archive").unwrap();

    assert!(result.content.contains("Open Terminal Here"));
    assert!(result.content.contains("1633867917298852-1"));
    assert!(result.content.contains(EXTRACT_UNIQUE_ID));
    assert!(result.content.contains(COMPRESS_UNIQUE_ID));
}

#[test]
fn merge_inserts_right_before_close_tag() {
    let existing = "<actions>\n<!-- </actions> -->\n</actions>\n";
    let result = merge(Some(existing), "/b").unwrap();
    let expected = format!(
        "<actions>\n<!-- </actions> -->\n{}{}</actions>\n",
        thunar::extract_action_xml("/b"),
        thunar::compress_action_xml("/b")
    );
    assert_eq!(result.content, expected);
}

#[test]
fn merge_adds_only_the_missing_action() {
    let existing = "<actions>\n  <action><unique-id>easy-archive-extract-here</unique-id></action>\n</actions>\n";
    let result = merge(Some(existing), "/b").unwrap();
    let expected = format!(
        "<actions>\n  <action><unique-id>easy-archive-extract-here</unique-id></action>\n{}</actions>\n",
        thunar::compress_action_xml("/b")
    );
    assert_eq!(result.content, expected);
}

#[test]
fn merge_is_idempotent() {
    let first = merge(None, "/usr/bin/easy-archive").unwrap();
    let second = merge(Some(&first.content), "/usr/bin/easy-archive").unwrap();

    assert_eq!(first.content, second.content);
    assert_eq!(second.content.matches(EXTRACT_UNIQUE_ID).count(), 1, "重複登録されている: {}", second.content);
    assert_eq!(second.content.matches(COMPRESS_UNIQUE_ID).count(), 1);
}

#[test]
fn merge_with_both_ids_present_returns_input_unchanged() {
    let existing = "not even xml easy-archive-extract-here easy-archive-compress-here";
    let result = merge(Some(existing), "/b").unwrap();
    assert_eq!(result.content, existing);
}

#[test]
fn merge_reports_missing_actions_element() {
    let err = merge(Some("<?xml version=\"1.0\"?>\n<root></root>\n"), "/b").unwrap_err();
    assert_eq!(err, "uca.xmlに<actions>要素が見つかりませんでした");
}

#[test]
fn merge_reports_malformed_xml() {
    let err = merge(Some("<actions><a></b></actions>"), "/b").unwrap_err();
    assert!(err.starts_with("uca.xmlの解析に失敗しました: "), "{err}");
}

#[test]
fn find_actions_close_tag_offset_ignores_comment_containing_tag_name() {
    let xml = "<?xml version=\"1.0\"?>\n\
               <actions>\n\
               \x20\x20<!-- </actions> in a comment -->\n\
               </actions>\n";

    let offset = find_actions_close_tag_offset(xml).unwrap();
    assert_eq!(&xml[offset..offset + "</actions>".len()], "</actions>");
}

#[test]
fn find_actions_close_tag_offset_counts_bytes_of_multibyte_text() {
    let xml = "<actions><name>日本語</name></actions>";
    let offset = find_actions_close_tag_offset(xml).unwrap();
    assert_eq!(offset, xml.len() - "</actions>".len());
}

#[test]
fn remove_strips_only_our_actions_and_keeps_others() {
    let existing = "<?xml version=\"1.0\" encoding=\"UTF-8\"?>\n\
                     <actions>\n\
                     \x20\x20<action>\n\
                     \x20\x20\x20\x20<icon>utilities-terminal</icon>\n\
                     \x20\x20\x20\x20<name>Open Terminal Here</name>\n\
                     \x20\x20\x20\x20<unique-id>1633867917298852-1</unique-id>\n\
                     \x20\x20\x20\x20<command>xfce4-terminal --working-directory %f</command>\n\
                     \x20\x20</action>\n\
                     </actions>\n";

    let merged = merge(Some(existing), "/usr/bin/easy-archive").unwrap();
    let removed = remove(&merged.content).unwrap();

    assert!(removed.contains("Open Terminal Here"));
    assert!(removed.contains("1633867917298852-1"));
    assert!(!removed.contains(EXTRACT_UNIQUE_ID));
    assert!(!removed.contains(COMPRESS_UNIQUE_ID));
    assert!(!removed.contains("ここに解凍"));
    assert!(!removed.contains("ここを圧縮"));

    assert_actions_close_tag_is_findable(&removed);
}

#[test]
fn remove_is_noop_when_our_actions_are_absent() {
    let existing = "<?xml version=\"1.0\" encoding=\"UTF-8\"?>\n\
                     <actions>\n\
                     \x20\x20<action>\n\
                     \x20\x20\x20\x20<name>Something Else</name>\n\
                     \x20\x20\x20\x20<unique-id>other-id</unique-id>\n\
                     \x20\x20\x20\x20<command>foo %f</command>\n\
                     \x20\x20</action>\n\
                     </actions>\n";

    let removed = remove(existing).unwrap();
    assert_eq!(removed, existing);
}

#[test]
fn remove_cuts_exactly_the_action_elements() {
    let existing = "<actions>\n  <action><unique-id>easy-archive-compress-here</unique-id></action>\n</actions>\n";
    assert_eq!(remove(existing).unwrap(), "<actions>\n  \n</actions>\n");
}

#[test]
fn cut_spans_rejects_overlapping_spans() {
    let err = thunar::cut_spans("abcdef", &vec![(2, 4), (3, 5)]).unwrap_err();
    assert!(err.starts_with("uca.xmlの解析に失敗しました: "));
    assert_eq!(thunar::cut_spans("abcdef", &vec![(1, 2), (4, 6)]).unwrap(), "acd");
    assert!(thunar::cut_spans("日本", &vec![(1, 3)]).is_err());
}

#[test]
fn remove_reports_malformed_xml() {
    let err = remove("<actions><action></actions>").unwrap_err();
    assert!(err.starts_with("uca.xmlの解析に失敗しました: "), "{err}");
}

#[test]
fn remove_scan_records_only_our_action_spans() {
    let mut scan = RemoveScan::new();
    scan.step(&XmlEvent::Start("action".to_string()), 10, 18);
    scan.step(&XmlEvent::Start("unique-id".to_string()), 18, 29);
    scan.step(&XmlEvent::Text("easy-archive-extract-here".to_string()), 29, 54);
    scan.step(&XmlEvent::End("unique-id".to_string()), 54, 66);
    scan.step(&XmlEvent::End("action".to_string()), 66, 75);
    assert_eq!(scan.spans, vec![(10, 75)]);
    assert_eq!(scan.action_start, None);

    scan.step(&XmlEvent::Start("action".to_string()), 80, 88);
    scan.step(&XmlEvent::Start("unique-id".to_string()), 88, 99);
    scan.step(&XmlEvent::Text("other".to_string()), 99, 104);
    scan.step(&XmlEvent::End("unique-id".to_string()), 104, 116);
    scan.step(&XmlEvent::Text("easy-archive-extract-here".to_string()), 116, 141);
    scan.step(&XmlEvent::End("action".to_string()), 141, 150);
    assert_eq!(scan.spans, vec![(10, 75)]);
}

#[test]
fn xml_cursor_reads_events_and_byte_positions_in_order() {
    let text = "<a>x</a>";
    let mut cursor = open_xml(text);
    assert_eq!(cursor.position(), 0);
    assert!(matches!(cursor.next_event(), XmlEvent::Start(ref n) if n == "a"));
    assert_eq!(cursor.position(), 3);
    assert!(matches!(cursor.next_event(), XmlEvent::Text(ref t) if t == "x"));
    assert_eq!(cursor.position(), 4);
    assert!(matches!(cursor.next_event(), XmlEvent::End(ref n) if n == "a"));
    assert_eq!(cursor.position(), 8);
    assert!(matches!(cursor.next_event(), XmlEvent::Eof));
}

#[test]
fn byte_order_mark_is_counted_in_offsets() {
    let xml = "\u{feff}<actions>\n</actions>\n";
    assert_eq!(find_actions_close_tag_offset(xml), Ok(13));
    let merged = merge(Some(xml), "/usr/bin/easy-archive").unwrap();
    assert!(merged.content.starts_with("\u{feff}<actions>\n  <action>"));
    assert!(merged.content.ends_with("  </action>\n</actions>\n"));
    assert_eq!(remove(&merged.content).unwrap(), "\u{feff}<actions>\n  \n  \n</actions>\n");
}
