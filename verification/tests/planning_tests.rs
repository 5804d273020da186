use std::path::{Component, Path};

use easy_archive::auto::{check_output_free, compressed, extracted, AutoPlan, PathKind};
use easy_archive::compress::{entry_name_in, input_entry_name};
use easy_archive::drop::{drop_status, handle_drop, DropAction};
use easy_archive::extract::{check_dest_free, plan_entry, EntryPlan};
use easy_archive::paths::{file_name_chars, is_all_normal, parent_chars};

const SAMPLES: &[&str] = &[
    "", ".", "..", "/", "//", "a", "a/", "a//b", "a/./b", "./a", "./a/", "../a", "a/..", "/a",
    "/a/b.zip", "a/b/.", "./", ".//x", "a/b/c.tar.gz", ".bashrc", "x/.hidden", "dir.with.dots/",
    "/tmp/x/R7.4", "a/ b /c", "日本語/ファイル.txt", "./.", "a/./", "//a//b//", "a//c/b", "///a",
    "a/././b/", "./a/./", "a/b//./", "/./a", ".//", "../",
];

fn s(v: Option<Vec<char>>) -> Option<String> {
    v.map(|c| c.into_iter().collect())
}

#[test]
fn file_name_agrees_with_std() {
    for p in SAMPLES {
        let ours = s(file_name_chars(p));
        let std = Path::new(p).file_name().map(|n| n.to_str().unwrap().to_string());
        assert_eq!(ours, std, "file_name of {p:?}");
    }
}

#[test]
fn parent_agrees_with_std_as_text() {
    for p in SAMPLES {
        let ours = s(parent_chars(p));
        let std = Path::new(p).parent().map(|q| q.to_str().unwrap().to_string());
        assert_eq!(ours, std, "parent of {p:?}");
    }
}

#[test]
fn all_normal_agrees_with_std_components() {
    for p in SAMPLES {
        let std = Path::new(p).components().all(|c| matches!(c, Component::Normal(_)));
        assert_eq!(is_all_normal(p), std, "components of {p:?}");
    }
}

#[test]
fn auto_compresses_directory_keeping_dots_in_name() {
    match easy_archive::auto::auto("/tmp/x/R7.4", PathKind::Directory).unwrap() {
        AutoPlan::Compress { source, output } => {
            assert_eq!(source, "/tmp/x/R7.4");
            assert_eq!(output, "/tmp/x/R7.4.zip");
        }
        other => panic!("unexpected plan {other:?}"),
    }
}

#[test]
fn auto_compresses_file_without_its_extension() {
    assert_eq!(
        easy_archive::auto::auto("/tmp/x/hello.txt", PathKind::File).unwrap(),
        AutoPlan::Compress { source: "/tmp/x/hello.txt".to_string(), output: "/tmp/x/hello.zip".to_string() }
    );
    assert_eq!(
        easy_archive::auto::auto("notes", PathKind::File).unwrap(),
        AutoPlan::Compress { source: "notes".to_string(), output: "notes.zip".to_string() }
    );
    assert_eq!(
        easy_archive::auto::auto("/.bashrc", PathKind::File).unwrap(),
        AutoPlan::Compress { source: "/.bashrc".to_string(), output: "/.bashrc.zip".to_string() }
    );
}

#[test]
fn auto_extracts_zip_files_in_any_case() {
    assert_eq!(
        easy_archive::auto::auto("/tmp/x/src_dir.zip", PathKind::File).unwrap(),
        AutoPlan::Extract { archive: "/tmp/x/src_dir.zip".to_string(), dest_dir: "/tmp/x/src_dir".to_string() }
    );
    assert_eq!(
        easy_archive::auto::auto("a/B.ZiP", PathKind::File).unwrap(),
        AutoPlan::Extract { archive: "a/B.ZiP".to_string(), dest_dir: "a/B".to_string() }
    );
    // A directory named like an archive is compressed, not extracted.
    assert_eq!(
        easy_archive::auto::auto("a/b.zip", PathKind::Directory).unwrap(),
        AutoPlan::Compress { source: "a/b.zip".to_string(), output: "a/b.zip.zip".to_string() }
    );
}

#[test]
fn auto_reports_missing_and_unparsable_paths() {
    assert_eq!(easy_archive::auto::auto("/tmp/does_not_exist", PathKind::Missing).unwrap_err(), "入力パスが見つかりません: /tmp/does_not_exist");
    assert_eq!(easy_archive::auto::auto("/", PathKind::Directory).unwrap_err(), "パスを解析できませんでした: /");
    assert_eq!(easy_archive::auto::auto("a/..", PathKind::Directory).unwrap_err(), "パスを解析できませんでした: a/..");
}

#[test]
fn auto_messages() {
    assert_eq!(extracted("/t/d", 12), "/t/d に展開しました(エントリ数: 12)");
    assert_eq!(compressed("/t/d.zip", 0), "/t/d.zip を作成しました(エントリ数: 0)");
    assert_eq!(compressed("o.zip", 1), "o.zip を作成しました(エントリ数: 1)");
    assert_eq!(check_output_free("/t/d.zip", true), Err("既に存在します: /t/d.zip".to_string()));
    assert_eq!(check_output_free("/t/d.zip", false), Ok(()));
    assert_eq!(check_dest_free("/t/d", true), Err("展開先が既に存在します: /t/d".to_string()));
    assert_eq!(check_dest_free("/t/d", false), Ok(()));
}

#[test]
fn plan_entry_rejects_names_that_leave_the_destination() {
    for name in ["../escaped.txt", "/tmp/easy-archive-zipslip-abs-escape.txt", "a/../../b", "./a", "."] {
        assert_eq!(plan_entry("/d", name, false).unwrap_err(), format!("安全でないエントリ名です: {name}"));
    }
}

#[test]
fn plan_entry_places_files_and_directories_under_destination() {
    assert_eq!(
        plan_entry("/d", "reports/sub/b.txt", false).unwrap(),
        EntryPlan::File { path: "/d/reports/sub/b.txt".to_string(), parent: Some("/d/reports/sub".to_string()) }
    );
    assert_eq!(
        plan_entry("/d/", "日本語.txt", false).unwrap(),
        EntryPlan::File { path: "/d/日本語.txt".to_string(), parent: Some("/d".to_string()) }
    );
    assert_eq!(
        plan_entry("/d", "reports/", true).unwrap(),
        EntryPlan::Directory { path: "/d/reports/".to_string() }
    );
    assert_eq!(
        plan_entry("/d", "a/./b", false).unwrap(),
        EntryPlan::File { path: "/d/a/./b".to_string(), parent: Some("/d/a".to_string()) }
    );
}

#[test]
fn compress_entry_names() {
    assert_eq!(input_entry_name("/tmp/reports", PathKind::Directory).unwrap(), "reports");
    assert_eq!(input_entry_name("/tmp/hello.txt", PathKind::File).unwrap(), "hello.txt");
    assert_eq!(input_entry_name("/", PathKind::Directory).unwrap_err(), "ディレクトリ名を取得できません: /");
    assert_eq!(input_entry_name("a/..", PathKind::File).unwrap_err(), "ファイル名を取得できません: a/..");
    assert_eq!(input_entry_name("nope", PathKind::Missing).unwrap_err(), "入力パスが見つかりません: nope");
    assert_eq!(entry_name_in("reports", "a.txt"), "reports/a.txt");
    assert_eq!(entry_name_in("reports/sub", "b.txt"), "reports/sub/b.txt");
}

#[test]
fn handle_drop_rejects_multiple_paths() {
    let msg = match handle_drop(&vec!["/t/a.txt".to_string(), "/t/b.txt".to_string()]) {
        DropAction::Refuse(m) => m,
        other => panic!("unexpected {other:?}"),
    };
    assert_eq!(msg, "一度に1つだけドロップしてください");
}

#[test]
fn handle_drop_runs_a_single_path_and_reports_errors() {
    assert_eq!(handle_drop(&vec!["/t/a.txt".to_string()]), DropAction::Run("/t/a.txt".to_string()));
    assert!(matches!(handle_drop(&vec![]), DropAction::Refuse(_)));
    assert_eq!(drop_status(Ok("done".to_string())), "done");
    assert_eq!(drop_status(Err("bad".to_string())), "エラー: bad");
}

#[test]
fn compressing_then_extracting_keeps_the_directory_name() {
    let output = match easy_archive::auto::auto("/srv/share/R7.4 名簿", PathKind::Directory).unwrap() {
        AutoPlan::Compress { output, .. } => output,
        other => panic!("unexpected {other:?}"),
    };
    assert_eq!(output, "/srv/share/R7.4 名簿.zip");
    match easy_archive::auto::auto(&output, PathKind::File).unwrap() {
        AutoPlan::Extract { dest_dir, .. } => assert_eq!(dest_dir, "/srv/share/R7.4 名簿"),
        other => panic!("unexpected {other:?}"),
    }
}

#[test]
fn auto_keeps_the_parent_text_as_written() {
    assert_eq!(
        easy_archive::auto::auto("a//c/b", PathKind::Directory).unwrap(),
        AutoPlan::Compress { source: "a//c/b".to_string(), output: "a//c/b.zip".to_string() }
    );
    assert_eq!(
        easy_archive::auto::auto("./x/./a.ZIP/", PathKind::File).unwrap(),
        AutoPlan::Extract { archive: "./x/./a.ZIP/".to_string(), dest_dir: "./x/a".to_string() }
    );
}
