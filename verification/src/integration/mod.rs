//! Right-click menu integration files for the supported file managers.
//! Every generated command runs `<binary> auto <path>`, so whichever menu
//! entry is chosen, the `auto` decision picks extraction or compression.

pub mod dolphin;
pub mod nautilus;
pub mod nemo;
pub mod pcmanfm_qt;
pub mod thunar;
pub mod xml;

use vstd::prelude::*;

use crate::text::{chars_of, contains, contains_chars, occurs_at, str_eq};
use thunar::{merge_outcome, merge_result, parse_failure_prefix, no_actions_message, uca_base, EXTRACT_UNIQUE_ID, THUNAR_UCA_RELATIVE_PATH};

verus! {

/// One file to write for a file-manager integration: its path relative to
/// the home directory, its content, and whether it must be executable.
#[derive(Debug, Clone, PartialEq, Eq)]
pub struct GeneratedFile {
    pub relative_path: String,
    pub content: String,
    pub executable: bool,
}

/// What `all_generated_files` gives for a binary when it succeeds: the two
/// Nemo actions, the Dolphin service menu, the Nautilus script, the
/// PCManFM-Qt action, and the Thunar `uca.xml` merged from `existing`.
pub open spec fn generated_files(binary_path: Seq<char>, existing: Option<&str>, files: Seq<GeneratedFile>) -> bool {
    &&& files.len() == 6
    &&& files[0].relative_path@ == nemo::EXTRACT_PATH@
    &&& files[0].content@ == nemo::extract_action(binary_path) && !files[0].executable
    &&& files[1].relative_path@ == nemo::COMPRESS_PATH@
    &&& files[1].content@ == nemo::compress_action(binary_path) && !files[1].executable
    &&& files[2].relative_path@ == dolphin::SERVICE_MENU_PATH@
    &&& files[2].content@ == dolphin::service_menu(binary_path) && files[2].executable
    &&& files[3].relative_path@ == nautilus::SCRIPT_PATH@
    &&& files[3].content@ == nautilus::script(binary_path) && files[3].executable
    &&& files[4].relative_path@ == pcmanfm_qt::ACTION_PATH@
    &&& files[4].content@ == pcmanfm_qt::action(binary_path) && !files[4].executable
    &&& files[5].relative_path@ == THUNAR_UCA_RELATIVE_PATH@ && !files[5].executable
    &&& merge_result(existing, binary_path) == Ok::<Seq<char>, Seq<char>>(files[5].content@)
    &&& merge_outcome(uca_base(existing), binary_path, files[5].content@)
}

/// Whether the integration counts as installed, given the Thunar `uca.xml`
/// (if any), the generated files and which of them are present: our
/// extract id is in `uca.xml` and every other file is present.
pub open spec fn installed(thunar_uca_xml: Option<Seq<char>>, files: Seq<GeneratedFile>, present: Seq<bool>) -> bool {
    &&& match thunar_uca_xml {
        Some(x) => contains(x, EXTRACT_UNIQUE_ID@),
        None => false,
    }
    &&& forall|i: int| 0 <= i < files.len() && files[i].relative_path@ != THUNAR_UCA_RELATIVE_PATH@
        ==> #[trigger] present[i]
}

/// Generates the integration files of every supported file manager: the
/// two Nemo actions, then Dolphin, Nautilus and PCManFM-Qt, and last the
/// Thunar `uca.xml`, merged into the existing one when there is one.
pub fn all_generated_files(binary_path: &str, existing_thunar_uca_xml: Option<&str>) -> (r: Result<Vec<GeneratedFile>, String>)
    ensures
        r matches Ok(files) ==> generated_files(binary_path@, existing_thunar_uca_xml, files@),
        r matches Err(e) ==> merge_result(existing_thunar_uca_xml, binary_path@) == Err::<Seq<char>, Seq<char>>(e@),
        contains(uca_base(existing_thunar_uca_xml), EXTRACT_UNIQUE_ID@)
            && contains(uca_base(existing_thunar_uca_xml), thunar::COMPRESS_UNIQUE_ID@) ==> r is Ok,
        r matches Err(e) ==> e@ == no_actions_message() || crate::text::starts_with(e@, parse_failure_prefix()),
{
    let mut files = nemo::generate(binary_path);
    files.push(dolphin::generate(binary_path));
    files.push(nautilus::generate(binary_path));
    files.push(pcmanfm_qt::generate(binary_path));
    let thunar_file = match thunar::merge(existing_thunar_uca_xml, binary_path) {
        Ok(f) => f,
        Err(e) => {
            return Err(e);
        },
    };
    files.push(thunar_file);
    Ok(files)
}

/// Whether the integration is fully installed, given the existing Thunar
/// `uca.xml` (if any), the generated files, and for each of them whether
/// it is present under the home directory. Thunar's file is shared with the
/// user's own actions, so it counts by our extract id in its content rather
/// than by being present; every other file must be present.
pub fn installation_complete(existing_thunar_uca_xml: Option<&str>, files: &Vec<GeneratedFile>, present: &Vec<bool>) -> (r: bool)
    requires
        present.len() == files.len(),
    ensures
        r == installed(
            match existing_thunar_uca_xml {
                Some(x) => Some(x@),
                None => None,
            },
            files@,
            present@,
        ),
{
    let thunar_installed = match existing_thunar_uca_xml {
        Some(x) => {
            let text = chars_of(x);
            let id = chars_of(EXTRACT_UNIQUE_ID);
            contains_chars(text.as_slice(), id.as_slice())
        },
        None => false,
    };
    let mut i: usize = 0;
    while i < files.len()
        invariant
            present.len() == files.len(),
            i <= files.len(),
            forall|k: int| 0 <= k < i && files@[k].relative_path@ != THUNAR_UCA_RELATIVE_PATH@ ==> #[trigger] present@[k],
        decreases files.len() - i,
    {
        if !str_eq(files[i].relative_path.as_str(), THUNAR_UCA_RELATIVE_PATH) && !present[i] {
            return false;
        }
        i = i + 1;
    }
    thunar_installed
}

/// Every launcher runs `<binary> auto <the selected path>`: each Nemo
/// action runs it on `%f` (the extract action for `.zip` files only, the
/// compress action for anything), both Dolphin actions and the PCManFM-Qt
/// action run it on `%f`, and the Nautilus script runs it on the first
/// selected path.
pub proof fn lemma_launchers_run_binary(b: Seq<char>)
    ensures
        contains(nemo::extract_action(b), "\nExec="@ + b + " auto %f\nIcon-Name=archive-extract\nSelection=s\nExtensions=zip;\n"@),
        contains(nemo::compress_action(b), "\nExec="@ + b + " auto %f\nIcon-Name=archive-insert\nSelection=s\nExtensions=any;\n"@),
        contains(dolphin::service_menu(b), "Icon=archive-extract\nExec="@ + b + " auto %f\n"@),
        contains(dolphin::service_menu(b), "Icon=archive-insert\nExec="@ + b + " auto %f\n"@),
        contains(nautilus::script(b), "message=$(\""@ + b + "\" auto \"$path\""@),
        contains(pcmanfm_qt::action(b), "\nExec="@ + b + " auto %f\n"@),
{
    reveal_strlit(" auto %f\n");
    reveal_strlit(" auto %f\nIcon-Name=archive-extract\nSelection=s\nExtensions=zip;\n");
    reveal_strlit(" auto %f\nIcon-Name=archive-insert\nSelection=s\nExtensions=any;\n");
    reveal_strlit(" auto %f\nMimeTypes=application/zip;inode/directory;all/allfiles;\nSelectionCount=1\n");
    reveal_strlit(" auto %f\n\n[Desktop Action compressHere]\nName=ここを圧縮\nIcon=archive-insert\nExec=");
    reveal_strlit("#!/bin/sh\nset -u\npath=$(printf '%s\\n' \"$NAUTILUS_SCRIPT_SELECTED_FILE_PATHS\" | head -n1)\nmessage=$(\"");
    reveal_strlit("Icon=archive-extract\nExec=");
    reveal_strlit("Icon=archive-insert\nExec=");
    reveal_strlit("[Desktop Entry]\nType=Action\nName=Easy Archiveで処理\nIcon=archive-extract\nProfiles=auto;\n\n[X-Action-Profile auto]\nExec=");
    reveal_strlit("[Desktop Entry]\nType=Service\nMimeType=application/zip;inode/directory;application/octet-stream;\nActions=extractHere;compressHere;\n\n[Desktop Action extractHere]\nName=ここに解凍\nIcon=archive-extract\nExec=");
    reveal_strlit("[Nemo Action]\nName=ここに解凍\nComment=ZIPファイルをこの場所に解凍します\nExec=");
    reveal_strlit("[Nemo Action]\nName=ここを圧縮\nComment=選択したファイル/フォルダをZIPに圧縮します\nExec=");
    reveal_strlit("\" auto \"$path\" 2>&1)\nstatus=$?\nif command -v notify-send >/dev/null 2>&1; then\n    if [ \"$status\" -eq 0 ]; then\n        notify-send \"Easy Archive\" \"$message\"\n    else\n        notify-send -u critical \"Easy Archive\" \"$message\"\n    fi\nfi\n");
    reveal_strlit("\" auto \"$path\"");
    reveal_strlit("\nExec=");
    reveal_strlit("message=$(\"");
    let x = "\nExec="@ + b + " auto %f\nIcon-Name=archive-extract\nSelection=s\nExtensions=zip;\n"@;
    let s = nemo::extract_action(b);
    let k = nemo::EXTRACT_HEAD@.len() - 6;
    assert(s.subrange(k, k + x.len()) =~= x);
    assert(occurs_at(s, x, k));
    let x = "\nExec="@ + b + " auto %f\nIcon-Name=archive-insert\nSelection=s\nExtensions=any;\n"@;
    let s = nemo::compress_action(b);
    let k = nemo::COMPRESS_HEAD@.len() - 6;
    assert(s.subrange(k, k + x.len()) =~= x);
    assert(occurs_at(s, x, k));
    let s = dolphin::service_menu(b);
    let x = "Icon=archive-extract\nExec="@ + b + " auto %f\n"@;
    let k = dolphin::HEAD@.len() - "Icon=archive-extract\nExec="@.len();
    assert(s.subrange(k, k + x.len()) =~= x);
    assert(occurs_at(s, x, k));
    let x = "Icon=archive-insert\nExec="@ + b + " auto %f\n"@;
    let k = dolphin::HEAD@.len() + b.len() + dolphin::MIDDLE@.len() - "Icon=archive-insert\nExec="@.len();
    assert(s.subrange(k, k + x.len()) =~= x);
    assert(occurs_at(s, x, k));
    let s = nautilus::script(b);
    let x = "message=$(\""@ + b + "\" auto \"$path\""@;
    let k = nautilus::HEAD@.len() - "message=$(\""@.len();
    assert(s.subrange(k, k + x.len()) =~= x);
    assert(occurs_at(s, x, k));
    let s = pcmanfm_qt::action(b);
    let x = "\nExec="@ + b + " auto %f\n"@;
    let k = pcmanfm_qt::HEAD@.len() - 6;
    assert(s.subrange(k, k + x.len()) =~= x);
    assert(occurs_at(s, x, k));
}

/// Installing and then checking finds the integration installed: once
/// every generated file has been written, so that each is present and
/// `uca.xml` holds the merged content, the check holds.
pub proof fn lemma_installed_after_install(
    binary_path: Seq<char>,
    existing: Option<&str>,
    files: Seq<GeneratedFile>,
    present: Seq<bool>,
)
    requires
        generated_files(binary_path, existing, files),
        present.len() == files.len(),
        forall|i: int| 0 <= i < present.len() ==> #[trigger] present[i],
    ensures
        installed(Some(files[5].content@), files, present),
{
    thunar::lemma_merge_holds_ids(uca_base(existing), binary_path, files[5].content@);
}

} // verus!
