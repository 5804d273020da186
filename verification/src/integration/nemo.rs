//! Nemo (Cinnamon) actions under `~/.local/share/nemo/actions/`: one to
//! extract (shown for `.zip` files) and one to compress (shown for anything);
//! both run `auto`, so the display conditions do not decide the outcome.

use vstd::prelude::*;

use super::GeneratedFile;

verus! {

/// Where the extract action goes, relative to the home directory.
pub const EXTRACT_PATH: &'static str = ".local/share/nemo/actions/easy-archive-extract.nemo_action";

/// Where the compress action goes, relative to the home directory.
pub const COMPRESS_PATH: &'static str = ".local/share/nemo/actions/easy-archive-compress.nemo_action";

/// Extract action text up to the binary path.
pub const EXTRACT_HEAD: &'static str = "[Nemo Action]\nName=ここに解凍\nComment=ZIPファイルをこの場所に解凍します\nExec=";

/// Extract action text after the binary path.
pub const EXTRACT_TAIL: &'static str = " auto %f\nIcon-Name=archive-extract\nSelection=s\nExtensions=zip;\n";

/// Compress action text up to the binary path.
pub const COMPRESS_HEAD: &'static str = "[Nemo Action]\nName=ここを圧縮\nComment=選択したファイル/フォルダをZIPに圧縮します\nExec=";

/// Compress action text after the binary path.
pub const COMPRESS_TAIL: &'static str = " auto %f\nIcon-Name=archive-insert\nSelection=s\nExtensions=any;\n";

/// The extract action for a binary.
pub open spec fn extract_action(binary_path: Seq<char>) -> Seq<char> {
    EXTRACT_HEAD@ + binary_path + EXTRACT_TAIL@
}

/// The compress action for a binary.
pub open spec fn compress_action(binary_path: Seq<char>) -> Seq<char> {
    COMPRESS_HEAD@ + binary_path + COMPRESS_TAIL@
}

/// Generates the two Nemo action files (extract first, then compress),
/// neither executable.
pub fn generate(binary_path: &str) -> (files: Vec<GeneratedFile>)
    ensures
        files.len() == 2,
        files[0].relative_path@ == EXTRACT_PATH@,
        files[0].content@ == extract_action(binary_path@),
        !files[0].executable,
        files[1].relative_path@ == COMPRESS_PATH@,
        files[1].content@ == compress_action(binary_path@),
        !files[1].executable,
{
    let mut extract = String::from_str(EXTRACT_HEAD);
    extract.append(binary_path);
    extract.append(EXTRACT_TAIL);
    let mut compress = String::from_str(COMPRESS_HEAD);
    compress.append(binary_path);
    compress.append(COMPRESS_TAIL);
    let mut files: Vec<GeneratedFile> = Vec::new();
    files.push(GeneratedFile { relative_path: String::from_str(EXTRACT_PATH), content: extract, executable: false });
    files.push(GeneratedFile { relative_path: String::from_str(COMPRESS_PATH), content: compress, executable: false });
    files
}

} // verus!
