//! PCManFM-Qt (LXQt) action in DES-EMA form under
//! `~/.local/share/file-manager/actions/`: a single entry, for a single
//! selected item, that runs `auto`.

use vstd::prelude::*;

use super::GeneratedFile;

verus! {

/// Where the action goes, relative to the home directory.
pub const ACTION_PATH: &'static str = ".local/share/file-manager/actions/easy-archive.desktop";

/// Action text up to the binary path.
pub const HEAD: &'static str = "[Desktop Entry]\nType=Action\nName=Easy Archiveで処理\nIcon=archive-extract\nProfiles=auto;\n\n[X-Action-Profile auto]\nExec=";

/// Action text after the binary path.
pub const TAIL: &'static str = " auto %f\nMimeTypes=application/zip;inode/directory;all/allfiles;\nSelectionCount=1\n";

/// The action file for a binary.
pub open spec fn action(binary_path: Seq<char>) -> Seq<char> {
    HEAD@ + binary_path + TAIL@
}

/// Generates the PCManFM-Qt action file (not executable).
pub fn generate(binary_path: &str) -> (file: GeneratedFile)
    ensures
        file.relative_path@ == ACTION_PATH@,
        file.content@ == action(binary_path@),
        !file.executable,
{
    let mut content = String::from_str(HEAD);
    content.append(binary_path);
    content.append(TAIL);
    GeneratedFile { relative_path: String::from_str(ACTION_PATH), content, executable: false }
}

} // verus!
