//! Dolphin (KDE) service menu, under `~/.local/share/kio/servicemenus/`.
//! The file must be executable; both actions run `auto`.

use vstd::prelude::*;

use super::GeneratedFile;

verus! {

/// Where the service menu goes, relative to the home directory.
pub const SERVICE_MENU_PATH: &'static str = ".local/share/kio/servicemenus/easy-archive.desktop";

/// Service menu text up to the first command's binary path.
pub const HEAD: &'static str = "[Desktop Entry]\nType=Service\nMimeType=application/zip;inode/directory;application/octet-stream;\nActions=extractHere;compressHere;\n\n[Desktop Action extractHere]\nName=ここに解凍\nIcon=archive-extract\nExec=";

/// Service menu text between the two binary paths.
pub const MIDDLE: &'static str = " auto %f\n\n[Desktop Action compressHere]\nName=ここを圧縮\nIcon=archive-insert\nExec=";

/// Service menu text after the second binary path.
pub const TAIL: &'static str = " auto %f\n";

/// The service menu for a binary: two actions, each `Exec=<binary> auto %f`.
pub open spec fn service_menu(binary_path: Seq<char>) -> Seq<char> {
    HEAD@ + binary_path + MIDDLE@ + binary_path + TAIL@
}

/// Generates the Dolphin service menu file.
pub fn generate(binary_path: &str) -> (file: GeneratedFile)
    ensures
        file.relative_path@ == SERVICE_MENU_PATH@,
        file.content@ == service_menu(binary_path@),
        file.executable,
{
    let mut content = String::from_str(HEAD);
    content.append(binary_path);
    content.append(MIDDLE);
    content.append(binary_path);
    content.append(TAIL);
    GeneratedFile { relative_path: String::from_str(SERVICE_MENU_PATH), content, executable: true }
}

} // verus!
