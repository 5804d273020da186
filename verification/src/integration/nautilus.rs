//! Nautilus (GNOME Files) script under `~/.local/share/nautilus/scripts/`:
//! a shell wrapper that runs `auto` on the first selected path and reports
//! the outcome with `notify-send` when that command exists.

use vstd::prelude::*;

use super::GeneratedFile;

verus! {

/// Where the script goes, relative to the home directory: the file
/// "ここに解凍・圧縮" in the "Easy Archive" submenu directory.
pub const SCRIPT_PATH: &'static str = ".local/share/nautilus/scripts/Easy Archive/ここに解凍・圧縮";

/// Script text up to the binary path.
pub const HEAD: &'static str = "#!/bin/sh\nset -u\npath=$(printf '%s\\n' \"$NAUTILUS_SCRIPT_SELECTED_FILE_PATHS\" | head -n1)\nmessage=$(\"";

/// Script text after the binary path.
pub const TAIL: &'static str = "\" auto \"$path\" 2>&1)\nstatus=$?\nif command -v notify-send >/dev/null 2>&1; then\n    if [ \"$status\" -eq 0 ]; then\n        notify-send \"Easy Archive\" \"$message\"\n    else\n        notify-send -u critical \"Easy Archive\" \"$message\"\n    fi\nfi\n";

/// The wrapper script for a binary.
pub open spec fn script(binary_path: Seq<char>) -> Seq<char> {
    HEAD@ + binary_path + TAIL@
}

/// Generates the Nautilus script (executable).
pub fn generate(binary_path: &str) -> (file: GeneratedFile)
    ensures
        file.relative_path@ == SCRIPT_PATH@,
        file.content@ == script(binary_path@),
        file.executable,
{
    let mut content = String::from_str(HEAD);
    content.append(binary_path);
    content.append(TAIL);
    GeneratedFile { relative_path: String::from_str(SCRIPT_PATH), content, executable: true }
}

} // verus!
