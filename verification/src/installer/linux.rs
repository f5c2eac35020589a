//! Installation layout on Linux.

use vstd::prelude::*;
use super::{InstallerMode, PRODUCT_NAME};
use crate::paths::{join, join_path, opt_view, parent, parent_path};
use crate::text::{blank, is_blank, to_owned_text, trim, trimmed};

verus! {

/// Where the application is installed.
pub const INSTALL_ROOT: &'static str = "/opt/CursorOptimizer";
/// The command-line launcher.
pub const BINARY_SYMLINK: &'static str = "/usr/local/bin/cursor-optimizer";
/// Where menu entries live.
pub const APPLICATIONS_DIRECTORY: &'static str = "/usr/share/applications";
/// The name of the menu and desktop entries.
pub const DESKTOP_IDENTIFIER: &'static str = "cursor-optimizer";
/// The icon's file name in the installation folder.
pub const ICON_FILE_NAME: &'static str = "icon.png";
/// The file that records the installed version.
pub const VERSION_FILE_NAME: &'static str = "version";

/// The installation folder proposed by default.
pub fn default_install_directory() -> (directory: String)
    ensures
        directory@ == INSTALL_ROOT@,
{
    to_owned_text(INSTALL_ROOT)
}

/// The installation in question: when removing, the folder of the running
/// uninstaller; when installing, the default folder if it exists.
pub fn installed_directory(
    mode: InstallerMode,
    current_executable: Option<String>,
    install_root_is_directory: bool,
) -> (directory: Option<String>)
    ensures
        opt_view(directory) == match mode {
            InstallerMode::Uninstall => match opt_view(current_executable) {
                Some(path) => parent_path(path),
                None => None,
            },
            InstallerMode::Install => if install_root_is_directory {
                Some(INSTALL_ROOT@)
            } else {
                None
            },
        },
{
    match mode {
        InstallerMode::Uninstall => match current_executable {
            Some(path) => parent(path.as_str()),
            None => None,
        },
        InstallerMode::Install => if install_root_is_directory {
            Some(to_owned_text(INSTALL_ROOT))
        } else {
            None
        },
    }
}

/// The installed version from the version file's text: trimmed, and only
/// when not blank.
pub fn installed_version(version_file: Option<String>) -> (version: Option<String>)
    ensures
        opt_view(version) == match opt_view(version_file) {
            Some(t) => if trim(t).len() == 0 {
                None
            } else {
                Some(trim(t))
            },
            None => None,
        },
{
    match version_file {
        Some(t) => {
            let version = trimmed(t.as_str());
            if version.unicode_len() == 0 {
                None
            } else {
                Some(version)
            }
        },
        None => None,
    }
}

/// The desktop entry that starts the installed application.
pub fn desktop_entry_contents(executable: &str, icon: &str) -> (contents: String)
    ensures
        contents@ == "[Desktop Entry]\nType=Application\nName="@ + PRODUCT_NAME@
            + "\nComment=Inspect and optimize the Cursor editor database\nExec=\""@ + executable@
            + "\"\nIcon="@ + icon@ + "\nTerminal=false\nCategories=Utility;\n"@,
{
    let mut contents = to_owned_text("[Desktop Entry]\nType=Application\nName=");
    contents.append(PRODUCT_NAME);
    contents.append("\nComment=Inspect and optimize the Cursor editor database\nExec=\"");
    contents.append(executable);
    contents.append("\"\nIcon=");
    contents.append(icon);
    contents.append("\nTerminal=false\nCategories=Utility;\n");
    contents
}

} // verus!
