//! Installation layout on Windows: the folder, the shortcuts, the
//! registration under the uninstall key and the deferred removal.

use vstd::prelude::*;
use super::{InstallerMode, PRODUCT_NAME};
use crate::numbers::{decimal_chars, decimal_text};
use crate::paths::opt_view;
use crate::windows_paths::{windows_join, windows_join_path};
use crate::path_components::{parent_in, parent_of};
use crate::paths::TargetFamily;
use crate::text::{push_char, split_once, split_text_once, to_owned_text, trim, trimmed};

verus! {

/// The installation folder's name.
pub const INSTALL_DIRECTORY_NAME: &'static str = "CursorOptimizer";
/// The publisher recorded in the registration.
pub const PUBLISHER: &'static str = "Jay Lee";
/// Where the installation folder goes when `ProgramFiles` is not set.
pub const FALLBACK_PROGRAM_FILES: &'static str = "C:\\Program Files";
/// The registry key of the registration.
pub const REGISTRY_KEY: &'static str = "HKLM\\Software\\Microsoft\\Windows\\CurrentVersion\\Uninstall\\CursorOptimizer";
/// The tag of a text value in the registry tool's output.
pub const TEXT_VALUE_TAG: &'static str = "REG_SZ";

/// The installation folder proposed by default: under `ProgramFiles`.
pub fn default_install_directory(program_files: Option<String>) -> (directory: String)
    ensures
        directory@ == windows_join_path(
            match opt_view(program_files) {
                Some(p) => p,
                None => FALLBACK_PROGRAM_FILES@,
            },
            INSTALL_DIRECTORY_NAME@,
        ),
{
    match program_files {
        Some(p) => windows_join(p.as_str(), INSTALL_DIRECTORY_NAME),
        None => windows_join(FALLBACK_PROGRAM_FILES, INSTALL_DIRECTORY_NAME),
    }
}

/// The installation in question: when removing, the folder of the running
/// uninstaller; when installing, the location that the registration names.
pub fn installed_directory(
    mode: InstallerMode,
    current_executable: Option<String>,
    registered_location: Option<String>,
) -> (directory: Option<String>)
    ensures
        opt_view(directory) == match mode {
            InstallerMode::Uninstall => match opt_view(current_executable) {
                Some(path) => parent_in(TargetFamily::Windows, path),
                None => None,
            },
            InstallerMode::Install => opt_view(registered_location),
        },
{
    match mode {
        InstallerMode::Uninstall => match current_executable {
            Some(path) => parent_of(TargetFamily::Windows, path.as_str()),
            None => None,
        },
        InstallerMode::Install => registered_location,
    }
}

/// The installed version is the one the registration names.
pub fn installed_version(registered_version: Option<String>) -> (version: Option<String>)
    ensures
        opt_view(version) == opt_view(registered_version),
{
    registered_version
}

/// The text value on one line of the registry tool's output: what stands
/// between the first `REG_SZ` and the next (or the end), trimmed, when not
/// blank.
pub open spec fn line_value(line: Seq<char>) -> Option<Seq<char>> {
    match split_once(line, TEXT_VALUE_TAG@) {
        Some((_, after)) => {
            let field = match split_once(after, TEXT_VALUE_TAG@) {
                Some((field, _)) => field,
                None => after,
            };
            if trim(field).len() == 0 {
                None
            } else {
                Some(trim(field))
            }
        },
        None => None,
    }
}

/// The first text value on any line of `text` (lines end at `\n`).
pub open spec fn first_line_value(text: Seq<char>) -> Option<Seq<char>>
    decreases text.len(),
{
    if text.len() == 0 {
        None
    } else {
        match split_once(text, seq!['\n']) {
            Some((line, rest)) => match line_value(line) {
                Some(value) => Some(value),
                None => first_line_value(rest),
            },
            None => line_value(text),
        }
    }
}

fn value_on_line(line: &str) -> (value: Option<String>)
    ensures
        opt_view(value) == line_value(line@),
{
    match split_text_once(line, TEXT_VALUE_TAG) {
        Some((_, after)) => {
            let field = match split_text_once(after.as_str(), TEXT_VALUE_TAG) {
                Some((field, _)) => field,
                None => after,
            };
            let value = trimmed(field.as_str());
            if value.unicode_len() == 0 {
                None
            } else {
                Some(value)
            }
        },
        None => None,
    }
}

/// A registry value from the output of `reg query`: nothing when the query
/// failed, else the first text value in its output.
pub fn registry_value_from_output(succeeded: bool, output: &str) -> (value: Option<String>)
    ensures
        opt_view(value) == if succeeded {
            first_line_value(output@)
        } else {
            None
        },
{
    if !succeeded {
        return None;
    }
    let mut rest = to_owned_text(output);
    while rest.unicode_len() > 0
        invariant
            succeeded,
            first_line_value(output@) == first_line_value(rest@),
        decreases rest@.len(),
    {
        proof {
            reveal_strlit("\n");
            assert("\n"@ =~= seq!['\n']);
            assert(first_line_value(rest@) == match split_once(rest@, seq!['\n']) {
                Some((line, after)) => match line_value(line) {
                    Some(value) => Some(value),
                    None => first_line_value(after),
                },
                None => line_value(rest@),
            });
        }
        match split_text_once(rest.as_str(), "\n") {
            Some((line, after)) => {
                let found = value_on_line(line.as_str());
                if found.is_some() {
                    return found;
                }
                rest = after;
            },
            None => {
                return value_on_line(rest.as_str());
            },
        }
    }
    None
}

/// The Start menu's programs folder, under `ProgramData`.
pub fn start_menu_directory(program_data: Option<String>) -> (directory: Option<String>)
    ensures
        opt_view(directory) == match opt_view(program_data) {
            Some(d) => Some(
                windows_join_path(
                    windows_join_path(windows_join_path(windows_join_path(d, "Microsoft"@), "Windows"@), "Start Menu"@),
                    "Programs"@,
                ),
            ),
            None => None,
        },
{
    match program_data {
        Some(d) => {
            let microsoft = windows_join(d.as_str(), "Microsoft");
            let windows = windows_join(microsoft.as_str(), "Windows");
            let start_menu = windows_join(windows.as_str(), "Start Menu");
            Some(windows_join(start_menu.as_str(), "Programs"))
        },
        None => None,
    }
}

/// The shared desktop folder, under `PUBLIC`.
pub fn desktop_directory(public: Option<String>) -> (directory: Option<String>)
    ensures
        opt_view(directory) == match opt_view(public) {
            Some(p) => Some(windows_join_path(p, "Desktop"@)),
            None => None,
        },
{
    match public {
        Some(p) => Some(windows_join(p.as_str(), "Desktop")),
        None => None,
    }
}

/// A path inside a single-quoted PowerShell string: each `'` doubled.
pub open spec fn powershell_quoted(text: Seq<char>) -> Seq<char>
    decreases text.len(),
{
    if text.len() == 0 {
        Seq::empty()
    } else {
        let last = text.last();
        powershell_quoted(text.drop_last()) + if last == '\'' {
            seq!['\'', '\'']
        } else {
            seq![last]
        }
    }
}

/// Quotes a path for a single-quoted PowerShell string.
pub fn powershell_quote(path: &str) -> (quoted: String)
    ensures
        quoted@ == powershell_quoted(path@),
{
    let mut quoted = String::new();
    let length = path.unicode_len();
    let mut i: usize = 0;
    while i < length
        invariant
            length == path@.len(),
            i <= length,
            quoted@ == powershell_quoted(path@.subrange(0, i as int)),
        decreases length - i,
    {
        let c = path.get_char(i);
        assert(path@.subrange(0, i + 1).drop_last() =~= path@.subrange(0, i as int));
        if c == '\'' {
            push_char(&mut quoted, '\'');
            push_char(&mut quoted, '\'');
        } else {
            push_char(&mut quoted, c);
        }
        i += 1;
    }
    assert(path@.subrange(0, length as int) =~= path@);
    quoted
}

pub open spec fn spec_shortcut_script(shortcut: Seq<char>, target: Seq<char>, working_directory: Seq<char>) -> Seq<char> {
    "$shell = New-Object -ComObject WScript.Shell; $link = $shell.CreateShortcut('"@
        + powershell_quoted(shortcut) + "'); $link.TargetPath = '"@
        + powershell_quoted(target) + "'; $link.WorkingDirectory = '"@
        + powershell_quoted(working_directory) + "'; $link.IconLocation = '"@
        + powershell_quoted(target) + ",0'; $link.Save()"@
}

/// The PowerShell script that creates a shortcut to `target`.
pub fn shortcut_script(shortcut: &str, target: &str, working_directory: &str) -> (script: String)
    ensures
        script@ == spec_shortcut_script(shortcut@, target@, working_directory@),
{
    let mut script = to_owned_text("$shell = New-Object -ComObject WScript.Shell; $link = $shell.CreateShortcut('");
    script.append(powershell_quote(shortcut).as_str());
    script.append("'); $link.TargetPath = '");
    script.append(powershell_quote(target).as_str());
    script.append("'; $link.WorkingDirectory = '");
    script.append(powershell_quote(working_directory).as_str());
    script.append("'; $link.IconLocation = '");
    script.append(powershell_quote(target).as_str());
    script.append(",0'; $link.Save()");
    script
}

/// One value of the registration: its name, its registry type and its data.
pub struct RegistryEntry {
    pub name: String,
    pub kind: String,
    pub data: String,
}

pub open spec fn entry_view(entry: RegistryEntry) -> (Seq<char>, Seq<char>, Seq<char>) {
    (entry.name@, entry.kind@, entry.data@)
}

pub open spec fn spec_registration_entries(
    version: Seq<char>,
    install_directory: Seq<char>,
    executable: Seq<char>,
    uninstaller: Seq<char>,
) -> Seq<(Seq<char>, Seq<char>, Seq<char>)> {
    seq![
        ("DisplayName"@, "REG_SZ"@, PRODUCT_NAME@),
        ("DisplayVersion"@, "REG_SZ"@, version),
        ("Publisher"@, "REG_SZ"@, PUBLISHER@),
        ("DisplayIcon"@, "REG_SZ"@, executable),
        ("InstallLocation"@, "REG_SZ"@, install_directory),
        ("UninstallString"@, "REG_SZ"@, seq!['"'] + uninstaller + "\" --uninstall"@),
        ("NoModify"@, "REG_DWORD"@, "1"@),
        ("NoRepair"@, "REG_DWORD"@, "1"@),
    ]
}

fn entry(name: &str, kind: &str, data: String) -> (e: RegistryEntry)
    ensures
        entry_view(e) == (name@, kind@, data@),
{
    RegistryEntry { name: to_owned_text(name), kind: to_owned_text(kind), data }
}

/// The values written under the uninstall key, in order.
pub fn registration_entries(
    version: &str,
    install_directory: &str,
    executable: &str,
    uninstaller: &str,
) -> (entries: Vec<RegistryEntry>)
    ensures
        entries@.map_values(|e: RegistryEntry| entry_view(e)) == spec_registration_entries(
            version@,
            install_directory@,
            executable@,
            uninstaller@,
        ),
{
    let entries = vec![
        entry("DisplayName", "REG_SZ", to_owned_text(PRODUCT_NAME)),
        entry("DisplayVersion", "REG_SZ", to_owned_text(version)),
        entry("Publisher", "REG_SZ", to_owned_text(PUBLISHER)),
        entry("DisplayIcon", "REG_SZ", to_owned_text(executable)),
        entry("InstallLocation", "REG_SZ", to_owned_text(install_directory)),
        entry("UninstallString", "REG_SZ", super::uninstall_command(uninstaller)),
        entry("NoModify", "REG_DWORD", to_owned_text("1")),
        entry("NoRepair", "REG_DWORD", to_owned_text("1")),
    ];
    assert(entries@.map_values(|e: RegistryEntry| entry_view(e)) =~= spec_registration_entries(
        version@,
        install_directory@,
        executable@,
        uninstaller@,
    ));
    entries
}

/// The size recorded in the registration, in KiB, where it fits in 32 bits.
pub fn estimated_size_kibibytes(binary_length: usize) -> (size: Option<u32>)
    ensures
        match size {
            Some(s) => s == binary_length / 1024,
            None => binary_length / 1024 > u32::MAX,
        },
{
    let kibibytes = binary_length / 1024;
    if kibibytes <= 0xffff_ffffusize {
        Some(kibibytes as u32)
    } else {
        None
    }
}

/// The file name of the script that removes the installation folder.
pub fn cleanup_script_name(process_id: u32) -> (name: String)
    ensures
        name@ == "cursor-optimizer-cleanup-"@ + decimal_chars(process_id as nat) + ".cmd"@,
{
    let mut name = to_owned_text("cursor-optimizer-cleanup-");
    name.append(decimal_text(process_id as u128).as_str());
    name.append(".cmd");
    name
}

pub open spec fn spec_cleanup_script(target: Seq<char>) -> Seq<char> {
    "@echo off\r\ncd /d \"%~dp0\"\r\nset /a tries=0\r\n:repeat\r\nrmdir /s /q \""@ + target
        + "\" 2>nul\r\nif not exist \""@ + target
        + "\" goto done\r\nset /a tries+=1\r\nif %tries% geq 120 goto done\r\nping -n 2 127.0.0.1 >nul\r\ngoto repeat\r\n:done\r\ndel /f /q \"%~f0\"\r\n"@
}

/// The batch script that removes the installation folder once the
/// uninstaller has exited, retrying for about two minutes.
pub fn cleanup_script(target: &str) -> (script: String)
    ensures
        script@ == spec_cleanup_script(target@),
{
    let mut script = to_owned_text("@echo off\r\ncd /d \"%~dp0\"\r\nset /a tries=0\r\n:repeat\r\nrmdir /s /q \"");
    script.append(target);
    script.append("\" 2>nul\r\nif not exist \"");
    script.append(target);
    script.append(
        "\" goto done\r\nset /a tries+=1\r\nif %tries% geq 120 goto done\r\nping -n 2 127.0.0.1 >nul\r\ngoto repeat\r\n:done\r\ndel /f /q \"%~f0\"\r\n",
    );
    script
}

} // verus!
