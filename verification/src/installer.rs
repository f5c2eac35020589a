//! The installer's decisions: what it is asked to do, where files go, and
//! the texts it writes.

pub mod linux;
pub mod macos;
pub mod windows;

use vstd::prelude::*;
use crate::json::{Json, Value, member_flag, member_text, text_member, flag_member, text};
use crate::paths::{TargetFamily, join, join_on, join_path, join_path_on, opt_view};
use crate::text::{blank, is_blank, push_char, text_equals, to_owned_text};

verus! {

/// The name shown for the product.
pub const PRODUCT_NAME: &'static str = "Cursor Optimizer";

/// Whether the installer installs or removes the application.
#[derive(Clone, Copy, PartialEq, Eq, Debug, Structural)]
pub enum InstallerMode {
    Install,
    Uninstall,
}

/// What an installation is asked to do.
#[derive(Debug)]
pub struct InstallRequest {
    pub install_directory: String,
    pub create_start_menu_shortcut: bool,
    pub create_desktop_shortcut: bool,
}

/// What a removal is asked to do.
#[derive(Debug)]
pub struct UninstallRequest {
    pub remove_application_data: bool,
}

/// The installer removes the application when started with `--uninstall`.
pub fn detect_mode(arguments: &Vec<String>) -> (mode: InstallerMode)
    ensures
        mode == (if exists|i: int| 0 <= i < arguments@.len() && arguments@[i]@ == "--uninstall"@ {
            InstallerMode::Uninstall
        } else {
            InstallerMode::Install
        }),
{
    let mut i: usize = 0;
    while i < arguments.len()
        invariant
            i <= arguments@.len(),
            forall|k: int| 0 <= k < i ==> arguments@[k]@ != "--uninstall"@,
        decreases arguments@.len() - i,
    {
        if text_equals(arguments[i].as_str(), "--uninstall") {
            return InstallerMode::Uninstall;
        }
        i += 1;
    }
    InstallerMode::Install
}

pub open spec fn spec_mode_label(mode: InstallerMode) -> Seq<char> {
    match mode {
        InstallerMode::Install => "install"@,
        InstallerMode::Uninstall => "uninstall"@,
    }
}

/// The name of a mode as the installer page knows it.
pub fn mode_label(mode: InstallerMode) -> (label: &'static str)
    ensures
        label@ == spec_mode_label(mode),
{
    match mode {
        InstallerMode::Install => "install",
        InstallerMode::Uninstall => "uninstall",
    }
}

/// The title of the installer's window.
pub fn window_title(mode: InstallerMode) -> (title: &'static str)
    ensures
        title@ == match mode {
            InstallerMode::Install => "Install Cursor Optimizer"@,
            InstallerMode::Uninstall => "Uninstall Cursor Optimizer"@,
        },
{
    match mode {
        InstallerMode::Install => "Install Cursor Optimizer",
        InstallerMode::Uninstall => "Uninstall Cursor Optimizer",
    }
}

/// The file name of the installed application.
pub fn application_executable_file_name(family: TargetFamily) -> (name: &'static str)
    ensures
        name@ == match family {
            TargetFamily::Windows => "cursor-optimizer.exe"@,
            TargetFamily::Unix => "cursor-optimizer"@,
        },
{
    match family {
        TargetFamily::Windows => "cursor-optimizer.exe",
        TargetFamily::Unix => "cursor-optimizer",
    }
}

/// The file name of the installed uninstaller.
pub fn uninstaller_file_name(family: TargetFamily) -> (name: &'static str)
    ensures
        name@ == match family {
            TargetFamily::Windows => "uninstall.exe"@,
            TargetFamily::Unix => "uninstall"@,
        },
{
    match family {
        TargetFamily::Windows => "uninstall.exe",
        TargetFamily::Unix => "uninstall",
    }
}

/// Whether the installer carries the application it installs.
pub fn has_embedded_binary(binary: &[u8]) -> (present: bool)
    ensures
        present == (binary@.len() > 0),
{
    binary.len() > 0
}

/// The path of a file in a directory, on a system of `family`.
pub fn file_in(family: TargetFamily, directory: &str, file_name: &str) -> (path: String)
    ensures
        path@ == join_path_on(family, directory@, file_name@),
{
    join_on(family, directory, file_name)
}

/// The path of a Windows shortcut named after the product, on a system of
/// `family`.
pub fn windows_shortcut_in(family: TargetFamily, directory: &str, product_name: &str) -> (path: String)
    ensures
        path@ == join_path_on(family, directory@, product_name@ + ".lnk"@),
{
    let mut name = to_owned_text(product_name);
    name.append(".lnk");
    join_on(family, directory, name.as_str())
}

/// The command that starts the uninstaller.
pub fn uninstall_command(uninstaller: &str) -> (command: String)
    ensures
        command@ == seq!['"'] + uninstaller@ + "\" --uninstall"@,
{
    let mut command = String::new();
    push_char(&mut command, '"');
    command.append(uninstaller);
    command.append("\" --uninstall");
    command
}

/// The path of a desktop entry for `identifier`.
pub fn desktop_entry_in(directory: &str, identifier: &str) -> (path: String)
    ensures
        path@ == join_path(directory@, identifier@ + ".desktop"@),
{
    let mut name = to_owned_text(identifier);
    name.append(".desktop");
    join(directory, name.as_str())
}

/// The user's desktop folder.
pub fn home_desktop_directory(home: Option<String>) -> (directory: Option<String>)
    ensures
        opt_view(directory) == match opt_view(home) {
            Some(h) => Some(join_path(h, "Desktop"@)),
            None => None,
        },
{
    match home {
        Some(h) => Some(join(h.as_str(), "Desktop")),
        None => None,
    }
}

/// An installation request from the page's parameters: the directory named
/// unless it is blank, else the default; both shortcuts unless declined.
pub fn install_request_from(params: &Value, default_install_directory: &str) -> (request: InstallRequest)
    ensures
        request.install_directory@ == match member_text(*params, "installDirectory"@) {
            Some(t) => if is_blank(t) {
                default_install_directory@
            } else {
                t
            },
            None => default_install_directory@,
        },
        request.create_start_menu_shortcut == match member_flag(*params, "createStartMenuShortcut"@) {
            Some(flag) => flag,
            None => true,
        },
        request.create_desktop_shortcut == match member_flag(*params, "createDesktopShortcut"@) {
            Some(flag) => flag,
            None => true,
        },
{
    let install_directory = match text_member(params, "installDirectory") {
        Some(t) => if blank(t) {
            to_owned_text(default_install_directory)
        } else {
            to_owned_text(t)
        },
        None => to_owned_text(default_install_directory),
    };
    let create_start_menu_shortcut = match flag_member(params, "createStartMenuShortcut") {
        Some(flag) => flag,
        None => true,
    };
    let create_desktop_shortcut = match flag_member(params, "createDesktopShortcut") {
        Some(flag) => flag,
        None => true,
    };
    InstallRequest { install_directory, create_start_menu_shortcut, create_desktop_shortcut }
}

/// A removal request from the page's parameters: the data folder goes too
/// unless declined.
pub fn uninstall_request_from(params: &Value) -> (request: UninstallRequest)
    ensures
        request.remove_application_data == match member_flag(*params, "removeApplicationData"@) {
            Some(flag) => flag,
            None => true,
        },
{
    let remove_application_data = match flag_member(params, "removeApplicationData") {
        Some(flag) => flag,
        None => true,
    };
    UninstallRequest { remove_application_data }
}

/// The executable the page asks to start.
pub fn launch_target(params: &Value) -> (target: Result<String, String>)
    ensures
        match member_text(*params, "executablePath"@) {
            Some(t) => target matches Ok(path) && path@ == t,
            None => target matches Err(message) && message@ == "No install location was provided."@,
        },
{
    match text_member(params, "executablePath") {
        Some(t) => Ok(to_owned_text(t)),
        None => Err(to_owned_text("No install location was provided.")),
    }
}

pub open spec fn text_or_null(value: Option<Seq<char>>) -> Json {
    match value {
        Some(t) => Json::Text(t),
        None => Json::Null,
    }
}

/// What the installer page is told about the installation.
pub open spec fn info_json(
    mode: InstallerMode,
    version: Seq<char>,
    default_install_directory: Seq<char>,
    installed_directory: Option<Seq<char>>,
    installed_version: Option<Seq<char>>,
    embedded_binary: bool,
) -> Json {
    Json::Object(
        seq![
            ("mode"@, Json::Text(spec_mode_label(mode))),
            ("productName"@, Json::Text("Cursor Optimizer"@)),
            ("version"@, Json::Text(version)),
            ("defaultInstallDirectory"@, Json::Text(default_install_directory)),
            ("installedDirectory"@, text_or_null(installed_directory)),
            ("installedVersion"@, text_or_null(installed_version)),
            ("hasEmbeddedBinary"@, Json::Boolean(embedded_binary)),
        ],
    )
}

fn text_or_null_value(value: Option<String>) -> (result: Value)
    ensures
        result@ == text_or_null(opt_view(value)),
{
    match value {
        Some(t) => Value::Text(t),
        None => Value::Null,
    }
}

fn member(key: &str, value: Value) -> (entry: (String, Value))
    ensures
        entry.0@ == key@,
        entry.1 == value,
{
    (to_owned_text(key), value)
}

/// The document that tells the installer page about the installation.
pub fn info_value(
    mode: InstallerMode,
    version: &str,
    default_install_directory: &str,
    installed_directory: Option<String>,
    installed_version: Option<String>,
    embedded_binary: bool,
) -> (value: Value)
    ensures
        value@ == info_json(
            mode,
            version@,
            default_install_directory@,
            opt_view(installed_directory),
            opt_view(installed_version),
            embedded_binary,
        ),
{
    let ghost directory_view = opt_view(installed_directory);
    let ghost version_view = opt_view(installed_version);
    let entries = vec![
        member("mode", text(mode_label(mode))),
        member("productName", text(PRODUCT_NAME)),
        member("version", text(version)),
        member("defaultInstallDirectory", text(default_install_directory)),
        member("installedDirectory", text_or_null_value(installed_directory)),
        member("installedVersion", text_or_null_value(installed_version)),
        member("hasEmbeddedBinary", Value::Boolean(embedded_binary)),
    ];
    proof {
        crate::json::lemma_json_of_entries(entries@);
        assert(crate::json::json_of_entries(entries@) =~= info_json(
            mode,
            version@,
            default_install_directory@,
            directory_view,
            version_view,
            embedded_binary,
        )->Object_0);
    }
    Value::Object(entries)
}

/// What the installer page asks for.
#[derive(Clone, Copy, PartialEq, Eq, Debug, Structural)]
pub enum InstallerAction {
    Info,
    BrowseDirectories,
    LaunchApp,
    Install,
    Uninstall,
}

pub open spec fn spec_installer_route(action: Seq<char>) -> Result<InstallerAction, Seq<char>> {
    if action == "installerInfo"@ {
        Ok(InstallerAction::Info)
    } else if action == "browseDirectories"@ {
        Ok(InstallerAction::BrowseDirectories)
    } else if action == "launchApp"@ {
        Ok(InstallerAction::LaunchApp)
    } else if action == "install"@ {
        Ok(InstallerAction::Install)
    } else if action == "uninstall"@ {
        Ok(InstallerAction::Uninstall)
    } else {
        Err("Unrecognized request: "@ + action)
    }
}

/// What an installer request asks for, or why it is refused.
pub fn installer_route(action: &str) -> (route: Result<InstallerAction, String>)
    ensures
        match spec_installer_route(action@) {
            Ok(a) => route == Ok::<InstallerAction, String>(a),
            Err(m) => route matches Err(found) && found@ == m,
        },
{
    if text_equals(action, "installerInfo") {
        Ok(InstallerAction::Info)
    } else if text_equals(action, "browseDirectories") {
        Ok(InstallerAction::BrowseDirectories)
    } else if text_equals(action, "launchApp") {
        Ok(InstallerAction::LaunchApp)
    } else if text_equals(action, "install") {
        Ok(InstallerAction::Install)
    } else if text_equals(action, "uninstall") {
        Ok(InstallerAction::Uninstall)
    } else {
        let mut message = to_owned_text("Unrecognized request: ");
        message.append(action);
        Err(message)
    }
}

/// The executable's path as the page is told after an installation.
pub open spec fn installed_json(executable: Seq<char>) -> Json {
    Json::Object(seq![("executablePath"@, Json::Text(executable))])
}

/// The answer to a finished installation.
pub fn installed_value(executable: &str) -> (value: Value)
    ensures
        value@ == installed_json(executable@),
{
    let entries = vec![member("executablePath", text(executable))];
    proof {
        crate::json::lemma_json_of_entries(entries@);
        assert(crate::json::json_of_entries(entries@) =~= installed_json(executable@)->Object_0);
    }
    Value::Object(entries)
}

} // verus!
