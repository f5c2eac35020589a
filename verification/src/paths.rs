//! Where the application keeps its own data, derived from a snapshot of the
//! process environment. Paths are texts, taken apart and joined as the
//! family of the running system does: with `/` on Unix, and as
//! `windows_paths` describes on Windows.

use vstd::prelude::*;
use crate::text::{push_char, to_owned_text};
use crate::windows_paths::{windows_join, windows_join_path};
use crate::path_components::{parent_in, parent_of};

verus! {

/// The operating system family a path is resolved for.
#[derive(Clone, Copy, PartialEq, Eq, Debug, Structural)]
pub enum TargetFamily {
    Windows,
    Unix,
}

/// The operating system the program runs on, as far as paths depend on it.
#[derive(Clone, Copy, PartialEq, Eq, Debug, Structural)]
pub enum Platform {
    Windows,
    MacOs,
    OtherUnix,
    Unsupported,
}

/// The environment variables and directories that path resolution reads,
/// captured once by the caller.
#[derive(Clone, Debug)]
pub struct Environment {
    pub platform: Platform,
    /// `LOCALAPPDATA`
    pub local_app_data: Option<String>,
    /// `APPDATA`
    pub roaming_app_data: Option<String>,
    /// `XDG_DATA_HOME`
    pub data_home: Option<String>,
    /// `XDG_CONFIG_HOME`
    pub config_home: Option<String>,
    /// `HOME`
    pub home: Option<String>,
    /// `USERPROFILE`
    pub user_profile: Option<String>,
    /// `ProgramFiles`
    pub program_files: Option<String>,
    /// `ProgramData`
    pub program_data: Option<String>,
    /// `PUBLIC`
    pub public: Option<String>,
    /// The system's temporary directory.
    pub temp_directory: String,
}

pub open spec fn opt_view(value: Option<String>) -> Option<Seq<char>> {
    match value {
        Some(text) => Some(text@),
        None => None,
    }
}

/// Appending a component to a path, as `PathBuf::push` does on Unix: an
/// absolute component replaces the path, and a separator is put between the
/// two unless the path is empty or already ends with one.
pub open spec fn join_path(base: Seq<char>, name: Seq<char>) -> Seq<char> {
    if name.len() > 0 && name[0] == '/' {
        name
    } else if base.len() == 0 || base.last() == '/' {
        base + name
    } else {
        base.push('/') + name
    }
}

/// The path `base` with the component `name` appended.
pub fn join(base: &str, name: &str) -> (joined: String)
    ensures
        joined@ == join_path(base@, name@),
{
    let name_length = name.unicode_len();
    if name_length > 0 && name.get_char(0) == '/' {
        return to_owned_text(name);
    }
    let base_length = base.unicode_len();
    let mut joined = to_owned_text(base);
    if base_length > 0 && base.get_char(base_length - 1) != '/' {
        push_char(&mut joined, '/');
    }
    joined.append(name);
    joined
}

/// Appending a component to a path as the running system's family does.
pub open spec fn join_path_on(family: TargetFamily, base: Seq<char>, name: Seq<char>) -> Seq<char> {
    match family {
        TargetFamily::Windows => windows_join_path(base, name),
        TargetFamily::Unix => join_path(base, name),
    }
}

/// The path `base` with the component `name` appended, as on `family`.
pub fn join_on(family: TargetFamily, base: &str, name: &str) -> (joined: String)
    ensures
        joined@ == join_path_on(family, base@, name@),
{
    match family {
        TargetFamily::Windows => windows_join(base, name),
        TargetFamily::Unix => join(base, name),
    }
}

/// The parent of a path as the running system's family takes it.
pub open spec fn parent_path_on(family: TargetFamily, path: Seq<char>) -> Option<Seq<char>> {
    parent_in(family, path)
}

/// The parent directory of a path, as on `family`.
pub fn parent_on(family: TargetFamily, path: &str) -> (directory: Option<String>)
    ensures
        opt_view(directory) == parent_path_on(family, path@),
{
    parent_of(family, path)
}

/// The parent of a path, as `Path::parent` gives it on Unix: the path up to
/// its last component, ignoring repeated and trailing separators and `.`
/// components; `None` for an empty path or the root.
pub open spec fn parent_path(path: Seq<char>) -> Option<Seq<char>> {
    parent_in(TargetFamily::Unix, path)
}

/// The parent directory of a path, on Unix.
pub fn parent(path: &str) -> (directory: Option<String>)
    ensures
        opt_view(directory) == parent_path(path@),
{
    parent_of(TargetFamily::Unix, path)
}

/// Name of the directory that holds the application's own data.
pub open spec fn application_directory_name() -> Seq<char> {
    seq!['C', 'u', 'r', 's', 'o', 'r', 'O', 'p', 't', 'i', 'm', 'i', 'z', 'e', 'r']
}

/// File name of the journal of the running write task.
pub open spec fn journal_file_name() -> Seq<char> {
    "operation-journal.json"@
}

pub open spec fn spec_family_of(platform: Platform) -> TargetFamily {
    if platform == Platform::Windows {
        TargetFamily::Windows
    } else {
        TargetFamily::Unix
    }
}

/// The family of a platform: Windows, or Unix for every other platform.
pub fn family_of(platform: Platform) -> (family: TargetFamily)
    ensures
        family == spec_family_of(platform),
{
    match platform {
        Platform::Windows => TargetFamily::Windows,
        _ => TargetFamily::Unix,
    }
}

pub open spec fn spec_resolve_base_directory(
    family: TargetFamily,
    local_app_data: Option<Seq<char>>,
    data_home: Option<Seq<char>>,
    home: Option<Seq<char>>,
) -> Option<Seq<char>> {
    match family {
        TargetFamily::Windows => local_app_data,
        TargetFamily::Unix => match data_home {
            Some(directory) => Some(directory),
            None => match home {
                Some(directory) => Some(
                    join_path(join_path(directory, ".local"@), "share"@),
                ),
                None => None,
            },
        },
    }
}

/// The per-user data directory: `LOCALAPPDATA` on Windows; elsewhere
/// `XDG_DATA_HOME`, or else `.local/share` under `HOME`.
pub fn resolve_base_directory(
    family: TargetFamily,
    local_app_data: Option<String>,
    data_home: Option<String>,
    home: Option<String>,
) -> (base: Option<String>)
    ensures
        opt_view(base) == spec_resolve_base_directory(
            family,
            opt_view(local_app_data),
            opt_view(data_home),
            opt_view(home),
        ),
{
    match family {
        TargetFamily::Windows => local_app_data,
        TargetFamily::Unix => match data_home {
            Some(directory) => Some(directory),
            None => match home {
                Some(directory) => {
                    let local = join(directory.as_str(), ".local");
                    Some(join(local.as_str(), "share"))
                },
                None => None,
            },
        },
    }
}

pub open spec fn spec_base_data_directory(environment: Environment) -> Seq<char> {
    match spec_resolve_base_directory(
        spec_family_of(environment.platform),
        opt_view(environment.local_app_data),
        opt_view(environment.data_home),
        opt_view(environment.home),
    ) {
        Some(directory) => directory,
        None => environment.temp_directory@,
    }
}

/// The per-user data directory, or the temporary directory when the
/// environment names none.
pub fn base_data_directory(environment: &Environment) -> (directory: String)
    ensures
        directory@ == spec_base_data_directory(*environment),
{
    let family = family_of(environment.platform);
    match resolve_base_directory(
        family,
        environment.local_app_data.clone(),
        environment.data_home.clone(),
        environment.home.clone(),
    ) {
        Some(directory) => directory,
        None => environment.temp_directory.clone(),
    }
}

/// The application's data directory inside a base directory, on a system
/// of `family`.
pub fn application_data_directory_in(family: TargetFamily, base_directory: &str) -> (directory: String)
    ensures
        directory@ == join_path_on(family, base_directory@, application_directory_name()),
{
    let name = "CursorOptimizer";
    proof {
        reveal_strlit("CursorOptimizer");
    }
    join_on(family, base_directory, name)
}

pub open spec fn spec_application_data_directory(environment: Environment) -> Seq<char> {
    join_path_on(
        spec_family_of(environment.platform),
        spec_base_data_directory(environment),
        application_directory_name(),
    )
}

/// The application's data directory for the given environment.
pub fn application_data_directory(environment: &Environment) -> (directory: String)
    ensures
        directory@ == spec_application_data_directory(*environment),
{
    let base = base_data_directory(environment);
    application_data_directory_in(family_of(environment.platform), base.as_str())
}

/// Where the journal of a running write task is kept.
pub fn operation_journal_path(environment: &Environment) -> (path: String)
    ensures
        path@ == join_path_on(
            spec_family_of(environment.platform),
            spec_application_data_directory(*environment),
            journal_file_name(),
        ),
{
    let directory = application_data_directory(environment);
    join_on(family_of(environment.platform), directory.as_str(), "operation-journal.json")
}

} // verus!
