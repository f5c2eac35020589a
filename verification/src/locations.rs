//! Where Cursor keeps its state database and the files around it.

use vstd::prelude::*;
use crate::windows_paths::{windows_join, windows_join_path};
use crate::paths::{
    Environment, Platform, TargetFamily, family_of, join, join_on, join_path, join_path_on, opt_view,
    spec_family_of,
};

verus! {

/// The files of Cursor's state database.
#[derive(Debug, Clone)]
pub struct CursorLocations {
    pub base_directory: String,
    pub global_storage_directory: String,
    pub state_database: String,
    pub write_ahead_log: String,
    pub rollback_journal: String,
    pub shared_memory: String,
}

pub open spec fn global_storage_of(family: TargetFamily, base: Seq<char>) -> Seq<char> {
    join_path_on(family, join_path_on(family, base, "User"@), "globalStorage"@)
}

/// The locations derived from a base directory on a system of `family`.
pub open spec fn locations_match(locations: CursorLocations, family: TargetFamily, base: Seq<char>) -> bool {
    let global = global_storage_of(family, base);
    &&& locations.base_directory@ == base
    &&& locations.global_storage_directory@ == global
    &&& locations.state_database@ == join_path_on(family, global, "state.vscdb"@)
    &&& locations.write_ahead_log@ == join_path_on(family, global, "state.vscdb-wal"@)
    &&& locations.rollback_journal@ == join_path_on(family, global, "state.vscdb-journal"@)
    &&& locations.shared_memory@ == join_path_on(family, global, "state.vscdb-shm"@)
}

/// The database files under `User/globalStorage` of a Cursor base
/// directory, on a system of `family`.
pub fn locations_from_base(family: TargetFamily, base_directory: String) -> (locations: CursorLocations)
    ensures
        locations_match(locations, family, base_directory@),
{
    let user = join_on(family, base_directory.as_str(), "User");
    let global_storage_directory = join_on(family, user.as_str(), "globalStorage");
    let state_database = join_on(family, global_storage_directory.as_str(), "state.vscdb");
    let write_ahead_log = join_on(family, global_storage_directory.as_str(), "state.vscdb-wal");
    let rollback_journal = join_on(family, global_storage_directory.as_str(), "state.vscdb-journal");
    let shared_memory = join_on(family, global_storage_directory.as_str(), "state.vscdb-shm");
    CursorLocations {
        base_directory,
        global_storage_directory,
        state_database,
        write_ahead_log,
        rollback_journal,
        shared_memory,
    }
}

pub open spec fn spec_base_directory(environment: Environment) -> Option<Seq<char>> {
    match environment.platform {
        Platform::Windows => match opt_view(environment.roaming_app_data) {
            Some(directory) => Some(windows_join_path(directory, "Cursor"@)),
            None => None,
        },
        Platform::MacOs => match opt_view(environment.home) {
            Some(home) => Some(
                join_path(join_path(join_path(home, "Library"@), "Application Support"@), "Cursor"@),
            ),
            None => None,
        },
        Platform::OtherUnix => match opt_view(environment.config_home) {
            Some(directory) => Some(join_path(directory, "Cursor"@)),
            None => match opt_view(environment.home) {
                Some(home) => Some(join_path(join_path(home, ".config"@), "Cursor"@)),
                None => None,
            },
        },
        Platform::Unsupported => None,
    }
}

/// Cursor's base directory: `APPDATA\Cursor` on Windows,
/// `~/Library/Application Support/Cursor` on macOS, and elsewhere
/// `XDG_CONFIG_HOME/Cursor` or `~/.config/Cursor`.
pub fn base_directory(environment: &Environment) -> (directory: Option<String>)
    ensures
        opt_view(directory) == spec_base_directory(*environment),
{
    match environment.platform {
        Platform::Windows => match &environment.roaming_app_data {
            Some(directory) => Some(windows_join(directory.as_str(), "Cursor")),
            None => None,
        },
        Platform::MacOs => match &environment.home {
            Some(home) => {
                let library = join(home.as_str(), "Library");
                let support = join(library.as_str(), "Application Support");
                Some(join(support.as_str(), "Cursor"))
            },
            None => None,
        },
        Platform::OtherUnix => match &environment.config_home {
            Some(directory) => Some(join(directory.as_str(), "Cursor")),
            None => match &environment.home {
                Some(home) => {
                    let config = join(home.as_str(), ".config");
                    Some(join(config.as_str(), "Cursor"))
                },
                None => None,
            },
        },
        Platform::Unsupported => None,
    }
}

/// The database locations for this environment, if Cursor's base directory
/// can be named.
pub fn locate(environment: &Environment) -> (locations: Option<CursorLocations>)
    ensures
        match spec_base_directory(*environment) {
            Some(base) => locations matches Some(found) && locations_match(
                found,
                spec_family_of(environment.platform),
                base,
            ),
            None => locations is None,
        },
{
    match base_directory(environment) {
        Some(base) => Some(locations_from_base(family_of(environment.platform), base)),
        None => None,
    }
}

} // verus!
