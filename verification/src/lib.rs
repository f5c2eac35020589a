//! Verified core of a storage maintenance tool for the Cursor editor:
//! path derivation, conversation age detection, size formatting, a JSON
//! reader and writer, and the coordination of database tasks.

pub mod text;
pub mod paths;
pub mod windows_paths;
pub mod path_components;
pub mod cleanup;
pub mod numbers;
pub mod json;
pub mod json_round_trip;
pub mod operations;
pub mod locations;
pub mod installer;
pub mod text_set;
pub mod progress;
pub mod conversations;
pub mod reports;
pub mod overview;
pub mod tools;
pub mod process;
pub mod requests;
pub mod desktop;
pub mod icon;
pub mod backup;
pub mod packaging;
pub mod browse;
