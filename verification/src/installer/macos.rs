//! Installation layout on macOS: an application bundle.

use vstd::prelude::*;
use super::{InstallerMode, PRODUCT_NAME};
use crate::paths::{join, join_path, opt_view, parent, parent_path};
use crate::text::{split_once, split_text_once, to_owned_text, trim, trimmed};

verus! {

/// Where applications are installed.
pub const APPLICATIONS_DIRECTORY: &'static str = "/Applications";
/// The bundle's folder name.
pub const BUNDLE_NAME: &'static str = "Cursor Optimizer.app";
/// The bundle's identifier.
pub const BUNDLE_IDENTIFIER: &'static str = "kr.co.vendit.cursor-optimizer";
/// The key of the version that the bundle shows.
pub const SHORT_VERSION_KEY: &'static str = "CFBundleShortVersionString";

/// The installation folder proposed by default.
pub fn default_install_directory() -> (directory: String)
    ensures
        directory@ == join_path(APPLICATIONS_DIRECTORY@, BUNDLE_NAME@),
{
    join(APPLICATIONS_DIRECTORY, BUNDLE_NAME)
}

/// The folder three levels above `path`, where there is one.
pub open spec fn third_parent(path: Seq<char>) -> Option<Seq<char>> {
    match parent_path(path) {
        Some(first) => match parent_path(first) {
            Some(second) => parent_path(second),
            None => None,
        },
        None => None,
    }
}

fn third_parent_of(path: &str) -> (directory: Option<String>)
    ensures
        opt_view(directory) == third_parent(path@),
{
    match parent(path) {
        Some(first) => match parent(first.as_str()) {
            Some(second) => parent(second.as_str()),
            None => None,
        },
        None => None,
    }
}

/// The bundle that holds the running executable (`Contents/MacOS/<exe>`).
pub fn current_bundle(current_executable: Option<String>) -> (bundle: Option<String>)
    ensures
        opt_view(bundle) == match opt_view(current_executable) {
            Some(path) => third_parent(path),
            None => None,
        },
{
    match current_executable {
        Some(path) => third_parent_of(path.as_str()),
        None => None,
    }
}

/// The installation in question: when removing, the bundle of the running
/// uninstaller; when installing, the default bundle if it exists.
pub fn installed_directory(
    mode: InstallerMode,
    current_executable: Option<String>,
    default_is_directory: bool,
) -> (directory: Option<String>)
    ensures
        opt_view(directory) == match mode {
            InstallerMode::Uninstall => match opt_view(current_executable) {
                Some(path) => third_parent(path),
                None => None,
            },
            InstallerMode::Install => if default_is_directory {
                Some(join_path(APPLICATIONS_DIRECTORY@, BUNDLE_NAME@))
            } else {
                None
            },
        },
{
    match mode {
        InstallerMode::Uninstall => current_bundle(current_executable),
        InstallerMode::Install => if default_is_directory {
            Some(default_install_directory())
        } else {
            None
        },
    }
}

/// The string value that follows `<key>key</key>` in a property list.
pub open spec fn plist_string(text: Seq<char>, key: Seq<char>) -> Option<Seq<char>> {
    match split_once(text, "<key>"@ + key + "</key>"@) {
        Some((_, after_key)) => match split_once(after_key, "<string>"@) {
            Some((_, after_open)) => match split_once(after_open, "</string>"@) {
                Some((value, _)) => if trim(value).len() == 0 {
                    None
                } else {
                    Some(trim(value))
                },
                None => None,
            },
            None => None,
        },
        None => None,
    }
}

/// Reads a string value of a property list: the first `<string>` after
/// the key, trimmed, and only when not blank.
pub fn read_plist_string(text: &str, key: &str) -> (value: Option<String>)
    ensures
        opt_view(value) == plist_string(text@, key@),
{
    let mut marker = to_owned_text("<key>");
    marker.append(key);
    marker.append("</key>");
    match split_text_once(text, marker.as_str()) {
        Some((_, after_key)) => match split_text_once(after_key.as_str(), "<string>") {
            Some((_, after_open)) => match split_text_once(after_open.as_str(), "</string>") {
                Some((raw, _)) => {
                    let value = trimmed(raw.as_str());
                    if value.unicode_len() == 0 {
                        None
                    } else {
                        Some(value)
                    }
                },
                None => None,
            },
            None => None,
        },
        None => None,
    }
}

/// The installed version from the bundle's `Info.plist` text.
pub fn installed_version(information: Option<String>) -> (version: Option<String>)
    ensures
        opt_view(version) == match opt_view(information) {
            Some(text) => plist_string(text, SHORT_VERSION_KEY@),
            None => None,
        },
{
    match information {
        Some(text) => read_plist_string(text.as_str(), SHORT_VERSION_KEY),
        None => None,
    }
}

/// The folder of the bundle's metadata.
pub fn contents_directory(bundle: &str) -> (directory: String)
    ensures
        directory@ == join_path(bundle@, "Contents"@),
{
    join(bundle, "Contents")
}

pub open spec fn spec_information_property_list(executable: Seq<char>, version: Seq<char>) -> Seq<char> {
    "<?xml version=\"1.0\" encoding=\"UTF-8\"?>\n<!DOCTYPE plist PUBLIC \"-//Apple//DTD PLIST 1.0//EN\" \"http://www.apple.com/DTDs/PropertyList-1.0.dtd\">\n<plist version=\"1.0\">\n<dict>\n  <key>CFBundleName</key>\n  <string>"@
        + PRODUCT_NAME@ + "</string>\n  <key>CFBundleDisplayName</key>\n  <string>"@
        + PRODUCT_NAME@ + "</string>\n  <key>CFBundleExecutable</key>\n  <string>"@
        + executable + "</string>\n  <key>CFBundleIdentifier</key>\n  <string>"@
        + BUNDLE_IDENTIFIER@ + "</string>\n  <key>CFBundleVersion</key>\n  <string>"@
        + version + "</string>\n  <key>CFBundleShortVersionString</key>\n  <string>"@
        + version
        + "</string>\n  <key>CFBundlePackageType</key>\n  <string>APPL</string>\n  <key>NSHighResolutionCapable</key>\n  <true/>\n</dict>\n</plist>\n"@
}

/// The bundle's `Info.plist`.
pub fn information_property_list(executable: &str, version: &str) -> (text: String)
    ensures
        text@ == spec_information_property_list(executable@, version@),
{
    let mut text = to_owned_text(
        "<?xml version=\"1.0\" encoding=\"UTF-8\"?>\n<!DOCTYPE plist PUBLIC \"-//Apple//DTD PLIST 1.0//EN\" \"http://www.apple.com/DTDs/PropertyList-1.0.dtd\">\n<plist version=\"1.0\">\n<dict>\n  <key>CFBundleName</key>\n  <string>",
    );
    text.append(PRODUCT_NAME);
    text.append("</string>\n  <key>CFBundleDisplayName</key>\n  <string>");
    text.append(PRODUCT_NAME);
    text.append("</string>\n  <key>CFBundleExecutable</key>\n  <string>");
    text.append(executable);
    text.append("</string>\n  <key>CFBundleIdentifier</key>\n  <string>");
    text.append(BUNDLE_IDENTIFIER);
    text.append("</string>\n  <key>CFBundleVersion</key>\n  <string>");
    text.append(version);
    text.append("</string>\n  <key>CFBundleShortVersionString</key>\n  <string>");
    text.append(version);
    text.append(
        "</string>\n  <key>CFBundlePackageType</key>\n  <string>APPL</string>\n  <key>NSHighResolutionCapable</key>\n  <true/>\n</dict>\n</plist>\n",
    );
    text
}

/// What `open` is given to start the application: the bundle that holds
/// the executable, or the executable itself where it has no such bundle.
pub fn launch_target(executable: &str) -> (target: String)
    ensures
        target@ == match third_parent(executable@) {
            Some(bundle) => bundle,
            None => executable@,
        },
{
    match third_parent_of(executable) {
        Some(bundle) => bundle,
        None => to_owned_text(executable),
    }
}

} // verus!
