use cursor_optimizer::installer::linux;
use cursor_optimizer::paths::TargetFamily;
use cursor_optimizer::installer::macos;
use cursor_optimizer::installer::windows;
use cursor_optimizer::installer::{
    desktop_entry_in, detect_mode, file_in, home_desktop_directory, uninstall_command, windows_shortcut_in,
    InstallerMode,
};

#[test]
fn joins_file_name() {
    assert_eq!(file_in(TargetFamily::Unix, "/opt/CursorOptimizer", "cursor-optimizer"), "/opt/CursorOptimizer/cursor-optimizer");
}

#[test]
fn builds_windows_shortcut_name() {
    assert_eq!(windows_shortcut_in(TargetFamily::Unix, "/start", "Cursor Optimizer"), "/start/Cursor Optimizer.lnk");
}

#[test]
fn quotes_uninstall_command() {
    assert_eq!(
        uninstall_command("/opt/CursorOptimizer/uninstall"),
        "\"/opt/CursorOptimizer/uninstall\" --uninstall"
    );
}

#[test]
fn builds_desktop_entry_name() {
    assert_eq!(desktop_entry_in("/applications", "cursor-optimizer"), "/applications/cursor-optimizer.desktop");
}

#[test]
fn uninstall_flag_selects_removal() {
    let arguments = vec!["installer".to_string(), "--uninstall".to_string()];
    assert_eq!(detect_mode(&arguments), InstallerMode::Uninstall);
    assert_eq!(detect_mode(&vec!["installer".to_string()]), InstallerMode::Install);
}

#[test]
fn reads_the_short_version_from_a_property_list() {
    let plist = "<dict>\n<key>CFBundleVersion</key><string>9</string>\n<key>CFBundleShortVersionString</key>\n  <string> 1.2.3 </string>\n</dict>";
    assert_eq!(macos::read_plist_string(plist, "CFBundleShortVersionString"), Some("1.2.3".to_string()));
    assert_eq!(macos::installed_version(Some(plist.to_string())), Some("1.2.3".to_string()));
    assert_eq!(macos::read_plist_string("<key>A</key><string>  </string>", "A"), None);
    assert_eq!(macos::read_plist_string("<key>B</key>", "A"), None);
}

#[test]
fn a_bundle_is_three_folders_above_its_executable() {
    let bundle = macos::current_bundle(Some("/Applications/Cursor Optimizer.app/Contents/MacOS/uninstall".to_string()));
    assert_eq!(bundle, Some("/Applications/Cursor Optimizer.app".to_string()));
    assert_eq!(macos::launch_target("/x/a/Contents/MacOS/cursor-optimizer"), "/x/a");
    assert_eq!(macos::default_install_directory(), "/Applications/Cursor Optimizer.app");
}

#[test]
fn property_list_names_the_version() {
    let text = macos::information_property_list("cursor-optimizer", "2.0.1");
    assert!(text.contains("<key>CFBundleShortVersionString</key>\n  <string>2.0.1</string>"));
    assert_eq!(macos::read_plist_string(&text, "CFBundleIdentifier"), Some("kr.co.vendit.cursor-optimizer".to_string()));
}

#[test]
fn linux_version_file_is_trimmed() {
    assert_eq!(linux::installed_version(Some(" 1.0.0\n".to_string())), Some("1.0.0".to_string()));
    assert_eq!(linux::installed_version(Some("\n".to_string())), None);
    assert_eq!(linux::installed_version(None), None);
    assert_eq!(
        linux::installed_directory(InstallerMode::Uninstall, Some("/opt/CursorOptimizer/uninstall".to_string()), false),
        Some("/opt/CursorOptimizer".to_string())
    );
    assert_eq!(linux::installed_directory(InstallerMode::Install, None, true), Some("/opt/CursorOptimizer".to_string()));
    assert_eq!(linux::installed_directory(InstallerMode::Install, None, false), None);
}

#[test]
fn registry_output_gives_the_first_text_value() {
    let output = "\r\nHKEY_LOCAL_MACHINE\\Software\\CursorOptimizer\r\n    DisplayVersion    REG_SZ    1.4.0\r\n\r\n";
    assert_eq!(windows::registry_value_from_output(true, output), Some("1.4.0".to_string()));
    assert_eq!(windows::registry_value_from_output(false, output), None);
    assert_eq!(windows::registry_value_from_output(true, "nothing here"), None);
    assert_eq!(windows::registry_value_from_output(true, "a REG_SZ   \nb REG_SZ x REG_SZ y"), Some("x".to_string()));
}

#[test]
fn powershell_paths_double_their_quotes() {
    assert_eq!(windows::powershell_quote("C:\\It's here"), "C:\\It''s here");
    let script = windows::shortcut_script("a'b", "t", "w");
    assert!(script.contains("CreateShortcut('a''b')"));
    assert!(script.ends_with("$link.IconLocation = 't,0'; $link.Save()"));
}

#[test]
fn windows_places() {
    assert_eq!(windows::default_install_directory(None), "C:\\Program Files\\CursorOptimizer");
    assert_eq!(windows::default_install_directory(Some("D:/Apps".to_string())), "D:/Apps\\CursorOptimizer");
    assert_eq!(
        windows::start_menu_directory(Some("C:/ProgramData".to_string())),
        Some("C:/ProgramData\\Microsoft\\Windows\\Start Menu\\Programs".to_string())
    );
    assert_eq!(windows::desktop_directory(None), None);
    assert_eq!(windows::estimated_size_kibibytes(5000), Some(4));
    assert_eq!(windows::cleanup_script_name(42), "cursor-optimizer-cleanup-42.cmd");
    assert!(windows::cleanup_script("C:/x").contains("rmdir /s /q \"C:/x\" 2>nul"));
}

#[test]
fn registration_lists_the_uninstall_values() {
    let entries = windows::registration_entries("1.0", "C:/app", "C:/app/cursor-optimizer.exe", "C:/app/uninstall.exe");
    let names: Vec<&str> = entries.iter().map(|e| e.name.as_str()).collect();
    assert_eq!(
        names,
        vec!["DisplayName", "DisplayVersion", "Publisher", "DisplayIcon", "InstallLocation", "UninstallString", "NoModify", "NoRepair"]
    );
    assert_eq!(entries[5].data, "\"C:/app/uninstall.exe\" --uninstall");
    assert_eq!(entries[6].kind, "REG_DWORD");
}

#[test]
fn desktop_folder_is_under_home() {
    assert_eq!(home_desktop_directory(Some("/home/me".to_string())), Some("/home/me/Desktop".to_string()));
    assert_eq!(home_desktop_directory(None), None);
}

#[test]
fn windows_uninstaller_lives_in_its_folder() {
    assert_eq!(
        windows::installed_directory(
            InstallerMode::Uninstall,
            Some("C:\\Program Files\\CursorOptimizer\\uninstall.exe".to_string()),
            None
        ),
        Some("C:\\Program Files\\CursorOptimizer".to_string())
    );
    assert_eq!(windows_shortcut_in(TargetFamily::Windows, "C:\\Start", "Cursor Optimizer"), "C:\\Start\\Cursor Optimizer.lnk");
    assert_eq!(file_in(TargetFamily::Windows, "C:\\app", "uninstall.exe"), "C:\\app\\uninstall.exe");
}
