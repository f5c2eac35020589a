use cursor_optimizer::browse::{directory_listing, file_name_of, pending_segments, root_candidates, shortcut, sort_entries, walk_up, FolderEntry, FolderWalk, WalkOutcome};
use cursor_optimizer::desktop::{
    asset_name, instance_filter, other_instance_ids, progress_script, resolve_script, status_payload, status_script,
    window_action, window_close, window_state, WindowAction,
};
use cursor_optimizer::json::Value;
use cursor_optimizer::locations::locations_from_base;
use cursor_optimizer::packaging::{
    appdmg_configuration, architecture_label, artifact_stem, command_outcome, installer_stem, package_target, packaging_plan,
    PackageStep, PackageTarget,
};
use cursor_optimizer::paths::{Platform, TargetFamily};
use cursor_optimizer::process::{force_quit_commands, force_quit_cursor, is_cursor_running, probe_commands, ProbeOutcome};
use cursor_optimizer::requests::{
    admit_request, database_fingerprint, failure_payload, initialize_response, plan_action, read_days, recovery_may_continue,
    recovery_report, reveal_command, show_database_command, Admission, Task,
};

#[test]
fn requests_are_admitted_in_order() {
    assert!(matches!(admit_request("operationStatus", false, true, None), Admission::Status));
    assert!(matches!(admit_request("cancel", false, true, None), Admission::Cancel));
    assert!(matches!(admit_request("overview", true, true, None), Admission::Accepted));
    match admit_request("overview", false, false, None) {
        Admission::Refused(message) => assert_eq!(message, "Could not locate Cursor storage."),
        _ => panic!("a read without storage was admitted"),
    }
    match admit_request("toolVacuum", true, true, None) {
        Admission::Refused(message) => assert_eq!(message, "Cursor is still running. Close it first."),
        _ => panic!("a write ran beside the editor"),
    }
    match admit_request("deepCleanRun", true, false, Some(0)) {
        Admission::Refused(message) => assert_eq!(message, "Please enter at least 1 day."),
        _ => panic!("zero days were admitted"),
    }
    assert!(matches!(admit_request("initialize", false, true, None), Admission::Accepted));
}

#[test]
fn actions_are_planned() {
    assert_eq!(plan_action("deepCleanAnalyze", true, true, Some(30)), Ok(Task::DeepCleanAnalyze(30)));
    assert_eq!(plan_action("deepCleanAnalyze", true, true, None), Err("Please enter a valid number of days.".to_string()));
    assert_eq!(plan_action("toolBackup", false, false, None), Err("Could not locate Cursor storage.".to_string()));
    assert_eq!(plan_action("lightCleanRun", false, true, None), Err("Cursor is still running. Close it first.".to_string()));
    assert_eq!(plan_action("revealPath", false, true, None), Ok(Task::RevealPath));
    assert_eq!(plan_action("nope", true, false, None), Err("Unrecognized request: nope".to_string()));
    assert_eq!(read_days(Some(7)), Ok(7));
}

#[test]
fn small_documents() {
    assert_eq!(failure_payload("bad").to_json_string(), r#"{"message":"bad"}"#);
    assert_eq!(database_fingerprint(true, Some((10, 99))), "10:99");
    assert_eq!(database_fingerprint(true, None), "0:0");
    assert_eq!(database_fingerprint(false, Some((10, 99))), "");
    let locations = locations_from_base(TargetFamily::Unix, "/b".to_string());
    assert_eq!(
        initialize_response(Some(&locations), true, false, "1.0").to_json_string(),
        r#"{"databasePath":"/b/User/globalStorage/state.vscdb","baseDirectory":"/b","databaseExists":true,"cursorRunning":false,"version":"1.0"}"#
    );
    assert_eq!(
        initialize_response(None, true, true, "1.0").to_json_string(),
        r#"{"databasePath":null,"baseDirectory":null,"databaseExists":false,"cursorRunning":true,"version":"1.0"}"#
    );
    let healthy = Value::Object(vec![("healthy".to_string(), Value::Boolean(true))]);
    assert!(recovery_may_continue(&healthy).is_ok());
    assert_eq!(
        recovery_may_continue(&Value::Null),
        Err("Recovery could not complete automatically. Please try again.".to_string())
    );
    assert_eq!(
        recovery_report(Value::Null, Value::Boolean(true), Value::Null).to_json_string(),
        r#"{"integrity":null,"checkpoint":true,"vacuum":null}"#
    );
}

#[test]
fn showing_paths() {
    let locations = locations_from_base(TargetFamily::Unix, "/b".to_string());
    let windows = show_database_command(Platform::Windows, &locations);
    assert_eq!(windows.program, "explorer");
    assert_eq!(windows.arguments, vec!["/select,/b/User/globalStorage/state.vscdb".to_string()]);
    let linux = show_database_command(Platform::OtherUnix, &locations);
    assert_eq!(linux.arguments, vec!["/b/User/globalStorage".to_string()]);
    let mac = reveal_command(Platform::MacOs, "/x/y.zst", true, true).unwrap();
    assert_eq!(mac.arguments, vec!["-R".to_string(), "/x/y.zst".to_string()]);
    let folder = reveal_command(Platform::OtherUnix, "/x/y.zst", true, true).unwrap();
    assert_eq!((folder.program.as_str(), folder.arguments[0].as_str()), ("xdg-open", "/x"));
    assert!(reveal_command(Platform::Windows, "/x/y", false, false).is_none());
}

#[test]
fn processes_of_the_editor() {
    let windows = force_quit_commands(TargetFamily::Windows);
    assert_eq!(windows[0].arguments, vec!["/F", "/IM", "Cursor.exe", "/T"]);
    assert_eq!(probe_commands(TargetFamily::Unix).len(), 2);
    assert_eq!(
        force_quit_cursor(TargetFamily::Windows, &vec![Some("denied".to_string())]),
        Err("could not run taskkill: denied".to_string())
    );
    assert_eq!(force_quit_cursor(TargetFamily::Unix, &vec![Some("x".to_string()), None]), Ok(()));
    let listing = Some(ProbeOutcome { succeeded: true, output: b"Cursor.exe   1234 Console".to_vec() });
    assert!(is_cursor_running(TargetFamily::Windows, &vec![listing]));
    let none = Some(ProbeOutcome { succeeded: true, output: b"INFO: No tasks".to_vec() });
    assert!(!is_cursor_running(TargetFamily::Windows, &vec![none]));
    let quiet = Some(ProbeOutcome { succeeded: false, output: Vec::new() });
    let found = Some(ProbeOutcome { succeeded: true, output: b"77\n".to_vec() });
    assert!(is_cursor_running(TargetFamily::Unix, &vec![quiet, found]));
    assert!(!is_cursor_running(TargetFamily::Unix, &vec![None, None]));
}

#[test]
fn window_bridge() {
    assert_eq!(window_action("windowDrag"), Some(WindowAction::Drag));
    assert_eq!(window_action("overview"), None);
    assert_eq!(window_close(true), Err("A task is running. Keep this window open.".to_string()));
    assert_eq!(window_state(true).to_json_string(), r#"{"maximized":true}"#);
    assert_eq!(progress_script(-1, "a\"b"), r#"window.__progress(-1,"a\"b")"#);
    assert_eq!(resolve_script(12, false, "null"), "window.__resolve(12,false,null)");
    let payload = status_payload(true, false, "1:2");
    assert_eq!(payload, r#"{"cursorRunning":true,"writeAheadLogPresent":false,"databaseFingerprint":"1:2"}"#);
    assert_eq!(status_script("{}"), "window.__cursorStatus&&window.__cursorStatus({})");
    assert_eq!(asset_name("//"), "index.html");
    assert_eq!(asset_name("/assets/app.js"), "assets/app.js");
    assert_eq!(other_instance_ids("12\n 34 \r\n77\nx\n", 77), vec![12, 34]);
    assert_eq!(instance_filter(5), "PID ne 5");
}

#[test]
fn folder_browser() {
    assert_eq!(file_name_of(TargetFamily::Unix, "/a/b/"), Some("b".to_string()));
    assert_eq!(file_name_of(TargetFamily::Unix, "/"), None);
    assert_eq!(file_name_of(TargetFamily::Unix, "/a/.."), None);
    assert_eq!(walk_up(TargetFamily::Unix, "/a/b"), Some(("b".to_string(), "/a".to_string())));
    assert_eq!(walk_up(TargetFamily::Unix, "/"), None);
    assert_eq!(pending_segments(vec!["c".to_string(), "b".to_string()]), vec!["b".to_string(), "c".to_string()]);
    assert_eq!(root_candidates(TargetFamily::Windows)[2], "C:\\");
    assert_eq!(root_candidates(TargetFamily::Unix), vec!["/".to_string()]);
    let entries = vec![
        FolderEntry { name: "beta".to_string(), path: "/r/beta".to_string() },
        FolderEntry { name: "Alpha".to_string(), path: "/r/Alpha".to_string() },
        FolderEntry { name: "alpha".to_string(), path: "/r/alpha".to_string() },
    ];
    let sorted = sort_entries(entries);
    let names: Vec<&str> = sorted.iter().map(|e| e.name.as_str()).collect();
    assert_eq!(names, vec!["Alpha", "alpha", "beta"]);
    let listing = directory_listing(TargetFamily::Unix, "/r", vec!["/".to_string()], vec![shortcut("Home", "/home/me")], Vec::new(), vec!["new".to_string()]);
    assert_eq!(
        listing.to_json_string(),
        r#"{"currentDirectory":"/r","parentDirectory":"/","roots":[{"path":"/"}],"quickLocations":[{"name":"Home","path":"/home/me"}],"entries":[],"pendingSegments":["new"]}"#
    );
}

#[test]
fn packaging_names() {
    assert_eq!(architecture_label("aarch64"), "arm64");
    assert_eq!(architecture_label("riscv64"), "riscv64");
    assert_eq!(artifact_stem("1.2.3", "linux", "x86_64"), "cursor-optimizer-1.2.3-linux-x64");
    assert_eq!(installer_stem("1.2.3", "windows", "aarch64"), "cursor-optimizer-installer-1.2.3-windows-arm64");
    assert_eq!(package_target("macos"), Ok(PackageTarget::MacOs));
    assert_eq!(package_target("freebsd"), Err("unsupported operating system: freebsd".to_string()));
    assert!(appdmg_configuration("/b/A.app", "/b/bg.png").contains("\"path\": \"/b/A.app\""));
    assert_eq!(command_outcome("npm", Ok(false)), Err("npm exited with a failure status".to_string()));
    assert_eq!(command_outcome("npm", Err("missing".to_string())), Err("could not start npm: missing".to_string()));
}

#[test]
fn packaging_plans() {
    let linux = packaging_plan("/w", "linux", "x86_64", "1.0.0", true);
    assert_eq!(linux.len(), 6 + 12);
    match &linux[2] {
        PackageStep::Report(line) => assert_eq!(line, "building application binary..."),
        _ => panic!("unexpected step"),
    }
    match &linux[linux.len() - 1] {
        PackageStep::Report(line) => assert_eq!(line, "AppImage written to /w/artifacts/cursor-optimizer-1.0.0-linux-x64.AppImage"),
        _ => panic!("unexpected step"),
    }
    let windows = packaging_plan("C:/w", "windows", "x86_64", "1.0.0", false);
    match &windows[1] {
        PackageStep::Run(program, arguments, _) => {
            assert_eq!(program, "cmd");
            assert_eq!(arguments, &vec!["/C".to_string(), "npm".to_string(), "ci".to_string()]);
        },
        _ => panic!("unexpected step"),
    }
    let mac = packaging_plan("/w", "macos", "aarch64", "1.0.0", true);
    assert_eq!(mac.len(), 6 + 5 + 10 + 3 + 5);
    match &mac[6 + 5] {
        PackageStep::Run(program, arguments, _) => {
            assert_eq!(program, "sips");
            assert_eq!(arguments[5], "/w/distributions/bundle/icon.iconset/icon_16x16.png");
        },
        _ => panic!("unexpected step"),
    }
    let other = packaging_plan("/w", "haiku", "x86_64", "1.0.0", true);
    match &other[other.len() - 1] {
        PackageStep::Fail(message) => assert_eq!(message, "unsupported operating system: haiku"),
        _ => panic!("unexpected step"),
    }
}

#[test]
fn folder_names_sort_without_regard_to_case() {
    let entries = vec![
        FolderEntry { name: "Zeta".to_string(), path: "/r/Zeta".to_string() },
        FolderEntry { name: "alpha".to_string(), path: "/r/alpha".to_string() },
        FolderEntry { name: "Émile".to_string(), path: "/r/Émile".to_string() },
        FolderEntry { name: "émile".to_string(), path: "/r/émile".to_string() },
    ];
    let sorted = sort_entries(entries);
    let names: Vec<&str> = sorted.iter().map(|e| e.name.as_str()).collect();
    assert_eq!(names, vec!["alpha", "Zeta", "Émile", "émile"]);
}

#[test]
fn windows_folders_walk_up_by_either_separator() {
    let w = TargetFamily::Windows;
    assert_eq!(walk_up(w, "C:\\Users\\me\\new"), Some(("new".to_string(), "C:\\Users\\me".to_string())));
    assert_eq!(walk_up(w, "C:/Users"), Some(("Users".to_string(), "C:/".to_string())));
    assert_eq!(walk_up(w, "C:\\"), None);
    assert_eq!(file_name_of(w, "C:\\a\\.."), None);
    assert_eq!(file_name_of(w, "\\\\server\\share"), None);
    let listing = directory_listing(w, "C:\\Users", Vec::new(), Vec::new(), Vec::new(), Vec::new());
    assert_eq!(listing.get("parentDirectory").and_then(Value::as_text), Some("C:\\"));
}

#[test]
fn file_names_skip_dot_components() {
    assert_eq!(file_name_of(TargetFamily::Unix, "/a/b/."), Some("b".to_string()));
    assert_eq!(file_name_of(TargetFamily::Unix, "foo.txt/.//"), Some("foo.txt".to_string()));
    assert_eq!(file_name_of(TargetFamily::Unix, "."), None);
    assert_eq!(walk_up(TargetFamily::Unix, "/a/b/."), Some(("b".to_string(), "/a".to_string())));
    assert_eq!(file_name_of(TargetFamily::Windows, "C:\\dir\\."), Some("dir".to_string()));
    assert_eq!(file_name_of(TargetFamily::Windows, "\\\\?\\C:\\dir\\."), None);
}

#[test]
fn a_walk_stops_at_the_nearest_folder_and_hands_back_the_names_below_it() {
    assert!(FolderWalk::start(None).is_none());
    assert!(FolderWalk::start(Some("   ")).is_none());
    let mut walk = FolderWalk::start(Some("/a/b/c")).unwrap();
    assert_eq!(walk.directory(), "/a/b/c");
    assert!(matches!(walk.step(TargetFamily::Unix, false), WalkOutcome::Continue));
    assert_eq!(walk.directory(), "/a/b");
    assert!(matches!(walk.step(TargetFamily::Unix, false), WalkOutcome::Continue));
    assert_eq!(walk.directory(), "/a");
    match walk.step(TargetFamily::Unix, true) {
        WalkOutcome::Found(directory, pending) => {
            assert_eq!(directory, "/a");
            assert_eq!(pending, vec!["b".to_string(), "c".to_string()]);
        }
        _ => panic!("the walk should end at /a"),
    }
}

#[test]
fn a_walk_with_no_folder_on_the_way_up_falls_back() {
    let mut walk = FolderWalk::start(Some("/x")).unwrap();
    assert!(matches!(walk.step(TargetFamily::Unix, false), WalkOutcome::Continue));
    assert_eq!(walk.directory(), "/");
    assert!(matches!(walk.step(TargetFamily::Unix, false), WalkOutcome::Fallback));
}
