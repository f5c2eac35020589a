use cursor_optimizer::paths::{
    application_data_directory, application_data_directory_in, base_data_directory, join, join_on, operation_journal_path,
    parent, parent_on, resolve_base_directory, Environment, Platform, TargetFamily,
};

fn text(value: &str) -> Option<String> {
    Some(value.to_string())
}

#[test]
fn windows_uses_local_app_data() {
    let base = resolve_base_directory(
        TargetFamily::Windows,
        text("C:/Users/example/AppData/Local"),
        text("/should/be/ignored"),
        text("/home/example"),
    );
    assert_eq!(base, text("C:/Users/example/AppData/Local"));
}

#[test]
fn windows_without_local_app_data_is_none() {
    let base = resolve_base_directory(TargetFamily::Windows, None, None, None);
    assert_eq!(base, None);
}

#[test]
fn unix_prefers_data_home() {
    let base = resolve_base_directory(
        TargetFamily::Unix,
        None,
        text("/home/example/.local/share"),
        text("/home/example"),
    );
    assert_eq!(base, text("/home/example/.local/share"));
}

#[test]
fn unix_falls_back_to_home_local_share() {
    let base = resolve_base_directory(TargetFamily::Unix, None, None, text("/home/example"));
    assert_eq!(base, text("/home/example/.local/share"));
}

#[test]
fn appends_application_directory_name() {
    let directory = application_data_directory_in(TargetFamily::Unix, "/data");
    assert_eq!(directory, format!("/data/{}", "CursorOptimizer"));
}

fn environment(platform: Platform) -> Environment {
    Environment {
        platform,
        local_app_data: None,
        roaming_app_data: None,
        data_home: None,
        config_home: None,
        home: None,
        user_profile: None,
        program_files: None,
        program_data: None,
        public: None,
        temp_directory: "/tmp".to_string(),
    }
}

#[test]
fn unix_without_home_uses_the_temporary_directory() {
    let env = environment(Platform::OtherUnix);
    assert_eq!(base_data_directory(&env), "/tmp");
    assert_eq!(application_data_directory(&env), "/tmp/CursorOptimizer");
}

#[test]
fn journal_lives_in_the_application_folder() {
    let mut env = environment(Platform::OtherUnix);
    env.home = text("/home/me");
    assert_eq!(operation_journal_path(&env), "/home/me/.local/share/CursorOptimizer/operation-journal.json");
}

#[test]
fn joining_follows_path_buf_rules() {
    assert_eq!(join("/a/", "b"), "/a/b");
    assert_eq!(join("", "b"), "b");
    assert_eq!(join("/a", "/b"), "/b");
}

#[test]
fn parents_of_paths() {
    assert_eq!(parent("/a/b/c"), text("/a/b"));
    assert_eq!(parent("/a"), text("/"));
    assert_eq!(parent("/"), None);
    assert_eq!(parent("a"), text(""));
    assert_eq!(parent("a//b/"), text("a"));
}

#[test]
fn windows_joins_follow_path_buf_rules() {
    let w = TargetFamily::Windows;
    assert_eq!(join_on(w, "C:\\Program Files", "CursorOptimizer"), "C:\\Program Files\\CursorOptimizer");
    assert_eq!(join_on(w, "C:\\Users\\", "me"), "C:\\Users\\me");
    assert_eq!(join_on(w, "C:/Users/", "me"), "C:/Users/me");
    assert_eq!(join_on(w, "C:", "me"), "C:me");
    assert_eq!(join_on(w, "", "me"), "me");
    assert_eq!(join_on(w, "C:\\a", "D:\\b"), "D:\\b");
    assert_eq!(join_on(w, "C:\\a\\b", "\\c"), "C:\\c");
    assert_eq!(join_on(w, "\\\\server\\share\\a", "\\c"), "\\\\server\\share\\c");
    assert_eq!(join_on(w, "\\\\server\\share", "x"), "\\\\server\\share\\x");
    assert_eq!(join_on(w, "a", "\\\\server\\share"), "\\\\server\\share");
    assert_eq!(join_on(TargetFamily::Unix, "/a", "b"), "/a/b");
    assert_eq!(parent_on(w, "C:\\Program Files\\CursorOptimizer\\uninstall.exe"), Some("C:\\Program Files\\CursorOptimizer".to_string()));
    assert_eq!(parent_on(w, "C:\\a"), Some("C:\\".to_string()));
    assert_eq!(parent_on(w, "C:\\"), None);
    assert_eq!(parent_on(w, "C:"), None);
    assert_eq!(parent_on(w, "C:a\\b"), Some("C:a".to_string()));
    assert_eq!(parent_on(w, "a"), Some(String::new()));
    assert_eq!(parent_on(w, "a/b//"), Some("a".to_string()));
    assert_eq!(parent_on(w, "\\\\server\\share\\x"), Some("\\\\server\\share\\".to_string()));
    assert_eq!(parent_on(w, "\\\\server\\share"), None);
    assert_eq!(parent_on(w, "\\\\?\\C:\\dir\\file"), Some("\\\\?\\C:\\dir".to_string()));
    assert_eq!(parent_on(w, ""), None);
}

#[test]
fn windows_data_directories_use_backslashes() {
    let env = Environment {
        platform: Platform::Windows,
        local_app_data: text("C:\\Users\\me\\AppData\\Local"),
        roaming_app_data: text("C:\\Users\\me\\AppData\\Roaming"),
        data_home: None,
        config_home: None,
        home: None,
        user_profile: text("C:\\Users\\me"),
        program_files: None,
        program_data: None,
        public: None,
        temp_directory: "C:\\Temp".to_string(),
    };
    assert_eq!(application_data_directory(&env), "C:\\Users\\me\\AppData\\Local\\CursorOptimizer");
    assert_eq!(
        operation_journal_path(&env),
        "C:\\Users\\me\\AppData\\Local\\CursorOptimizer\\operation-journal.json"
    );
    let locations = cursor_optimizer::locations::locate(&env).unwrap();
    assert_eq!(
        locations.state_database,
        "C:\\Users\\me\\AppData\\Roaming\\Cursor\\User\\globalStorage\\state.vscdb"
    );
}

#[test]
fn dot_components_are_ignored_as_std_path_does() {
    let u = TargetFamily::Unix;
    assert_eq!(parent("/a/b/."), Some("/a".to_string()));
    assert_eq!(parent("a/./b/"), Some("a".to_string()));
    assert_eq!(parent("./a"), Some(".".to_string()));
    assert_eq!(parent("."), Some(String::new()));
    assert_eq!(parent(".."), Some(String::new()));
    assert_eq!(parent("a//b"), Some("a".to_string()));
    assert_eq!(parent("/"), None);
    assert_eq!(parent(""), None);
    assert_eq!(parent_on(u, "/a/."), Some("/".to_string()));
    let w = TargetFamily::Windows;
    assert_eq!(parent_on(w, "C:\\a\\.\\b\\."), Some("C:\\a".to_string()));
    assert_eq!(parent_on(w, "C:."), None);
    assert_eq!(parent_on(w, "\\\\?\\C:\\a\\."), Some("\\\\?\\C:\\a".to_string()));
}
