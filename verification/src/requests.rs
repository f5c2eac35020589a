//! How the desktop application answers the requests of its page: which are
//! refused before they start, which task each action runs, and the small
//! documents it answers with.

use vstd::prelude::*;
use crate::json::{Json, Value, boolean, json_of_entries, member_flag, flag_member, push_member, text};
use crate::locations::CursorLocations;
use crate::numbers::{decimal_chars, decimal_text};
use crate::operations::{OperationAccess, classify_action, is_read_action, is_write_action, spec_classify_action};
use crate::paths::{Platform, family_of, opt_view, parent_on, parent_path_on, spec_family_of};
use crate::process::{ProcessCommand, command_view};
use crate::text::{text_equals, to_owned_text};

verus! {

/// Why a request that needs the database is refused without one.
pub open spec fn no_storage_message() -> Seq<char> {
    "Could not locate Cursor storage."@
}

/// Why a request that writes is refused while the editor runs.
pub open spec fn editor_running_message() -> Seq<char> {
    "Cursor is still running. Close it first."@
}

/// Why a deep clean is refused without a count of days.
pub open spec fn invalid_days_message() -> Seq<char> {
    "Please enter a valid number of days."@
}

/// Why a deep clean is refused with fewer than one day.
pub open spec fn too_few_days_message() -> Seq<char> {
    "Please enter at least 1 day."@
}

/// The count of days of a deep clean: given, and at least one.
pub open spec fn spec_read_days(days: Option<i64>) -> Result<i64, Seq<char>> {
    match days {
        None => Err(invalid_days_message()),
        Some(d) => if d < 1 {
            Err(too_few_days_message())
        } else {
            Ok(d)
        },
    }
}

/// The count of days of a deep clean (`days` is the request's number, where
/// it has one).
pub fn read_days(days: Option<i64>) -> (result: Result<i64, String>)
    ensures
        match spec_read_days(days) {
            Ok(d) => result == Ok::<i64, String>(d),
            Err(message) => result matches Err(found) && found@ == message,
        },
{
    match days {
        None => Err(to_owned_text("Please enter a valid number of days.")),
        Some(d) => if d < 1 {
            Err(to_owned_text("Please enter at least 1 day."))
        } else {
            Ok(d)
        },
    }
}

/// What happens to a request when it arrives.
pub enum Admission {
    /// It asks for the state of the running tasks.
    Status,
    /// It cancels another request.
    Cancel,
    /// It is refused at once, for the reason given.
    Refused(String),
    /// It may begin.
    Accepted,
}

pub enum AdmissionView {
    Status,
    Cancel,
    Refused(Seq<char>),
    Accepted,
}

pub open spec fn admission_view(admission: Admission) -> AdmissionView {
    match admission {
        Admission::Status => AdmissionView::Status,
        Admission::Cancel => AdmissionView::Cancel,
        Admission::Refused(message) => AdmissionView::Refused(message@),
        Admission::Accepted => AdmissionView::Accepted,
    }
}

/// The admission of a request: status and cancel requests are answered at
/// once; a request that touches the database needs its location; one that
/// writes needs the editor closed; a deep clean needs a valid count of days.
pub open spec fn spec_admission(
    action: Seq<char>,
    has_locations: bool,
    cursor_running: bool,
    days: Option<i64>,
) -> AdmissionView {
    let access = spec_classify_action(action);
    if action == "operationStatus"@ {
        AdmissionView::Status
    } else if action == "cancel"@ {
        AdmissionView::Cancel
    } else if access != OperationAccess::Neutral && !has_locations {
        AdmissionView::Refused(no_storage_message())
    } else if access == OperationAccess::Write && cursor_running {
        AdmissionView::Refused(editor_running_message())
    } else if action == "deepCleanRun"@ && spec_read_days(days) is Err {
        AdmissionView::Refused(too_few_days_message())
    } else {
        AdmissionView::Accepted
    }
}

/// Decides what happens to a request when it arrives.
pub fn admit_request(action: &str, has_locations: bool, cursor_running: bool, days: Option<i64>) -> (admission: Admission)
    ensures
        admission_view(admission) == spec_admission(action@, has_locations, cursor_running, days),
{
    if text_equals(action, "operationStatus") {
        return Admission::Status;
    }
    if text_equals(action, "cancel") {
        return Admission::Cancel;
    }
    let access = classify_action(action);
    if access != OperationAccess::Neutral && !has_locations {
        return Admission::Refused(to_owned_text("Could not locate Cursor storage."));
    }
    if access == OperationAccess::Write && cursor_running {
        return Admission::Refused(to_owned_text("Cursor is still running. Close it first."));
    }
    if text_equals(action, "deepCleanRun") && read_days(days).is_err() {
        return Admission::Refused(to_owned_text("Please enter at least 1 day."));
    }
    Admission::Accepted
}

/// The task an action runs.
#[derive(Clone, Copy, PartialEq, Eq, Debug, Structural)]
pub enum Task {
    Initialize,
    CursorStatus,
    QuickSummary,
    StorageEstimate,
    OpenDatabaseDirectory,
    RevealPath,
    BrowseDirectories,
    ForceQuitCursor,
    Overview,
    LightCleanAnalyze,
    LightCleanRun,
    DeepCleanAnalyze(i64),
    DeepCleanRun(i64),
    ToolIntegrityCheck,
    ToolCheckpoint,
    ToolVacuum,
    ToolAnalyze,
    ToolFlushDatabase,
    ToolBackup,
    RecoverOperations,
}

/// A task that needs the database's location.
pub open spec fn with_locations(task: Task, has_locations: bool) -> Result<Task, Seq<char>> {
    if has_locations {
        Ok(task)
    } else {
        Err(no_storage_message())
    }
}

/// A task that writes: it needs the editor closed, then the location.
pub open spec fn closed_with_locations(task: Task, has_locations: bool, cursor_running: bool) -> Result<Task, Seq<char>> {
    if cursor_running {
        Err(editor_running_message())
    } else {
        with_locations(task, has_locations)
    }
}

/// The task an action runs, or why it does not run, checked in the order
/// the application checks: the editor first, then the days, then the
/// location.
pub open spec fn spec_plan(action: Seq<char>, has_locations: bool, cursor_running: bool, days: Option<i64>) -> Result<Task, Seq<char>> {
    if action == "initialize"@ {
        Ok(Task::Initialize)
    } else if action == "cursorStatus"@ {
        Ok(Task::CursorStatus)
    } else if action == "quickSummary"@ {
        with_locations(Task::QuickSummary, has_locations)
    } else if action == "storageEstimate"@ {
        with_locations(Task::StorageEstimate, has_locations)
    } else if action == "openDatabaseDirectory"@ {
        with_locations(Task::OpenDatabaseDirectory, has_locations)
    } else if action == "revealPath"@ {
        Ok(Task::RevealPath)
    } else if action == "browseDirectories"@ {
        with_locations(Task::BrowseDirectories, has_locations)
    } else if action == "forceQuitCursor"@ {
        Ok(Task::ForceQuitCursor)
    } else if action == "overview"@ {
        with_locations(Task::Overview, has_locations)
    } else if action == "lightCleanAnalyze"@ {
        with_locations(Task::LightCleanAnalyze, has_locations)
    } else if action == "lightCleanRun"@ {
        closed_with_locations(Task::LightCleanRun, has_locations, cursor_running)
    } else if action == "deepCleanAnalyze"@ {
        match spec_read_days(days) {
            Ok(d) => with_locations(Task::DeepCleanAnalyze(d), has_locations),
            Err(message) => Err(message),
        }
    } else if action == "deepCleanRun"@ {
        if cursor_running {
            Err(editor_running_message())
        } else {
            match spec_read_days(days) {
                Ok(d) => with_locations(Task::DeepCleanRun(d), has_locations),
                Err(message) => Err(message),
            }
        }
    } else if action == "toolIntegrityCheck"@ {
        with_locations(Task::ToolIntegrityCheck, has_locations)
    } else if action == "toolCheckpoint"@ {
        closed_with_locations(Task::ToolCheckpoint, has_locations, cursor_running)
    } else if action == "toolVacuum"@ {
        closed_with_locations(Task::ToolVacuum, has_locations, cursor_running)
    } else if action == "toolAnalyze"@ {
        closed_with_locations(Task::ToolAnalyze, has_locations, cursor_running)
    } else if action == "toolFlushDatabase"@ {
        closed_with_locations(Task::ToolFlushDatabase, has_locations, cursor_running)
    } else if action == "toolBackup"@ {
        with_locations(Task::ToolBackup, has_locations)
    } else if action == "recoverOperations"@ {
        closed_with_locations(Task::RecoverOperations, has_locations, cursor_running)
    } else {
        Err("Unrecognized request: "@ + action)
    }
}

fn located(task: Task, has_locations: bool) -> (planned: Result<Task, String>)
    ensures
        match with_locations(task, has_locations) {
            Ok(t) => planned == Ok::<Task, String>(t),
            Err(message) => planned matches Err(found) && found@ == message,
        },
{
    if has_locations {
        Ok(task)
    } else {
        Err(to_owned_text("Could not locate Cursor storage."))
    }
}

fn closed_and_located(task: Task, has_locations: bool, cursor_running: bool) -> (planned: Result<Task, String>)
    ensures
        match closed_with_locations(task, has_locations, cursor_running) {
            Ok(t) => planned == Ok::<Task, String>(t),
            Err(message) => planned matches Err(found) && found@ == message,
        },
{
    if cursor_running {
        Err(to_owned_text("Cursor is still running. Close it first."))
    } else {
        located(task, has_locations)
    }
}

/// The task an action runs, or why it does not run.
pub fn plan_action(action: &str, has_locations: bool, cursor_running: bool, days: Option<i64>) -> (planned: Result<Task, String>)
    ensures
        match spec_plan(action@, has_locations, cursor_running, days) {
            Ok(t) => planned == Ok::<Task, String>(t),
            Err(message) => planned matches Err(found) && found@ == message,
        },
{
    if text_equals(action, "initialize") {
        Ok(Task::Initialize)
    } else if text_equals(action, "cursorStatus") {
        Ok(Task::CursorStatus)
    } else if text_equals(action, "quickSummary") {
        located(Task::QuickSummary, has_locations)
    } else if text_equals(action, "storageEstimate") {
        located(Task::StorageEstimate, has_locations)
    } else if text_equals(action, "openDatabaseDirectory") {
        located(Task::OpenDatabaseDirectory, has_locations)
    } else if text_equals(action, "revealPath") {
        Ok(Task::RevealPath)
    } else if text_equals(action, "browseDirectories") {
        located(Task::BrowseDirectories, has_locations)
    } else if text_equals(action, "forceQuitCursor") {
        Ok(Task::ForceQuitCursor)
    } else if text_equals(action, "overview") {
        located(Task::Overview, has_locations)
    } else if text_equals(action, "lightCleanAnalyze") {
        located(Task::LightCleanAnalyze, has_locations)
    } else if text_equals(action, "lightCleanRun") {
        closed_and_located(Task::LightCleanRun, has_locations, cursor_running)
    } else if text_equals(action, "deepCleanAnalyze") {
        match read_days(days) {
            Ok(d) => located(Task::DeepCleanAnalyze(d), has_locations),
            Err(message) => Err(message),
        }
    } else if text_equals(action, "deepCleanRun") {
        if cursor_running {
            Err(to_owned_text("Cursor is still running. Close it first."))
        } else {
            match read_days(days) {
                Ok(d) => located(Task::DeepCleanRun(d), has_locations),
                Err(message) => Err(message),
            }
        }
    } else if text_equals(action, "toolIntegrityCheck") {
        located(Task::ToolIntegrityCheck, has_locations)
    } else if text_equals(action, "toolCheckpoint") {
        closed_and_located(Task::ToolCheckpoint, has_locations, cursor_running)
    } else if text_equals(action, "toolVacuum") {
        closed_and_located(Task::ToolVacuum, has_locations, cursor_running)
    } else if text_equals(action, "toolAnalyze") {
        closed_and_located(Task::ToolAnalyze, has_locations, cursor_running)
    } else if text_equals(action, "toolFlushDatabase") {
        closed_and_located(Task::ToolFlushDatabase, has_locations, cursor_running)
    } else if text_equals(action, "toolBackup") {
        located(Task::ToolBackup, has_locations)
    } else if text_equals(action, "recoverOperations") {
        closed_and_located(Task::RecoverOperations, has_locations, cursor_running)
    } else {
        let mut message = to_owned_text("Unrecognized request: ");
        message.append(action);
        Err(message)
    }
}

pub open spec fn failure_json(message: Seq<char>) -> Json {
    Json::Object(seq![("message"@, Json::Text(message))])
}

/// The answer to a request that failed.
pub fn failure_payload(message: &str) -> (value: Value)
    ensures
        value@ == failure_json(message@),
{
    let mut members: Vec<(String, Value)> = Vec::new();
    push_member(&mut members, "message", text(message));
    assert(json_of_entries(members@) =~= failure_json(message@)->Object_0);
    Value::Object(members)
}

/// Why a recovery stops after its integrity check.
pub open spec fn recovery_refusal() -> Seq<char> {
    "Recovery could not complete automatically. Please try again."@
}

/// A recovery goes on only when the integrity check says `healthy: true`.
pub fn recovery_may_continue(integrity: &Value) -> (outcome: Result<(), String>)
    ensures
        member_flag(*integrity, "healthy"@) == Some(true) ==> outcome is Ok,
        member_flag(*integrity, "healthy"@) != Some(true) ==> (outcome matches Err(message) && message@
            == recovery_refusal()),
{
    match flag_member(integrity, "healthy") {
        Some(true) => Ok(()),
        _ => Err(to_owned_text("Recovery could not complete automatically. Please try again.")),
    }
}

pub open spec fn recovery_json(integrity: Json, checkpoint: Json, vacuum: Json) -> Json {
    Json::Object(seq![("integrity"@, integrity), ("checkpoint"@, checkpoint), ("vacuum"@, vacuum)])
}

/// The outcome of a recovery: the outcomes of its three steps.
pub fn recovery_report(integrity: Value, checkpoint: Value, vacuum: Value) -> (value: Value)
    ensures
        value@ == recovery_json(integrity@, checkpoint@, vacuum@),
{
    let ghost views = (integrity@, checkpoint@, vacuum@);
    let mut members: Vec<(String, Value)> = Vec::new();
    push_member(&mut members, "integrity", integrity);
    push_member(&mut members, "checkpoint", checkpoint);
    push_member(&mut members, "vacuum", vacuum);
    assert(json_of_entries(members@) =~= recovery_json(views.0, views.1, views.2)->Object_0);
    Value::Object(members)
}

/// The fingerprint by which the page notices that the database changed:
/// `<bytes>:<modified ms>`, `0:0` when its metadata cannot be read, empty
/// without a database location.
pub open spec fn spec_fingerprint(has_locations: bool, metadata: Option<(u64, u128)>) -> Seq<char> {
    if !has_locations {
        Seq::empty()
    } else {
        match metadata {
            Some((bytes, modified)) => decimal_chars(bytes as nat) + seq![':'] + decimal_chars(modified as nat),
            None => "0:0"@,
        }
    }
}

/// The database's fingerprint.
pub fn database_fingerprint(has_locations: bool, metadata: Option<(u64, u128)>) -> (fingerprint: String)
    ensures
        fingerprint@ == spec_fingerprint(has_locations, metadata),
{
    if !has_locations {
        return String::new();
    }
    let (bytes, modified) = match metadata {
        Some(m) => m,
        None => (0u64, 0u128),
    };
    let mut fingerprint = decimal_text(bytes as u128);
    fingerprint.append(":");
    fingerprint.append(decimal_text(modified).as_str());
    proof {
        reveal_strlit(":");
        assert(":"@ =~= seq![':']);
        if metadata is None {
            reveal_strlit("0:0");
            assert(decimal_chars(0) =~= seq!['0']);
        }
    }
    fingerprint
}

pub open spec fn cursor_status_json(cursor_running: bool, write_ahead_log_present: bool, fingerprint: Seq<char>) -> Json {
    Json::Object(
        seq![
            ("cursorRunning"@, Json::Boolean(cursor_running)),
            ("writeAheadLogPresent"@, Json::Boolean(write_ahead_log_present)),
            ("databaseFingerprint"@, Json::Text(fingerprint)),
        ],
    )
}

/// Whether the editor runs, whether a write-ahead log waits, and the
/// database's fingerprint.
pub fn cursor_status(cursor_running: bool, write_ahead_log_present: bool, fingerprint: &str) -> (value: Value)
    ensures
        value@ == cursor_status_json(cursor_running, write_ahead_log_present, fingerprint@),
{
    let mut members: Vec<(String, Value)> = Vec::new();
    push_member(&mut members, "cursorRunning", boolean(cursor_running));
    push_member(&mut members, "writeAheadLogPresent", boolean(write_ahead_log_present));
    push_member(&mut members, "databaseFingerprint", text(fingerprint));
    assert(json_of_entries(members@) =~= cursor_status_json(cursor_running, write_ahead_log_present, fingerprint@)->Object_0);
    Value::Object(members)
}

pub open spec fn initialize_json(
    locations: Option<(Seq<char>, Seq<char>)>,
    database_exists: bool,
    cursor_running: bool,
    version: Seq<char>,
) -> Json {
    match locations {
        Some((database, base)) => Json::Object(
            seq![
                ("databasePath"@, Json::Text(database)),
                ("baseDirectory"@, Json::Text(base)),
                ("databaseExists"@, Json::Boolean(database_exists)),
                ("cursorRunning"@, Json::Boolean(cursor_running)),
                ("version"@, Json::Text(version)),
            ],
        ),
        None => Json::Object(
            seq![
                ("databasePath"@, Json::Null),
                ("baseDirectory"@, Json::Null),
                ("databaseExists"@, Json::Boolean(false)),
                ("cursorRunning"@, Json::Boolean(cursor_running)),
                ("version"@, Json::Text(version)),
            ],
        ),
    }
}

pub open spec fn location_paths(locations: Option<&CursorLocations>) -> Option<(Seq<char>, Seq<char>)> {
    match locations {
        Some(l) => Some((l.state_database@, l.base_directory@)),
        None => None,
    }
}

/// What the page learns when it starts: where the database is, whether it
/// exists, whether the editor runs, and the application's version.
pub fn initialize_response(
    locations: Option<&CursorLocations>,
    database_exists: bool,
    cursor_running: bool,
    version: &str,
) -> (value: Value)
    ensures
        value@ == initialize_json(location_paths(locations), database_exists, cursor_running, version@),
{
    let mut members: Vec<(String, Value)> = Vec::new();
    match locations {
        Some(l) => {
            push_member(&mut members, "databasePath", text(l.state_database.as_str()));
            push_member(&mut members, "baseDirectory", text(l.base_directory.as_str()));
            push_member(&mut members, "databaseExists", boolean(database_exists));
        },
        None => {
            push_member(&mut members, "databasePath", Value::Null);
            push_member(&mut members, "baseDirectory", Value::Null);
            push_member(&mut members, "databaseExists", boolean(false));
        },
    }
    push_member(&mut members, "cursorRunning", boolean(cursor_running));
    push_member(&mut members, "version", text(version));
    assert(json_of_entries(members@) =~= initialize_json(
        location_paths(locations),
        database_exists,
        cursor_running,
        version@,
    )->Object_0);
    Value::Object(members)
}

fn single_command(program: &str, argument: String) -> (made: ProcessCommand)
    ensures
        command_view(made) == (program@, seq![argument@]),
{
    let made = ProcessCommand { program: to_owned_text(program), arguments: vec![argument] };
    assert(command_view(made).1 =~= seq![argument@]);
    made
}

fn pair_command(program: &str, first: &str, second: String) -> (made: ProcessCommand)
    ensures
        command_view(made) == (program@, seq![first@, second@]),
{
    let made = ProcessCommand { program: to_owned_text(program), arguments: vec![to_owned_text(first), second] };
    assert(command_view(made).1 =~= seq![first@, second@]);
    made
}

/// How the file manager is asked to show the database: selected in
/// Explorer on Windows, revealed in Finder on macOS, its folder opened
/// elsewhere.
pub open spec fn spec_show_database_command(platform: Platform, locations: CursorLocations) -> (Seq<char>, Seq<Seq<char>>) {
    match platform {
        Platform::Windows => ("explorer"@, seq!["/select,"@ + locations.state_database@]),
        Platform::MacOs => ("open"@, seq!["-R"@, locations.state_database@]),
        _ => ("xdg-open"@, seq![locations.global_storage_directory@]),
    }
}

/// The command that shows the database in the file manager.
pub fn show_database_command(platform: Platform, locations: &CursorLocations) -> (made: ProcessCommand)
    ensures
        command_view(made) == spec_show_database_command(platform, *locations),
{
    match platform {
        Platform::Windows => {
            let mut argument = to_owned_text("/select,");
            argument.append(locations.state_database.as_str());
            single_command("explorer", argument)
        },
        Platform::MacOs => pair_command("open", "-R", to_owned_text(locations.state_database.as_str())),
        _ => single_command("xdg-open", to_owned_text(locations.global_storage_directory.as_str())),
    }
}

/// The folder that holds `path` on `platform`, which is shown when `path`
/// is not a file.
pub fn reveal_parent(platform: Platform, path: &str) -> (directory: Option<String>)
    ensures
        opt_view(directory) == parent_path_on(spec_family_of(platform), path@),
{
    parent_on(family_of(platform), path)
}

/// How a path is shown: a file selected in Explorer or revealed in Finder;
/// otherwise its folder opened, when that folder exists; Linux only ever
/// opens the folder.
pub open spec fn spec_reveal_command(
    platform: Platform,
    path: Seq<char>,
    is_file: bool,
    parent_is_directory: bool,
) -> Option<(Seq<char>, Seq<Seq<char>>)> {
    let folder = match parent_path_on(spec_family_of(platform), path) {
        Some(p) => if parent_is_directory { Some(p) } else { None },
        None => None,
    };
    match platform {
        Platform::Windows => if is_file {
            Some(("explorer"@, seq!["/select,"@ + path]))
        } else {
            match folder {
                Some(p) => Some(("explorer"@, seq![p])),
                None => None,
            }
        },
        Platform::MacOs => if is_file {
            Some(("open"@, seq!["-R"@, path]))
        } else {
            match folder {
                Some(p) => Some(("open"@, seq![p])),
                None => None,
            }
        },
        _ => match folder {
            Some(p) => Some(("xdg-open"@, seq![p])),
            None => None,
        },
    }
}

pub open spec fn opt_command_view(command: Option<ProcessCommand>) -> Option<(Seq<char>, Seq<Seq<char>>)> {
    match command {
        Some(c) => Some(command_view(c)),
        None => None,
    }
}

/// The command that shows `path`, given whether it is a file and whether
/// the folder `reveal_parent` names exists; `None` when nothing is shown.
pub fn reveal_command(platform: Platform, path: &str, is_file: bool, parent_is_directory: bool) -> (made: Option<ProcessCommand>)
    ensures
        opt_command_view(made) == spec_reveal_command(platform, path@, is_file, parent_is_directory),
{
    let folder = match parent_on(family_of(platform), path) {
        Some(p) => if parent_is_directory {
            Some(p)
        } else {
            None
        },
        None => None,
    };
    match platform {
        Platform::Windows => if is_file {
            let mut argument = to_owned_text("/select,");
            argument.append(path);
            Some(single_command("explorer", argument))
        } else {
            match folder {
                Some(p) => Some(single_command("explorer", p)),
                None => None,
            }
        },
        Platform::MacOs => if is_file {
            Some(pair_command("open", "-R", to_owned_text(path)))
        } else {
            match folder {
                Some(p) => Some(single_command("open", p)),
                None => None,
            }
        },
        _ => match folder {
            Some(p) => Some(single_command("xdg-open", p)),
            None => None,
        },
    }
}

/// Whether a task changes the database.
pub open spec fn writes_database(task: Task) -> bool {
    match task {
        Task::LightCleanRun | Task::DeepCleanRun(_) | Task::ToolCheckpoint | Task::ToolVacuum | Task::ToolAnalyze
        | Task::ToolFlushDatabase | Task::RecoverOperations => true,
        _ => false,
    }
}

/// Reads are never held back by a running editor: whether the editor runs
/// changes nothing in how a request that does not write is admitted.
pub proof fn law_reads_never_wait_for_the_editor(action: Seq<char>, has_locations: bool, days: Option<i64>)
    requires
        spec_classify_action(action) != OperationAccess::Write,
    ensures
        spec_admission(action, has_locations, true, days) == spec_admission(action, has_locations, false, days),
{
}

/// A write is refused while the editor runs, with the reason given.
pub proof fn law_writes_wait_for_the_editor(action: Seq<char>, days: Option<i64>)
    requires
        spec_classify_action(action) == OperationAccess::Write,
    ensures
        spec_admission(action, true, true, days) == AdmissionView::Refused(editor_running_message()),
{
    reveal_strlit("operationStatus");
    reveal_strlit("cancel");
    reveal_strlit("lightCleanRun");
    reveal_strlit("deepCleanRun");
    reveal_strlit("toolCheckpoint");
    reveal_strlit("toolVacuum");
    reveal_strlit("toolAnalyze");
    reveal_strlit("toolFlushDatabase");
    reveal_strlit("recoverOperations");
    assert(action.len() != "operationStatus"@.len());
    assert(action.len() != "cancel"@.len());
    assert(action != "operationStatus"@);
    assert(action != "cancel"@);
}

/// No task that changes the database is planned while the editor runs.
pub proof fn law_no_write_while_the_editor_runs(action: Seq<char>, has_locations: bool, days: Option<i64>)
    ensures
        spec_plan(action, has_locations, true, days) matches Ok(task) ==> !writes_database(task),
{
}

/// A deep clean only runs over at least one day.
pub proof fn law_deep_clean_keeps_a_day(action: Seq<char>, has_locations: bool, cursor_running: bool, days: Option<i64>)
    ensures
        spec_plan(action, has_locations, cursor_running, days) matches Ok(Task::DeepCleanRun(d)) ==> d >= 1,
        spec_plan(action, has_locations, cursor_running, days) matches Ok(Task::DeepCleanAnalyze(d)) ==> d >= 1,
{
}

/// Whether a task reads the database without changing it.
pub open spec fn reads_database(task: Task) -> bool {
    match task {
        Task::Overview | Task::LightCleanAnalyze | Task::DeepCleanAnalyze(_) | Task::ToolIntegrityCheck
        | Task::ToolBackup | Task::QuickSummary | Task::StorageEstimate => true,
        _ => false,
    }
}

/// How an action is coordinated follows from what its task does to the
/// database: an action whose task changes the database is a write (it runs
/// alone, journaled, and waits for the editor), one whose task only reads
/// it is a read, and every other action, or one that is not recognised, is
/// neither.
#[verifier::spinoff_prover]
pub proof fn law_access_follows_the_task(action: Seq<char>, days: Option<i64>)
    ensures
        spec_plan(action, true, false, days) matches Ok(task) ==> ((writes_database(task) <==> spec_classify_action(
            action,
        ) == OperationAccess::Write) && (reads_database(task) <==> spec_classify_action(action)
            == OperationAccess::Read)),
        spec_plan(action, true, false, Some(1)) is Err ==> spec_classify_action(action) == OperationAccess::Neutral,
{
    reveal_strlit("initialize");
    reveal_strlit("cursorStatus");
    reveal_strlit("quickSummary");
    reveal_strlit("storageEstimate");
    reveal_strlit("openDatabaseDirectory");
    reveal_strlit("revealPath");
    reveal_strlit("browseDirectories");
    reveal_strlit("forceQuitCursor");
    reveal_strlit("overview");
    reveal_strlit("lightCleanAnalyze");
    reveal_strlit("lightCleanRun");
    reveal_strlit("deepCleanAnalyze");
    reveal_strlit("deepCleanRun");
    reveal_strlit("toolIntegrityCheck");
    reveal_strlit("toolCheckpoint");
    reveal_strlit("toolVacuum");
    reveal_strlit("toolAnalyze");
    reveal_strlit("toolFlushDatabase");
    reveal_strlit("toolBackup");
    reveal_strlit("recoverOperations");
    if action == "initialize"@ {
        assert("initialize"@.len() != "deepCleanAnalyze"@.len());
        assert("initialize"@.len() != "deepCleanRun"@.len());
        assert("initialize"@.len() != "lightCleanAnalyze"@.len());
        assert("initialize"@.len() != "lightCleanRun"@.len());
        assert("initialize"@.len() != "overview"@.len());
        assert("initialize"@.len() != "quickSummary"@.len());
        assert("initialize"@.len() != "recoverOperations"@.len());
        assert("initialize"@.len() != "storageEstimate"@.len());
        assert("initialize"@.len() != "toolAnalyze"@.len());
        assert("initialize"@[0] != "toolBackup"@[0]);
        assert("initialize"@.len() != "toolCheckpoint"@.len());
        assert("initialize"@.len() != "toolFlushDatabase"@.len());
        assert("initialize"@.len() != "toolIntegrityCheck"@.len());
        assert("initialize"@[0] != "toolVacuum"@[0]);
        assert(spec_classify_action(action) == OperationAccess::Neutral);
    } else if action == "cursorStatus"@ {
        assert("cursorStatus"@.len() != "deepCleanAnalyze"@.len());
        assert("cursorStatus"@[0] != "deepCleanRun"@[0]);
        assert("cursorStatus"@.len() != "lightCleanAnalyze"@.len());
        assert("cursorStatus"@.len() != "lightCleanRun"@.len());
        assert("cursorStatus"@.len() != "overview"@.len());
        assert("cursorStatus"@[0] != "quickSummary"@[0]);
        assert("cursorStatus"@.len() != "recoverOperations"@.len());
        assert("cursorStatus"@.len() != "storageEstimate"@.len());
        assert("cursorStatus"@.len() != "toolAnalyze"@.len());
        assert("cursorStatus"@.len() != "toolBackup"@.len());
        assert("cursorStatus"@.len() != "toolCheckpoint"@.len());
        assert("cursorStatus"@.len() != "toolFlushDatabase"@.len());
        assert("cursorStatus"@.len() != "toolIntegrityCheck"@.len());
        assert("cursorStatus"@.len() != "toolVacuum"@.len());
        assert(spec_classify_action(action) == OperationAccess::Neutral);
    } else if action == "quickSummary"@ {
        assert("quickSummary"@.len() != "deepCleanAnalyze"@.len());
        assert("quickSummary"@.len() != "lightCleanAnalyze"@.len());
        assert("quickSummary"@.len() != "overview"@.len());
        assert("quickSummary"@.len() != "storageEstimate"@.len());
        assert("quickSummary"@.len() != "toolBackup"@.len());
        assert("quickSummary"@.len() != "toolIntegrityCheck"@.len());
        assert(spec_classify_action(action) == OperationAccess::Read);
    } else if action == "storageEstimate"@ {
        assert("storageEstimate"@.len() != "deepCleanAnalyze"@.len());
        assert("storageEstimate"@.len() != "lightCleanAnalyze"@.len());
        assert("storageEstimate"@.len() != "overview"@.len());
        assert("storageEstimate"@.len() != "quickSummary"@.len());
        assert("storageEstimate"@.len() != "toolBackup"@.len());
        assert("storageEstimate"@.len() != "toolIntegrityCheck"@.len());
        assert(spec_classify_action(action) == OperationAccess::Read);
    } else if action == "openDatabaseDirectory"@ {
        assert("openDatabaseDirectory"@.len() != "deepCleanAnalyze"@.len());
        assert("openDatabaseDirectory"@.len() != "deepCleanRun"@.len());
        assert("openDatabaseDirectory"@.len() != "lightCleanAnalyze"@.len());
        assert("openDatabaseDirectory"@.len() != "lightCleanRun"@.len());
        assert("openDatabaseDirectory"@.len() != "overview"@.len());
        assert("openDatabaseDirectory"@.len() != "quickSummary"@.len());
        assert("openDatabaseDirectory"@.len() != "recoverOperations"@.len());
        assert("openDatabaseDirectory"@.len() != "storageEstimate"@.len());
        assert("openDatabaseDirectory"@.len() != "toolAnalyze"@.len());
        assert("openDatabaseDirectory"@.len() != "toolBackup"@.len());
        assert("openDatabaseDirectory"@.len() != "toolCheckpoint"@.len());
        assert("openDatabaseDirectory"@.len() != "toolFlushDatabase"@.len());
        assert("openDatabaseDirectory"@.len() != "toolIntegrityCheck"@.len());
        assert("openDatabaseDirectory"@.len() != "toolVacuum"@.len());
        assert(spec_classify_action(action) == OperationAccess::Neutral);
    } else if action == "revealPath"@ {
        assert("revealPath"@.len() != "deepCleanAnalyze"@.len());
        assert("revealPath"@.len() != "deepCleanRun"@.len());
        assert("revealPath"@.len() != "lightCleanAnalyze"@.len());
        assert("revealPath"@.len() != "lightCleanRun"@.len());
        assert("revealPath"@.len() != "overview"@.len());
        assert("revealPath"@.len() != "quickSummary"@.len());
        assert("revealPath"@.len() != "recoverOperations"@.len());
        assert("revealPath"@.len() != "storageEstimate"@.len());
        assert("revealPath"@.len() != "toolAnalyze"@.len());
        assert("revealPath"@[0] != "toolBackup"@[0]);
        assert("revealPath"@.len() != "toolCheckpoint"@.len());
        assert("revealPath"@.len() != "toolFlushDatabase"@.len());
        assert("revealPath"@.len() != "toolIntegrityCheck"@.len());
        assert("revealPath"@[0] != "toolVacuum"@[0]);
        assert(spec_classify_action(action) == OperationAccess::Neutral);
    } else if action == "browseDirectories"@ {
        assert("browseDirectories"@.len() != "deepCleanAnalyze"@.len());
        assert("browseDirectories"@.len() != "deepCleanRun"@.len());
        assert("browseDirectories"@[0] != "lightCleanAnalyze"@[0]);
        assert("browseDirectories"@.len() != "lightCleanRun"@.len());
        assert("browseDirectories"@.len() != "overview"@.len());
        assert("browseDirectories"@.len() != "quickSummary"@.len());
        assert("browseDirectories"@[0] != "recoverOperations"@[0]);
        assert("browseDirectories"@.len() != "storageEstimate"@.len());
        assert("browseDirectories"@.len() != "toolAnalyze"@.len());
        assert("browseDirectories"@.len() != "toolBackup"@.len());
        assert("browseDirectories"@.len() != "toolCheckpoint"@.len());
        assert("browseDirectories"@[0] != "toolFlushDatabase"@[0]);
        assert("browseDirectories"@.len() != "toolIntegrityCheck"@.len());
        assert("browseDirectories"@.len() != "toolVacuum"@.len());
        assert(spec_classify_action(action) == OperationAccess::Neutral);
    } else if action == "forceQuitCursor"@ {
        assert("forceQuitCursor"@.len() != "deepCleanAnalyze"@.len());
        assert("forceQuitCursor"@.len() != "deepCleanRun"@.len());
        assert("forceQuitCursor"@.len() != "lightCleanAnalyze"@.len());
        assert("forceQuitCursor"@.len() != "lightCleanRun"@.len());
        assert("forceQuitCursor"@.len() != "overview"@.len());
        assert("forceQuitCursor"@.len() != "quickSummary"@.len());
        assert("forceQuitCursor"@.len() != "recoverOperations"@.len());
        assert("forceQuitCursor"@[0] != "storageEstimate"@[0]);
        assert("forceQuitCursor"@.len() != "toolAnalyze"@.len());
        assert("forceQuitCursor"@.len() != "toolBackup"@.len());
        assert("forceQuitCursor"@.len() != "toolCheckpoint"@.len());
        assert("forceQuitCursor"@.len() != "toolFlushDatabase"@.len());
        assert("forceQuitCursor"@.len() != "toolIntegrityCheck"@.len());
        assert("forceQuitCursor"@.len() != "toolVacuum"@.len());
        assert(spec_classify_action(action) == OperationAccess::Neutral);
    } else if action == "overview"@ {
        assert("overview"@.len() != "deepCleanAnalyze"@.len());
        assert("overview"@.len() != "lightCleanAnalyze"@.len());
        assert("overview"@.len() != "quickSummary"@.len());
        assert("overview"@.len() != "storageEstimate"@.len());
        assert("overview"@.len() != "toolBackup"@.len());
        assert("overview"@.len() != "toolIntegrityCheck"@.len());
        assert(spec_classify_action(action) == OperationAccess::Read);
    } else if action == "lightCleanAnalyze"@ {
        assert("lightCleanAnalyze"@.len() != "deepCleanAnalyze"@.len());
        assert("lightCleanAnalyze"@.len() != "overview"@.len());
        assert("lightCleanAnalyze"@.len() != "quickSummary"@.len());
        assert("lightCleanAnalyze"@.len() != "storageEstimate"@.len());
        assert("lightCleanAnalyze"@.len() != "toolBackup"@.len());
        assert("lightCleanAnalyze"@.len() != "toolIntegrityCheck"@.len());
        assert(spec_classify_action(action) == OperationAccess::Read);
    } else if action == "lightCleanRun"@ {
        assert("lightCleanRun"@.len() != "deepCleanAnalyze"@.len());
        assert("lightCleanRun"@.len() != "deepCleanRun"@.len());
        assert("lightCleanRun"@.len() != "lightCleanAnalyze"@.len());
        assert("lightCleanRun"@.len() != "overview"@.len());
        assert("lightCleanRun"@.len() != "quickSummary"@.len());
        assert("lightCleanRun"@.len() != "recoverOperations"@.len());
        assert("lightCleanRun"@.len() != "storageEstimate"@.len());
        assert("lightCleanRun"@.len() != "toolAnalyze"@.len());
        assert("lightCleanRun"@.len() != "toolBackup"@.len());
        assert("lightCleanRun"@.len() != "toolCheckpoint"@.len());
        assert("lightCleanRun"@.len() != "toolFlushDatabase"@.len());
        assert("lightCleanRun"@.len() != "toolIntegrityCheck"@.len());
        assert("lightCleanRun"@.len() != "toolVacuum"@.len());
        assert(spec_classify_action(action) == OperationAccess::Write);
    } else if action == "deepCleanAnalyze"@ {
        assert("deepCleanAnalyze"@.len() != "lightCleanAnalyze"@.len());
        assert("deepCleanAnalyze"@.len() != "overview"@.len());
        assert("deepCleanAnalyze"@.len() != "quickSummary"@.len());
        assert("deepCleanAnalyze"@.len() != "storageEstimate"@.len());
        assert("deepCleanAnalyze"@.len() != "toolBackup"@.len());
        assert("deepCleanAnalyze"@.len() != "toolIntegrityCheck"@.len());
        assert(spec_classify_action(action) == OperationAccess::Read);
    } else if action == "deepCleanRun"@ {
        assert("deepCleanRun"@.len() != "deepCleanAnalyze"@.len());
        assert("deepCleanRun"@.len() != "lightCleanAnalyze"@.len());
        assert("deepCleanRun"@.len() != "lightCleanRun"@.len());
        assert("deepCleanRun"@.len() != "overview"@.len());
        assert("deepCleanRun"@[0] != "quickSummary"@[0]);
        assert("deepCleanRun"@.len() != "recoverOperations"@.len());
        assert("deepCleanRun"@.len() != "storageEstimate"@.len());
        assert("deepCleanRun"@.len() != "toolAnalyze"@.len());
        assert("deepCleanRun"@.len() != "toolBackup"@.len());
        assert("deepCleanRun"@.len() != "toolCheckpoint"@.len());
        assert("deepCleanRun"@.len() != "toolFlushDatabase"@.len());
        assert("deepCleanRun"@.len() != "toolIntegrityCheck"@.len());
        assert("deepCleanRun"@.len() != "toolVacuum"@.len());
        assert(spec_classify_action(action) == OperationAccess::Write);
    } else if action == "toolIntegrityCheck"@ {
        assert("toolIntegrityCheck"@.len() != "deepCleanAnalyze"@.len());
        assert("toolIntegrityCheck"@.len() != "lightCleanAnalyze"@.len());
        assert("toolIntegrityCheck"@.len() != "overview"@.len());
        assert("toolIntegrityCheck"@.len() != "quickSummary"@.len());
        assert("toolIntegrityCheck"@.len() != "storageEstimate"@.len());
        assert("toolIntegrityCheck"@.len() != "toolBackup"@.len());
        assert(spec_classify_action(action) == OperationAccess::Read);
    } else if action == "toolCheckpoint"@ {
        assert("toolCheckpoint"@.len() != "deepCleanAnalyze"@.len());
        assert("toolCheckpoint"@.len() != "deepCleanRun"@.len());
        assert("toolCheckpoint"@.len() != "lightCleanAnalyze"@.len());
        assert("toolCheckpoint"@.len() != "lightCleanRun"@.len());
        assert("toolCheckpoint"@.len() != "overview"@.len());
        assert("toolCheckpoint"@.len() != "quickSummary"@.len());
        assert("toolCheckpoint"@.len() != "recoverOperations"@.len());
        assert("toolCheckpoint"@.len() != "storageEstimate"@.len());
        assert("toolCheckpoint"@.len() != "toolAnalyze"@.len());
        assert("toolCheckpoint"@.len() != "toolBackup"@.len());
        assert("toolCheckpoint"@.len() != "toolFlushDatabase"@.len());
        assert("toolCheckpoint"@.len() != "toolIntegrityCheck"@.len());
        assert("toolCheckpoint"@.len() != "toolVacuum"@.len());
        assert(spec_classify_action(action) == OperationAccess::Write);
    } else if action == "toolVacuum"@ {
        assert("toolVacuum"@.len() != "deepCleanAnalyze"@.len());
        assert("toolVacuum"@.len() != "deepCleanRun"@.len());
        assert("toolVacuum"@.len() != "lightCleanAnalyze"@.len());
        assert("toolVacuum"@.len() != "lightCleanRun"@.len());
        assert("toolVacuum"@.len() != "overview"@.len());
        assert("toolVacuum"@.len() != "quickSummary"@.len());
        assert("toolVacuum"@.len() != "recoverOperations"@.len());
        assert("toolVacuum"@.len() != "storageEstimate"@.len());
        assert("toolVacuum"@.len() != "toolAnalyze"@.len());
        assert("toolVacuum"@[4] != "toolBackup"@[4]);
        assert("toolVacuum"@.len() != "toolCheckpoint"@.len());
        assert("toolVacuum"@.len() != "toolFlushDatabase"@.len());
        assert("toolVacuum"@.len() != "toolIntegrityCheck"@.len());
        assert(spec_classify_action(action) == OperationAccess::Write);
    } else if action == "toolAnalyze"@ {
        assert("toolAnalyze"@.len() != "deepCleanAnalyze"@.len());
        assert("toolAnalyze"@.len() != "deepCleanRun"@.len());
        assert("toolAnalyze"@.len() != "lightCleanAnalyze"@.len());
        assert("toolAnalyze"@.len() != "lightCleanRun"@.len());
        assert("toolAnalyze"@.len() != "overview"@.len());
        assert("toolAnalyze"@.len() != "quickSummary"@.len());
        assert("toolAnalyze"@.len() != "recoverOperations"@.len());
        assert("toolAnalyze"@.len() != "storageEstimate"@.len());
        assert("toolAnalyze"@.len() != "toolBackup"@.len());
        assert("toolAnalyze"@.len() != "toolCheckpoint"@.len());
        assert("toolAnalyze"@.len() != "toolFlushDatabase"@.len());
        assert("toolAnalyze"@.len() != "toolIntegrityCheck"@.len());
        assert("toolAnalyze"@.len() != "toolVacuum"@.len());
        assert(spec_classify_action(action) == OperationAccess::Write);
    } else if action == "toolFlushDatabase"@ {
        assert("toolFlushDatabase"@.len() != "deepCleanAnalyze"@.len());
        assert("toolFlushDatabase"@.len() != "deepCleanRun"@.len());
        assert("toolFlushDatabase"@[0] != "lightCleanAnalyze"@[0]);
        assert("toolFlushDatabase"@.len() != "lightCleanRun"@.len());
        assert("toolFlushDatabase"@.len() != "overview"@.len());
        assert("toolFlushDatabase"@.len() != "quickSummary"@.len());
        assert("toolFlushDatabase"@[0] != "recoverOperations"@[0]);
        assert("toolFlushDatabase"@.len() != "storageEstimate"@.len());
        assert("toolFlushDatabase"@.len() != "toolAnalyze"@.len());
        assert("toolFlushDatabase"@.len() != "toolBackup"@.len());
        assert("toolFlushDatabase"@.len() != "toolCheckpoint"@.len());
        assert("toolFlushDatabase"@.len() != "toolIntegrityCheck"@.len());
        assert("toolFlushDatabase"@.len() != "toolVacuum"@.len());
        assert(spec_classify_action(action) == OperationAccess::Write);
    } else if action == "toolBackup"@ {
        assert("toolBackup"@.len() != "deepCleanAnalyze"@.len());
        assert("toolBackup"@.len() != "lightCleanAnalyze"@.len());
        assert("toolBackup"@.len() != "overview"@.len());
        assert("toolBackup"@.len() != "quickSummary"@.len());
        assert("toolBackup"@.len() != "storageEstimate"@.len());
        assert("toolBackup"@.len() != "toolIntegrityCheck"@.len());
        assert(spec_classify_action(action) == OperationAccess::Read);
    } else if action == "recoverOperations"@ {
        assert("recoverOperations"@.len() != "deepCleanAnalyze"@.len());
        assert("recoverOperations"@.len() != "deepCleanRun"@.len());
        assert("recoverOperations"@[0] != "lightCleanAnalyze"@[0]);
        assert("recoverOperations"@.len() != "lightCleanRun"@.len());
        assert("recoverOperations"@.len() != "overview"@.len());
        assert("recoverOperations"@.len() != "quickSummary"@.len());
        assert("recoverOperations"@.len() != "storageEstimate"@.len());
        assert("recoverOperations"@.len() != "toolAnalyze"@.len());
        assert("recoverOperations"@.len() != "toolBackup"@.len());
        assert("recoverOperations"@.len() != "toolCheckpoint"@.len());
        assert("recoverOperations"@[0] != "toolFlushDatabase"@[0]);
        assert("recoverOperations"@.len() != "toolIntegrityCheck"@.len());
        assert("recoverOperations"@.len() != "toolVacuum"@.len());
        assert(spec_classify_action(action) == OperationAccess::Write);
    }
}

} // verus!
