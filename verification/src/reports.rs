//! The documents that the maintenance tasks answer with.

use vstd::prelude::*;
use crate::json::{Json, Value, boolean, json_of_entries, number_from_integer, push_member, text};
use crate::numbers::{
    clamp_i64, human_readable_size, integer_json_chars, saturating_add_i64, signed_decimal_chars,
    signed_decimal_text, spec_human_readable_size,
};
use crate::text::{text_equals, to_owned_text};

verus! {

/// A number member's value.
pub open spec fn number_json(n: int) -> Json {
    Json::Number(integer_json_chars(n))
}

/// A size shown to people.
pub open spec fn size_json(bytes: nat) -> Json {
    Json::Text(spec_human_readable_size(bytes))
}

/// `bytes.max(0) as u64`.
pub open spec fn nonnegative(bytes: int) -> nat {
    if bytes < 0 {
        0
    } else {
        bytes as nat
    }
}

/// `bytes as i64` for a file size (two's complement wrap above `i64::MAX`).
pub open spec fn size_as_i64(bytes: u64) -> int {
    (bytes as i64) as int
}

/// `bytes.min(i64::MAX as u64) as i64`.
pub open spec fn size_capped(bytes: u64) -> int {
    if bytes > i64::MAX as u64 {
        i64::MAX as int
    } else {
        bytes as int
    }
}

/// The size of `bytes`, shown to people.
pub fn size_value(bytes: u64) -> (value: Value)
    ensures
        value@ == size_json(bytes as nat),
{
    Value::Text(human_readable_size(bytes))
}

fn nonnegative_size(bytes: i64) -> (size: u64)
    ensures
        size == nonnegative(bytes as int),
{
    if bytes < 0 {
        0
    } else {
        bytes as u64
    }
}

/// A number member for a file size, capped at `i64::MAX`.
pub fn capped_size_value(bytes: u64) -> (value: Value)
    ensures
        value@ == number_json(size_capped(bytes)),
{
    let capped: i64 = if bytes > 0x7fff_ffff_ffff_ffffu64 {
        0x7fff_ffff_ffff_ffffi64
    } else {
        bytes as i64
    };
    number_from_integer(capped)
}

pub open spec fn light_clean_analysis_json(compaction_bytes: i64) -> Json {
    Json::Object(
        seq![
            ("compactionReclaimBytes"@, number_json(compaction_bytes as int)),
            ("compactionReclaimHuman"@, size_json(nonnegative(compaction_bytes as int))),
            ("estimatedReclaimBytes"@, number_json(compaction_bytes as int)),
            ("estimatedReclaimHuman"@, size_json(nonnegative(compaction_bytes as int))),
        ],
    )
}

/// What a light clean would give back.
pub fn light_clean_analysis(compaction_bytes: i64) -> (value: Value)
    ensures
        value@ == light_clean_analysis_json(compaction_bytes),
{
    let mut members: Vec<(String, Value)> = Vec::new();
    push_member(&mut members, "compactionReclaimBytes", number_from_integer(compaction_bytes));
    push_member(&mut members, "compactionReclaimHuman", size_value(nonnegative_size(compaction_bytes)));
    push_member(&mut members, "estimatedReclaimBytes", number_from_integer(compaction_bytes));
    push_member(&mut members, "estimatedReclaimHuman", size_value(nonnegative_size(compaction_bytes)));
    assert(json_of_entries(members@) =~= light_clean_analysis_json(compaction_bytes)->Object_0);
    Value::Object(members)
}

pub open spec fn cleaned_sizes(before_bytes: u64, after_bytes: u64) -> Seq<(Seq<char>, Json)> {
    seq![
        ("beforeBytes"@, number_json(size_as_i64(before_bytes))),
        ("afterBytes"@, number_json(size_as_i64(after_bytes))),
        ("beforeHuman"@, size_json(before_bytes as nat)),
        ("afterHuman"@, size_json(after_bytes as nat)),
        ("reclaimedHuman"@, size_json(nonnegative(before_bytes - after_bytes))),
    ]
}

fn push_cleaned_sizes(members: &mut Vec<(String, Value)>, before_bytes: u64, after_bytes: u64)
    ensures
        json_of_entries(final(members)@) == json_of_entries(old(members)@) + cleaned_sizes(before_bytes, after_bytes),
{
    push_member(members, "beforeBytes", number_from_integer(before_bytes as i64));
    push_member(members, "afterBytes", number_from_integer(after_bytes as i64));
    push_member(members, "beforeHuman", size_value(before_bytes));
    push_member(members, "afterHuman", size_value(after_bytes));
    push_member(members, "reclaimedHuman", size_value(before_bytes.saturating_sub(after_bytes)));
    assert(json_of_entries(members@) =~= json_of_entries(old(members)@) + cleaned_sizes(before_bytes, after_bytes));
}

pub open spec fn light_clean_result_json(before_bytes: u64, after_bytes: u64) -> Json {
    Json::Object(seq![("deletedRows"@, number_json(0))] + cleaned_sizes(before_bytes, after_bytes))
}

/// The outcome of a light clean, from the database's size before and after.
pub fn light_clean_result(before_bytes: u64, after_bytes: u64) -> (value: Value)
    ensures
        value@ == light_clean_result_json(before_bytes, after_bytes),
{
    let mut members: Vec<(String, Value)> = Vec::new();
    push_member(&mut members, "deletedRows", number_from_integer(0));
    push_cleaned_sizes(&mut members, before_bytes, after_bytes);
    assert(json_of_entries(members@) =~= light_clean_result_json(before_bytes, after_bytes)->Object_0);
    Value::Object(members)
}

pub open spec fn deep_clean_analysis_json(
    cutoff_days: i64,
    matching_entries: usize,
    data_bytes: i64,
    compaction_bytes: i64,
) -> Json {
    let total = clamp_i64(data_bytes + compaction_bytes);
    Json::Object(
        seq![
            ("cutoffDays"@, number_json(cutoff_days as int)),
            ("matchingEntries"@, number_json(((matching_entries as i64) as int))),
            ("estimatedBytes"@, number_json(data_bytes as int)),
            ("estimatedHuman"@, size_json(nonnegative(data_bytes as int))),
            ("compactionReclaimBytes"@, number_json(compaction_bytes as int)),
            ("compactionReclaimHuman"@, size_json(nonnegative(compaction_bytes as int))),
            ("totalReclaimBytes"@, number_json(total)),
            ("totalReclaimHuman"@, size_json(nonnegative(total))),
        ],
    )
}

/// What a deep clean would give back: the chosen rows and the compaction.
pub fn deep_clean_analysis(
    cutoff_days: i64,
    matching_entries: usize,
    data_bytes: i64,
    compaction_bytes: i64,
) -> (value: Value)
    ensures
        value@ == deep_clean_analysis_json(cutoff_days, matching_entries, data_bytes, compaction_bytes),
{
    let total = saturating_add_i64(data_bytes, compaction_bytes);
    let mut members: Vec<(String, Value)> = Vec::new();
    push_member(&mut members, "cutoffDays", number_from_integer(cutoff_days));
    push_member(&mut members, "matchingEntries", number_from_integer(matching_entries as i64));
    push_member(&mut members, "estimatedBytes", number_from_integer(data_bytes));
    push_member(&mut members, "estimatedHuman", size_value(nonnegative_size(data_bytes)));
    push_member(&mut members, "compactionReclaimBytes", number_from_integer(compaction_bytes));
    push_member(&mut members, "compactionReclaimHuman", size_value(nonnegative_size(compaction_bytes)));
    push_member(&mut members, "totalReclaimBytes", number_from_integer(total));
    push_member(&mut members, "totalReclaimHuman", size_value(nonnegative_size(total)));
    assert(json_of_entries(members@) =~= deep_clean_analysis_json(
        cutoff_days,
        matching_entries,
        data_bytes,
        compaction_bytes,
    )->Object_0);
    Value::Object(members)
}

pub open spec fn deep_clean_result_json(deleted_rows: i64, before_bytes: u64, after_bytes: u64) -> Json {
    Json::Object(
        seq![("deletedConversationRows"@, number_json(deleted_rows as int))] + cleaned_sizes(before_bytes, after_bytes),
    )
}

/// The outcome of a deep clean.
pub fn deep_clean_result(deleted_rows: i64, before_bytes: u64, after_bytes: u64) -> (value: Value)
    ensures
        value@ == deep_clean_result_json(deleted_rows, before_bytes, after_bytes),
{
    let mut members: Vec<(String, Value)> = Vec::new();
    push_member(&mut members, "deletedConversationRows", number_from_integer(deleted_rows));
    push_cleaned_sizes(&mut members, before_bytes, after_bytes);
    assert(json_of_entries(members@) =~= deep_clean_result_json(deleted_rows, before_bytes, after_bytes)->Object_0);
    Value::Object(members)
}

pub open spec fn quick_summary_json(database_bytes: u64, write_ahead_log_bytes: u64, shared_memory_bytes: u64) -> Json {
    let total = (database_bytes + write_ahead_log_bytes + shared_memory_bytes) as u64;
    Json::Object(
        seq![
            ("databaseBytes"@, number_json(size_as_i64(database_bytes))),
            ("databaseHuman"@, size_json(database_bytes as nat)),
            ("writeAheadLogBytes"@, number_json(size_as_i64(write_ahead_log_bytes))),
            ("writeAheadLogHuman"@, size_json(write_ahead_log_bytes as nat)),
            ("totalBytes"@, number_json(size_as_i64(total))),
            ("totalHuman"@, size_json(total as nat)),
        ],
    )
}

/// The sizes of the database and its companion files.
pub fn quick_summary(database_bytes: u64, write_ahead_log_bytes: u64, shared_memory_bytes: u64) -> (value: Value)
    requires
        database_bytes + write_ahead_log_bytes + shared_memory_bytes <= u64::MAX,
    ensures
        value@ == quick_summary_json(database_bytes, write_ahead_log_bytes, shared_memory_bytes),
{
    let total = database_bytes + write_ahead_log_bytes + shared_memory_bytes;
    let mut members: Vec<(String, Value)> = Vec::new();
    push_member(&mut members, "databaseBytes", number_from_integer(database_bytes as i64));
    push_member(&mut members, "databaseHuman", size_value(database_bytes));
    push_member(&mut members, "writeAheadLogBytes", number_from_integer(write_ahead_log_bytes as i64));
    push_member(&mut members, "writeAheadLogHuman", size_value(write_ahead_log_bytes));
    push_member(&mut members, "totalBytes", number_from_integer(total as i64));
    push_member(&mut members, "totalHuman", size_value(total));
    assert(json_of_entries(members@) =~= quick_summary_json(
        database_bytes,
        write_ahead_log_bytes,
        shared_memory_bytes,
    )->Object_0);
    Value::Object(members)
}

pub open spec fn overview_json(reclaimable_bytes: i64, agent_blob_count: i64, key_prefixes: Json) -> Json {
    Json::Object(
        seq![
            (
                "storage"@,
                Json::Object(
                    seq![
                        ("reclaimableBytes"@, number_json(reclaimable_bytes as int)),
                        ("reclaimableHuman"@, size_json(((reclaimable_bytes as u64) as nat))),
                    ],
                ),
            ),
            ("agentBlobs"@, Json::Object(seq![("count"@, number_json(agent_blob_count as int))])),
            ("keyPrefixes"@, key_prefixes),
        ],
    )
}

/// The overview of the database: what compaction frees, how many agent
/// blobs there are, and the space each kind of key takes.
pub fn overview(reclaimable_bytes: i64, agent_blob_count: i64, key_prefixes: Value) -> (value: Value)
    ensures
        value@ == overview_json(reclaimable_bytes, agent_blob_count, key_prefixes@),
{
    let ghost prefixes = key_prefixes@;
    let mut storage: Vec<(String, Value)> = Vec::new();
    push_member(&mut storage, "reclaimableBytes", number_from_integer(reclaimable_bytes));
    push_member(&mut storage, "reclaimableHuman", size_value(reclaimable_bytes as u64));
    let mut agent_blobs: Vec<(String, Value)> = Vec::new();
    push_member(&mut agent_blobs, "count", number_from_integer(agent_blob_count));
    assert(json_of_entries(storage@) =~= seq![
        ("reclaimableBytes"@, number_json(reclaimable_bytes as int)),
        ("reclaimableHuman"@, size_json(((reclaimable_bytes as u64) as nat))),
    ]);
    assert(json_of_entries(agent_blobs@) =~= seq![("count"@, number_json(agent_blob_count as int))]);
    let storage_value = Value::Object(storage);
    let agent_value = Value::Object(agent_blobs);
    let ghost storage_json = storage_value@;
    let ghost agent_json = agent_value@;
    assert(storage_json == overview_json(reclaimable_bytes, agent_blob_count, prefixes)->Object_0[0].1);
    assert(agent_json == overview_json(reclaimable_bytes, agent_blob_count, prefixes)->Object_0[1].1);
    let mut members: Vec<(String, Value)> = Vec::new();
    push_member(&mut members, "storage", storage_value);
    push_member(&mut members, "agentBlobs", agent_value);
    push_member(&mut members, "keyPrefixes", key_prefixes);
    assert(json_of_entries(members@) =~= overview_json(reclaimable_bytes, agent_blob_count, prefixes)->Object_0);
    Value::Object(members)
}

/// The default file name of a backup made at `now_millis`.
pub open spec fn default_backup_file_name(now_millis: i64) -> Seq<char> {
    "state.vscdb.backup-"@ + signed_decimal_chars(now_millis as int) + ".zst"@
}

/// The default file name of a backup made at `now_millis`.
pub fn backup_file_name_at(now_millis: i64) -> (name: String)
    ensures
        name@ == default_backup_file_name(now_millis),
{
    let mut name = to_owned_text("state.vscdb.backup-");
    name.append(signed_decimal_text(now_millis).as_str());
    name.append(".zst");
    name
}

pub open spec fn storage_estimate_json(
    database_bytes: u64,
    write_ahead_log_bytes: u64,
    available_bytes: Option<u64>,
    backup_directory: Seq<char>,
    now_millis: i64,
) -> Json {
    Json::Object(
        seq![
            ("databaseBytes"@, number_json(size_capped(database_bytes))),
            ("databaseHuman"@, size_json(database_bytes as nat)),
            ("writeAheadLogBytes"@, number_json(size_capped(write_ahead_log_bytes))),
            ("writeAheadLogHuman"@, size_json(write_ahead_log_bytes as nat)),
            (
                "availableBytes"@,
                match available_bytes {
                    Some(b) => number_json(size_capped(b)),
                    None => Json::Null,
                },
            ),
            (
                "availableHuman"@,
                match available_bytes {
                    Some(b) => size_json(b as nat),
                    None => Json::Null,
                },
            ),
            ("backupDirectory"@, Json::Text(backup_directory)),
            ("backupFileName"@, Json::Text(default_backup_file_name(now_millis))),
        ],
    )
}

/// What a backup would take and where it would go by default.
pub fn storage_estimate(
    database_bytes: u64,
    write_ahead_log_bytes: u64,
    available_bytes: Option<u64>,
    backup_directory: &str,
    now_millis: i64,
) -> (value: Value)
    ensures
        value@ == storage_estimate_json(
            database_bytes,
            write_ahead_log_bytes,
            available_bytes,
            backup_directory@,
            now_millis,
        ),
{
    let mut members: Vec<(String, Value)> = Vec::new();
    push_member(&mut members, "databaseBytes", capped_size_value(database_bytes));
    push_member(&mut members, "databaseHuman", size_value(database_bytes));
    push_member(&mut members, "writeAheadLogBytes", capped_size_value(write_ahead_log_bytes));
    push_member(&mut members, "writeAheadLogHuman", size_value(write_ahead_log_bytes));
    match available_bytes {
        Some(b) => {
            push_member(&mut members, "availableBytes", capped_size_value(b));
            push_member(&mut members, "availableHuman", size_value(b));
        },
        None => {
            push_member(&mut members, "availableBytes", Value::Null);
            push_member(&mut members, "availableHuman", Value::Null);
        },
    }
    push_member(&mut members, "backupDirectory", text(backup_directory));
    push_member(&mut members, "backupFileName", Value::Text(backup_file_name_at(now_millis)));
    assert(json_of_entries(members@) =~= storage_estimate_json(
        database_bytes,
        write_ahead_log_bytes,
        available_bytes,
        backup_directory@,
        now_millis,
    )->Object_0);
    Value::Object(members)
}

pub open spec fn integrity_json(result: Seq<char>) -> Json {
    Json::Object(seq![("result"@, Json::Text(result)), ("healthy"@, Json::Boolean(result == "ok"@))])
}

/// The outcome of an integrity check: healthy exactly when SQLite says `ok`.
pub fn integrity_report(result: &str) -> (value: Value)
    ensures
        value@ == integrity_json(result@),
{
    let healthy = text_equals(result, "ok");
    let mut members: Vec<(String, Value)> = Vec::new();
    push_member(&mut members, "result", text(result));
    push_member(&mut members, "healthy", boolean(healthy));
    assert(json_of_entries(members@) =~= integrity_json(result@)->Object_0);
    Value::Object(members)
}

pub open spec fn checkpoint_json(before_bytes: u64, after_bytes: u64) -> Json {
    Json::Object(seq![("beforeHuman"@, size_json(before_bytes as nat)), ("afterHuman"@, size_json(after_bytes as nat))])
}

/// The outcome of a checkpoint: the write-ahead log before and after.
pub fn checkpoint_report(before_bytes: u64, after_bytes: u64) -> (value: Value)
    ensures
        value@ == checkpoint_json(before_bytes, after_bytes),
{
    let mut members: Vec<(String, Value)> = Vec::new();
    push_member(&mut members, "beforeHuman", size_value(before_bytes));
    push_member(&mut members, "afterHuman", size_value(after_bytes));
    assert(json_of_entries(members@) =~= checkpoint_json(before_bytes, after_bytes)->Object_0);
    Value::Object(members)
}

pub open spec fn vacuum_json(before_bytes: u64, after_bytes: u64) -> Json {
    Json::Object(
        seq![
            ("beforeHuman"@, size_json(before_bytes as nat)),
            ("afterHuman"@, size_json(after_bytes as nat)),
            ("reclaimedHuman"@, size_json(nonnegative(before_bytes - after_bytes))),
        ],
    )
}

/// The outcome of a compaction: the database before and after.
pub fn vacuum_report(before_bytes: u64, after_bytes: u64) -> (value: Value)
    ensures
        value@ == vacuum_json(before_bytes, after_bytes),
{
    let mut members: Vec<(String, Value)> = Vec::new();
    push_member(&mut members, "beforeHuman", size_value(before_bytes));
    push_member(&mut members, "afterHuman", size_value(after_bytes));
    push_member(&mut members, "reclaimedHuman", size_value(before_bytes.saturating_sub(after_bytes)));
    assert(json_of_entries(members@) =~= vacuum_json(before_bytes, after_bytes)->Object_0);
    Value::Object(members)
}

/// `u64::saturating_add`.
pub open spec fn saturating_sum(a: u64, b: u64) -> nat {
    if a + b > u64::MAX {
        u64::MAX as nat
    } else {
        (a + b) as nat
    }
}

pub open spec fn flush_json(
    before_database_bytes: u64,
    before_write_ahead_log_bytes: u64,
    after_database_bytes: u64,
    after_write_ahead_log_bytes: u64,
) -> Json {
    Json::Object(
        seq![
            ("beforeDatabaseHuman"@, size_json(before_database_bytes as nat)),
            ("afterDatabaseHuman"@, size_json(after_database_bytes as nat)),
            ("beforeWriteAheadLogHuman"@, size_json(before_write_ahead_log_bytes as nat)),
            ("afterWriteAheadLogHuman"@, size_json(after_write_ahead_log_bytes as nat)),
            (
                "reclaimedHuman"@,
                size_json(
                    nonnegative(
                        saturating_sum(before_database_bytes, before_write_ahead_log_bytes) - saturating_sum(
                            after_database_bytes,
                            after_write_ahead_log_bytes,
                        ),
                    ),
                ),
            ),
        ],
    )
}

/// The outcome of flushing the generated chat cache.
pub fn flush_report(
    before_database_bytes: u64,
    before_write_ahead_log_bytes: u64,
    after_database_bytes: u64,
    after_write_ahead_log_bytes: u64,
) -> (value: Value)
    ensures
        value@ == flush_json(
            before_database_bytes,
            before_write_ahead_log_bytes,
            after_database_bytes,
            after_write_ahead_log_bytes,
        ),
{
    let before_total = before_database_bytes.saturating_add(before_write_ahead_log_bytes);
    let after_total = after_database_bytes.saturating_add(after_write_ahead_log_bytes);
    let mut members: Vec<(String, Value)> = Vec::new();
    push_member(&mut members, "beforeDatabaseHuman", size_value(before_database_bytes));
    push_member(&mut members, "afterDatabaseHuman", size_value(after_database_bytes));
    push_member(&mut members, "beforeWriteAheadLogHuman", size_value(before_write_ahead_log_bytes));
    push_member(&mut members, "afterWriteAheadLogHuman", size_value(after_write_ahead_log_bytes));
    push_member(&mut members, "reclaimedHuman", size_value(before_total.saturating_sub(after_total)));
    assert(json_of_entries(members@) =~= flush_json(
        before_database_bytes,
        before_write_ahead_log_bytes,
        after_database_bytes,
        after_write_ahead_log_bytes,
    )->Object_0);
    Value::Object(members)
}

pub open spec fn analyze_json() -> Json {
    Json::Object(seq![("message"@, Json::Text("statistics refreshed and optimizer run"@))])
}

/// The outcome of refreshing the query planner's statistics.
pub fn analyze_report() -> (value: Value)
    ensures
        value@ == analyze_json(),
{
    let mut members: Vec<(String, Value)> = Vec::new();
    push_member(&mut members, "message", text("statistics refreshed and optimizer run"));
    assert(json_of_entries(members@) =~= analyze_json()->Object_0);
    Value::Object(members)
}

pub open spec fn backup_json(path: Seq<char>, compressed_bytes: u64, original_bytes: u64, ratio: Seq<char>) -> Json {
    Json::Object(
        seq![
            ("path"@, Json::Text(path)),
            ("human"@, size_json(compressed_bytes as nat)),
            ("originalHuman"@, size_json(original_bytes as nat)),
            ("ratio"@, Json::Text(ratio)),
        ],
    )
}

/// The outcome of a backup: where it went, its size, the original's size
/// and the ratio between them as shown to people.
pub fn backup_report(path: &str, compressed_bytes: u64, original_bytes: u64, ratio: &str) -> (value: Value)
    ensures
        value@ == backup_json(path@, compressed_bytes, original_bytes, ratio@),
{
    let mut members: Vec<(String, Value)> = Vec::new();
    push_member(&mut members, "path", text(path));
    push_member(&mut members, "human", size_value(compressed_bytes));
    push_member(&mut members, "originalHuman", size_value(original_bytes));
    push_member(&mut members, "ratio", text(ratio));
    assert(json_of_entries(members@) =~= backup_json(path@, compressed_bytes, original_bytes, ratio@)->Object_0);
    Value::Object(members)
}

} // verus!
