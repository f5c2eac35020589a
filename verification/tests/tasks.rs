use cursor_optimizer::backup::CompressionProgress;
use cursor_optimizer::conversations::{compaction_reclaim_bytes, cutoff_millis, AgedKeyScan};
use cursor_optimizer::json::Value;
use cursor_optimizer::overview::PrefixTally;
use cursor_optimizer::progress::{percent_message, stage_message};
use cursor_optimizer::reports::{
    deep_clean_analysis, flush_report, integrity_report, light_clean_result, quick_summary, storage_estimate,
};
use cursor_optimizer::text_set::{compare_texts, TextOrder, TextSet};
use cursor_optimizer::tools::{
    backup_directory_choice, backup_file_name_choice, parse_compression_level, parse_i32, VacuumProgress,
};

const OLD: &[u8] = br#"{"lastUpdatedAt":1600000000000}"#;
const NEW: &[u8] = br#"{"lastUpdatedAt":1900000000000}"#;

#[test]
fn deep_clean_follows_conversations() {
    let mut scan = AgedKeyScan::new(1_800_000_000_000, 2, &vec![2, 1, 0]);
    assert_eq!(scan.total_rows(), 5);
    scan.observe_composer_row("composerData:old".to_string(), Some(OLD));
    scan.observe_composer_row("composerData:new".to_string(), Some(NEW));
    scan.observe_child_row("bubbleId:old:1".to_string(), 10);
    scan.observe_child_row("bubbleId:new:1".to_string(), 20);
    scan.observe_child_row("messageRequestContext:lost:1".to_string(), 30);
    let pending = scan.take_unresolved();
    assert_eq!(pending, vec!["messageRequestContext:lost:1".to_string()]);
    scan.observe_unresolved_value(pending[0].clone(), Some(OLD));
    let selection = scan.finish();
    assert_eq!(
        selection.keys,
        vec!["composerData:old".to_string(), "bubbleId:old:1".to_string(), "messageRequestContext:lost:1".to_string()]
    );
    assert_eq!(selection.total_bytes, OLD.len() as i64 + 10 + OLD.len() as i64);
}

#[test]
fn a_recent_composer_protects_its_rows_even_when_another_row_is_old() {
    let mut scan = AgedKeyScan::new(1_800_000_000_000, 0, &vec![]);
    scan.observe_composer_row("composerData:x".to_string(), Some(OLD));
    scan.observe_composer_row("composerData:x".to_string(), Some(NEW));
    scan.observe_child_row("bubbleId:x:1".to_string(), 5);
    scan.observe_composer_row("composerData:y".to_string(), None);
    scan.observe_child_row("checkpointId:y:1".to_string(), 5);
    assert_eq!(scan.take_unresolved(), vec!["checkpointId:y:1".to_string()]);
    let selection = scan.finish();
    assert_eq!(selection.keys, vec!["composerData:x".to_string()]);
}

#[test]
fn scans_report_every_five_thousand_rows() {
    let mut scan = AgedKeyScan::new(0, i64::MAX, &vec![1]);
    assert_eq!(scan.total_rows(), i64::MAX);
    let mut reports = 0;
    for _ in 0..10_000 {
        if scan.count_row() {
            reports += 1;
        }
    }
    assert_eq!(reports, 2);
    assert_eq!(scan.scanned_rows(), 10_000);
}

#[test]
fn cutoff_and_compaction() {
    assert_eq!(cutoff_millis(1_000_000_000, 2), 1_000_000_000 - 172_800_000);
    assert_eq!(compaction_reclaim_bytes(Some(10), Some(4096)), 40960);
    assert_eq!(compaction_reclaim_bytes(None, Some(4096)), 0);
    assert_eq!(compaction_reclaim_bytes(Some(-1), Some(4096)), 0);
    assert_eq!(compaction_reclaim_bytes(Some(i64::MAX), Some(2)), i64::MAX);
}

#[test]
fn overview_lists_largest_kinds_first() {
    let mut tally = PrefixTally::new();
    tally.observe_row("bubbleId:a", 100);
    tally.observe_row("agentKv:blob:1", 500);
    tally.observe_row("bubbleId:b", 400);
    tally.observe_row("ItemTable", 7);
    tally.observe_row("composerData", 9);
    let lines = tally.finish();
    assert_eq!(
        lines.to_json_string(),
        r#"[{"prefix":"agentKv","rowCount":1,"bytes":500,"human":"500 B"},{"prefix":"bubbleId","rowCount":2,"bytes":500,"human":"500 B"},{"prefix":"other","rowCount":2,"bytes":16,"human":"16 B"}]"#
    );
    assert_eq!(tally.scanned_rows(), 5);
}

#[test]
fn tally_reports_every_twenty_thousand_rows() {
    let mut tally = PrefixTally::new();
    let mut reports = 0;
    for _ in 0..40_000 {
        if tally.observe_row("x", 1) {
            reports += 1;
        }
    }
    assert_eq!(reports, 2);
}

#[test]
fn progress_messages() {
    assert_eq!(
        stage_message(1, 3, "Scanning conversations", Some(0), Some(12)).to_json_string(),
        r#"{"kind":"progress","stage":1,"stageCount":3,"label":"Scanning conversations","done":0,"total":12}"#
    );
    assert_eq!(
        stage_message(2, 3, "Deleting", None, None).to_json_string(),
        r#"{"kind":"progress","stage":2,"stageCount":3,"label":"Deleting"}"#
    );
    assert_eq!(
        percent_message(1, 1, "Compacting storage", 150).to_json_string(),
        r#"{"kind":"progress","stage":1,"stageCount":1,"label":"Compacting storage","done":100,"total":100}"#
    );
}

#[test]
fn result_documents() {
    assert_eq!(
        light_clean_result(2048, 1024).to_json_string(),
        r#"{"deletedRows":0,"beforeBytes":2048,"afterBytes":1024,"beforeHuman":"2.00 KiB","afterHuman":"1.00 KiB","reclaimedHuman":"1.00 KiB"}"#
    );
    assert_eq!(
        deep_clean_analysis(30, 2, -5, 100).to_json_string(),
        r#"{"cutoffDays":30,"matchingEntries":2,"estimatedBytes":-5,"estimatedHuman":"0 B","compactionReclaimBytes":100,"compactionReclaimHuman":"100 B","totalReclaimBytes":95,"totalReclaimHuman":"95 B"}"#
    );
    assert_eq!(
        quick_summary(1, 2, 3).to_json_string(),
        r#"{"databaseBytes":1,"databaseHuman":"1 B","writeAheadLogBytes":2,"writeAheadLogHuman":"2 B","totalBytes":6,"totalHuman":"6 B"}"#
    );
    assert_eq!(integrity_report("ok").to_json_string(), r#"{"result":"ok","healthy":true}"#);
    assert_eq!(integrity_report("*** bad").get("healthy").and_then(Value::as_boolean), Some(false));
    assert_eq!(
        flush_report(10, 5, 20, 0).get("reclaimedHuman").and_then(Value::as_text),
        Some("0 B")
    );
    let estimate = storage_estimate(u64::MAX, 0, None, "/db", 42);
    assert_eq!(estimate.get("databaseBytes").and_then(Value::number_text), Some("9223372036854776000"));
    assert_eq!(estimate.get("backupFileName").and_then(Value::as_text), Some("state.vscdb.backup-42.zst"));
    assert!(estimate.get("availableBytes").map(|v| matches!(v, Value::Null)).unwrap_or(false));
}

#[test]
fn backup_choices() {
    assert_eq!(parse_compression_level(None), 10);
    assert_eq!(parse_compression_level(Some(" 19 ")), 19);
    assert_eq!(parse_compression_level(Some("99")), 22);
    assert_eq!(parse_compression_level(Some("-3")), 1);
    assert_eq!(parse_compression_level(Some("fast")), 10);
    assert_eq!(parse_i32("+7"), Some(7));
    assert_eq!(parse_i32("-2147483648"), Some(i32::MIN));
    assert_eq!(parse_i32("2147483648"), None);
    assert_eq!(parse_i32("-"), None);
    assert_eq!(backup_directory_choice(Some("  "), "/db"), "/db");
    assert_eq!(backup_directory_choice(Some("/backups"), "/db"), "/backups");
    assert_eq!(backup_file_name_choice(None, 5, '/'), Ok("state.vscdb.backup-5.zst".to_string()));
    assert_eq!(backup_file_name_choice(Some("a.zst"), 5, '/'), Ok("a.zst".to_string()));
    assert_eq!(
        backup_file_name_choice(Some("x\\a.zst"), 5, '/'),
        Err("backup file name must not include a directory".to_string())
    );
}

#[test]
fn compaction_progress_creeps_after_ninety() {
    let mut progress = VacuumProgress::new(Some(100), Some(0), Some(10));
    assert_eq!(progress.tick(500, 400), 45);
    assert_eq!(progress.tick(100, 800), 45);
    assert_eq!(progress.tick(1000, 1000), 90);
    assert_eq!(progress.tick(1000, 1250), 94);
    assert_eq!(progress.tick(1000, 100_000), 99);
    assert_eq!(
        progress.message(3, 4, "Compacting storage").to_json_string(),
        r#"{"kind":"progress","stage":3,"stageCount":4,"label":"Compacting storage","done":99,"total":100}"#
    );
}

#[test]
fn compression_progress_counts_chunks() {
    let mut progress = CompressionProgress::new(10);
    assert_eq!(
        progress.first_message().to_json_string(),
        r#"{"kind":"progress","stage":1,"stageCount":1,"label":"Compressing","done":0,"total":10,"doneBytes":0,"totalBytes":10}"#
    );
    assert!(progress.record_chunk(4).is_some());
    let message = progress.record_chunk(6).unwrap();
    assert_eq!(message.get("doneBytes").and_then(Value::number_text), Some("10"));
    assert!(progress.record_chunk(0).is_none());
}

#[test]
fn text_sets_keep_one_of_each() {
    let mut set = TextSet::new();
    for word in ["b", "a", "c", "a", "ab"] {
        set.insert(word.to_string());
    }
    assert!(set.contains("a"));
    assert!(set.contains("ab"));
    assert!(!set.contains("d"));
    assert_eq!(compare_texts("ab", "b"), TextOrder::Before);
    assert_eq!(compare_texts("b", "ab"), TextOrder::After);
    assert_eq!(compare_texts("é", "é"), TextOrder::Same);
}

#[test]
fn a_whole_scan_chooses_each_old_row_once_and_saturates_its_total() {
    let mut scan = AgedKeyScan::new(1_800_000_000_000, 1, &vec![3]);
    scan.observe_composer_row("composerData:a".to_string(), Some(OLD));
    scan.observe_child_row("bubbleId:a:1".to_string(), i64::MAX);
    scan.observe_child_row("bubbleId:a:2".to_string(), 7);
    scan.observe_child_row("bubbleId:b:1".to_string(), 3);
    let pending = scan.take_unresolved();
    assert_eq!(pending, vec!["bubbleId:b:1".to_string()]);
    scan.observe_unresolved_value(pending[0].clone(), Some(NEW));
    let selection = scan.finish();
    assert_eq!(
        selection.keys,
        vec!["composerData:a".to_string(), "bubbleId:a:1".to_string(), "bubbleId:a:2".to_string()]
    );
    assert_eq!(selection.total_bytes, i64::MAX);
}
