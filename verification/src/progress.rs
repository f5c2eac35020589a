//! The progress messages that long tasks send while they run: JSON objects
//! of kind `progress`.

use vstd::prelude::*;
use crate::json::{Json, Value, json_of_entries, number_from_integer, push_member, text};
use crate::numbers::integer_json_chars;

verus! {

/// A number member where there is a number.
pub open spec fn with_number(members: Seq<(Seq<char>, Json)>, key: Seq<char>, value: Option<i64>) -> Seq<(Seq<char>, Json)> {
    match value {
        Some(n) => members.push((key, Json::Number(integer_json_chars(n as int)))),
        None => members,
    }
}

/// A string member where there is a string.
pub open spec fn with_text(members: Seq<(Seq<char>, Json)>, key: Seq<char>, value: Option<Seq<char>>) -> Seq<(Seq<char>, Json)> {
    match value {
        Some(t) => members.push((key, Json::Text(t))),
        None => members,
    }
}

/// The members every progress message starts with.
pub open spec fn stage_members(stage: i64, stage_count: i64, label: Seq<char>) -> Seq<(Seq<char>, Json)> {
    seq![
        ("kind"@, Json::Text("progress"@)),
        ("stage"@, Json::Number(integer_json_chars(stage as int))),
        ("stageCount"@, Json::Number(integer_json_chars(stage_count as int))),
        ("label"@, Json::Text(label)),
    ]
}

/// A progress message: the stage, and how far it has come where that is known.
pub open spec fn stage_json(stage: i64, stage_count: i64, label: Seq<char>, done: Option<i64>, total: Option<i64>) -> Json {
    Json::Object(with_number(with_number(stage_members(stage, stage_count, label), "done"@, done), "total"@, total))
}

/// A progress message with a detail line and byte counts where known.
pub open spec fn stage_detail_json(
    stage: i64,
    stage_count: i64,
    label: Seq<char>,
    done: Option<i64>,
    total: Option<i64>,
    detail: Option<Seq<char>>,
    done_bytes: Option<i64>,
    total_bytes: Option<i64>,
) -> Json {
    Json::Object(
        with_number(
            with_number(
                with_text(
                    with_number(with_number(stage_members(stage, stage_count, label), "done"@, done), "total"@, total),
                    "detail"@,
                    detail,
                ),
                "doneBytes"@,
                done_bytes,
            ),
            "totalBytes"@,
            total_bytes,
        ),
    )
}

fn push_number(members: &mut Vec<(String, Value)>, key: &str, value: Option<i64>)
    ensures
        json_of_entries(final(members)@) == with_number(json_of_entries(old(members)@), key@, value),
{
    match value {
        Some(n) => push_member(members, key, number_from_integer(n)),
        None => {},
    }
}

fn start_members(stage: i64, stage_count: i64, label: &str) -> (members: Vec<(String, Value)>)
    ensures
        json_of_entries(members@) == stage_members(stage, stage_count, label@),
{
    let mut members: Vec<(String, Value)> = Vec::new();
    push_member(&mut members, "kind", text("progress"));
    push_member(&mut members, "stage", number_from_integer(stage));
    push_member(&mut members, "stageCount", number_from_integer(stage_count));
    push_member(&mut members, "label", text(label));
    assert(json_of_entries(members@) =~= stage_members(stage, stage_count, label@));
    members
}

/// The progress message of a stage.
pub fn stage_message(stage: i64, stage_count: i64, label: &str, done: Option<i64>, total: Option<i64>) -> (message: Value)
    ensures
        message@ == stage_json(stage, stage_count, label@, done, total),
{
    let mut members = start_members(stage, stage_count, label);
    push_number(&mut members, "done", done);
    push_number(&mut members, "total", total);
    Value::Object(members)
}

/// The progress message of a stage, with detail.
pub fn stage_detail_message(
    stage: i64,
    stage_count: i64,
    label: &str,
    done: Option<i64>,
    total: Option<i64>,
    detail: Option<&str>,
    done_bytes: Option<i64>,
    total_bytes: Option<i64>,
) -> (message: Value)
    ensures
        message@ == stage_detail_json(
            stage,
            stage_count,
            label@,
            done,
            total,
            match detail {
                Some(d) => Some(d@),
                None => None,
            },
            done_bytes,
            total_bytes,
        ),
{
    let mut members = start_members(stage, stage_count, label);
    push_number(&mut members, "done", done);
    push_number(&mut members, "total", total);
    match detail {
        Some(d) => push_member(&mut members, "detail", text(d)),
        None => {},
    }
    push_number(&mut members, "doneBytes", done_bytes);
    push_number(&mut members, "totalBytes", total_bytes);
    Value::Object(members)
}

/// `percent` held to 0..=100.
pub open spec fn clamp_percent(percent: i64) -> i64 {
    if percent < 0 {
        0
    } else if percent > 100 {
        100
    } else {
        percent
    }
}

/// The progress message of a task measured in percent.
pub fn percent_message(stage: i64, stage_count: i64, label: &str, percent: i64) -> (message: Value)
    ensures
        message@ == stage_detail_json(stage, stage_count, label@, Some(clamp_percent(percent)), Some(100), None, None, None),
{
    let clamped = if percent < 0 {
        0
    } else if percent > 100 {
        100
    } else {
        percent
    };
    stage_detail_message(stage, stage_count, label, Some(clamped), Some(100), None, None, None)
}

} // verus!
