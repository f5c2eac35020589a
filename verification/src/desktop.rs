//! The desktop window's side of the page bridge: window requests, the
//! scripts that answer the page, the bundled page's files, and the other
//! running copies of the application.

use vstd::prelude::*;
use crate::json::{Json, Value, boolean, json_of_entries, json_text, push_member};
use crate::numbers::{decimal_chars, signed_decimal_chars, signed_decimal_text};
use crate::paths::TargetFamily;
use crate::text::{push_char, split_once, split_text_once, text_equals, to_owned_text, trim, trimmed};
use crate::tools::{digits_value, is_decimal_digit};

verus! {

/// What the page asks of its window.
#[derive(Clone, Copy, PartialEq, Eq, Debug, Structural)]
pub enum WindowAction {
    Minimize,
    ToggleMaximize,
    State,
    Drag,
    Close,
}

pub open spec fn spec_window_action(action: Seq<char>) -> Option<WindowAction> {
    if action == "windowMinimize"@ {
        Some(WindowAction::Minimize)
    } else if action == "windowToggleMaximize"@ {
        Some(WindowAction::ToggleMaximize)
    } else if action == "windowState"@ {
        Some(WindowAction::State)
    } else if action == "windowDrag"@ {
        Some(WindowAction::Drag)
    } else if action == "windowClose"@ {
        Some(WindowAction::Close)
    } else {
        None
    }
}

/// The window request an action names, if it names one.
pub fn window_action(action: &str) -> (found: Option<WindowAction>)
    ensures
        found == spec_window_action(action@),
{
    if text_equals(action, "windowMinimize") {
        Some(WindowAction::Minimize)
    } else if text_equals(action, "windowToggleMaximize") {
        Some(WindowAction::ToggleMaximize)
    } else if text_equals(action, "windowState") {
        Some(WindowAction::State)
    } else if text_equals(action, "windowDrag") {
        Some(WindowAction::Drag)
    } else if text_equals(action, "windowClose") {
        Some(WindowAction::Close)
    } else {
        None
    }
}

/// Why the window stays open.
pub open spec fn close_refusal() -> Seq<char> {
    "A task is running. Keep this window open."@
}

/// The window closes unless a write is running.
pub fn window_close(write_running: bool) -> (outcome: Result<(), String>)
    ensures
        !write_running ==> outcome is Ok,
        write_running ==> (outcome matches Err(message) && message@ == close_refusal()),
{
    if write_running {
        Err(to_owned_text("A task is running. Keep this window open."))
    } else {
        Ok(())
    }
}

pub open spec fn window_state_json(maximized: bool) -> Json {
    Json::Object(seq![("maximized"@, Json::Boolean(maximized))])
}

/// The state of the window, as the page reads it.
pub fn window_state(maximized: bool) -> (value: Value)
    ensures
        value@ == window_state_json(maximized),
{
    let mut members: Vec<(String, Value)> = Vec::new();
    push_member(&mut members, "maximized", boolean(maximized));
    assert(json_of_entries(members@) =~= window_state_json(maximized)->Object_0);
    Value::Object(members)
}

pub open spec fn flag_text(flag: bool) -> Seq<char> {
    if flag {
        "true"@
    } else {
        "false"@
    }
}

fn append_flag(out: &mut String, flag: bool)
    ensures
        final(out)@ == old(out)@ + flag_text(flag),
{
    if flag {
        out.append("true");
    } else {
        out.append("false");
    }
}

/// The script that hands a progress line to the page.
pub open spec fn spec_progress_script(request_id: i64, line: Seq<char>) -> Seq<char> {
    "window.__progress("@ + signed_decimal_chars(request_id as int) + seq![','] + json_text(Json::Text(line))
        + seq![')']
}

/// The script that hands a progress line to the page.
pub fn progress_script(request_id: i64, line: &str) -> (script: String)
    ensures
        script@ == spec_progress_script(request_id, line@),
{
    let mut script = to_owned_text("window.__progress(");
    script.append(signed_decimal_text(request_id).as_str());
    push_char(&mut script, ',');
    script.append(Value::Text(to_owned_text(line)).to_json_string().as_str());
    push_char(&mut script, ')');
    script
}

/// The script that settles a request of the page.
pub open spec fn spec_resolve_script(request_id: i64, succeeded: bool, payload: Seq<char>) -> Seq<char> {
    "window.__resolve("@ + signed_decimal_chars(request_id as int) + seq![','] + flag_text(succeeded) + seq![',']
        + payload + seq![')']
}

/// The script that settles a request of the page.
pub fn resolve_script(request_id: i64, succeeded: bool, payload: &str) -> (script: String)
    ensures
        script@ == spec_resolve_script(request_id, succeeded, payload@),
{
    let mut script = to_owned_text("window.__resolve(");
    script.append(signed_decimal_text(request_id).as_str());
    push_char(&mut script, ',');
    append_flag(&mut script, succeeded);
    push_char(&mut script, ',');
    script.append(payload);
    push_char(&mut script, ')');
    script
}

/// The status the window pushes to the page when it changes, written out
/// as it is sent (the fingerprint is digits and a colon).
pub open spec fn spec_status_payload(cursor_running: bool, write_ahead_log_present: bool, fingerprint: Seq<char>) -> Seq<char> {
    "{\"cursorRunning\":"@ + flag_text(cursor_running) + ",\"writeAheadLogPresent\":"@ + flag_text(
        write_ahead_log_present,
    ) + ",\"databaseFingerprint\":\""@ + fingerprint + "\"}"@
}

/// The status the window pushes to the page.
pub fn status_payload(cursor_running: bool, write_ahead_log_present: bool, fingerprint: &str) -> (payload: String)
    ensures
        payload@ == spec_status_payload(cursor_running, write_ahead_log_present, fingerprint@),
{
    let mut payload = to_owned_text("{\"cursorRunning\":");
    append_flag(&mut payload, cursor_running);
    payload.append(",\"writeAheadLogPresent\":");
    append_flag(&mut payload, write_ahead_log_present);
    payload.append(",\"databaseFingerprint\":\"");
    payload.append(fingerprint);
    payload.append("\"}");
    payload
}

/// The script that pushes the status to the page, where it listens.
pub open spec fn spec_status_script(payload: Seq<char>) -> Seq<char> {
    "window.__cursorStatus&&window.__cursorStatus("@ + payload + seq![')']
}

/// The script that pushes the status to the page.
pub fn status_script(payload: &str) -> (script: String)
    ensures
        script@ == spec_status_script(payload@),
{
    let mut script = to_owned_text("window.__cursorStatus&&window.__cursorStatus(");
    script.append(payload);
    push_char(&mut script, ')');
    script
}

/// The path without its leading slashes.
pub open spec fn without_leading_slashes(path: Seq<char>) -> Seq<char>
    decreases path.len(),
{
    if path.len() > 0 && path[0] == '/' {
        without_leading_slashes(path.drop_first())
    } else {
        path
    }
}

/// The bundled file a request asks for: its path without leading slashes;
/// `index.html` for the root.
pub open spec fn spec_asset_name(request_path: Seq<char>) -> Seq<char> {
    let name = without_leading_slashes(request_path);
    if name.len() == 0 {
        "index.html"@
    } else {
        name
    }
}

/// The bundled file a request asks for.
pub fn asset_name(request_path: &str) -> (name: String)
    ensures
        name@ == spec_asset_name(request_path@),
{
    let length = request_path.unicode_len();
    let mut start: usize = 0;
    assert(request_path@.skip(0) =~= request_path@);
    while start < length && request_path.get_char(start) == '/'
        invariant
            start <= length,
            length == request_path@.len(),
            without_leading_slashes(request_path@) == without_leading_slashes(request_path@.skip(start as int)),
        decreases length - start,
    {
        assert(request_path@.skip(start as int).drop_first() =~= request_path@.skip(start + 1));
        start += 1;
    }
    let mut name = String::new();
    let mut i = start;
    while i < length
        invariant
            start <= i <= length,
            length == request_path@.len(),
            name@ == request_path@.subrange(start as int, i as int),
        decreases length - i,
    {
        push_char(&mut name, request_path.get_char(i));
        assert(request_path@.subrange(start as int, i + 1) =~= request_path@.subrange(start as int, i as int).push(
            request_path@[i as int],
        ));
        i += 1;
    }
    assert(request_path@.skip(start as int) =~= request_path@.subrange(start as int, length as int));
    if name.unicode_len() == 0 {
        to_owned_text("index.html")
    } else {
        name
    }
}

/// The length of a leading `+`.
pub open spec fn plus_length(text: Seq<char>) -> int {
    if text.len() > 0 && text[0] == '+' {
        1
    } else {
        0
    }
}

/// `str::parse::<u32>`: an optional `+`, then one or more decimal digits,
/// in the range of `u32`.
pub open spec fn parse_u32_text(text: Seq<char>) -> Option<nat> {
    let digits = text.skip(plus_length(text));
    if digits.len() == 0 || exists|i: int| 0 <= i < digits.len() && !is_decimal_digit(#[trigger] digits[i]) {
        None
    } else if digits_value(digits) <= u32::MAX {
        Some(digits_value(digits))
    } else {
        None
    }
}

fn parse_u32(text: &str) -> (parsed: Option<u32>)
    ensures
        match parse_u32_text(text@) {
            Some(v) => parsed == Some(v as u32),
            None => parsed is None,
        },
{
    let length = text.unicode_len();
    let start: usize = if length > 0 && text.get_char(0) == '+' {
        1
    } else {
        0
    };
    let ghost digits = text@.skip(start as int);
    if start == length {
        assert(digits.len() == 0);
        return None;
    }
    let mut value: u64 = 0;
    let mut over = false;
    let mut index: usize = start;
    while index < length
        invariant
            start <= index <= length,
            start == plus_length(text@),
            length == text@.len(),
            digits == text@.skip(start as int),
            forall|i: int| 0 <= i < index - start ==> is_decimal_digit(#[trigger] digits[i]),
            !over ==> value == digits_value(digits.take(index - start)),
            !over ==> value <= u32::MAX,
            over ==> digits_value(digits.take(index - start)) > u32::MAX,
        decreases length - index,
    {
        let c = text.get_char(index);
        assert(c == digits[index - start]);
        if c < '0' || c > '9' {
            assert(!is_decimal_digit(digits[index - start]));
            return None;
        }
        assert(digits.take(index - start + 1).drop_last() =~= digits.take(index - start));
        if !over {
            value = value * 10 + (c as u32 - '0' as u32) as u64;
            if value > 0xffff_ffff {
                over = true;
            }
        }
        index += 1;
    }
    assert(digits.take(length - start) =~= digits);
    if over {
        None
    } else {
        Some(value as u32)
    }
}

/// The process ids on the lines of `text` (lines end at `\n`), each line
/// trimmed, that are not `own_id`.
pub open spec fn other_ids(text: Seq<char>, own_id: u32) -> Seq<u32>
    decreases text.len(),
{
    if text.len() == 0 {
        Seq::empty()
    } else {
        let (line, rest, last) = match split_once(text, seq!['\n']) {
            Some((line, rest)) => (line, rest, false),
            None => (text, Seq::<char>::empty(), true),
        };
        let here = match parse_u32_text(trim(line)) {
            Some(id) => if id != own_id {
                seq![id as u32]
            } else {
                Seq::empty()
            },
            None => Seq::empty(),
        };
        if last {
            here
        } else {
            here + other_ids(rest, own_id)
        }
    }
}

/// The other running copies of the application, from what `pgrep` printed.
pub fn other_instance_ids(listing: &str, own_id: u32) -> (ids: Vec<u32>)
    ensures
        ids@ == other_ids(listing@, own_id),
{
    let mut ids: Vec<u32> = Vec::new();
    let mut rest = to_owned_text(listing);
    while rest.unicode_len() > 0
        invariant
            ids@ + other_ids(rest@, own_id) == other_ids(listing@, own_id),
        decreases rest@.len(),
    {
        proof {
            reveal_strlit("\n");
            assert("\n"@ =~= seq!['\n']);
        }
        let ghost before = ids@;
        let ghost rest_view = rest@;
        let (line, next, last) = match split_text_once(rest.as_str(), "\n") {
            Some((line, next)) => (line, next, false),
            None => (rest, String::new(), true),
        };
        let parsed = parse_u32(trimmed(line.as_str()).as_str());
        match parsed {
            Some(id) => if id != own_id {
                ids.push(id);
            },
            None => {},
        }
        proof {
            let here = match parse_u32_text(trim(line@)) {
                Some(id) => if id != own_id {
                    seq![id as u32]
                } else {
                    Seq::<u32>::empty()
                },
                None => Seq::<u32>::empty(),
            };
            assert(ids@ =~= before + here);
            if last {
                assert(other_ids(rest_view, own_id) == here);
                assert(other_ids(next@, own_id) =~= Seq::<u32>::empty());
            } else {
                assert(other_ids(rest_view, own_id) == here + other_ids(next@, own_id));
            }
            assert(ids@ + other_ids(next@, own_id) =~= before + other_ids(rest_view, own_id));
        }
        rest = next;
    }
    assert(other_ids(rest@, own_id) =~= Seq::<u32>::empty());
    assert(ids@ =~= ids@ + other_ids(rest@, own_id));
    ids
}

/// The `taskkill` filter that spares the running copy on Windows.
pub open spec fn spec_instance_filter(own_id: u32) -> Seq<char> {
    "PID ne "@ + decimal_chars(own_id as nat)
}

/// The `taskkill` filter that spares the running copy.
pub fn instance_filter(own_id: u32) -> (filter: String)
    ensures
        filter@ == spec_instance_filter(own_id),
{
    let mut filter = to_owned_text("PID ne ");
    filter.append(crate::numbers::decimal_text(own_id as u128).as_str());
    filter
}

} // verus!
