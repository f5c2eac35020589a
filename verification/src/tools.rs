//! The decisions of the maintenance tools: the backup's level, folder and
//! file name, and the progress shown while the database is compacted or
//! compressed.

use vstd::prelude::*;
use crate::json::Value;
use crate::numbers::{clamp_i64, saturating_mul_i64, saturating_mul_u64, saturating_sub_i64};
use crate::progress::{percent_message, stage_detail_json, stage_detail_message};
use crate::reports::{default_backup_file_name, backup_file_name_at, size_capped};
use crate::text::{blank, is_blank, push_char, slice_text, split_text_once, to_owned_text, trim, trimmed};
use crate::paths::opt_view;

verus! {

/// The compression level used when none is given.
pub const DEFAULT_COMPRESSION_LEVEL: i32 = 10;
/// The label of the compression stage.
pub const COMPRESSING_LABEL: &'static str = "Compressing";

pub open spec fn is_decimal_digit(c: char) -> bool {
    '0' <= c && c <= '9'
}

/// The value of a run of decimal digits.
pub open spec fn digits_value(digits: Seq<char>) -> nat
    decreases digits.len(),
{
    if digits.len() == 0 {
        0
    } else {
        10 * digits_value(digits.drop_last()) + ((digits.last() as int) - ('0' as int)) as nat
    }
}

/// The length of a leading sign.
pub open spec fn sign_length(text: Seq<char>) -> int {
    if text.len() > 0 && (text[0] == '-' || text[0] == '+') {
        1
    } else {
        0
    }
}

/// `str::parse::<i32>`: an optional sign, then one or more decimal digits,
/// in the range of `i32`.
pub open spec fn parse_i32_text(text: Seq<char>) -> Option<int> {
    let negative = text.len() > 0 && text[0] == '-';
    let digits = text.skip(sign_length(text));
    if digits.len() == 0 || exists|i: int| 0 <= i < digits.len() && !is_decimal_digit(#[trigger] digits[i]) {
        None
    } else {
        let value = if negative {
            -(digits_value(digits) as int)
        } else {
            digits_value(digits) as int
        };
        if i32::MIN <= value <= i32::MAX {
            Some(value)
        } else {
            None
        }
    }
}

proof fn lemma_digits_value_grows(digits: Seq<char>, k: int)
    requires
        0 <= k <= digits.len(),
        forall|i: int| 0 <= i < digits.len() ==> is_decimal_digit(#[trigger] digits[i]),
    ensures
        digits_value(digits.take(k)) <= digits_value(digits),
    decreases digits.len() - k,
{
    if k < digits.len() {
        lemma_digits_value_grows(digits, k + 1);
        assert(digits.take(k + 1).drop_last() =~= digits.take(k));
    } else {
        assert(digits.take(k) =~= digits);
    }
}

/// Parses an `i32` as `str::parse` does.
pub fn parse_i32(text: &str) -> (parsed: Option<i32>)
    ensures
        match parse_i32_text(text@) {
            Some(v) => parsed == Some(v as i32),
            None => parsed is None,
        },
{
    let length = text.unicode_len();
    let mut start: usize = 0;
    let mut negative = false;
    if length > 0 && (text.get_char(0) == '-' || text.get_char(0) == '+') {
        negative = text.get_char(0) == '-';
        start = 1;
    }
    let ghost digits = text@.skip(start as int);
    if start == length {
        assert(digits.len() == 0);
        return None;
    }
    let mut value: i64 = 0;
    let mut over = false;
    let mut index: usize = start;
    while index < length
        invariant
            start <= index <= length,
            start == sign_length(text@),
            negative == (text@.len() > 0 && text@[0] == '-'),
            length == text@.len(),
            digits == text@.skip(start as int),
            forall|i: int| 0 <= i < index - start ==> is_decimal_digit(#[trigger] digits[i]),
            !over ==> value == digits_value(digits.take(index - start)),
            !over ==> value <= 0x8000_0000,
            over ==> digits_value(digits.take(index - start)) > 0x8000_0000,
        decreases length - index,
    {
        let c = text.get_char(index);
        assert(c == digits[index - start]);
        if c < '0' || c > '9' {
            assert(!is_decimal_digit(digits[index - start]));
            return None;
        }
        let ghost before = digits.take(index - start);
        assert(digits.take(index - start + 1).drop_last() =~= before);
        if !over {
            let digit = (c as u32 - '0' as u32) as i64;
            value = value * 10 + digit;
            if value > 0x8000_0000 {
                over = true;
            }
        }
        index += 1;
    }
    assert(digits.take(length - start) =~= digits);
    if over {
        return None;
    }
    if negative {
        if value <= 0x8000_0000 {
            Some((-value) as i32)
        } else {
            None
        }
    } else if value <= 0x7fff_ffff {
        Some(value as i32)
    } else {
        None
    }
}

/// The compression level asked for: the text's number, trimmed, else the
/// default; held to 1..=22.
pub open spec fn spec_compression_level(raw: Option<Seq<char>>) -> int {
    let level = match raw {
        Some(t) => match parse_i32_text(trim(t)) {
            Some(v) => v,
            None => DEFAULT_COMPRESSION_LEVEL as int,
        },
        None => DEFAULT_COMPRESSION_LEVEL as int,
    };
    if level < 1 {
        1
    } else if level > 22 {
        22
    } else {
        level
    }
}

pub open spec fn opt_str(value: Option<&str>) -> Option<Seq<char>> {
    match value {
        Some(t) => Some(t@),
        None => None,
    }
}

/// The compression level of a backup.
pub fn parse_compression_level(raw: Option<&str>) -> (level: i32)
    ensures
        level == spec_compression_level(opt_str(raw)),
{
    let level = match raw {
        Some(t) => match parse_i32(trimmed(t).as_str()) {
            Some(v) => v,
            None => DEFAULT_COMPRESSION_LEVEL,
        },
        None => DEFAULT_COMPRESSION_LEVEL,
    };
    if level < 1 {
        1
    } else if level > 22 {
        22
    } else {
        level
    }
}

/// A text that is given and not blank.
pub open spec fn given(value: Option<Seq<char>>) -> Option<Seq<char>> {
    match value {
        Some(t) => if is_blank(t) {
            None
        } else {
            Some(t)
        },
        None => None,
    }
}

/// The folder a backup goes to: the one asked for unless blank, else the
/// database's own folder.
pub fn backup_directory_choice(requested: Option<&str>, default_directory: &str) -> (directory: String)
    ensures
        directory@ == match given(opt_str(requested)) {
            Some(t) => t,
            None => default_directory@,
        },
{
    match requested {
        Some(t) => if blank(t) {
            to_owned_text(default_directory)
        } else {
            to_owned_text(t)
        },
        None => to_owned_text(default_directory),
    }
}

/// Why a backup file name is refused.
pub open spec fn name_refusal() -> Seq<char> {
    "backup file name must not include a directory"@
}

/// The file name of a backup: the one asked for unless blank, else one
/// stamped with the time; refused when it names a folder (holds the
/// platform's separator, `/` or `\`).
pub open spec fn spec_backup_file_name(requested: Option<Seq<char>>, now_millis: i64, separator: char) -> Result<Seq<char>, Seq<char>> {
    let name = match given(requested) {
        Some(t) => t,
        None => default_backup_file_name(now_millis),
    };
    if name.contains(separator) || name.contains('/') || name.contains('\\') {
        Err(name_refusal())
    } else {
        Ok(name)
    }
}

fn contains_char(text: &str, c: char) -> (found: bool)
    ensures
        found == text@.contains(c),
{
    let length = text.unicode_len();
    let mut i: usize = 0;
    while i < length
        invariant
            length == text@.len(),
            i <= length,
            forall|k: int| 0 <= k < i ==> text@[k] != c,
        decreases length - i,
    {
        if text.get_char(i) == c {
            assert(text@[i as int] == c);
            return true;
        }
        i += 1;
    }
    false
}

/// The file name of a backup, or why it is refused.
pub fn backup_file_name_choice(requested: Option<&str>, now_millis: i64, separator: char) -> (name: Result<String, String>)
    ensures
        match spec_backup_file_name(opt_str(requested), now_millis, separator) {
            Ok(n) => name matches Ok(found) && found@ == n,
            Err(e) => name matches Err(message) && message@ == e,
        },
{
    let name = match requested {
        Some(t) => if blank(t) {
            backup_file_name_at(now_millis)
        } else {
            to_owned_text(t)
        },
        None => backup_file_name_at(now_millis),
    };
    if contains_char(name.as_str(), separator) || contains_char(name.as_str(), '/') || contains_char(
        name.as_str(),
        '\\',
    ) {
        Err(to_owned_text("backup file name must not include a directory"))
    } else {
        Ok(name)
    }
}

/// The progress message of the compression after `done` of `total` bytes.
pub fn compression_message(done: u64, total: u64) -> (message: Value)
    ensures
        message@ == stage_detail_json(
            1,
            1,
            COMPRESSING_LABEL@,
            Some(size_capped(done) as i64),
            Some(size_capped(total) as i64),
            None,
            Some(size_capped(done) as i64),
            Some(size_capped(total) as i64),
        ),
{
    let done_signed: i64 = if done > 0x7fff_ffff_ffff_ffffu64 {
        0x7fff_ffff_ffff_ffffi64
    } else {
        done as i64
    };
    let total_signed: i64 = if total > 0x7fff_ffff_ffff_ffffu64 {
        0x7fff_ffff_ffff_ffffi64
    } else {
        total as i64
    };
    stage_detail_message(
        1,
        1,
        COMPRESSING_LABEL,
        Some(done_signed),
        Some(total_signed),
        None,
        Some(done_signed),
        Some(total_signed),
    )
}

/// The size a compaction is expected to leave: the used pages times the
/// page size, at least one byte; an unreadable count counts as zero.
pub open spec fn spec_compacted_bytes(page_count: Option<i64>, freelist_count: Option<i64>, page_size: Option<i64>) -> int {
    let used = clamp_i64(
        match page_count {
            Some(n) => n as int,
            None => 0,
        } - match freelist_count {
            Some(n) => n as int,
            None => 0,
        },
    );
    let bytes = clamp_i64(
        used * match page_size {
            Some(n) => n as int,
            None => 0,
        },
    );
    if bytes < 1 {
        1
    } else {
        bytes
    }
}

/// What a running compaction has shown so far.
pub struct VacuumView {
    pub compacted_bytes: int,
    pub last_percent: int,
    pub plateau_start: Option<int>,
    pub time_to_ninety: Option<int>,
}

/// The share of the expected size that the side files have reached,
/// scaled to 90.
pub open spec fn sidecar_percent(sidecar_bytes: u64, compacted_bytes: int) -> int {
    let reached = if sidecar_bytes < compacted_bytes {
        sidecar_bytes as int
    } else {
        compacted_bytes
    };
    let scaled = if reached * 90 > u64::MAX {
        u64::MAX as int
    } else {
        reached * 90
    };
    ((scaled / compacted_bytes) as i64) as int
}

/// The progress after one more look at the side files, `now` milliseconds
/// after the compaction started: their share up to 90; past that, the
/// last tenth creeps up with the time spent at 90, measured against half
/// the time it took to get there (at least 250 ms).
pub open spec fn after_tick(view: VacuumView, sidecar_bytes: u64, now: u64) -> VacuumView {
    let share = sidecar_percent(sidecar_bytes, view.compacted_bytes);
    if share >= 90 {
        let plateau_start = match view.plateau_start {
            Some(p) => p,
            None => now as int,
        };
        let time_to_ninety = match view.time_to_ninety {
            Some(t) => t,
            None => now as int,
        };
        let half = (if time_to_ninety < 500 { 500 } else { time_to_ninety }) / 2;
        let since = if now >= plateau_start { now - plateau_start } else { 0 };
        let scaled = if since * 9 > u64::MAX { u64::MAX as int } else { since * 9 };
        let quotient = scaled / (if half < 1 { 1 } else { half });
        let tail = if quotient > 9 { 9 } else { quotient };
        let percent = 90 + tail;
        VacuumView {
            last_percent: if view.last_percent > percent { view.last_percent } else { percent },
            plateau_start: Some(plateau_start),
            time_to_ninety: Some(time_to_ninety),
            ..view
        }
    } else {
        VacuumView {
            last_percent: if view.last_percent > share { view.last_percent } else { share },
            ..view
        }
    }
}

/// The progress of a compaction, estimated from the size of the side files
/// that SQLite writes while it rebuilds the database.
pub struct VacuumProgress {
    compacted_bytes: u64,
    last_percent: i64,
    plateau_start: Option<u64>,
    time_to_ninety: Option<u64>,
}

pub open spec fn opt_u64(value: Option<u64>) -> Option<int> {
    match value {
        Some(v) => Some(v as int),
        None => None,
    }
}

impl View for VacuumProgress {
    type V = VacuumView;

    closed spec fn view(&self) -> VacuumView {
        VacuumView {
            compacted_bytes: self.compacted_bytes as int,
            last_percent: self.last_percent as int,
            plateau_start: opt_u64(self.plateau_start),
            time_to_ninety: opt_u64(self.time_to_ninety),
        }
    }
}

impl VacuumProgress {
    pub closed spec fn wf(&self) -> bool {
        &&& self.compacted_bytes >= 1
        &&& 0 <= self.last_percent <= 99
        &&& self.plateau_start is Some <==> self.time_to_ninety is Some
    }

    /// The estimate at the start, from the database's page counts.
    pub fn new(page_count: Option<i64>, freelist_count: Option<i64>, page_size: Option<i64>) -> (progress: VacuumProgress)
        ensures
            progress.wf(),
            progress@ == (VacuumView {
                compacted_bytes: spec_compacted_bytes(page_count, freelist_count, page_size),
                last_percent: 0,
                plateau_start: None,
                time_to_ninety: None,
            }),
    {
        let pages = match page_count {
            Some(n) => n,
            None => 0,
        };
        let free = match freelist_count {
            Some(n) => n,
            None => 0,
        };
        let size = match page_size {
            Some(n) => n,
            None => 0,
        };
        let bytes = saturating_mul_i64(saturating_sub_i64(pages, free), size);
        let compacted: i64 = if bytes < 1 {
            1
        } else {
            bytes
        };
        VacuumProgress { compacted_bytes: compacted as u64, last_percent: 0, plateau_start: None, time_to_ninety: None }
    }

    /// The percent shown so far.
    pub fn percent(&self) -> (percent: i64)
        ensures
            percent == self@.last_percent,
    {
        self.last_percent
    }

    /// Takes one more look at the side files; gives the percent to show.
    pub fn tick(&mut self, sidecar_bytes: u64, now: u64) -> (percent: i64)
        requires
            old(self).wf(),
        ensures
            final(self).wf(),
            final(self)@ == after_tick(old(self)@, sidecar_bytes, now),
            percent == final(self)@.last_percent,
    {
        let reached = if sidecar_bytes < self.compacted_bytes {
            sidecar_bytes
        } else {
            self.compacted_bytes
        };
        let product = saturating_mul_u64(reached, 90);
        let quotient = product / self.compacted_bytes;
        assert(quotient <= 90) by (nonlinear_arith)
            requires
                quotient == product / self.compacted_bytes,
                product <= reached * 90,
                reached <= self.compacted_bytes,
                self.compacted_bytes >= 1,
        ;
        let share = quotient as i64;
        if share >= 90 {
            let plateau_start = match self.plateau_start {
                Some(p) => p,
                None => now,
            };
            let time_to_ninety = match self.time_to_ninety {
                Some(t) => t,
                None => now,
            };
            let half = (if time_to_ninety < 500 {
                500
            } else {
                time_to_ninety
            }) / 2;
            let since = now.saturating_sub(plateau_start);
            let quotient = saturating_mul_u64(since, 9) / (if half < 1 {
                1
            } else {
                half
            });
            let tail: i64 = if quotient > 9 {
                9
            } else {
                quotient as i64
            };
            let percent = 90 + tail;
            if percent > self.last_percent {
                self.last_percent = percent;
            }
            self.plateau_start = Some(plateau_start);
            self.time_to_ninety = Some(time_to_ninety);
        } else {
            if share > self.last_percent {
                self.last_percent = share;
            }
        }
        self.last_percent
    }

    /// The progress message for what has been shown so far.
    pub fn message(&self, stage: i64, stage_count: i64, label: &str) -> (message: Value)
        requires
            self.wf(),
        ensures
            message@ == stage_detail_json(stage, stage_count, label@, Some(self@.last_percent as i64), Some(100), None, None, None),
    {
        percent_message(stage, stage_count, label, self.last_percent)
    }
}

/// The length of a leading `+`.
pub open spec fn plus_sign_length(text: Seq<char>) -> int {
    if text.len() > 0 && text[0] == '+' {
        1
    } else {
        0
    }
}

/// `str::parse::<u64>`: an optional `+`, then one or more decimal digits,
/// in the range of `u64`.
pub open spec fn parse_u64_text(text: Seq<char>) -> Option<nat> {
    let digits = text.skip(plus_sign_length(text));
    if digits.len() == 0 || exists|i: int| 0 <= i < digits.len() && !is_decimal_digit(#[trigger] digits[i]) {
        None
    } else if digits_value(digits) <= u64::MAX {
        Some(digits_value(digits))
    } else {
        None
    }
}

/// Parses a `u64` as `str::parse` does.
pub fn parse_u64(text: &str) -> (parsed: Option<u64>)
    ensures
        match parse_u64_text(text@) {
            Some(v) => parsed == Some(v as u64),
            None => parsed is None,
        },
{
    let length = text.unicode_len();
    let start: usize = if length > 0 && text.get_char(0) == '+' {
        1
    } else {
        0
    };
    let ghost digits = text@.skip(start as int);
    if start == length {
        assert(digits.len() == 0);
        return None;
    }
    let mut value: u128 = 0;
    let mut over = false;
    let mut index: usize = start;
    while index < length
        invariant
            start <= index <= length,
            start == plus_sign_length(text@),
            length == text@.len(),
            digits == text@.skip(start as int),
            forall|i: int| 0 <= i < index - start ==> is_decimal_digit(#[trigger] digits[i]),
            !over ==> value == digits_value(digits.take(index - start)),
            !over ==> value <= u64::MAX,
            over ==> digits_value(digits.take(index - start)) > u64::MAX,
        decreases length - index,
    {
        let c = text.get_char(index);
        assert(c == digits[index - start]);
        if c < '0' || c > '9' {
            assert(!is_decimal_digit(digits[index - start]));
            return None;
        }
        assert(digits.take(index - start + 1).drop_last() =~= digits.take(index - start));
        if !over {
            value = value * 10 + (c as u32 - '0' as u32) as u128;
            if value > 0xffff_ffff_ffff_ffff {
                over = true;
            }
        }
        index += 1;
    }
    assert(digits.take(length - start) =~= digits);
    if over {
        None
    } else {
        Some(value as u64)
    }
}

/// The fields of `line` from `index` on, `current` being the part of a
/// field already read.
pub open spec fn fields_from(line: Seq<char>, index: int, current: Seq<char>) -> Seq<Seq<char>>
    decreases line.len() - index,
{
    let finished = if current.len() > 0 {
        seq![current]
    } else {
        Seq::<Seq<char>>::empty()
    };
    if index < 0 || index >= line.len() {
        finished
    } else if crate::text::is_white_space(line[index]) {
        finished + fields_from(line, index + 1, Seq::empty())
    } else {
        fields_from(line, index + 1, current.push(line[index]))
    }
}

/// The fields of a line separated by white space (`str::split_whitespace`).
pub open spec fn fields(line: Seq<char>) -> Seq<Seq<char>> {
    fields_from(line, 0, Seq::empty())
}

/// The fields of a line separated by white space.
pub fn split_fields(line: &str) -> (found: Vec<String>)
    ensures
        found@.map_values(|f: String| f@) == fields(line@),
{
    let mut found: Vec<String> = Vec::new();
    let mut current = String::new();
    let length = line.unicode_len();
    let mut index: usize = 0;
    while index < length
        invariant
            index <= length,
            length == line@.len(),
            found@.map_values(|f: String| f@) + fields_from(line@, index as int, current@) == fields(line@),
        decreases length - index,
    {
        let c = line.get_char(index);
        let ghost before = found@.map_values(|f: String| f@);
        let ghost old_current = current@;
        if crate::text::white_space(c) {
            if current.unicode_len() > 0 {
                found.push(current);
                assert(found@.map_values(|f: String| f@) =~= before.push(current@));
            }
            current = String::new();
            proof {
                let finished = if old_current.len() > 0 {
                    seq![old_current]
                } else {
                    Seq::<Seq<char>>::empty()
                };
                assert(found@.map_values(|f: String| f@) =~= before + finished);
                assert(fields_from(line@, index as int, old_current) == finished + fields_from(
                    line@,
                    index + 1,
                    Seq::empty(),
                ));
                assert(found@.map_values(|f: String| f@) + fields_from(line@, index + 1, Seq::empty()) =~= before
                    + fields_from(line@, index as int, old_current));
            }
        } else {
            push_char(&mut current, c);
        }
        index += 1;
    }
    if current.unicode_len() > 0 {
        let ghost before = found@.map_values(|f: String| f@);
        found.push(current);
        assert(found@.map_values(|f: String| f@) =~= before + fields_from(line@, length as int, current@));
    } else {
        assert(found@.map_values(|f: String| f@) =~= found@.map_values(|f: String| f@) + fields_from(line@, length as int, current@));
    }
    found
}

/// The second line of `text` (lines end at `\n`, a `\r` before it is
/// dropped), as `str::lines().nth(1)` gives it.
pub open spec fn second_line(text: Seq<char>) -> Option<Seq<char>> {
    match crate::text::split_once(text, seq!['\n']) {
        Some((_, rest)) => if rest.len() == 0 {
            None
        } else {
            let line = match crate::text::split_once(rest, seq!['\n']) {
                Some((line, _)) => line,
                None => rest,
            };
            Some(if line.len() > 0 && line.last() == '\r' && crate::text::split_once(rest, seq!['\n']) is Some {
                line.drop_last()
            } else {
                line
            })
        },
        None => None,
    }
}

/// The free space `df -Pk` reports: the fourth field of its second line, in
/// KiB, as bytes when that fits in 64 bits.
pub open spec fn spec_space_from_df(output: Seq<char>) -> Option<nat> {
    match second_line(output) {
        Some(line) => if fields(line).len() > 3 {
            match parse_u64_text(fields(line)[3]) {
                Some(kib) => if kib * 1024 <= u64::MAX {
                    Some(kib * 1024)
                } else {
                    None
                },
                None => None,
            }
        } else {
            None
        },
        None => None,
    }
}

/// The free space `df -Pk` reports.
pub fn space_from_df(output: &str) -> (bytes: Option<u64>)
    ensures
        match spec_space_from_df(output@) {
            Some(b) => bytes == Some(b as u64),
            None => bytes is None,
        },
{
    proof {
        reveal_strlit("\n");
        assert("\n"@ =~= seq!['\n']);
    }
    let rest = match split_text_once(output, "\n") {
        Some((_, rest)) => rest,
        None => return None,
    };
    if rest.unicode_len() == 0 {
        return None;
    }
    let line = match split_text_once(rest.as_str(), "\n") {
        Some((line, _)) => {
            let length = line.unicode_len();
            if length > 0 && line.get_char(length - 1) == '\r' {
                slice_text(line.as_str(), 0, length - 1)
            } else {
                line
            }
        },
        None => rest,
    };
    proof {
        let expected = second_line(output@).unwrap();
        assert(line@ =~= expected);
    }
    let found = split_fields(line.as_str());
    proof {
        assert(found@.map_values(|f: String| f@).len() == found@.len());
    }
    if found.len() > 3 {
        assert(found@[3]@ == fields(line@)[3]);
        match parse_u64(found[3].as_str()) {
            Some(kib) => kib.checked_mul(1024),
            None => None,
        }
    } else {
        None
    }
}

/// The script that asks PowerShell for the free space of a path's drive:
/// the drive named by the path's first character.
pub open spec fn spec_drive_query(path: Seq<char>) -> Option<Seq<char>> {
    if path.len() == 0 {
        None
    } else {
        Some("(Get-PSDrive -Name '"@ + seq![path[0]] + "').Free"@)
    }
}

/// The script that asks PowerShell for the free space of a path's drive.
pub fn drive_query(path: &str) -> (script: Option<String>)
    ensures
        opt_view(script) == spec_drive_query(path@),
{
    if path.unicode_len() == 0 {
        return None;
    }
    let mut script = to_owned_text("(Get-PSDrive -Name '");
    push_char(&mut script, path.get_char(0));
    script.append("').Free");
    Some(script)
}

/// The free space PowerShell reports, from its output where that is UTF-8:
/// the trimmed number.
pub fn space_from_drive_query(output: Option<&str>) -> (bytes: Option<u64>)
    ensures
        match opt_str(output) {
            Some(t) => match parse_u64_text(trim(t)) {
                Some(b) => bytes == Some(b as u64),
                None => bytes is None,
            },
            None => bytes is None,
        },
{
    match output {
        Some(t) => parse_u64(trimmed(t).as_str()),
        None => None,
    }
}

/// A backup's compression level is always one zstd offers (1 to 22).
pub proof fn law_compression_level_in_range(raw: Option<Seq<char>>)
    ensures
        1 <= spec_compression_level(raw) <= 22,
{
}

/// An accepted backup file name never names a folder.
pub proof fn law_backup_name_names_no_folder(requested: Option<Seq<char>>, now_millis: i64, separator: char)
    ensures
        spec_backup_file_name(requested, now_millis, separator) matches Ok(name) ==> !name.contains('/')
            && !name.contains('\\') && !name.contains(separator),
{
}

/// The compaction's progress never goes back, and stays below 100 until the
/// compaction ends.
pub proof fn law_vacuum_progress_never_goes_back(view: VacuumView, sidecar_bytes: u64, now: u64)
    requires
        view.compacted_bytes >= 1,
        0 <= view.last_percent <= 99,
        view.plateau_start is Some <==> view.time_to_ninety is Some,
    ensures
        after_tick(view, sidecar_bytes, now).last_percent >= view.last_percent,
        after_tick(view, sidecar_bytes, now).last_percent <= 99,
{
    let share = sidecar_percent(sidecar_bytes, view.compacted_bytes);
    let reached = if sidecar_bytes < view.compacted_bytes { sidecar_bytes as int } else { view.compacted_bytes };
    let scaled = if reached * 90 > u64::MAX { u64::MAX as int } else { reached * 90 };
    assert(scaled / view.compacted_bytes <= 90) by (nonlinear_arith)
        requires
            0 <= scaled <= reached * 90,
            0 <= reached <= view.compacted_bytes,
            view.compacted_bytes >= 1,
    ;
    assert(0 <= scaled / view.compacted_bytes) by (nonlinear_arith)
        requires
            0 <= scaled,
            view.compacted_bytes >= 1,
    ;
}

/// A field of a `df` line: some characters, none of them white space.
pub open spec fn is_word(text: Seq<char>) -> bool {
    text.len() > 0 && forall|i: int| 0 <= i < text.len() ==> !crate::text::is_white_space(#[trigger] text[i])
}

proof fn lemma_fields_word(line: Seq<char>, start: int, length: int, current: Seq<char>)
    requires
        0 <= start,
        0 <= length,
        start + length <= line.len(),
        forall|j: int| start <= j < start + length ==> !crate::text::is_white_space(#[trigger] line[j]),
    ensures
        fields_from(line, start, current) == fields_from(
            line,
            start + length,
            current + line.subrange(start, start + length),
        ),
    decreases length,
{
    if length == 0 {
        assert(current + line.subrange(start, start) =~= current);
    } else {
        lemma_fields_word(line, start + 1, length - 1, current.push(line[start]));
        assert(current.push(line[start]) + line.subrange(start + 1, start + length) =~= current
            + line.subrange(start, start + length));
    }
}

/// The fields of `line` from `start`, where a word of `length` characters
/// begins that a white space character ends.
proof fn lemma_fields_next_word(line: Seq<char>, start: int, length: int)
    requires
        0 <= start,
        0 < length,
        start + length < line.len(),
        forall|j: int| start <= j < start + length ==> !crate::text::is_white_space(#[trigger] line[j]),
        crate::text::is_white_space(line[start + length]),
    ensures
        fields_from(line, start, Seq::empty()) == seq![line.subrange(start, start + length)] + fields_from(
            line,
            start + length + 1,
            Seq::empty(),
        ),
{
    lemma_fields_word(line, start, length, Seq::empty());
    assert(Seq::<char>::empty() + line.subrange(start, start + length) =~= line.subrange(start, start + length));
}

proof fn lemma_single_newline_first(text: Seq<char>, at: int)
    requires
        0 <= at < text.len(),
        text[at] == '\n',
        forall|i: int| 0 <= i < at ==> text[i] != '\n',
    ensures
        crate::text::split_once(text, seq!['\n']) == Some(
            (text.subrange(0, at), text.subrange(at + 1, text.len() as int)),
        ),
{
    assert(text.subrange(at, at + 1) =~= seq!['\n']);
    assert forall|earlier: int| 0 <= earlier < at implies !crate::text::occurs_at(text, seq!['\n'], earlier) by {
        if text.subrange(earlier, earlier + 1) == seq!['\n'] {
            assert(text.subrange(earlier, earlier + 1)[0] == text[earlier]);
        }
    }
    crate::text::lemma_first_occurrence_unique(text, seq!['\n'], at);
}

proof fn lemma_no_newline(text: Seq<char>)
    requires
        forall|i: int| 0 <= i < text.len() ==> text[i] != '\n',
    ensures
        crate::text::split_once(text, seq!['\n']) is None,
{
    if exists|start: int| crate::text::is_first_occurrence(text, seq!['\n'], start) {
        let start = choose|start: int| crate::text::is_first_occurrence(text, seq!['\n'], start);
        assert(text.subrange(start, start + 1)[0] == text[start]);
    }
}

proof fn lemma_second_line_is(header: Seq<char>, line: Seq<char>, more: Seq<char>)
    requires
        forall|i: int| 0 <= i < header.len() ==> header[i] != '\n',
        line.len() > 0,
        forall|i: int| 0 <= i < line.len() ==> line[i] != '\n' && line[i] != '\r',
        more.len() == 0 || more[0] == '\n',
    ensures
        second_line(header + seq!['\n'] + line + more) == Some(line),
{
    let output = header + seq!['\n'] + line + more;
    let rest = line + more;
    assert forall|i: int| 0 <= i < header.len() implies output[i] != '\n' by {
        assert(output[i] == header[i]);
    }
    lemma_single_newline_first(output, header.len() as int);
    assert(output.subrange(header.len() as int + 1, output.len() as int) =~= rest);
    if more.len() == 0 {
        assert(rest =~= line);
        lemma_no_newline(rest);
    } else {
        assert forall|i: int| 0 <= i < line.len() implies rest[i] != '\n' by {
            assert(rest[i] == line[i]);
        }
        lemma_single_newline_first(rest, line.len() as int);
        assert(rest.subrange(0, line.len() as int) =~= line);
        assert(line.last() != '\r');
    }
}

proof fn lemma_word_in_line(line: Seq<char>, word: Seq<char>, at: int)
    requires
        is_word(word),
        0 <= at,
        at + word.len() <= line.len(),
        line.subrange(at, at + word.len()) == word,
    ensures
        forall|j: int| at <= j < at + word.len() ==> !crate::text::is_white_space(#[trigger] line[j]),
        forall|j: int| at <= j < at + word.len() ==> line[j] != '\n' && line[j] != '\r',
{
    assert forall|j: int| at <= j < at + word.len() implies !crate::text::is_white_space(#[trigger] line[j]) by {
        assert(line[j] == line.subrange(at, at + word.len())[j - at]);
    }
}

proof fn lemma_df_line_fields(
    filesystem: Seq<char>,
    blocks: Seq<char>,
    used: Seq<char>,
    available: Seq<char>,
    tail: Seq<char>,
)
    requires
        is_word(filesystem),
        is_word(blocks),
        is_word(used),
        is_word(available),
        forall|i: int| 0 <= i < tail.len() ==> tail[i] != '\n' && tail[i] != '\r',
        tail.len() == 0 || crate::text::is_white_space(tail[0]),
    ensures
        ({
            let line = filesystem + seq![' '] + blocks + seq![' '] + used + seq![' '] + available + tail;
            &&& fields(line).len() > 3
            &&& fields(line)[3] == available
            &&& forall|i: int| 0 <= i < line.len() ==> line[i] != '\n' && line[i] != '\r'
        }),
{
    let line = filesystem + seq![' '] + blocks + seq![' '] + used + seq![' '] + available + tail;
    let p1 = filesystem.len() as int;
    let p2 = p1 + 1 + blocks.len();
    let p3 = p2 + 1 + used.len();
    let p4 = p3 + 1 + available.len();
    assert(line.len() == p4 + tail.len());
    assert(line.subrange(0, p1) =~= filesystem);
    assert(line.subrange(p1 + 1, p2) =~= blocks);
    assert(line.subrange(p2 + 1, p3) =~= used);
    assert(line.subrange(p3 + 1, p4) =~= available);
    assert(line.subrange(p4, line.len() as int) =~= tail);
    assert(line[p1] == ' ' && line[p2] == ' ' && line[p3] == ' ');
    lemma_word_in_line(line, filesystem, 0);
    lemma_word_in_line(line, blocks, p1 + 1);
    lemma_word_in_line(line, used, p2 + 1);
    lemma_word_in_line(line, available, p3 + 1);
    assert forall|i: int| 0 <= i < line.len() implies line[i] != '\n' && line[i] != '\r' by {
        if i >= p4 {
            assert(line[i] == line.subrange(p4, line.len() as int)[i - p4]);
        }
    }
    lemma_fields_next_word(line, 0, p1);
    lemma_fields_next_word(line, p1 + 1, blocks.len() as int);
    lemma_fields_next_word(line, p2 + 1, used.len() as int);
    let last = if tail.len() == 0 {
        lemma_fields_word(line, p3 + 1, available.len() as int, Seq::empty());
        assert(Seq::<char>::empty() + line.subrange(p3 + 1, p4) =~= available);
        assert(fields_from(line, p3 + 1, Seq::empty()) == seq![available]);
        seq![available]
    } else {
        assert(line[p4] == line.subrange(p4, line.len() as int)[0]);
        lemma_fields_next_word(line, p3 + 1, available.len() as int);
        seq![available] + fields_from(line, p4 + 1, Seq::empty())
    };
    assert(fields(line) == seq![filesystem] + (seq![blocks] + (seq![used] + last)));
    assert(fields(line)[3] == available);
}

/// The free space read from `df -Pk` output is the fourth column (the
/// space available) of the line after the header, times 1024: whatever the
/// other columns hold, and whatever follows on that line or after it.
pub proof fn law_free_space_is_the_available_column(
    header: Seq<char>,
    filesystem: Seq<char>,
    blocks: Seq<char>,
    used: Seq<char>,
    available: Seq<char>,
    tail: Seq<char>,
    more: Seq<char>,
)
    requires
        forall|i: int| 0 <= i < header.len() ==> header[i] != '\n',
        is_word(filesystem),
        is_word(blocks),
        is_word(used),
        is_word(available),
        forall|i: int| 0 <= i < tail.len() ==> tail[i] != '\n' && tail[i] != '\r',
        tail.len() == 0 || crate::text::is_white_space(tail[0]),
        more.len() == 0 || more[0] == '\n',
    ensures
        spec_space_from_df(
            header + seq!['\n'] + (filesystem + seq![' '] + blocks + seq![' '] + used + seq![' '] + available + tail)
                + more,
        ) == match parse_u64_text(available) {
            Some(kib) => if kib * 1024 <= u64::MAX {
                Some(kib * 1024)
            } else {
                None
            },
            None => None,
        },
{
    let line = filesystem + seq![' '] + blocks + seq![' '] + used + seq![' '] + available + tail;
    lemma_df_line_fields(filesystem, blocks, used, available, tail);
    lemma_second_line_is(header, line, more);
}

} // verus!
