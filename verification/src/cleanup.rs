//! Deciding which stored conversations are older than a cutoff: timestamp
//! detection inside stored values, and the selection of rows to delete.

use vstd::prelude::*;
use vstd::utf8::*;
use vstd::string::StringSliceAdditionalSpecFns;

verus! {

/// Timestamps below this bound are taken to be seconds, not milliseconds.
pub open spec fn seconds_bound() -> int {
    1_000_000_000_000
}

pub open spec fn spec_normalize_to_millis(value: int) -> int {
    if value < seconds_bound() {
        value * 1000
    } else {
        value
    }
}

/// A timestamp in milliseconds: values below 10^12 are seconds and are
/// scaled by 1000.
pub fn normalize_to_millis(value: i64) -> (millis: i64)
    requires
        value * 1000 >= i64::MIN,
    ensures
        millis == spec_normalize_to_millis(value as int),
{
    if value < 1_000_000_000_000 {
        value * 1000
    } else {
        value
    }
}

/// `needle` occurs in `haystack` starting at `start`.
pub open spec fn matches_at(haystack: Seq<u8>, needle: Seq<u8>, start: int) -> bool {
    &&& 0 <= start
    &&& start + needle.len() <= haystack.len()
    &&& haystack.subrange(start, start + needle.len()) == needle
}

/// `start` is the first place where `needle` occurs in `haystack`.
pub open spec fn is_first_match(haystack: Seq<u8>, needle: Seq<u8>, start: int) -> bool {
    &&& matches_at(haystack, needle, start)
    &&& forall|earlier: int| 0 <= earlier < start ==> !matches_at(haystack, needle, earlier)
}

/// Where a non-empty `needle` first occurs in `haystack`, if anywhere.
pub open spec fn first_match(haystack: Seq<u8>, needle: Seq<u8>) -> Option<int> {
    if needle.len() > 0 && exists|start: int| is_first_match(haystack, needle, start) {
        Some(choose|start: int| is_first_match(haystack, needle, start))
    } else {
        None
    }
}

pub proof fn lemma_first_match_unique(haystack: Seq<u8>, needle: Seq<u8>, start: int)
    requires
        needle.len() > 0,
        is_first_match(haystack, needle, start),
    ensures
        first_match(haystack, needle) == Some(start),
{
    let chosen = choose|s: int| is_first_match(haystack, needle, s);
    assert(is_first_match(haystack, needle, chosen));
    if chosen < start {
        assert(!matches_at(haystack, needle, chosen));
    }
    if start < chosen {
        assert(!matches_at(haystack, needle, start));
    }
}

pub proof fn lemma_first_match_bounds(haystack: Seq<u8>, needle: Seq<u8>)
    ensures
        first_match(haystack, needle) matches Some(start) ==> matches_at(haystack, needle, start),
{
    if first_match(haystack, needle) is Some {
        let chosen = choose|s: int| is_first_match(haystack, needle, s);
        assert(is_first_match(haystack, needle, chosen));
    }
}

/// The first position at which `needle` occurs in `haystack`; `None` for an
/// empty needle or one that does not occur.
pub fn find_subsequence(haystack: &[u8], needle: &[u8]) -> (found: Option<usize>)
    ensures
        match found {
            Some(start) => needle@.len() > 0 && is_first_match(haystack@, needle@, start as int),
            None => needle@.len() == 0 || forall|start: int|
                !matches_at(haystack@, needle@, start),
        },
        found matches Some(start) ==> first_match(haystack@, needle@) == Some(start as int),
        found is None ==> first_match(haystack@, needle@) is None,
{
    if needle.len() == 0 || haystack.len() < needle.len() {
        proof {
            assert forall|start: int| !matches_at(haystack@, needle@, start) implies true by {}
            if needle.len() > 0 {
                assert forall|start: int| !matches_at(haystack@, needle@, start) by {}
                assert(!exists|start: int| is_first_match(haystack@, needle@, start));
            }
        }
        return None;
    }
    let last_start = haystack.len() - needle.len();
    let mut start: usize = 0;
    while start <= last_start
        invariant
            last_start == haystack@.len() - needle@.len(),
            needle@.len() > 0,
            haystack@.len() <= usize::MAX,
            start <= last_start + 1,
            forall|earlier: int| 0 <= earlier < start ==> !matches_at(haystack@, needle@, earlier),
        decreases last_start + 1 - start,
    {
        let mut offset: usize = 0;
        let mut same = true;
        while same && offset < needle.len()
            invariant
                start <= last_start,
                last_start == haystack@.len() - needle@.len(),
                haystack@.len() <= usize::MAX,
                offset <= needle@.len(),
                same ==> forall|k: int| 0 <= k < offset ==> haystack@[start + k] == needle@[k],
                !same ==> exists|k: int|
                    0 <= k < needle@.len() && haystack@[start + k] != needle@[k],
            decreases needle@.len() - offset + (if same { 1int } else { 0int }),
        {
            if haystack[start + offset] != needle[offset] {
                same = false;
            } else {
                offset += 1;
            }
        }
        if same {
            assert(haystack@.subrange(start as int, start + needle@.len()) =~= needle@);
            proof {
                lemma_first_match_unique(haystack@, needle@, start as int);
            }
            return Some(start);
        }
        proof {
            let k = choose|k: int| 0 <= k < needle@.len() && haystack@[start + k] != needle@[k];
            assert(haystack@.subrange(start as int, start + needle@.len())[k] != needle@[k]);
        }
        start += 1;
    }
    proof {
        assert forall|s: int| !matches_at(haystack@, needle@, s) by {
            if 0 <= s && s + needle@.len() <= haystack@.len() {
                assert(s < start);
            }
        }
        assert(!exists|s: int| is_first_match(haystack@, needle@, s));
    }
    None
}


pub open spec fn is_digit_byte(byte: u8) -> bool {
    48 <= byte <= 57
}

pub open spec fn is_gap_byte(byte: u8) -> bool {
    byte == 32 || byte == 9
}

pub open spec fn is_gap_or_quote_byte(byte: u8) -> bool {
    byte == 32 || byte == 9 || byte == 34
}

/// The first position at or after `from` that does not hold a space or tab.
pub open spec fn skip_gaps(data: Seq<u8>, from: int) -> int
    decreases data.len() - from,
{
    if 0 <= from < data.len() && is_gap_byte(data[from]) {
        skip_gaps(data, from + 1)
    } else {
        from
    }
}

/// The first position at or after `from` that holds no space, tab or quote.
pub open spec fn skip_gaps_and_quotes(data: Seq<u8>, from: int) -> int
    decreases data.len() - from,
{
    if 0 <= from < data.len() && is_gap_or_quote_byte(data[from]) {
        skip_gaps_and_quotes(data, from + 1)
    } else {
        from
    }
}

/// The end of the run of decimal digits that starts at `from`.
pub open spec fn digits_end(data: Seq<u8>, from: int) -> int
    decreases data.len() - from,
{
    if 0 <= from < data.len() && is_digit_byte(data[from]) {
        digits_end(data, from + 1)
    } else {
        from
    }
}

/// The number that a sequence of decimal digits spells.
pub open spec fn decimal_value(digits: Seq<u8>) -> nat
    decreases digits.len(),
{
    if digits.len() == 0 {
        0
    } else {
        decimal_value(digits.drop_last()) * 10 + (digits.last() - 48) as nat
    }
}

/// Where the digits of a value begin: after spaces and tabs, an optional
/// colon, then spaces, tabs and quotes.
pub open spec fn number_start(data: Seq<u8>) -> int {
    let before_colon = skip_gaps(data, 0);
    let after_colon = if before_colon < data.len() && data[before_colon] == 58 {
        before_colon + 1
    } else {
        before_colon
    };
    skip_gaps_and_quotes(data, after_colon)
}

pub open spec fn min_int(a: int, b: int) -> int {
    if a <= b {
        a
    } else {
        b
    }
}

/// The number written after a colon: at least nine digits are needed, and
/// the value saturates at `i64::MAX`.
pub open spec fn spec_parse_number_after_colon(data: Seq<u8>) -> Option<int> {
    let start = number_start(data);
    let end = digits_end(data, start);
    if end - start >= 9 {
        Some(min_int(decimal_value(data.subrange(start, end)) as int, i64::MAX as int))
    } else {
        None
    }
}

proof fn lemma_skip_gaps(data: Seq<u8>, from: int, to: int)
    requires
        0 <= from <= to <= data.len(),
        forall|i: int| from <= i < to ==> is_gap_byte(#[trigger] data[i]),
    ensures
        skip_gaps(data, from) == skip_gaps(data, to),
    decreases to - from,
{
    if from < to {
        lemma_skip_gaps(data, from + 1, to);
    }
}

proof fn lemma_skip_gaps_and_quotes(data: Seq<u8>, from: int, to: int)
    requires
        0 <= from <= to <= data.len(),
        forall|i: int| from <= i < to ==> is_gap_or_quote_byte(#[trigger] data[i]),
    ensures
        skip_gaps_and_quotes(data, from) == skip_gaps_and_quotes(data, to),
    decreases to - from,
{
    if from < to {
        lemma_skip_gaps_and_quotes(data, from + 1, to);
    }
}

proof fn lemma_digits_end(data: Seq<u8>, from: int, to: int)
    requires
        0 <= from <= to <= data.len(),
        forall|i: int| from <= i < to ==> is_digit_byte(#[trigger] data[i]),
    ensures
        digits_end(data, from) == digits_end(data, to),
    decreases to - from,
{
    if from < to {
        lemma_digits_end(data, from + 1, to);
    }
}

proof fn lemma_saturating_digit_step(value: int, digit: int)
    requires
        0 <= value <= i64::MAX,
        0 <= digit <= 9,
    ensures
        value > (i64::MAX - digit) / 10 ==> value * 10 + digit > i64::MAX,
        value <= (i64::MAX - digit) / 10 ==> value * 10 + digit <= i64::MAX,
{
    assert(value > (i64::MAX - digit) / 10 ==> value * 10 + digit > i64::MAX) by (nonlinear_arith)
        requires
            0 <= digit <= 9,
    ;
    assert(value <= (i64::MAX - digit) / 10 ==> value * 10 + digit <= i64::MAX) by (nonlinear_arith)
        requires
            0 <= digit <= 9,
    ;
}

/// Reads the number that follows a colon in `data`: spaces and tabs, an
/// optional colon, then spaces, tabs and quotes may come first. At least nine
/// digits are needed; the value saturates at `i64::MAX`.
pub fn parse_number_after_colon(data: &[u8]) -> (parsed: Option<i64>)
    ensures
        match spec_parse_number_after_colon(data@) {
            Some(value) => parsed == Some(value as i64),
            None => parsed is None,
        },
{
    let length = data.len();
    let mut index: usize = 0;
    while index < length && (data[index] == 32u8 || data[index] == 9u8)
        invariant
            length == data@.len(),
            index <= length,
            forall|i: int| 0 <= i < index ==> is_gap_byte(#[trigger] data@[i]),
        decreases length - index,
    {
        index += 1;
    }
    proof {
        lemma_skip_gaps(data@, 0, index as int);
    }
    if index < length && data[index] == 58u8 {
        index += 1;
    }
    let ghost after_colon = index as int;
    while index < length && (data[index] == 32u8 || data[index] == 9u8 || data[index] == 34u8)
        invariant
            length == data@.len(),
            after_colon <= index <= length,
            forall|i: int| after_colon <= i < index ==> is_gap_or_quote_byte(#[trigger] data@[i]),
        decreases length - index,
    {
        index += 1;
    }
    proof {
        lemma_skip_gaps_and_quotes(data@, after_colon, index as int);
    }
    let start = index;
    let mut value: i64 = 0;
    while index < length && data[index] >= 48u8 && data[index] <= 57u8
        invariant
            length == data@.len(),
            start <= index <= length,
            start == number_start(data@),
            forall|i: int| start <= i < index ==> is_digit_byte(#[trigger] data@[i]),
            value == min_int(
                decimal_value(data@.subrange(start as int, index as int)) as int,
                i64::MAX as int,
            ),
        decreases length - index,
    {
        let digit = (data[index] - 48u8) as i64;
        let ghost before = decimal_value(data@.subrange(start as int, index as int)) as int;
        proof {
            assert(data@.subrange(start as int, index + 1).drop_last() =~= data@.subrange(
                start as int,
                index as int,
            ));
            assert(decimal_value(data@.subrange(start as int, index + 1)) == before * 10 + digit);
            lemma_saturating_digit_step(value as int, digit as int);
            if before > i64::MAX {
                assert(before * 10 + digit > i64::MAX) by (nonlinear_arith)
                    requires
                        before > i64::MAX,
                        digit >= 0,
                ;
            }
        }
        if value > (i64::MAX - digit) / 10 {
            value = i64::MAX;
        } else {
            value = value * 10 + digit;
        }
        index += 1;
    }
    proof {
        lemma_digits_end(data@, start as int, index as int);
    }
    if index - start >= 9 {
        Some(value)
    } else {
        None
    }
}


/// The quoted field names whose numbers count as timestamps of a stored
/// value: `"lastUpdatedAt"`, `"timestamp"`, `"unixMs"`, `"createdAt"`.
pub open spec fn timestamp_field(index: int) -> Seq<u8> {
        if index == 0 {
            seq![34u8, 108u8, 97u8, 115u8, 116u8, 85u8, 112u8, 100u8, 97u8, 116u8, 101u8, 100u8, 65u8, 116u8, 34u8]
        }
        else if index == 1 {
            seq![34u8, 116u8, 105u8, 109u8, 101u8, 115u8, 116u8, 97u8, 109u8, 112u8, 34u8]
        }
        else if index == 2 {
            seq![34u8, 117u8, 110u8, 105u8, 120u8, 77u8, 115u8, 34u8]
        }
        else {
            seq![34u8, 99u8, 114u8, 101u8, 97u8, 116u8, 101u8, 100u8, 65u8, 116u8, 34u8]
        }
}

fn timestamp_field_bytes(index: usize) -> (field: Vec<u8>)
    requires
        index < 4,
    ensures
        field@ == timestamp_field(index as int),
{
    match index {
        0 => vec![34u8, 108u8, 97u8, 115u8, 116u8, 85u8, 112u8, 100u8, 97u8, 116u8, 101u8, 100u8, 65u8, 116u8, 34u8],
        1 => vec![34u8, 116u8, 105u8, 109u8, 101u8, 115u8, 116u8, 97u8, 109u8, 112u8, 34u8],
        2 => vec![34u8, 117u8, 110u8, 105u8, 120u8, 77u8, 115u8, 34u8],
        _ => vec![34u8, 99u8, 114u8, 101u8, 97u8, 116u8, 101u8, 100u8, 65u8, 116u8, 34u8],
    }
}

/// The later of two optional timestamps.
pub open spec fn newer(first: Option<int>, second: Option<int>) -> Option<int> {
    match (first, second) {
        (Some(a), Some(b)) => Some(if a >= b { a } else { b }),
        (Some(a), None) => Some(a),
        (None, b) => b,
    }
}

/// The timestamp written after a field name, in milliseconds.
pub open spec fn timestamp_after(rest: Seq<u8>) -> Option<int> {
    match spec_parse_number_after_colon(rest) {
        Some(value) => Some(spec_normalize_to_millis(value)),
        None => None,
    }
}

/// The newest timestamp written after the occurrences of `field` in `data`,
/// searching from `from`; each search resumes after the previous occurrence.
pub open spec fn field_newest(data: Seq<u8>, field: Seq<u8>, from: int) -> Option<int>
    decreases data.len() - from,
{
    if field.len() == 0 || from < 0 || from > data.len() {
        None
    } else {
        match first_match(data.subrange(from, data.len() as int), field) {
            None => None,
            Some(found) => {
                proof {
                    lemma_first_match_bounds(data.subrange(from, data.len() as int), field);
                }
                let end = from + found + field.len();
                newer(
                    timestamp_after(data.subrange(end, data.len() as int)),
                    field_newest(data, field, end),
                )
            },
        }
    }
}

/// The newest timestamp in a stored value over all timestamp fields.
pub open spec fn value_newest(data: Seq<u8>) -> Option<int> {
    newer(
        newer(
            newer(field_newest(data, timestamp_field(0), 0), field_newest(data, timestamp_field(1), 0)),
            field_newest(data, timestamp_field(2), 0),
        ),
        field_newest(data, timestamp_field(3), 0),
    )
}

/// Whether a stored value is older than the cutoff: `None` when it holds no
/// timestamp, otherwise whether its newest timestamp is before the cutoff.
pub open spec fn spec_classify_value_age(data: Seq<u8>, cutoff_millis: int) -> Option<bool> {
    match value_newest(data) {
        Some(newest) => Some(newest < cutoff_millis),
        None => None,
    }
}

pub open spec fn opt_int(value: Option<i64>) -> Option<int> {
    match value {
        Some(v) => Some(v as int),
        None => None,
    }
}

fn newer_of(first: Option<i64>, second: Option<i64>) -> (result: Option<i64>)
    ensures
        opt_int(result) == newer(opt_int(first), opt_int(second)),
{
    match (first, second) {
        (Some(a), Some(b)) => Some(if a >= b { a } else { b }),
        (Some(a), None) => Some(a),
        (None, b) => b,
    }
}

fn newest_in_field(data: &[u8], field: &[u8]) -> (newest: Option<i64>)
    requires
        field@.len() > 0,
    ensures
        opt_int(newest) == field_newest(data@, field@, 0),
{
    let mut newest: Option<i64> = None;
    let mut search_from: usize = 0;
    let mut searching = true;
    while searching
        invariant
            field@.len() > 0,
            search_from <= data@.len(),
            searching ==> newer(opt_int(newest), field_newest(data@, field@, search_from as int))
                == field_newest(data@, field@, 0),
            !searching ==> opt_int(newest) == field_newest(data@, field@, 0),
        decreases data@.len() - search_from + (if searching { 1int } else { 0int }),
    {
        let area = &data[search_from..data.len()];
        match find_subsequence(area, field) {
            Some(found) => {
                proof {
                    lemma_first_match_bounds(area@, field@);
                }
                let absolute = search_from + found + field.len();
                let remaining = &data[absolute..data.len()];
                let here = match parse_number_after_colon(remaining) {
                    Some(parsed) => Some(normalize_to_millis(parsed)),
                    None => None,
                };
                assert(opt_int(here) == timestamp_after(data@.subrange(absolute as int, data@.len() as int)));
                newest = newer_of(newest, here);
                search_from = absolute;
            },
            None => {
                searching = false;
            },
        }
    }
    newest
}

/// Whether a stored value is older than `cutoff_millis`, judged by the newest
/// timestamp found after any of the timestamp field names; `None` when the
/// value holds no timestamp.
pub fn classify_value_age(data: &[u8], cutoff_millis: i64) -> (classification: Option<bool>)
    ensures
        classification == spec_classify_value_age(data@, cutoff_millis as int),
{
    let mut newest: Option<i64> = None;
    let mut index: usize = 0;
    while index < 4
        invariant
            index <= 4,
            opt_int(newest) == (if index == 0 {
                None
            } else if index == 1 {
                field_newest(data@, timestamp_field(0), 0)
            } else if index == 2 {
                newer(field_newest(data@, timestamp_field(0), 0), field_newest(data@, timestamp_field(1), 0))
            } else if index == 3 {
                newer(
                    newer(field_newest(data@, timestamp_field(0), 0), field_newest(data@, timestamp_field(1), 0)),
                    field_newest(data@, timestamp_field(2), 0),
                )
            } else {
                value_newest(data@)
            }),
        decreases 4 - index,
    {
        let field = timestamp_field_bytes(index);
        let in_field = newest_in_field(data, field.as_slice());
        newest = newer_of(newest, in_field);
        index += 1;
    }
    match newest {
        Some(millis) => Some(millis < cutoff_millis),
        None => None,
    }
}


/// The first position at or after `from` that holds `byte`.
pub open spec fn byte_position(bytes: Seq<u8>, byte: u8, from: int) -> Option<int>
    decreases bytes.len() - from,
{
    if from < 0 || from >= bytes.len() {
        None
    } else if bytes[from] == byte {
        Some(from)
    } else {
        byte_position(bytes, byte, from + 1)
    }
}

/// The conversation a key belongs to, on the key's UTF-8 bytes: what
/// follows the first colon, up to the next colon if there is one.
pub open spec fn spec_composer_id(key: Seq<u8>) -> Option<Seq<u8>> {
    match byte_position(key, 58, 0) {
        None => None,
        Some(first) => match byte_position(key, 58, first + 1) {
            Some(second) => Some(key.subrange(first + 1, second)),
            None => Some(key.subrange(first + 1, key.len() as int)),
        },
    }
}

proof fn lemma_byte_position_found(bytes: Seq<u8>, byte: u8, from: int, at: int)
    requires
        0 <= from <= at < bytes.len(),
        bytes[at] == byte,
        forall|i: int| from <= i < at ==> bytes[i] != byte,
    ensures
        byte_position(bytes, byte, from) == Some(at),
    decreases at - from,
{
    if from < at {
        lemma_byte_position_found(bytes, byte, from + 1, at);
    }
}

proof fn lemma_byte_position_absent(bytes: Seq<u8>, byte: u8, from: int)
    requires
        0 <= from <= bytes.len(),
        forall|i: int| from <= i < bytes.len() ==> bytes[i] != byte,
    ensures
        byte_position(bytes, byte, from) is None,
    decreases bytes.len() - from,
{
    if from < bytes.len() {
        lemma_byte_position_absent(bytes, byte, from + 1);
    }
}

/// The first position at or after `from` where `bytes` holds `byte`.
fn find_byte(bytes: &[u8], byte: u8, from: usize) -> (found: Option<usize>)
    requires
        from <= bytes@.len(),
    ensures
        opt_usize_int(found) == byte_position(bytes@, byte, from as int),
        found matches Some(at) ==> from <= at < bytes@.len() && bytes@[at as int] == byte
            && forall|i: int| from <= i < at ==> bytes@[i] != byte,
        found is None ==> forall|i: int| from <= i < bytes@.len() ==> bytes@[i] != byte,
{
    let mut index = from;
    while index < bytes.len()
        invariant
            from <= index <= bytes@.len(),
            forall|i: int| from <= i < index ==> bytes@[i] != byte,
        decreases bytes@.len() - index,
    {
        if bytes[index] == byte {
            proof {
                lemma_byte_position_found(bytes@, byte, from as int, index as int);
            }
            return Some(index);
        }
        index += 1;
    }
    proof {
        lemma_byte_position_absent(bytes@, byte, from as int);
    }
    None
}

pub open spec fn opt_usize_int(value: Option<usize>) -> Option<int> {
    match value {
        Some(v) => Some(v as int),
        None => None,
    }
}

/// The text after the ASCII byte at `at`.
fn after_ascii_byte(text: &str, at: usize) -> (rest: &str)
    requires
        at < text.spec_bytes().len(),
        text.spec_bytes()[at as int] < 0x80,
    ensures
        rest.spec_bytes() == text.spec_bytes().subrange(at + 1, text.spec_bytes().len() as int),
{
    proof {
        encode_utf8_valid_utf8(text@);
        is_char_boundary_iff_not_is_continuation_byte(text.spec_bytes(), at as int);
    }
    let (_, from_byte) = text.split_at(at);
    proof {
        let tail = from_byte.spec_bytes();
        encode_utf8_valid_utf8(from_byte@);
        assert(tail[0] == text.spec_bytes()[at as int]);
        assert(length_of_first_scalar(tail) == 1);
        reveal_with_fuel(is_char_boundary, 2);
        assert(is_char_boundary(pop_first_scalar(tail), 0));
        assert(is_char_boundary(tail, 1));
    }
    let (_, rest) = from_byte.split_at(1);
    assert(rest.spec_bytes() =~= text.spec_bytes().subrange(at + 1, text.spec_bytes().len() as int));
    rest
}

/// The text before the ASCII byte at `at`.
fn before_ascii_byte(text: &str, at: usize) -> (front: &str)
    requires
        at < text.spec_bytes().len(),
        text.spec_bytes()[at as int] < 0x80,
    ensures
        front.spec_bytes() == text.spec_bytes().subrange(0, at as int),
{
    proof {
        encode_utf8_valid_utf8(text@);
        is_char_boundary_iff_not_is_continuation_byte(text.spec_bytes(), at as int);
    }
    let (front, _) = text.split_at(at);
    front
}

/// The conversation id inside a storage key: the text after the first colon,
/// up to the next colon if there is one; `None` when the key has no colon.
pub fn composer_id_from_key(key: &str) -> (id: Option<&str>)
    ensures
        match spec_composer_id(key.spec_bytes()) {
            Some(expected) => id matches Some(found) && found.spec_bytes() == expected,
            None => id is None,
        },
{
    let bytes = key.as_bytes();
    match find_byte(bytes, 58, 0) {
        None => None,
        Some(first) => {
            let after_prefix = after_ascii_byte(key, first);
            let rest_bytes = after_prefix.as_bytes();
            match find_byte(rest_bytes, 58, 0) {
                Some(second_offset) => {
                    proof {
                        let second = first + 1 + second_offset;
                        assert forall|i: int| first + 1 <= i < second implies bytes@[i] != 58 by {
                            assert(bytes@[i] == rest_bytes@[i - first - 1]);
                        }
                        lemma_byte_position_found(bytes@, 58, first + 1, second);
                    }
                    let id = before_ascii_byte(after_prefix, second_offset);
                    assert(id.spec_bytes() =~= bytes@.subrange(first + 1, first + 1 + second_offset));
                    Some(id)
                },
                None => {
                    proof {
                        assert forall|i: int| first + 1 <= i < bytes@.len() implies bytes@[i]
                            != 58 by {
                            assert(bytes@[i] == rest_bytes@[i - first - 1]);
                        }
                        lemma_byte_position_absent(bytes@, 58, first + 1);
                    }
                    Some(after_prefix)
                },
            }
        },
    }
}

proof fn lemma_a_match_has_a_first(haystack: Seq<u8>, needle: Seq<u8>, start: int)
    requires
        needle.len() > 0,
        matches_at(haystack, needle, start),
    ensures
        exists|first: int| first <= start && #[trigger] is_first_match(haystack, needle, first),
    decreases start,
{
    if exists|earlier: int| 0 <= earlier < start && #[trigger] matches_at(haystack, needle, earlier) {
        let earlier = choose|earlier: int| 0 <= earlier < start && #[trigger] matches_at(haystack, needle, earlier);
        lemma_a_match_has_a_first(haystack, needle, earlier);
    } else {
        assert(is_first_match(haystack, needle, start));
    }
}

/// Every occurrence of `field` at or after `from` that no earlier
/// occurrence overlaps is read: the newest timestamp found is at least the
/// one written after it.
proof fn lemma_field_newest_covers(data: Seq<u8>, field: Seq<u8>, from: int, at: int, millis: int)
    requires
        field.len() > 0,
        0 <= from <= at,
        matches_at(data, field, at),
        forall|q: int| at - field.len() < q < at ==> !#[trigger] matches_at(data, field, q),
        timestamp_after(data.subrange(at + field.len(), data.len() as int)) == Some(millis),
    ensures
        field_newest(data, field, from) matches Some(newest) && newest >= millis,
    decreases data.len() - from,
{
    let area = data.subrange(from, data.len() as int);
    assert(area.subrange(at - from, at - from + field.len()) =~= data.subrange(at, at + field.len()));
    assert(matches_at(area, field, at - from));
    lemma_a_match_has_a_first(area, field, at - from);
    let first = choose|first: int| first <= at - from && #[trigger] is_first_match(area, field, first);
    lemma_first_match_unique(area, field, first);
    let found = from + first;
    assert(area.subrange(first, first + field.len()) =~= data.subrange(found, found + field.len()));
    assert(matches_at(data, field, found));
    let end = found + field.len();
    if found < at {
        assert(found <= at - field.len());
        lemma_field_newest_covers(data, field, end, at, millis);
    }
}

/// A stored value is old only when every timestamp in it is: where a
/// timestamp field occurs (and no earlier occurrence of the same field
/// overlaps it) with a timestamp at or after the cutoff after it, the value
/// is kept, whatever other occurrences, earlier or later, hold.
pub proof fn law_any_recent_timestamp_keeps_the_value(
    data: Seq<u8>,
    cutoff_millis: int,
    field_index: int,
    at: int,
    millis: int,
)
    requires
        0 <= field_index < 4,
        matches_at(data, timestamp_field(field_index), at),
        forall|q: int| at - timestamp_field(field_index).len() < q < at ==> !#[trigger] matches_at(
            data,
            timestamp_field(field_index),
            q,
        ),
        timestamp_after(data.subrange(at + timestamp_field(field_index).len(), data.len() as int)) == Some(millis),
        millis >= cutoff_millis,
    ensures
        spec_classify_value_age(data, cutoff_millis) == Some(false),
{
    lemma_field_newest_covers(data, timestamp_field(field_index), 0, at, millis);
}

/// The newest timestamp found after occurrences of `field` from `from` on
/// is one written after such an occurrence.
proof fn lemma_field_newest_found(data: Seq<u8>, field: Seq<u8>, from: int)
    ensures
        field_newest(data, field, from) matches Some(newest) ==> exists|at: int|
            from <= at && #[trigger] matches_at(data, field, at) && timestamp_after(
                data.subrange(at + field.len(), data.len() as int),
            ) == Some(newest),
    decreases data.len() - from,
{
    if field.len() == 0 || from < 0 || from > data.len() {
    } else {
        let area = data.subrange(from, data.len() as int);
        lemma_first_match_bounds(area, field);
        match first_match(area, field) {
            None => {},
            Some(first) => {
                let found = from + first;
                assert(area.subrange(first, first + field.len()) =~= data.subrange(found, found + field.len()));
                assert(matches_at(data, field, found));
                let end = found + field.len();
                lemma_field_newest_found(data, field, end);
                let here = timestamp_after(data.subrange(end, data.len() as int));
                match field_newest(data, field, from) {
                    Some(newest) => {
                        if here == Some(newest) {
                            assert(matches_at(data, field, found));
                        } else {
                            assert(field_newest(data, field, end) == Some(newest));
                        }
                    },
                    None => {},
                }
            },
        }
    }
}

/// A stored value is old when it holds a timestamp and every timestamp
/// written after any occurrence of any timestamp field is before the
/// cutoff.
pub proof fn law_only_old_timestamps_make_the_value_old(
    data: Seq<u8>,
    cutoff_millis: int,
    field_index: int,
    at: int,
    millis: int,
)
    requires
        0 <= field_index < 4,
        matches_at(data, timestamp_field(field_index), at),
        forall|q: int| at - timestamp_field(field_index).len() < q < at ==> !#[trigger] matches_at(
            data,
            timestamp_field(field_index),
            q,
        ),
        timestamp_after(data.subrange(at + timestamp_field(field_index).len(), data.len() as int)) == Some(millis),
        forall|k: int, q: int|
            0 <= k < 4 && #[trigger] matches_at(data, timestamp_field(k), q) ==> match timestamp_after(
                data.subrange(q + timestamp_field(k).len(), data.len() as int),
            ) {
                Some(t) => t < cutoff_millis,
                None => true,
            },
    ensures
        spec_classify_value_age(data, cutoff_millis) == Some(true),
{
    lemma_field_newest_covers(data, timestamp_field(field_index), 0, at, millis);
    assert forall|k: int| 0 <= k < 4 implies (#[trigger] field_newest(data, timestamp_field(k), 0) matches Some(n)
        ==> n < cutoff_millis) by {
        lemma_field_newest_found(data, timestamp_field(k), 0);
        match field_newest(data, timestamp_field(k), 0) {
            Some(n) => {
            let q = choose|q: int| 0 <= q && #[trigger] matches_at(data, timestamp_field(k), q) && timestamp_after(
                data.subrange(q + timestamp_field(k).len(), data.len() as int),
            ) == Some(n);
            assert(matches_at(data, timestamp_field(k), q));
            },
            None => {},
        }
    }
    assert(field_newest(data, timestamp_field(0), 0) matches Some(n) ==> n < cutoff_millis);
    assert(field_newest(data, timestamp_field(1), 0) matches Some(n) ==> n < cutoff_millis);
    assert(field_newest(data, timestamp_field(2), 0) matches Some(n) ==> n < cutoff_millis);
    assert(field_newest(data, timestamp_field(3), 0) matches Some(n) ==> n < cutoff_millis);
}

} // verus!
