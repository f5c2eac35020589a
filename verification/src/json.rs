//! A small JSON reader and writer. Numbers are kept as the text that
//! spelled them: an integer made by the library is spelled as a writer of
//! doubles would print it, and a parsed number keeps its source text.

use vstd::prelude::*;
use crate::numbers::{integer_json_chars, integer_json_text};
use crate::text::{push_char, text_equals, to_owned_text};
use crate::cleanup::{digits_end, is_digit_byte};
use vstd::utf8::*;
use vstd::string::StringSliceAdditionalSpecFns;

verus! {

/// A JSON document.
///
/// A number is held as the JSON text that spells it and is written back as
/// that text: a parsed `1.50` or `1e999` stays `1.50` or `1e999`, where a
/// reader that keeps numbers as doubles would write `1.5` or `null`. Reading
/// a number as a double is left to the caller.
#[derive(Debug)]
pub enum Value {
    Null,
    Boolean(bool),
    /// A number, held as its JSON text.
    Number(String),
    Text(String),
    Array(Vec<Value>),
    Object(Vec<(String, Value)>),
}

/// The mathematical content of a JSON document.
pub enum Json {
    Null,
    Boolean(bool),
    Number(Seq<char>),
    Text(Seq<char>),
    Array(Seq<Json>),
    Object(Seq<(Seq<char>, Json)>),
}

pub open spec fn json_of(value: Value) -> Json
    decreases value,
{
    match value {
        Value::Null => Json::Null,
        Value::Boolean(flag) => Json::Boolean(flag),
        Value::Number(digits) => Json::Number(digits@),
        Value::Text(content) => Json::Text(content@),
        Value::Array(items) => Json::Array(json_of_items(items@)),
        Value::Object(entries) => Json::Object(json_of_entries(entries@)),
    }
}

pub open spec fn json_of_items(items: Seq<Value>) -> Seq<Json>
    decreases items,
{
    if items.len() == 0 {
        Seq::empty()
    } else {
        json_of_items(items.drop_last()).push(json_of(items.last()))
    }
}

pub open spec fn json_of_entries(entries: Seq<(String, Value)>) -> Seq<(Seq<char>, Json)>
    decreases entries,
{
    if entries.len() == 0 {
        Seq::empty()
    } else {
        json_of_entries(entries.drop_last()).push(
            (entries.last().0@, json_of(entries.last().1)),
        )
    }
}

impl View for Value {
    type V = Json;

    open spec fn view(&self) -> Json {
        json_of(*self)
    }
}

pub proof fn lemma_json_of_items(items: Seq<Value>)
    ensures
        json_of_items(items).len() == items.len(),
        forall|i: int| 0 <= i < items.len() ==> #[trigger] json_of_items(items)[i] == json_of(items[i]),
    decreases items.len(),
{
    if items.len() > 0 {
        lemma_json_of_items(items.drop_last());
        assert forall|i: int| 0 <= i < items.len() implies #[trigger] json_of_items(items)[i]
            == json_of(items[i]) by {
            if i < items.len() - 1 {
                assert(items.drop_last()[i] == items[i]);
            }
        }
    }
}

pub proof fn lemma_json_of_entries(entries: Seq<(String, Value)>)
    ensures
        json_of_entries(entries).len() == entries.len(),
        forall|i: int| 0 <= i < entries.len() ==> #[trigger] json_of_entries(entries)[i] == (
            entries[i].0@,
            json_of(entries[i].1),
        ),
    decreases entries.len(),
{
    if entries.len() > 0 {
        lemma_json_of_entries(entries.drop_last());
        assert forall|i: int| 0 <= i < entries.len() implies #[trigger] json_of_entries(entries)[i]
            == (entries[i].0@, json_of(entries[i].1)) by {
            if i < entries.len() - 1 {
                assert(entries.drop_last()[i] == entries[i]);
            }
        }
    }
}

pub open spec fn hex_digit_char(n: nat) -> char {
    if n < 10 {
        (48 + n) as char
    } else {
        (87 + n) as char
    }
}

/// How the writer spells one character inside a JSON string.
pub open spec fn escape_char(c: char) -> Seq<char> {
    if c == '"' {
        seq!['\\', '"']
    } else if c == '\\' {
        seq!['\\', '\\']
    } else if c == '\n' {
        seq!['\\', 'n']
    } else if c == '\r' {
        seq!['\\', 'r']
    } else if c == '\t' {
        seq!['\\', 't']
    } else if c == '\u{8}' {
        seq!['\\', 'b']
    } else if c == '\u{c}' {
        seq!['\\', 'f']
    } else if (c as u32) < 0x20 {
        seq!['\\', 'u', '0', '0', hex_digit_char((c as u32 / 16) as nat), hex_digit_char((c as u32 % 16) as nat)]
    } else {
        seq![c]
    }
}

pub open spec fn escaped_chars(s: Seq<char>) -> Seq<char>
    decreases s.len(),
{
    if s.len() == 0 {
        Seq::empty()
    } else {
        escaped_chars(s.drop_last()) + escape_char(s.last())
    }
}

/// A string in JSON: quoted, with quotes, backslashes and control
/// characters escaped.
pub open spec fn quoted(s: Seq<char>) -> Seq<char> {
    seq!['"'] + escaped_chars(s) + seq!['"']
}

/// The JSON text of a document, without white space.
pub open spec fn json_text(value: Json) -> Seq<char>
    decreases value,
{
    match value {
        Json::Null => seq!['n', 'u', 'l', 'l'],
        Json::Boolean(flag) => if flag {
            seq!['t', 'r', 'u', 'e']
        } else {
            seq!['f', 'a', 'l', 's', 'e']
        },
        Json::Number(digits) => digits,
        Json::Text(content) => quoted(content),
        Json::Array(items) => seq!['['] + items_text(items) + seq![']'],
        Json::Object(members) => seq!['{'] + members_text(members) + seq!['}'],
    }
}

/// The texts of the items, separated by commas.
pub open spec fn items_text(items: Seq<Json>) -> Seq<char>
    decreases items,
{
    if items.len() == 0 {
        Seq::empty()
    } else if items.len() == 1 {
        json_text(items[0])
    } else {
        items_text(items.drop_last()) + seq![','] + json_text(items.last())
    }
}

/// The members as `"key":value`, separated by commas.
pub open spec fn members_text(members: Seq<(Seq<char>, Json)>) -> Seq<char>
    decreases members,
{
    if members.len() == 0 {
        Seq::empty()
    } else if members.len() == 1 {
        quoted(members[0].0) + seq![':'] + json_text(members[0].1)
    } else {
        members_text(members.drop_last()) + seq![','] + quoted(members.last().0) + seq![':']
            + json_text(members.last().1)
    }
}

fn hex_digit(n: u32) -> (c: char)
    requires
        n < 16,
    ensures
        c == hex_digit_char(n as nat),
{
    if n == 0 { '0' }
    else if n == 1 { '1' }
    else if n == 2 { '2' }
    else if n == 3 { '3' }
    else if n == 4 { '4' }
    else if n == 5 { '5' }
    else if n == 6 { '6' }
    else if n == 7 { '7' }
    else if n == 8 { '8' }
    else if n == 9 { '9' }
    else if n == 10 { 'a' }
    else if n == 11 { 'b' }
    else if n == 12 { 'c' }
    else if n == 13 { 'd' }
    else if n == 14 { 'e' }
    else { 'f' }
}

fn push_escaped_char(out: &mut String, c: char)
    ensures
        final(out)@ == old(out)@ + escape_char(c),
{
    if c == '"' {
        push_char(out, '\\');
        push_char(out, '"');
    } else if c == '\\' {
        push_char(out, '\\');
        push_char(out, '\\');
    } else if c == '\n' {
        push_char(out, '\\');
        push_char(out, 'n');
    } else if c == '\r' {
        push_char(out, '\\');
        push_char(out, 'r');
    } else if c == '\t' {
        push_char(out, '\\');
        push_char(out, 't');
    } else if c == '\u{8}' {
        push_char(out, '\\');
        push_char(out, 'b');
    } else if c == '\u{c}' {
        push_char(out, '\\');
        push_char(out, 'f');
    } else if (c as u32) < 0x20 {
        let code = c as u32;
        push_char(out, '\\');
        push_char(out, 'u');
        push_char(out, '0');
        push_char(out, '0');
        push_char(out, hex_digit(code / 16));
        push_char(out, hex_digit(code % 16));
    } else {
        push_char(out, c);
    }
}

/// Appends `text` as a quoted, escaped JSON string.
pub fn write_escaped_string(text: &str, out: &mut String)
    ensures
        final(out)@ == old(out)@ + quoted(text@),
{
    push_char(out, '"');
    let length = text.unicode_len();
    let mut index: usize = 0;
    while index < length
        invariant
            length == text@.len(),
            index <= length,
            out@ == old(out)@ + seq!['"'] + escaped_chars(text@.subrange(0, index as int)),
        decreases length - index,
    {
        let c = text.get_char(index);
        push_escaped_char(out, c);
        proof {
            assert(text@.subrange(0, index + 1).drop_last() =~= text@.subrange(0, index as int));
        }
        index += 1;
    }
    assert(text@.subrange(0, length as int) =~= text@);
    push_char(out, '"');
}

/// Appends the JSON text of `value`.
pub fn write_json(value: &Value, out: &mut String)
    ensures
        final(out)@ == old(out)@ + json_text(json_of(*value)),
    decreases value,
{
    match value {
        Value::Null => {
            out.append("null");
            proof { reveal_strlit("null"); }
        },
        Value::Boolean(flag) => {
            if *flag {
                out.append("true");
                proof { reveal_strlit("true"); }
            } else {
                out.append("false");
                proof { reveal_strlit("false"); }
            }
        },
        Value::Number(digits) => {
            out.append(digits.as_str());
        },
        Value::Text(content) => {
            write_escaped_string(content.as_str(), out);
        },
        Value::Array(items) => {
            let ghost start = out@;
            push_char(out, '[');
            let mut index: usize = 0;
            while index < items.len()
                invariant
                    index <= items@.len(),
                    *value == Value::Array(*items),
                    out@ == start + seq!['['] + items_text(json_of_items(items@.subrange(0, index as int))),
                decreases items@.len() - index,
            {
                let ghost before = json_of_items(items@.subrange(0, index as int));
                if index > 0 {
                    push_char(out, ',');
                }
                assert(decreases_to!(*value => (*value)->Array_0));
                assert(decreases_to!(*items => items@));
                assert(decreases_to!(items@ => items@[index as int]));
                assert(decreases_to!(*value => items@[index as int]));
                write_json(&items[index], out);
                proof {
                    let taken = items@.subrange(0, index + 1);
                    assert(taken.drop_last() =~= items@.subrange(0, index as int));
                    assert(taken.last() == items@[index as int]);
                    lemma_json_of_items(items@.subrange(0, index as int));
                    let after = before.push(json_of(items@[index as int]));
                    assert(json_of_items(taken) == after);
                    assert(after.drop_last() =~= before);
                    if index == 0 {
                        assert(after[0] == json_of(items@[0]));
                    }
                }
                index += 1;
            }
            assert(items@.subrange(0, items@.len() as int) =~= items@);
            push_char(out, ']');
        },
        Value::Object(entries) => {
            let ghost start = out@;
            push_char(out, '{');
            let mut index: usize = 0;
            while index < entries.len()
                invariant
                    index <= entries@.len(),
                    *value == Value::Object(*entries),
                    out@ == start + seq!['{'] + members_text(json_of_entries(entries@.subrange(0, index as int))),
                decreases entries@.len() - index,
            {
                let ghost before = json_of_entries(entries@.subrange(0, index as int));
                if index > 0 {
                    push_char(out, ',');
                }
                let entry = &entries[index];
                write_escaped_string(entry.0.as_str(), out);
                push_char(out, ':');
                assert(decreases_to!(*value => (*value)->Object_0));
                assert(decreases_to!(*entries => entries@));
                assert(decreases_to!(entries@ => entries@[index as int]));
                assert(decreases_to!(entries@[index as int] => entries@[index as int].1));
                assert(decreases_to!(*value => entries@[index as int].1));
                write_json(&entry.1, out);
                proof {
                    let taken = entries@.subrange(0, index + 1);
                    assert(taken.drop_last() =~= entries@.subrange(0, index as int));
                    assert(taken.last() == entries@[index as int]);
                    lemma_json_of_entries(entries@.subrange(0, index as int));
                    let after = before.push((entry.0@, json_of(entry.1)));
                    assert(json_of_entries(taken) == after);
                    assert(after.drop_last() =~= before);
                    if index == 0 {
                        assert(after[0] == (entry.0@, json_of(entry.1)));
                    }
                }
                index += 1;
            }
            assert(entries@.subrange(0, entries@.len() as int) =~= entries@);
            push_char(out, '}');
        },
    }
}

/// The first member of `members`, from `from` on, whose key is `key`.
pub open spec fn member_position(members: Seq<(String, Value)>, key: Seq<char>, from: int) -> Option<int>
    decreases members.len() - from,
{
    if from < 0 || from >= members.len() {
        None
    } else if members[from].0@ == key {
        Some(from)
    } else {
        member_position(members, key, from + 1)
    }
}

/// The text of the member named `key`, when `value` is an object whose first
/// such member is a string.
pub open spec fn member_text(value: Value, key: Seq<char>) -> Option<Seq<char>> {
    match value {
        Value::Object(members) => match member_position(members@, key, 0) {
            Some(i) => match members@[i].1 {
                Value::Text(t) => Some(t@),
                _ => None,
            },
            None => None,
        },
        _ => None,
    }
}

/// The flag of the member named `key`, when `value` is an object whose first
/// such member is a boolean.
pub open spec fn member_flag(value: Value, key: Seq<char>) -> Option<bool> {
    match value {
        Value::Object(members) => match member_position(members@, key, 0) {
            Some(i) => match members@[i].1 {
                Value::Boolean(b) => Some(b),
                _ => None,
            },
            None => None,
        },
        _ => None,
    }
}

/// `value.get(key).and_then(Value::as_text)`.
pub fn text_member<'a>(value: &'a Value, key: &str) -> (content: Option<&'a str>)
    ensures
        match member_text(*value, key@) {
            Some(t) => content matches Some(found) && found@ == t,
            None => content is None,
        },
{
    match value.get(key) {
        Some(member) => member.as_text(),
        None => None,
    }
}

/// `value.get(key).and_then(Value::as_boolean)`.
pub fn flag_member(value: &Value, key: &str) -> (flag: Option<bool>)
    ensures
        flag == member_flag(*value, key@),
{
    match value.get(key) {
        Some(member) => member.as_boolean(),
        None => None,
    }
}

impl Value {
    /// The value of the first member named `key`, when this is an object.
    pub fn get(&self, key: &str) -> (found: Option<&Value>)
        ensures
            match *self {
                Value::Object(members) => match member_position(members@, key@, 0) {
                    Some(i) => found == Some(&members@[i].1),
                    None => found is None,
                },
                _ => found is None,
            },
    {
        match self {
            Value::Object(members) => {
                let mut index: usize = 0;
                while index < members.len()
                    invariant
                        *self == Value::Object(*members),
                        index <= members@.len(),
                        member_position(members@, key@, index as int) == member_position(
                            members@,
                            key@,
                            0,
                        ),
                    decreases members@.len() - index,
                {
                    if text_equals(members[index].0.as_str(), key) {
                        return Some(&members[index].1);
                    }
                    index += 1;
                }
                None
            },
            _ => None,
        }
    }

    /// The content of a string.
    pub fn as_text(&self) -> (content: Option<&str>)
        ensures
            match *self {
                Value::Text(t) => content matches Some(found) && found@ == t@,
                _ => content is None,
            },
    {
        match self {
            Value::Text(t) => Some(t.as_str()),
            _ => None,
        }
    }

    /// The JSON text of a number.
    pub fn number_text(&self) -> (digits: Option<&str>)
        ensures
            match *self {
                Value::Number(t) => digits matches Some(found) && found@ == t@,
                _ => digits is None,
            },
    {
        match self {
            Value::Number(t) => Some(t.as_str()),
            _ => None,
        }
    }

    /// The flag of a boolean.
    pub fn as_boolean(&self) -> (flag: Option<bool>)
        ensures
            match *self {
                Value::Boolean(b) => flag == Some(b),
                _ => flag is None,
            },
    {
        match self {
            Value::Boolean(b) => Some(*b),
            _ => None,
        }
    }

    /// The JSON text of this document, without white space.
    pub fn to_json_string(&self) -> (text: String)
        ensures
            text@ == json_text(self@),
    {
        let mut text = String::new();
        write_json(self, &mut text);
        text
    }
}


/// Appends the member `key: value` to the members of an object.
pub fn push_member(members: &mut Vec<(String, Value)>, key: &str, value: Value)
    ensures
        json_of_entries(final(members)@) == json_of_entries(old(members)@).push((key@, value@)),
{
    members.push((to_owned_text(key), value));
    assert(members@.drop_last() =~= old(members)@);
}

/// A string value.
pub fn text(content: &str) -> (value: Value)
    ensures
        value@ == Json::Text(content@),
{
    Value::Text(to_owned_text(content))
}

/// A number value for an integer, spelled as the double nearest to it.
pub fn number_from_integer(number: i64) -> (value: Value)
    ensures
        value@ == Json::Number(integer_json_chars(number as int)),
{
    Value::Number(integer_json_text(number))
}

/// A boolean value.
pub fn boolean(flag: bool) -> (value: Value)
    ensures
        value@ == Json::Boolean(flag),
{
    Value::Boolean(flag)
}

/// Why a text is not a JSON document.
#[derive(Clone, Copy, PartialEq, Eq, Debug, Structural)]
pub enum ParseFailure {
    UnexpectedCharacter,
    LiteralEnd,
    InvalidLiteral,
    MalformedNumber,
    UnterminatedString,
    UnterminatedEscape,
    InvalidEscape,
    InvalidUtf8,
    IncompleteUnicodeEscape,
    InvalidHexDigit,
    ExpectedLowSurrogate,
    ExpectedLowSurrogateEscape,
    InvalidLowSurrogate,
    InvalidCodePoint,
    ExpectedArraySeparator,
    ExpectedObjectKey,
    ExpectedColon,
    ExpectedObjectSeparator,
    TrailingCharacters,
}

pub open spec fn failure_message(failure: ParseFailure) -> Seq<char> {
    match failure {
        ParseFailure::UnexpectedCharacter => "unexpected character while expecting a value"@,
        ParseFailure::LiteralEnd => "unexpected end of input in literal"@,
        ParseFailure::InvalidLiteral => "invalid literal"@,
        ParseFailure::MalformedNumber => "malformed number"@,
        ParseFailure::UnterminatedString => "unterminated string"@,
        ParseFailure::UnterminatedEscape => "unterminated escape sequence"@,
        ParseFailure::InvalidEscape => "invalid escape sequence"@,
        ParseFailure::InvalidUtf8 => "invalid UTF-8 in string"@,
        ParseFailure::IncompleteUnicodeEscape => "incomplete unicode escape"@,
        ParseFailure::InvalidHexDigit => "invalid hex digit in unicode escape"@,
        ParseFailure::ExpectedLowSurrogate => "expected low surrogate"@,
        ParseFailure::ExpectedLowSurrogateEscape => "expected low surrogate escape"@,
        ParseFailure::InvalidLowSurrogate => "invalid low surrogate"@,
        ParseFailure::InvalidCodePoint => "invalid unicode code point"@,
        ParseFailure::ExpectedArraySeparator => "expected ',' or ']' in array"@,
        ParseFailure::ExpectedObjectKey => "expected string key in object"@,
        ParseFailure::ExpectedColon => "expected ':' after object key"@,
        ParseFailure::ExpectedObjectSeparator => "expected ',' or '}' in object"@,
        ParseFailure::TrailingCharacters => "trailing characters after JSON value"@,
    }
}

/// Where and why a text is not a JSON document.
#[derive(Debug)]
pub struct ParseError {
    pub message: String,
    pub position: usize,
}

/// The outcome of reading one part of the input: what was read and where
/// reading stopped, or why it failed and where.
pub enum Scan<T> {
    Done(T, int),
    Failed(ParseFailure, int),
}

pub open spec fn is_json_white(byte: u8) -> bool {
    byte == 32 || byte == 9 || byte == 10 || byte == 13
}

pub open spec fn skip_white(s: Seq<u8>, p: int) -> int
    decreases s.len() - p,
{
    if 0 <= p < s.len() && is_json_white(s[p]) {
        skip_white(s, p + 1)
    } else {
        p
    }
}

pub proof fn lemma_skip_white(s: Seq<u8>, p: int)
    ensures
        p <= skip_white(s, p),
        p <= s.len() ==> skip_white(s, p) <= s.len(),
        0 <= p ==> forall|i: int| p <= i < skip_white(s, p) ==> is_json_white(#[trigger] s[i]),
        0 <= p ==> (skip_white(s, p) < s.len() ==> !is_json_white(s[skip_white(s, p)])),
    decreases s.len() - p,
{
    if 0 <= p < s.len() && is_json_white(s[p]) {
        lemma_skip_white(s, p + 1);
    }
}

pub open spec fn scan_literal(s: Seq<u8>, p: int, literal: Seq<u8>) -> Scan<()> {
    if p + literal.len() > s.len() {
        Scan::Failed(ParseFailure::LiteralEnd, p)
    } else if s.subrange(p, p + literal.len()) == literal {
        Scan::Done((), p + literal.len())
    } else {
        Scan::Failed(ParseFailure::InvalidLiteral, p)
    }
}

pub open spec fn ascii_chars(bytes: Seq<u8>) -> Seq<char> {
    Seq::new(bytes.len(), |i: int| bytes[i] as char)
}

/// A number: an optional minus, digits, an optional fraction, an optional
/// exponent. It is accepted when some digit comes before the exponent and
/// an exponent, if present, has digits.
pub open spec fn scan_number(s: Seq<u8>, p: int) -> Scan<Seq<char>> {
    let a = if 0 <= p < s.len() && s[p] == 45 {
        p + 1
    } else {
        p
    };
    let b = digits_end(s, a);
    let has_dot = 0 <= b < s.len() && s[b] == 46;
    let c = if has_dot {
        digits_end(s, b + 1)
    } else {
        b
    };
    let fraction_digits = if has_dot {
        c - (b + 1)
    } else {
        0
    };
    let has_exponent = 0 <= c < s.len() && (s[c] == 101 || s[c] == 69);
    let e = if 0 <= c + 1 < s.len() && (s[c + 1] == 43 || s[c + 1] == 45) {
        c + 2
    } else {
        c + 1
    };
    let d = if has_exponent {
        digits_end(s, e)
    } else {
        c
    };
    if (b - a) + fraction_digits >= 1 && (!has_exponent || d > e) {
        Scan::Done(ascii_chars(s.subrange(p, d)), d)
    } else {
        Scan::Failed(ParseFailure::MalformedNumber, d)
    }
}

pub open spec fn hex_value(byte: u8) -> Option<int> {
    if 48 <= byte <= 57 {
        Some(byte - 48)
    } else if 97 <= byte <= 102 {
        Some(byte - 87)
    } else if 65 <= byte <= 70 {
        Some(byte - 55)
    } else {
        None
    }
}

pub open spec fn scan_hex_digits(s: Seq<u8>, p: int, count: nat, acc: int) -> Scan<int>
    decreases 4 - count,
{
    if count >= 4 {
        Scan::Done(acc, p)
    } else {
        match hex_value(s[p]) {
            Some(n) => scan_hex_digits(s, p + 1, count + 1, acc * 16 + n),
            None => Scan::Failed(ParseFailure::InvalidHexDigit, p),
        }
    }
}

/// Four hexadecimal digits of a `\u` escape.
pub open spec fn scan_hex4(s: Seq<u8>, p: int) -> Scan<int> {
    if p + 4 > s.len() {
        Scan::Failed(ParseFailure::IncompleteUnicodeEscape, p)
    } else {
        scan_hex_digits(s, p, 0, 0)
    }
}

/// The character of a `\u` escape whose digits start at `p`; a high
/// surrogate must be followed by a `\u` escape of a low surrogate.
pub open spec fn scan_unicode_escape(s: Seq<u8>, p: int) -> Scan<char> {
    match scan_hex4(s, p) {
        Scan::Failed(failure, at) => Scan::Failed(failure, at),
        Scan::Done(code, t) => if 0xD800 <= code <= 0xDBFF {
            if !(0 <= t < s.len() && s[t] == 92) {
                Scan::Failed(ParseFailure::ExpectedLowSurrogate, t)
            } else if !(t + 1 < s.len() && s[t + 1] == 117) {
                Scan::Failed(ParseFailure::ExpectedLowSurrogateEscape, t + 1)
            } else {
                match scan_hex4(s, t + 2) {
                    Scan::Failed(failure, at) => Scan::Failed(failure, at),
                    Scan::Done(low, t2) => if 0xDC00 <= low <= 0xDFFF {
                        Scan::Done(
                            (0x10000 + (code - 0xD800) * 1024 + (low - 0xDC00)) as char,
                            t2,
                        )
                    } else {
                        Scan::Failed(ParseFailure::InvalidLowSurrogate, t2)
                    },
                }
            }
        } else if 0xDC00 <= code <= 0xDFFF {
            Scan::Failed(ParseFailure::InvalidCodePoint, t)
        } else {
            Scan::Done(code as char, t)
        },
    }
}

/// The width of a UTF-8 sequence as announced by its first byte; 1 for a
/// byte that cannot start one.
pub open spec fn utf8_width(first_byte: u8) -> int {
    if first_byte < 0x80 {
        1
    } else if 0xC0 <= first_byte <= 0xDF {
        2
    } else if 0xE0 <= first_byte <= 0xEF {
        3
    } else if 0xF0 <= first_byte <= 0xF7 {
        4
    } else {
        1
    }
}

/// The character that a one-letter escape stands for.
pub open spec fn simple_escape(escape: u8) -> Option<char> {
    if escape == 34 {
        Some('"')
    } else if escape == 92 {
        Some('\\')
    } else if escape == 47 {
        Some('/')
    } else if escape == 98 {
        Some('\u{8}')
    } else if escape == 102 {
        Some('\u{c}')
    } else if escape == 110 {
        Some('\n')
    } else if escape == 114 {
        Some('\r')
    } else if escape == 116 {
        Some('\t')
    } else {
        None
    }
}

/// The rest of a string from `p`, after the characters `acc` were read.
pub open spec fn scan_string_chars(s: Seq<u8>, p: int, acc: Seq<char>) -> Scan<Seq<char>>
    decreases s.len() - p,
{
    if p < 0 || p >= s.len() {
        Scan::Failed(ParseFailure::UnterminatedString, p)
    } else if s[p] == 34 {
        Scan::Done(acc, p + 1)
    } else if s[p] == 92 {
        if p + 1 >= s.len() {
            Scan::Failed(ParseFailure::UnterminatedEscape, p + 1)
        } else {
            match simple_escape(s[p + 1]) {
                Some(c) => scan_string_chars(s, p + 2, acc.push(c)),
                None => if s[p + 1] == 117 {
                    match scan_unicode_escape(s, p + 2) {
                        Scan::Failed(failure, at) => Scan::Failed(failure, at),
                        Scan::Done(c, t) => if p < t <= s.len() {
                            scan_string_chars(s, t, acc.push(c))
                        } else {
                            Scan::Failed(ParseFailure::UnterminatedString, t)
                        },
                    }
                } else {
                    Scan::Failed(ParseFailure::InvalidEscape, p + 2)
                },
            }
        }
    } else {
        let end = p + utf8_width(s[p]);
        if end > s.len() {
            Scan::Failed(ParseFailure::InvalidUtf8, p + 1)
        } else if valid_utf8(s.subrange(p, end)) {
            scan_string_chars(s, end, acc + decode_utf8(s.subrange(p, end)))
        } else {
            Scan::Failed(ParseFailure::InvalidUtf8, p + 1)
        }
    }
}

/// A string whose opening quote is at `p`.
pub open spec fn scan_string(s: Seq<u8>, p: int) -> Scan<Seq<char>> {
    scan_string_chars(s, p + 1, Seq::empty())
}

/// A value starting at `p`.
pub open spec fn scan_value(s: Seq<u8>, p: int) -> Scan<Json>
    decreases s.len() - p, 1int,
{
    if p < 0 || p >= s.len() {
        Scan::Failed(ParseFailure::UnexpectedCharacter, p)
    } else {
        let b = s[p];
        if b == 123 {
            scan_object(s, p)
        } else if b == 91 {
            scan_array(s, p)
        } else if b == 34 {
            match scan_string(s, p) {
                Scan::Done(content, q) => Scan::Done(Json::Text(content), q),
                Scan::Failed(failure, at) => Scan::Failed(failure, at),
            }
        } else if b == 116 {
            match scan_literal(s, p, seq![116u8, 114u8, 117u8, 101u8]) {
                Scan::Done(_, q) => Scan::Done(Json::Boolean(true), q),
                Scan::Failed(failure, at) => Scan::Failed(failure, at),
            }
        } else if b == 102 {
            match scan_literal(s, p, seq![102u8, 97u8, 108u8, 115u8, 101u8]) {
                Scan::Done(_, q) => Scan::Done(Json::Boolean(false), q),
                Scan::Failed(failure, at) => Scan::Failed(failure, at),
            }
        } else if b == 110 {
            match scan_literal(s, p, seq![110u8, 117u8, 108u8, 108u8]) {
                Scan::Done(_, q) => Scan::Done(Json::Null, q),
                Scan::Failed(failure, at) => Scan::Failed(failure, at),
            }
        } else if b == 45 || is_digit_byte(b) {
            match scan_number(s, p) {
                Scan::Done(digits, q) => Scan::Done(Json::Number(digits), q),
                Scan::Failed(failure, at) => Scan::Failed(failure, at),
            }
        } else {
            Scan::Failed(ParseFailure::UnexpectedCharacter, p)
        }
    }
}

/// An array whose `[` is at `p`.
pub open spec fn scan_array(s: Seq<u8>, p: int) -> Scan<Json>
    decreases s.len() - p, 0int,
{
    if p < 0 || p >= s.len() {
        Scan::Failed(ParseFailure::UnexpectedCharacter, p)
    } else {
        let q = skip_white(s, p + 1);
        proof {
            lemma_skip_white(s, p + 1);
        }
        if q < s.len() && s[q] == 93 {
            Scan::Done(Json::Array(Seq::empty()), q + 1)
        } else {
            scan_array_items(s, q, Seq::empty())
        }
    }
}

/// The rest of an array from `q`, after the items `items` were read.
pub open spec fn scan_array_items(s: Seq<u8>, q: int, items: Seq<Json>) -> Scan<Json>
    decreases s.len() - q, 2int,
{
    if q < 0 || q > s.len() {
        Scan::Failed(ParseFailure::UnexpectedCharacter, q)
    } else {
        let r = skip_white(s, q);
        proof {
            lemma_skip_white(s, q);
        }
        match scan_value(s, r) {
            Scan::Failed(failure, at) => Scan::Failed(failure, at),
            Scan::Done(item, v) => {
                let t = skip_white(s, v);
                if 0 <= t < s.len() && s[t] == 44 {
                    if q < t + 1 <= s.len() {
                        scan_array_items(s, t + 1, items.push(item))
                    } else {
                        Scan::Failed(ParseFailure::ExpectedArraySeparator, t)
                    }
                } else if 0 <= t < s.len() && s[t] == 93 {
                    Scan::Done(Json::Array(items.push(item)), t + 1)
                } else {
                    Scan::Failed(ParseFailure::ExpectedArraySeparator, t)
                }
            },
        }
    }
}

/// An object whose `{` is at `p`.
pub open spec fn scan_object(s: Seq<u8>, p: int) -> Scan<Json>
    decreases s.len() - p, 0int,
{
    if p < 0 || p >= s.len() {
        Scan::Failed(ParseFailure::UnexpectedCharacter, p)
    } else {
        let q = skip_white(s, p + 1);
        proof {
            lemma_skip_white(s, p + 1);
        }
        if q < s.len() && s[q] == 125 {
            Scan::Done(Json::Object(Seq::empty()), q + 1)
        } else {
            scan_members(s, q, Seq::empty())
        }
    }
}

/// The rest of an object from `q`, after the members `members` were read.
pub open spec fn scan_members(s: Seq<u8>, q: int, members: Seq<(Seq<char>, Json)>) -> Scan<Json>
    decreases s.len() - q, 2int,
{
    if q < 0 || q > s.len() {
        Scan::Failed(ParseFailure::ExpectedObjectKey, q)
    } else {
        let k = skip_white(s, q);
        if !(0 <= k < s.len() && s[k] == 34) {
            Scan::Failed(ParseFailure::ExpectedObjectKey, k)
        } else {
            match scan_string(s, k) {
                Scan::Failed(failure, at) => Scan::Failed(failure, at),
                Scan::Done(key, r) => {
                    let c = skip_white(s, r);
                    if !(0 <= c < s.len() && s[c] == 58) {
                        Scan::Failed(ParseFailure::ExpectedColon, c)
                    } else if !(q < r) {
                        Scan::Failed(ParseFailure::ExpectedColon, c)
                    } else {
                        let w = skip_white(s, c + 1);
                        proof {
                            lemma_skip_white(s, r);
                            lemma_skip_white(s, c + 1);
                        }
                        match scan_value(s, w) {
                            Scan::Failed(failure, at) => Scan::Failed(failure, at),
                            Scan::Done(item, v) => {
                                let t = skip_white(s, v);
                                if 0 <= t < s.len() && s[t] == 44 {
                                    if q < t + 1 <= s.len() {
                                        scan_members(s, t + 1, members.push((key, item)))
                                    } else {
                                        Scan::Failed(ParseFailure::ExpectedObjectSeparator, t)
                                    }
                                } else if 0 <= t < s.len() && s[t] == 125 {
                                    Scan::Done(Json::Object(members.push((key, item))), t + 1)
                                } else {
                                    Scan::Failed(ParseFailure::ExpectedObjectSeparator, t)
                                }
                            },
                        }
                    }
                },
            }
        }
    }
}

/// What parsing the bytes of a text gives: one value, with only white space
/// around it, or the first failure and its position.
pub open spec fn spec_parse(s: Seq<u8>) -> Result<Json, (ParseFailure, int)> {
    match scan_value(s, skip_white(s, 0)) {
        Scan::Failed(failure, at) => Err((failure, at)),
        Scan::Done(value, v) => {
            let t = skip_white(s, v);
            if t != s.len() {
                Err((ParseFailure::TrailingCharacters, t))
            } else {
                Ok(value)
            }
        },
    }
}


/// Whether an error reports the failure `failure` at `at`.
pub open spec fn reports(error: ParseError, failure: ParseFailure, at: int) -> bool {
    error.message@ == failure_message(failure) && error.position == at
}

fn failure(kind: ParseFailure, at: usize) -> (error: ParseError)
    ensures
        reports(error, kind, at as int),
{
    let message = match kind {
        ParseFailure::UnexpectedCharacter => "unexpected character while expecting a value",
        ParseFailure::LiteralEnd => "unexpected end of input in literal",
        ParseFailure::InvalidLiteral => "invalid literal",
        ParseFailure::MalformedNumber => "malformed number",
        ParseFailure::UnterminatedString => "unterminated string",
        ParseFailure::UnterminatedEscape => "unterminated escape sequence",
        ParseFailure::InvalidEscape => "invalid escape sequence",
        ParseFailure::InvalidUtf8 => "invalid UTF-8 in string",
        ParseFailure::IncompleteUnicodeEscape => "incomplete unicode escape",
        ParseFailure::InvalidHexDigit => "invalid hex digit in unicode escape",
        ParseFailure::ExpectedLowSurrogate => "expected low surrogate",
        ParseFailure::ExpectedLowSurrogateEscape => "expected low surrogate escape",
        ParseFailure::InvalidLowSurrogate => "invalid low surrogate",
        ParseFailure::InvalidCodePoint => "invalid unicode code point",
        ParseFailure::ExpectedArraySeparator => "expected ',' or ']' in array",
        ParseFailure::ExpectedObjectKey => "expected string key in object",
        ParseFailure::ExpectedColon => "expected ':' after object key",
        ParseFailure::ExpectedObjectSeparator => "expected ',' or '}' in object",
        ParseFailure::TrailingCharacters => "trailing characters after JSON value",
    };
    ParseError { message: to_owned_text(message), position: at }
}

/// `std::str::from_utf8`: the text of bytes that are valid UTF-8.
#[verifier::external_body]
fn utf8_text(bytes: &[u8]) -> (text: Option<&str>)
    ensures
        match text {
            Some(t) => valid_utf8(bytes@) && t.spec_bytes() == bytes@,
            None => !valid_utf8(bytes@),
        },
{
    std::str::from_utf8(bytes).ok()
}

/// `char::from_u32`: the character of a Unicode scalar value.
#[verifier::external_body]
fn scalar_char(code: u32) -> (c: Option<char>)
    ensures
        match c {
            Some(found) => is_scalar(code) && found == code as char,
            None => !is_scalar(code),
        },
{
    char::from_u32(code)
}

fn skip_white_from(bytes: &[u8], p: usize) -> (q: usize)
    requires
        p <= bytes@.len(),
    ensures
        q == skip_white(bytes@, p as int),
        p <= q <= bytes@.len(),
{
    let mut q = p;
    while q < bytes.len() && (bytes[q] == 32 || bytes[q] == 9 || bytes[q] == 10 || bytes[q] == 13)
        invariant
            p <= q <= bytes@.len(),
            skip_white(bytes@, q as int) == skip_white(bytes@, p as int),
        decreases bytes@.len() - q,
    {
        q += 1;
    }
    q
}

fn read_literal(bytes: &[u8], p: usize, literal: &[u8]) -> (result: Result<usize, ParseError>)
    requires
        p <= bytes@.len(),
        literal@.len() > 0,
    ensures
        match (result, scan_literal(bytes@, p as int, literal@)) {
            (Ok(q), Scan::Done(_, sq)) => q == sq && p < q <= bytes@.len(),
            (Err(e), Scan::Failed(f, at)) => reports(e, f, at),
            _ => false,
        },
{
    if bytes.len() - p < literal.len() {
        return Err(failure(ParseFailure::LiteralEnd, p));
    }
    let mut offset: usize = 0;
    while offset < literal.len()
        invariant
            p + literal@.len() <= bytes@.len(),
            bytes@.len() <= usize::MAX,
            offset <= literal@.len(),
            forall|k: int| 0 <= k < offset ==> bytes@[p + k] == literal@[k],
        decreases literal@.len() - offset,
    {
        if bytes[p + offset] != literal[offset] {
            assert(bytes@.subrange(p as int, p + literal@.len())[offset as int] != literal@[offset as int]);
            return Err(failure(ParseFailure::InvalidLiteral, p));
        }
        offset += 1;
    }
    assert(bytes@.subrange(p as int, p + literal@.len()) =~= literal@);
    Ok(p + literal.len())
}

fn digits_from(bytes: &[u8], p: usize) -> (end: usize)
    requires
        p <= bytes@.len(),
    ensures
        end == digits_end(bytes@, p as int),
        p <= end <= bytes@.len(),
{
    let mut end = p;
    while end < bytes.len() && bytes[end] >= 48 && bytes[end] <= 57
        invariant
            p <= end <= bytes@.len(),
            digits_end(bytes@, end as int) == digits_end(bytes@, p as int),
        decreases bytes@.len() - end,
    {
        end += 1;
    }
    end
}

fn read_number(bytes: &[u8], p: usize) -> (result: Result<(String, usize), ParseError>)
    requires
        p < bytes@.len(),
        bytes@[p as int] == 45 || is_digit_byte(bytes@[p as int]),
    ensures
        match (result, scan_number(bytes@, p as int)) {
            (Ok((digits, q)), Scan::Done(sd, sq)) => digits@ == sd && q == sq && p < q <= bytes@.len(),
            (Err(e), Scan::Failed(f, at)) => reports(e, f, at),
            _ => false,
        },
{
    let length = bytes.len();
    let a = if bytes[p] == 45 { p + 1 } else { p };
    let b = digits_from(bytes, a);
    let has_dot = b < length && bytes[b] == 46;
    let c = if has_dot { digits_from(bytes, b + 1) } else { b };
    let fraction_digits = if has_dot { c - (b + 1) } else { 0 };
    let has_exponent = c < length && (bytes[c] == 101 || bytes[c] == 69);
    let ghost spec_e = if 0 <= c + 1 < length && (bytes@[c + 1] == 43 || bytes@[c + 1] == 45) {
        c + 2
    } else {
        c + 1
    };
    let mut e: usize = 0;
    let d = if has_exponent {
        e = if length - c > 1 && (bytes[c + 1] == 43 || bytes[c + 1] == 45) {
            c + 2
        } else {
            c + 1
        };
        digits_from(bytes, e)
    } else {
        c
    };
    assert(has_exponent ==> e == spec_e);
    if (b - a) + fraction_digits >= 1 && (!has_exponent || d > e) {
        let mut digits = String::new();
        let mut index = p;
        while index < d
            invariant
                p <= index <= d <= bytes@.len(),
                digits@ == ascii_chars(bytes@.subrange(p as int, index as int)),
            decreases d - index,
        {
            push_char(&mut digits, bytes[index] as char);
            assert(ascii_chars(bytes@.subrange(p as int, index + 1)) =~= ascii_chars(
                bytes@.subrange(p as int, index as int),
            ).push(bytes@[index as int] as char));
            index += 1;
        }
        Ok((digits, d))
    } else {
        Err(failure(ParseFailure::MalformedNumber, d))
    }
}

fn hex_digit_value(byte: u8) -> (value: Option<u32>)
    ensures
        match hex_value(byte) {
            Some(n) => value == Some(n as u32),
            None => value is None,
        },
{
    if byte >= 48 && byte <= 57 {
        Some((byte - 48) as u32)
    } else if byte >= 97 && byte <= 102 {
        Some((byte - 87) as u32)
    } else if byte >= 65 && byte <= 70 {
        Some((byte - 55) as u32)
    } else {
        None
    }
}

fn read_hex4(bytes: &[u8], p: usize) -> (result: Result<(u32, usize), ParseError>)
    requires
        p <= bytes@.len(),
    ensures
        match (result, scan_hex4(bytes@, p as int)) {
            (Ok((code, q)), Scan::Done(sc, sq)) => code == sc && q == sq && q == p + 4
                && q <= bytes@.len() && code <= 0xFFFF,
            (Err(e), Scan::Failed(f, at)) => reports(e, f, at),
            _ => false,
        },
{
    if bytes.len() - p < 4 {
        return Err(failure(ParseFailure::IncompleteUnicodeEscape, p));
    }
    let mut value: u32 = 0;
    let mut count: usize = 0;
    while count < 4
        invariant
            p + 4 <= bytes@.len(),
            bytes@.len() <= usize::MAX,
            count <= 4,
            value < pow16(count as nat),
            scan_hex_digits(bytes@, (p + count) as int, count as nat, value as int)
                == scan_hex4(bytes@, p as int),
        decreases 4 - count,
    {
        match hex_digit_value(bytes[p + count]) {
            Some(nibble) => {
                proof {
                    reveal_with_fuel(pow16, 4);
                    assert(pow16(count as nat) <= 4096);
                    assert(value * 16 + nibble < pow16((count + 1) as nat)) by (nonlinear_arith)
                        requires
                            value < pow16(count as nat),
                            nibble < 16,
                            pow16((count + 1) as nat) == 16 * pow16(count as nat),
                    ;
                }
                value = value * 16 + nibble;
                count += 1;
            },
            None => {
                return Err(failure(ParseFailure::InvalidHexDigit, p + count));
            },
        }
    }
    proof {
        reveal_with_fuel(pow16, 5);
    }
    Ok((value, p + 4))
}

pub open spec fn pow16(n: nat) -> nat
    decreases n,
{
    if n == 0 {
        1
    } else {
        16 * pow16((n - 1) as nat)
    }
}

fn read_unicode_escape(bytes: &[u8], p: usize) -> (result: Result<(char, usize), ParseError>)
    requires
        p <= bytes@.len(),
    ensures
        match (result, scan_unicode_escape(bytes@, p as int)) {
            (Ok((c, q)), Scan::Done(sc, sq)) => c == sc && q == sq && p < q <= bytes@.len(),
            (Err(e), Scan::Failed(f, at)) => reports(e, f, at),
            _ => false,
        },
{
    let (code, t) = read_hex4(bytes, p)?;
    if code >= 0xD800 && code <= 0xDBFF {
        if !(t < bytes.len() && bytes[t] == 92) {
            return Err(failure(ParseFailure::ExpectedLowSurrogate, t));
        }
        if !(t + 1 < bytes.len() && bytes[t + 1] == 117) {
            return Err(failure(ParseFailure::ExpectedLowSurrogateEscape, t + 1));
        }
        let (low, t2) = read_hex4(bytes, t + 2)?;
        if !(low >= 0xDC00 && low <= 0xDFFF) {
            return Err(failure(ParseFailure::InvalidLowSurrogate, t2));
        }
        let combined = 0x10000 + (code - 0xD800) * 1024 + (low - 0xDC00);
        match scalar_char(combined) {
            Some(c) => Ok((c, t2)),
            None => {
                assert(has_width_4_encoding(combined));
                Err(failure(ParseFailure::InvalidCodePoint, t2))
            },
        }
    } else if code >= 0xDC00 && code <= 0xDFFF {
        Err(failure(ParseFailure::InvalidCodePoint, t))
    } else {
        match scalar_char(code) {
            Some(c) => Ok((c, t)),
            None => {
                assert(is_scalar(code));
                Err(failure(ParseFailure::InvalidCodePoint, t))
            },
        }
    }
}

fn width_of(first_byte: u8) -> (width: usize)
    ensures
        width == utf8_width(first_byte),
{
    if first_byte < 0x80 {
        1
    } else if first_byte >= 0xC0 && first_byte <= 0xDF {
        2
    } else if first_byte >= 0xE0 && first_byte <= 0xEF {
        3
    } else if first_byte >= 0xF0 && first_byte <= 0xF7 {
        4
    } else {
        1
    }
}

fn escaped_char(escape: u8) -> (c: Option<char>)
    ensures
        c == simple_escape(escape),
{
    if escape == 34 {
        Some('"')
    } else if escape == 92 {
        Some('\\')
    } else if escape == 47 {
        Some('/')
    } else if escape == 98 {
        Some('\u{8}')
    } else if escape == 102 {
        Some('\u{c}')
    } else if escape == 110 {
        Some('\n')
    } else if escape == 114 {
        Some('\r')
    } else if escape == 116 {
        Some('\t')
    } else {
        None
    }
}

fn read_string(bytes: &[u8], p: usize) -> (result: Result<(String, usize), ParseError>)
    requires
        p < bytes@.len(),
    ensures
        match (result, scan_string(bytes@, p as int)) {
            (Ok((content, q)), Scan::Done(sc, sq)) => content@ == sc && q == sq && p < q
                <= bytes@.len(),
            (Err(e), Scan::Failed(f, at)) => reports(e, f, at),
            _ => false,
        },
{
    let length = bytes.len();
    let mut content = String::new();
    let mut q = p + 1;
    loop
        invariant
            length == bytes@.len(),
            p < q <= length,
            scan_string_chars(bytes@, q as int, content@) == scan_string(bytes@, p as int),
        decreases length - q,
    {
        if q >= length {
            return Err(failure(ParseFailure::UnterminatedString, q));
        }
        let byte = bytes[q];
        if byte == 34 {
            return Ok((content, q + 1));
        }
        if byte == 92 {
            if q + 1 >= length {
                return Err(failure(ParseFailure::UnterminatedEscape, q + 1));
            }
            let escape = bytes[q + 1];
            match escaped_char(escape) {
                Some(c) => {
                    push_char(&mut content, c);
                    q = q + 2;
                },
                None => {
                    if escape == 117 {
                        let (c, t) = read_unicode_escape(bytes, q + 2)?;
                        push_char(&mut content, c);
                        q = t;
                    } else {
                        return Err(failure(ParseFailure::InvalidEscape, q + 2));
                    }
                },
            }
        } else {
            let width = width_of(byte);
            if width > length - q {
                return Err(failure(ParseFailure::InvalidUtf8, q + 1));
            }
            let end = q + width;
            let piece = &bytes[q..end];
            match utf8_text(piece) {
                Some(decoded) => {
                    proof {
                        encode_utf8_decode_utf8(decoded@);
                    }
                    content.append(decoded);
                    q = end;
                },
                None => {
                    return Err(failure(ParseFailure::InvalidUtf8, q + 1));
                },
            }
        }
    }
}

fn read_value(bytes: &[u8], p: usize) -> (result: Result<(Value, usize), ParseError>)
    requires
        p <= bytes@.len(),
    ensures
        match (result, scan_value(bytes@, p as int)) {
            (Ok((value, q)), Scan::Done(sv, sq)) => value@ == sv && q == sq && p < q <= bytes@.len(),
            (Err(e), Scan::Failed(f, at)) => reports(e, f, at),
            _ => false,
        },
    decreases bytes@.len() - p, 1int,
{
    if p >= bytes.len() {
        return Err(failure(ParseFailure::UnexpectedCharacter, p));
    }
    let b = bytes[p];
    if b == 123 {
        read_object(bytes, p)
    } else if b == 91 {
        read_array(bytes, p)
    } else if b == 34 {
        let (content, q) = read_string(bytes, p)?;
        Ok((Value::Text(content), q))
    } else if b == 116 {
        let q = read_literal(bytes, p, vec![116u8, 114u8, 117u8, 101u8].as_slice())?;
        Ok((Value::Boolean(true), q))
    } else if b == 102 {
        let q = read_literal(bytes, p, vec![102u8, 97u8, 108u8, 115u8, 101u8].as_slice())?;
        Ok((Value::Boolean(false), q))
    } else if b == 110 {
        let q = read_literal(bytes, p, vec![110u8, 117u8, 108u8, 108u8].as_slice())?;
        Ok((Value::Null, q))
    } else if b == 45 || (b >= 48 && b <= 57) {
        let (digits, q) = read_number(bytes, p)?;
        Ok((Value::Number(digits), q))
    } else {
        Err(failure(ParseFailure::UnexpectedCharacter, p))
    }
}

fn read_array(bytes: &[u8], p: usize) -> (result: Result<(Value, usize), ParseError>)
    requires
        p < bytes@.len(),
    ensures
        match (result, scan_array(bytes@, p as int)) {
            (Ok((value, q)), Scan::Done(sv, sq)) => value@ == sv && q == sq && p < q <= bytes@.len(),
            (Err(e), Scan::Failed(f, at)) => reports(e, f, at),
            _ => false,
        },
    decreases bytes@.len() - p, 0int,
{
    let length = bytes.len();
    let mut items: Vec<Value> = Vec::new();
    let mut q = skip_white_from(bytes, p + 1);
    if q < length && bytes[q] == 93 {
        return Ok((Value::Array(items), q + 1));
    }
    assert(json_of_items(items@) =~= Seq::<Json>::empty());
    loop
        invariant
            length == bytes@.len(),
            p < q <= length,
            scan_array_items(bytes@, q as int, json_of_items(items@)) == scan_array(bytes@, p as int),
        decreases length - q,
    {
        let r = skip_white_from(bytes, q);
        let (item, v) = read_value(bytes, r)?;
        let t = skip_white_from(bytes, v);
        let ghost before = json_of_items(items@);
        let ghost previous = items@;
        items.push(item);
        proof {
            assert(items@.drop_last() =~= previous);
            assert(json_of_items(items@) == before.push(json_of(item)));
        }
        if t < length && bytes[t] == 44 {
            q = t + 1;
        } else if t < length && bytes[t] == 93 {
            return Ok((Value::Array(items), t + 1));
        } else {
            return Err(failure(ParseFailure::ExpectedArraySeparator, t));
        }
    }
}

fn read_object(bytes: &[u8], p: usize) -> (result: Result<(Value, usize), ParseError>)
    requires
        p < bytes@.len(),
    ensures
        match (result, scan_object(bytes@, p as int)) {
            (Ok((value, q)), Scan::Done(sv, sq)) => value@ == sv && q == sq && p < q <= bytes@.len(),
            (Err(e), Scan::Failed(f, at)) => reports(e, f, at),
            _ => false,
        },
    decreases bytes@.len() - p, 0int,
{
    let length = bytes.len();
    let mut entries: Vec<(String, Value)> = Vec::new();
    let mut q = skip_white_from(bytes, p + 1);
    if q < length && bytes[q] == 125 {
        return Ok((Value::Object(entries), q + 1));
    }
    assert(json_of_entries(entries@) =~= Seq::<(Seq<char>, Json)>::empty());
    loop
        invariant
            length == bytes@.len(),
            p < q <= length,
            scan_members(bytes@, q as int, json_of_entries(entries@)) == scan_object(bytes@, p as int),
        decreases length - q,
    {
        let k = skip_white_from(bytes, q);
        if !(k < length && bytes[k] == 34) {
            return Err(failure(ParseFailure::ExpectedObjectKey, k));
        }
        let (key, r) = read_string(bytes, k)?;
        let c = skip_white_from(bytes, r);
        if !(c < length && bytes[c] == 58) {
            return Err(failure(ParseFailure::ExpectedColon, c));
        }
        let w = skip_white_from(bytes, c + 1);
        let (item, v) = read_value(bytes, w)?;
        let t = skip_white_from(bytes, v);
        let ghost before = json_of_entries(entries@);
        let ghost key_view = key@;
        let ghost previous = entries@;
        entries.push((key, item));
        proof {
            assert(json_of_entries(entries@) == before.push((key_view, json_of(item)))) by {
                assert(entries@.drop_last() =~= previous);
            }
        }
        if t < length && bytes[t] == 44 {
            q = t + 1;
        } else if t < length && bytes[t] == 125 {
            return Ok((Value::Object(entries), t + 1));
        } else {
            return Err(failure(ParseFailure::ExpectedObjectSeparator, t));
        }
    }
}

/// Reads a JSON document that fills `input`, white space around it aside.
pub fn parse(input: &str) -> (result: Result<Value, ParseError>)
    ensures
        match (result, spec_parse(input.spec_bytes())) {
            (Ok(value), Ok(expected)) => value@ == expected,
            (Err(e), Err((f, at))) => reports(e, f, at),
            _ => false,
        },
{
    let bytes = input.as_bytes();
    let start = skip_white_from(bytes, 0);
    let (value, v) = read_value(bytes, start)?;
    let t = skip_white_from(bytes, v);
    if t != bytes.len() {
        return Err(failure(ParseFailure::TrailingCharacters, t));
    }
    Ok(value)
}

} // verus!
