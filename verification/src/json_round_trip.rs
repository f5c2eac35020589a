//! What the writer produces, the reader reads back: the bytes of the text
//! of a document parse to that same document.

use vstd::prelude::*;
use vstd::utf8::*;
use crate::cleanup::{digits_end, is_digit_byte};
use crate::numbers::{decimal_chars, digit_char, integer_json_chars, printed_double, round_to_double};
use crate::json::{
    ascii_chars, escape_char, escaped_chars, hex_digit_char, hex_value, is_json_white, items_text,
    json_text, members_text, quoted, scan_array_items, scan_hex4, scan_hex_digits, scan_members,
    scan_number, scan_string, scan_string_chars, scan_unicode_escape, scan_value, simple_escape,
    spec_parse, utf8_width, Json, ParseFailure, Scan,
};

verus! {

/// `t` stands in `s` from position `p` on.
pub open spec fn holds_at(s: Seq<u8>, p: int, t: Seq<u8>) -> bool {
    &&& 0 <= p
    &&& p + t.len() <= s.len()
    &&& s.subrange(p, p + t.len()) == t
}

pub proof fn lemma_holds_at_split(s: Seq<u8>, p: int, x: Seq<u8>, y: Seq<u8>)
    requires
        holds_at(s, p, x + y),
    ensures
        holds_at(s, p, x),
        holds_at(s, p + x.len(), y),
{
    let whole = s.subrange(p, p + x.len() + y.len());
    assert forall|i: int| 0 <= i < x.len() implies #[trigger] s.subrange(p, p + x.len())[i] == x[i] by {
        assert(whole[i] == s[p + i]);
        assert((x + y)[i] == x[i]);
    }
    assert(s.subrange(p, p + x.len()) =~= x);
    assert forall|i: int| 0 <= i < y.len() implies #[trigger] s.subrange(
        p + x.len(),
        p + x.len() + y.len(),
    )[i] == y[i] by {
        assert(whole[x.len() + i] == s[p + x.len() + i]);
        assert((x + y)[x.len() + i] == y[i]);
    }
    assert(s.subrange(p + x.len(), p + x.len() + y.len()) =~= y);
}

pub proof fn lemma_holds_at_byte(s: Seq<u8>, p: int, t: Seq<u8>, i: int)
    requires
        holds_at(s, p, t),
        0 <= i < t.len(),
    ensures
        s[p + i] == t[i],
{
    assert(s.subrange(p, p + t.len())[i] == s[p + i]);
}

/// Encoding a concatenation concatenates the encodings.
pub proof fn lemma_encode_concat(a: Seq<char>, b: Seq<char>)
    ensures
        encode_utf8(a + b) == encode_utf8(a) + encode_utf8(b),
    decreases a.len(),
{
    if a.len() == 0 {
        assert(a + b =~= b);
        assert(encode_utf8(a) =~= Seq::<u8>::empty());
        assert(encode_utf8(a) + encode_utf8(b) =~= encode_utf8(b));
    } else {
        lemma_encode_concat(a.drop_first(), b);
        assert((a + b).drop_first() =~= a.drop_first() + b);
        assert((a + b)[0] == a[0]);
        assert(encode_utf8(a + b) == encode_scalar(a[0] as u32) + encode_utf8(a.drop_first() + b));
        assert(encode_utf8(a) == encode_scalar(a[0] as u32) + encode_utf8(a.drop_first()));
        assert(encode_utf8(a + b) =~= encode_utf8(a) + encode_utf8(b));
    }
}

/// The bytes of an ASCII text are its characters, one byte each.
pub proof fn lemma_encode_ascii(chars: Seq<char>)
    requires
        is_ascii_chars(chars),
    ensures
        encode_utf8(chars) == Seq::new(chars.len(), |i: int| chars[i] as u8),
{
    is_ascii_chars_encode_utf8(chars);
    assert(encode_utf8(chars) =~= Seq::new(chars.len(), |i: int| chars[i] as u8));
}

/// Escaping a concatenation concatenates the escapes.
pub proof fn lemma_escaped_concat(a: Seq<char>, b: Seq<char>)
    ensures
        escaped_chars(a + b) == escaped_chars(a) + escaped_chars(b),
    decreases b.len(),
{
    if b.len() == 0 {
        assert(a + b =~= a);
        assert(escaped_chars(a) + escaped_chars(b) =~= escaped_chars(a));
    } else {
        lemma_escaped_concat(a, b.drop_last());
        assert((a + b).drop_last() =~= a + b.drop_last());
        assert((a + b).last() == b.last());
        assert(escaped_chars(a + b) =~= escaped_chars(a) + escaped_chars(b));
    }
}

pub proof fn lemma_escaped_first(content: Seq<char>)
    requires
        content.len() > 0,
    ensures
        escaped_chars(content) == escape_char(content[0]) + escaped_chars(content.drop_first()),
{
    let first = seq![content[0]];
    assert(content =~= first + content.drop_first());
    lemma_escaped_concat(first, content.drop_first());
    assert(first.drop_last() =~= Seq::<char>::empty());
    assert(escaped_chars(Seq::<char>::empty()) =~= Seq::<char>::empty());
    assert(escaped_chars(first) == escaped_chars(first.drop_last()) + escape_char(first.last()));
    assert(escaped_chars(first) =~= escape_char(content[0]));
}

/// A character written as itself: its bytes start with a byte that is not
/// a quote or a backslash, announce their own length, and decode to it.
pub proof fn lemma_plain_char(c: char)
    requires
        c as u32 >= 0x20,
        c != '"',
        c != '\\',
    ensures
        ({
            let e = encode_utf8(seq![c]);
            &&& e.len() >= 1
            &&& e[0] != 34u8
            &&& e[0] != 92u8
            &&& utf8_width(e[0]) == e.len()
            &&& valid_utf8(e)
            &&& decode_utf8(e) == seq![c]
        }),
{
    let chars = seq![c];
    let e = encode_utf8(chars);
    encode_utf8_first_scalar(chars);
    encode_utf8_valid_utf8(chars);
    encode_utf8_decode_utf8(chars);
    assert(chars.drop_first() =~= Seq::<char>::empty());
    assert(e == encode_scalar(c as u32) + encode_utf8(chars.drop_first()));
    assert(e =~= encode_scalar(c as u32));
    if (c as u32) < 0x80 {
        assert(is_ascii_chars(chars));
        is_ascii_chars_encode_utf8(chars);
        assert(e[0] == c as u8);
    } else {
        assert(e.len() >= 2);
    }
}

/// An escape of two characters: a backslash and `letter`.
proof fn lemma_short_escape(c: char, letter: char, s: Seq<u8>, p: int, acc: Seq<char>)
    requires
        escape_char(c) == seq!['\\', letter],
        letter as u32 <= 0x7f,
        simple_escape(letter as u8) == Some(c),
        holds_at(s, p, encode_utf8(escape_char(c))),
    ensures
        encode_utf8(escape_char(c)).len() == 2,
        scan_string_chars(s, p, acc) == scan_string_chars(s, p + 2, acc.push(c)),
{
    let chars = seq!['\\', letter];
    assert(is_ascii_chars(chars));
    lemma_encode_ascii(chars);
    let e = encode_utf8(chars);
    lemma_holds_at_byte(s, p, e, 0);
    lemma_holds_at_byte(s, p, e, 1);
    assert(s[p] == 92u8);
    assert(s[p + 1] == letter as u8);
}

/// The text of one character inside a string reads back as that character.
pub proof fn lemma_string_char(c: char, s: Seq<u8>, p: int, acc: Seq<char>)
    requires
        holds_at(s, p, encode_utf8(escape_char(c))),
    ensures
        scan_string_chars(s, p, acc) == scan_string_chars(
            s,
            p + encode_utf8(escape_char(c)).len(),
            acc.push(c),
        ),
{
    if c == '"' {
        lemma_short_escape(c, '"', s, p, acc);
    } else if c == '\\' {
        lemma_short_escape(c, '\\', s, p, acc);
    } else if c == '\n' {
        lemma_short_escape(c, 'n', s, p, acc);
    } else if c == '\r' {
        lemma_short_escape(c, 'r', s, p, acc);
    } else if c == '\t' {
        lemma_short_escape(c, 't', s, p, acc);
    } else if c == '\u{8}' {
        lemma_short_escape(c, 'b', s, p, acc);
    } else if c == '\u{c}' {
        lemma_short_escape(c, 'f', s, p, acc);
    } else if (c as u32) < 0x20 {
        lemma_control_char(c, s, p, acc);
    } else {
        lemma_plain_char(c);
        let e = encode_utf8(seq![c]);
        assert(escape_char(c) == seq![c]);
        lemma_holds_at_byte(s, p, e, 0);
        assert(s.subrange(p, p + utf8_width(s[p])) == e);
        assert(acc + decode_utf8(e) =~= acc.push(c));
    }
}

/// A control character written as `\u00` and two hexadecimal digits.
#[verifier::spinoff_prover]
#[verifier::rlimit(40)]
proof fn lemma_control_char(c: char, s: Seq<u8>, p: int, acc: Seq<char>)
    requires
        (c as u32) < 0x20,
        c != '\n',
        c != '\r',
        c != '\t',
        c != '\u{8}',
        c != '\u{c}',
        holds_at(s, p, encode_utf8(escape_char(c))),
    ensures
        encode_utf8(escape_char(c)).len() == 6,
        scan_string_chars(s, p, acc) == scan_string_chars(s, p + 6, acc.push(c)),
{
    let code = c as u32;
    let hi = (code / 16) as nat;
    let lo = (code % 16) as nat;
    let high = hex_digit_char(hi);
    let low = hex_digit_char(lo);
    lemma_hex_digit(hi);
    lemma_hex_digit(lo);
    let chars = seq!['\\', 'u', '0', '0', high, low];
    assert(escape_char(c) == chars);
    assert(is_ascii_chars(chars));
    lemma_encode_ascii(chars);
    let e = encode_utf8(chars);
    lemma_holds_at_byte(s, p, e, 0);
    lemma_holds_at_byte(s, p, e, 1);
    lemma_holds_at_byte(s, p, e, 2);
    lemma_holds_at_byte(s, p, e, 3);
    lemma_holds_at_byte(s, p, e, 4);
    lemma_holds_at_byte(s, p, e, 5);
    assert(s[p] == 92u8);
    assert(s[p + 1] == 117u8);
    assert(hex_value(s[p + 2]) == Some(0int));
    assert(hex_value(s[p + 3]) == Some(0int));
    assert(hex_value(s[p + 4]) == Some(hi as int));
    assert(hex_value(s[p + 5]) == Some(lo as int));
    reveal_with_fuel(scan_hex_digits, 5);
    assert(scan_hex4(s, p + 2) == Scan::Done((hi * 16 + lo) as int, p + 6));
    assert(hi * 16 + lo == code);
    char_u32_cast(c, code);
    assert(scan_unicode_escape(s, p + 2) == Scan::Done(c, p + 6));
}

/// The digit that the writer spells for `n` reads back as `n`.
proof fn lemma_hex_digit(n: nat)
    requires
        n < 16,
    ensures
        (hex_digit_char(n) as u32) <= 0x7f,
        hex_value(hex_digit_char(n) as u8) == Some(n as int),
{
}

/// The bytes of a one-character ASCII text.
pub proof fn lemma_encode_ascii_char(c: char)
    requires
        (c as u32) <= 0x7f,
    ensures
        encode_utf8(seq![c]) == seq![c as u8],
{
    assert(is_ascii_chars(seq![c]));
    lemma_encode_ascii(seq![c]);
    assert(encode_utf8(seq![c]) =~= seq![c as u8]);
}

/// The escaped characters of a string, then its closing quote, read back
/// as the characters.
pub proof fn lemma_string_rest(content: Seq<char>, s: Seq<u8>, p: int, acc: Seq<char>)
    requires
        holds_at(s, p, encode_utf8(escaped_chars(content)) + seq![34u8]),
    ensures
        scan_string_chars(s, p, acc) == Scan::Done(
            acc + content,
            p + encode_utf8(escaped_chars(content)).len() + 1,
        ),
    decreases content.len(),
{
    if content.len() == 0 {
        assert(escaped_chars(content) =~= Seq::<char>::empty());
        assert(encode_utf8(escaped_chars(content)) =~= Seq::<u8>::empty());
        lemma_holds_at_byte(s, p, encode_utf8(escaped_chars(content)) + seq![34u8], 0);
        assert(acc + content =~= acc);
    } else {
        let c = content[0];
        let rest = content.drop_first();
        lemma_escaped_first(content);
        lemma_encode_concat(escape_char(c), escaped_chars(rest));
        let e = encode_utf8(escape_char(c));
        let tail = encode_utf8(escaped_chars(rest));
        assert(encode_utf8(escaped_chars(content)) + seq![34u8] =~= e + (tail + seq![34u8]));
        lemma_holds_at_split(s, p, e, tail + seq![34u8]);
        lemma_string_char(c, s, p, acc);
        lemma_string_rest(rest, s, p + e.len(), acc.push(c));
        assert(acc.push(c) + rest =~= acc + content);
    }
}

/// A quoted string reads back as its content.
pub proof fn lemma_quoted(content: Seq<char>, s: Seq<u8>, p: int)
    requires
        holds_at(s, p, encode_utf8(quoted(content))),
    ensures
        encode_utf8(quoted(content)).len() == encode_utf8(escaped_chars(content)).len() + 2,
        encode_utf8(quoted(content))[0] == 34u8,
        scan_string(s, p) == Scan::Done(content, p + encode_utf8(quoted(content)).len()),
{
    let open = seq!['"'];
    let middle = escaped_chars(content);
    lemma_encode_ascii_char('"');
    lemma_encode_concat(open, middle);
    lemma_encode_concat(open + middle, open);
    let bytes = encode_utf8(middle);
    assert(encode_utf8(quoted(content)) =~= seq![34u8] + (bytes + seq![34u8]));
    lemma_holds_at_split(s, p, seq![34u8], bytes + seq![34u8]);
    lemma_string_rest(content, s, p + 1, Seq::empty());
    assert(Seq::<char>::empty() + content =~= content);
}

/// A number spelled as one JSON number, which the reader takes whole.
pub open spec fn number_reads_whole(digits: Seq<char>) -> bool {
    &&& digits.len() > 0
    &&& is_ascii_chars(digits)
    &&& (digits[0] == '-' || ('0' <= digits[0] && digits[0] <= '9'))
    &&& scan_number(encode_utf8(digits), 0) == Scan::Done(digits, digits.len() as int)
}

/// A document whose numbers are each spelled as one JSON number.
pub open spec fn writable(value: Json) -> bool
    decreases value,
{
    match value {
        Json::Number(digits) => number_reads_whole(digits),
        Json::Array(items) => items_writable(items),
        Json::Object(members) => members_writable(members),
        _ => true,
    }
}

pub open spec fn items_writable(items: Seq<Json>) -> bool
    decreases items,
{
    if items.len() == 0 {
        true
    } else {
        items_writable(items.drop_last()) && writable(items.last())
    }
}

pub open spec fn members_writable(members: Seq<(Seq<char>, Json)>) -> bool
    decreases members,
{
    if members.len() == 0 {
        true
    } else {
        members_writable(members.drop_last()) && writable(members.last().1)
    }
}

pub proof fn lemma_items_writable(items: Seq<Json>)
    ensures
        items_writable(items) <==> forall|i: int| 0 <= i < items.len() ==> #[trigger] writable(items[i]),
    decreases items.len(),
{
    if items.len() > 0 {
        lemma_items_writable(items.drop_last());
        if items_writable(items) {
            assert forall|i: int| 0 <= i < items.len() implies #[trigger] writable(items[i]) by {
                if i < items.len() - 1 {
                    assert(items.drop_last()[i] == items[i]);
                }
            }
        }
        if forall|i: int| 0 <= i < items.len() ==> #[trigger] writable(items[i]) {
            assert(writable(items[items.len() - 1]));
            assert forall|i: int| 0 <= i < items.drop_last().len() implies #[trigger] writable(
                items.drop_last()[i],
            ) by {
                assert(items.drop_last()[i] == items[i]);
            }
        }
    }
}

pub proof fn lemma_members_writable(members: Seq<(Seq<char>, Json)>)
    ensures
        members_writable(members) <==> forall|i: int|
            0 <= i < members.len() ==> #[trigger] writable(members[i].1),
    decreases members.len(),
{
    if members.len() > 0 {
        lemma_members_writable(members.drop_last());
        if members_writable(members) {
            assert forall|i: int| 0 <= i < members.len() implies #[trigger] writable(members[i].1) by {
                if i < members.len() - 1 {
                    assert(members.drop_last()[i] == members[i]);
                }
            }
        }
        if forall|i: int| 0 <= i < members.len() ==> #[trigger] writable(members[i].1) {
            assert(writable(members[members.len() - 1].1));
            assert forall|i: int| 0 <= i < members.drop_last().len() implies #[trigger] writable(
                members.drop_last()[i].1,
            ) by {
                assert(members.drop_last()[i] == members[i]);
            }
        }
    }
}

/// The bytes of the text of a document.
pub open spec fn written(value: Json) -> Seq<u8> {
    encode_utf8(json_text(value))
}

/// A byte that can follow a number without being read as part of it.
pub open spec fn ends_number(byte: u8) -> bool {
    !is_digit_byte(byte) && byte != 46 && byte != 101 && byte != 69 && byte != 43 && byte != 45
}

/// Where a value written inside a document may end: at the end of the
/// input, or before a comma or a closing bracket or brace.
pub open spec fn ends_value(s: Seq<u8>, q: int) -> bool {
    q == s.len() || (0 <= q < s.len() && (s[q] == 44 || s[q] == 93 || s[q] == 125))
}

proof fn lemma_digits_end_shift(s: Seq<u8>, p: int, t: Seq<u8>, i: int)
    requires
        holds_at(s, p, t),
        0 <= i <= t.len(),
        p + t.len() == s.len() || !is_digit_byte(s[p + t.len()]),
    ensures
        digits_end(s, p + i) == p + digits_end(t, i),
    decreases t.len() - i,
{
    if i < t.len() {
        lemma_holds_at_byte(s, p, t, i);
        lemma_digits_end_shift(s, p, t, i + 1);
    }
}

/// A number that reads whole reads the same inside a larger input, when
/// what follows it cannot continue it.
proof fn lemma_number(digits: Seq<char>, s: Seq<u8>, p: int)
    requires
        number_reads_whole(digits),
        holds_at(s, p, encode_utf8(digits)),
        p + encode_utf8(digits).len() == s.len() || ends_number(s[p + encode_utf8(digits).len()]),
    ensures
        scan_number(s, p) == Scan::Done(digits, p + digits.len()),
{
    let t = encode_utf8(digits);
    let n = t.len() as int;
    lemma_encode_ascii(digits);
    assert(n == digits.len());
    assert forall|i: int| 0 <= i < n implies s[p + i] == #[trigger] t[i] by {
        lemma_holds_at_byte(s, p, t, i);
    }
    assert forall|i: int| 0 <= i <= n implies digits_end(s, p + i) == p + #[trigger] digits_end(
        t,
        i,
    ) by {
        lemma_digits_end_shift(s, p, t, i);
    }
    lemma_digits_end_bounds(t, 0);
    lemma_digits_end_bounds(t, 1);
    let a: int = if t[0] == 45 {
        1
    } else {
        0
    };
    let b = digits_end(t, a);
    lemma_digits_end_bounds(t, a);
    lemma_digits_end_bounds(t, b + 1);
    let has_dot = 0 <= b < n && t[b] == 46;
    let c = if has_dot {
        digits_end(t, b + 1)
    } else {
        b
    };
    lemma_digits_end_bounds(t, c + 1);
    lemma_digits_end_bounds(t, c + 2);
    assert(s.subrange(p, p + n) =~= t.subrange(0, n));
}

proof fn lemma_digits_end_bounds(t: Seq<u8>, i: int)
    ensures
        0 <= i <= t.len() ==> i <= digits_end(t, i) <= t.len(),
    decreases t.len() - i,
{
    if 0 <= i < t.len() && is_digit_byte(t[i]) {
        lemma_digits_end_bounds(t, i + 1);
    }
}

/// The text of several items is the first item, a comma, and the text of
/// the others.
proof fn lemma_items_text_first(items: Seq<Json>)
    requires
        items.len() >= 2,
    ensures
        items_text(items) == json_text(items[0]) + seq![','] + items_text(items.drop_first()),
    decreases items.len(),
{
    let rest = items.drop_first();
    if items.len() == 2 {
        assert(items.drop_last().len() == 1);
        assert(items_text(items.drop_last()) == json_text(items[0]));
        assert(rest.len() == 1);
        assert(items_text(rest) == json_text(items[1]));
    } else {
        lemma_items_text_first(items.drop_last());
        assert(items.drop_last().drop_first() =~= rest.drop_last());
        assert(rest.last() == items.last());
        assert(items.drop_last()[0] == items[0]);
        assert(items_text(items) =~= json_text(items[0]) + seq![','] + items_text(rest));
    }
}

/// The text of several members is the first member, a comma, and the text
/// of the others.
proof fn lemma_members_text_first(members: Seq<(Seq<char>, Json)>)
    requires
        members.len() >= 2,
    ensures
        members_text(members) == quoted(members[0].0) + seq![':'] + json_text(members[0].1) + seq![
            ',',
        ] + members_text(members.drop_first()),
    decreases members.len(),
{
    let rest = members.drop_first();
    if members.len() == 2 {
        assert(members.drop_last().len() == 1);
        assert(rest.len() == 1);
        assert(rest[0] == members[1]);
        assert(members.drop_last()[0] == members[0]);
        assert(members.last() == members[1]);
        assert(members_text(members.drop_last()) == quoted(members[0].0) + seq![':'] + json_text(
            members[0].1,
        ));
        assert(members_text(rest) == quoted(members[1].0) + seq![':'] + json_text(members[1].1));
        assert(members_text(members) =~= quoted(members[0].0) + seq![':'] + json_text(members[0].1)
            + seq![','] + members_text(rest));
    } else {
        lemma_members_text_first(members.drop_last());
        assert(members.drop_last().drop_first() =~= rest.drop_last());
        assert(rest.last() == members.last());
        assert(members.drop_last()[0] == members[0]);
        assert(members_text(members) =~= quoted(members[0].0) + seq![':'] + json_text(members[0].1)
            + seq![','] + members_text(rest));
    }
}

/// The first byte of an encoding whose first character is ASCII.
proof fn lemma_first_byte(chars: Seq<char>)
    requires
        chars.len() > 0,
        (chars[0] as u32) <= 0x7f,
    ensures
        encode_utf8(chars).len() > 0,
        encode_utf8(chars)[0] == chars[0] as u8,
{
    let first = seq![chars[0]];
    assert(chars =~= first + chars.drop_first());
    lemma_encode_concat(first, chars.drop_first());
    lemma_encode_ascii_char(chars[0]);
}

/// The text of a document starts with a byte that names its kind.
proof fn lemma_written_first(value: Json)
    requires
        writable(value),
    ensures
        written(value).len() > 0,
        written(value)[0] == json_text(value)[0] as u8,
        json_text(value)[0] == match value {
            Json::Null => 'n',
            Json::Boolean(flag) => if flag {
                't'
            } else {
                'f'
            },
            Json::Number(digits) => digits[0],
            Json::Text(_) => '"',
            Json::Array(_) => '[',
            Json::Object(_) => '{',
        },
        (json_text(value)[0] as u32) <= 0x7f,
        !is_json_white(written(value)[0]),
        written(value)[0] != 93u8,
        written(value)[0] != 125u8,
        written(value)[0] != 44u8,
{
    match value {
        Json::Number(digits) => {
            assert(is_ascii_chars(digits));
            assert(json_text(value)[0] == digits[0]);
        },
        _ => {},
    }
    lemma_first_byte(json_text(value));
}

/// A document written inside a larger input reads back as itself.
pub proof fn lemma_value(value: Json, s: Seq<u8>, p: int)
    requires
        writable(value),
        holds_at(s, p, written(value)),
        ends_value(s, p + written(value).len()),
    ensures
        scan_value(s, p) == Scan::Done(value, p + written(value).len()),
    decreases value,
{
    let w = written(value);
    lemma_written_first(value);
    lemma_holds_at_byte(s, p, w, 0);
    match value {
        Json::Null => {
            assert(is_ascii_chars(json_text(value)));
            lemma_encode_ascii(json_text(value));
            assert(w =~= seq![110u8, 117u8, 108u8, 108u8]);
        },
        Json::Boolean(flag) => {
            assert(is_ascii_chars(json_text(value)));
            lemma_encode_ascii(json_text(value));
            if flag {
                assert(w =~= seq![116u8, 114u8, 117u8, 101u8]);
            } else {
                assert(w =~= seq![102u8, 97u8, 108u8, 115u8, 101u8]);
            }
        },
        Json::Number(digits) => {
            lemma_encode_ascii(digits);
            lemma_number(digits, s, p);
        },
        Json::Text(content) => {
            lemma_quoted(content, s, p);
        },
        Json::Array(items) => {
            let inner = items_text(items);
            lemma_encode_ascii_char('[');
            lemma_encode_ascii_char(']');
            lemma_encode_concat(seq!['['], inner);
            lemma_encode_concat(seq!['['] + inner, seq![']']);
            let bytes = encode_utf8(inner);
            assert(w =~= seq![91u8] + (bytes + seq![93u8]));
            lemma_holds_at_split(s, p, seq![91u8], bytes + seq![93u8]);
            if items.len() == 0 {
                assert(inner =~= Seq::<char>::empty());
                assert(bytes =~= Seq::<u8>::empty());
                lemma_holds_at_byte(s, p + 1, bytes + seq![93u8], 0);
                assert(items =~= Seq::<Json>::empty());
            } else {
                lemma_items_writable(items);
                assert(writable(items[0]));
                lemma_written_first(items[0]);
                if items.len() >= 2 {
                    lemma_items_text_first(items);
                }
                assert(inner[0] == json_text(items[0])[0]);
                lemma_first_byte(inner);
                lemma_first_byte(json_text(items[0]));
                lemma_holds_at_byte(s, p + 1, bytes + seq![93u8], 0);
                lemma_items(items, s, p + 1, Seq::empty());
                assert(Seq::<Json>::empty() + items =~= items);
            }
        },
        Json::Object(members) => {
            let inner = members_text(members);
            lemma_encode_ascii_char('{');
            lemma_encode_ascii_char('}');
            lemma_encode_concat(seq!['{'], inner);
            lemma_encode_concat(seq!['{'] + inner, seq!['}']);
            let bytes = encode_utf8(inner);
            assert(w =~= seq![123u8] + (bytes + seq![125u8]));
            lemma_holds_at_split(s, p, seq![123u8], bytes + seq![125u8]);
            if members.len() == 0 {
                assert(inner =~= Seq::<char>::empty());
                assert(bytes =~= Seq::<u8>::empty());
                lemma_holds_at_byte(s, p + 1, bytes + seq![125u8], 0);
                assert(members =~= Seq::<(Seq<char>, Json)>::empty());
            } else {
                if members.len() >= 2 {
                    lemma_members_text_first(members);
                }
                assert(inner[0] == '"');
                lemma_first_byte(inner);
                lemma_holds_at_byte(s, p + 1, bytes + seq![125u8], 0);
                lemma_members_writable(members);
                lemma_members(members, s, p + 1, Seq::empty());
                assert(Seq::<(Seq<char>, Json)>::empty() + members =~= members);
            }
        },
    }
}

/// The items of an array, then its closing bracket, read back as the items.
proof fn lemma_items(items: Seq<Json>, s: Seq<u8>, q: int, acc: Seq<Json>)
    requires
        items.len() >= 1,
        forall|i: int| 0 <= i < items.len() ==> #[trigger] writable(items[i]),
        holds_at(s, q, encode_utf8(items_text(items)) + seq![93u8]),
    ensures
        scan_array_items(s, q, acc) == Scan::Done(
            Json::Array(acc + items),
            q + encode_utf8(items_text(items)).len() + 1,
        ),
    decreases items,
{
    let first = items[0];
    let w0 = written(first);
    assert(writable(first));
    lemma_written_first(first);
    if items.len() == 1 {
        assert(items_text(items) == json_text(first));
        lemma_holds_at_split(s, q, w0, seq![93u8]);
        lemma_holds_at_byte(s, q + w0.len(), seq![93u8], 0);
        lemma_holds_at_byte(s, q, w0, 0);
        lemma_value(first, s, q);
        assert(acc + items =~= acc.push(first));
    } else {
        let rest = items.drop_first();
        lemma_items_text_first(items);
        lemma_encode_ascii_char(',');
        lemma_encode_concat(json_text(first), seq![',']);
        lemma_encode_concat(json_text(first) + seq![','], items_text(rest));
        let tail = encode_utf8(items_text(rest));
        assert(encode_utf8(items_text(items)) + seq![93u8] =~= w0 + (seq![44u8] + (tail + seq![
            93u8,
        ])));
        lemma_holds_at_split(s, q, w0, seq![44u8] + (tail + seq![93u8]));
        lemma_holds_at_split(s, q + w0.len(), seq![44u8], tail + seq![93u8]);
        lemma_holds_at_byte(s, q + w0.len(), seq![44u8], 0);
        lemma_holds_at_byte(s, q, w0, 0);
        lemma_value(first, s, q);
        assert forall|i: int| 0 <= i < rest.len() implies #[trigger] writable(rest[i]) by {
            assert(rest[i] == items[i + 1]);
        }
        lemma_items(rest, s, q + w0.len() + 1, acc.push(first));
        assert(acc.push(first) + rest =~= acc + items);
    }
}

/// The members of an object, then its closing brace, read back as the
/// members.
proof fn lemma_members(
    members: Seq<(Seq<char>, Json)>,
    s: Seq<u8>,
    q: int,
    acc: Seq<(Seq<char>, Json)>,
)
    requires
        members.len() >= 1,
        forall|i: int| 0 <= i < members.len() ==> #[trigger] writable(members[i].1),
        holds_at(s, q, encode_utf8(members_text(members)) + seq![125u8]),
    ensures
        scan_members(s, q, acc) == Scan::Done(
            Json::Object(acc + members),
            q + encode_utf8(members_text(members)).len() + 1,
        ),
    decreases members,
{
    let key = members[0].0;
    let item = members[0].1;
    let kq = encode_utf8(quoted(key));
    let wi = written(item);
    assert(writable(item));
    lemma_written_first(item);
    lemma_encode_ascii_char(':');
    lemma_encode_ascii_char(',');
    lemma_encode_concat(quoted(key), seq![':']);
    lemma_encode_concat(quoted(key) + seq![':'], json_text(item));
    let entry = quoted(key) + seq![':'] + json_text(item);
    assert(encode_utf8(entry) =~= kq + seq![58u8] + wi);
    let close: Seq<u8> = if members.len() == 1 {
        seq![125u8]
    } else {
        let rest = members.drop_first();
        lemma_members_text_first(members);
        lemma_encode_concat(entry, seq![',']);
        lemma_encode_concat(entry + seq![','], members_text(rest));
        seq![44u8] + (encode_utf8(members_text(rest)) + seq![125u8])
    };
    assert(encode_utf8(members_text(members)) + seq![125u8] =~= kq + (seq![58u8] + (wi + close)));
    lemma_holds_at_split(s, q, kq, seq![58u8] + (wi + close));
    lemma_holds_at_split(s, q + kq.len(), seq![58u8], wi + close);
    lemma_holds_at_split(s, q + kq.len() + 1, wi, close);
    lemma_holds_at_byte(s, q + kq.len(), seq![58u8], 0);
    lemma_holds_at_byte(s, q + kq.len() + 1 + wi.len(), close, 0);
    lemma_holds_at_byte(s, q + kq.len() + 1, wi, 0);
    lemma_quoted(key, s, q);
    lemma_holds_at_byte(s, q, kq, 0);
    lemma_value(item, s, q + kq.len() + 1);
    if members.len() == 1 {
        assert(acc + members =~= acc.push((key, item)));
    } else {
        let rest = members.drop_first();
        lemma_holds_at_split(s, q + kq.len() + 1 + wi.len(), seq![44u8], encode_utf8(members_text(rest)) + seq![125u8]);
        assert forall|i: int| 0 <= i < rest.len() implies #[trigger] writable(rest[i].1) by {
            assert(rest[i] == members[i + 1]);
        }
        lemma_members(rest, s, q + kq.len() + 1 + wi.len() + 1, acc.push((key, item)));
        assert(acc.push((key, item)) + rest =~= acc + members);
    }
}

/// Reading the bytes of the text that the writer gives for a document gives
/// back that document, when each of its numbers is spelled as one JSON
/// number.
pub proof fn law_written_documents_read_back(value: Json)
    requires
        writable(value),
    ensures
        spec_parse(written(value)) == Ok::<Json, (ParseFailure, int)>(value),
{
    let s = written(value);
    lemma_written_first(value);
    assert(s.subrange(0, s.len() as int) =~= s);
    lemma_value(value, s, 0);
}

proof fn lemma_all_digits_end(t: Seq<u8>, i: int)
    requires
        0 <= i <= t.len(),
        forall|j: int| i <= j < t.len() ==> is_digit_byte(#[trigger] t[j]),
    ensures
        digits_end(t, i) == t.len(),
    decreases t.len() - i,
{
    if i < t.len() {
        lemma_all_digits_end(t, i + 1);
    }
}

proof fn lemma_decimal_chars_digits(n: nat)
    ensures
        decimal_chars(n).len() >= 1,
        forall|i: int|
            0 <= i < decimal_chars(n).len() ==> '0' <= #[trigger] decimal_chars(n)[i] && decimal_chars(
                n,
            )[i] <= '9',
    decreases n,
{
    if n >= 10 {
        lemma_decimal_chars_digits(n / 10);
        let d = digit_char(n % 10);
        assert('0' <= d && d <= '9');
    } else {
        assert('0' <= digit_char(n) && digit_char(n) <= '9');
    }
}

/// The text that the library gives an integer is one JSON number.
pub proof fn lemma_integer_reads_whole(value: int)
    ensures
        number_reads_whole(integer_json_chars(value)),
{
    let chars = integer_json_chars(value);
    let magnitude = if value < 0 {
        printed_double(round_to_double((-value) as nat))
    } else {
        printed_double(round_to_double(value as nat))
    };
    let digits = decimal_chars(magnitude);
    lemma_decimal_chars_digits(magnitude);
    let a: int = if value < 0 {
        1
    } else {
        0
    };
    assert(chars.len() == digits.len() + a);
    assert forall|i: int| a <= i < chars.len() implies '0' <= #[trigger] chars[i] && chars[i] <= '9' by {
        assert(chars[i] == digits[i - a]);
    }
    assert(is_ascii_chars(chars));
    lemma_encode_ascii(chars);
    let t = encode_utf8(chars);
    assert forall|j: int| a <= j < t.len() implies is_digit_byte(#[trigger] t[j]) by {
        assert('0' <= chars[j] && chars[j] <= '9');
    }
    lemma_all_digits_end(t, a);
    assert(t.subrange(0, t.len() as int) =~= t);
    assert forall|i: int| 0 <= i < chars.len() implies (t[i] as char) == #[trigger] chars[i] by {
        if i >= a {
            assert('0' <= chars[i] && chars[i] <= '9');
        }
    }
    assert(ascii_chars(t) =~= chars);
}

} // verus!
