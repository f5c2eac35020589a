//! Character-level text helpers shared by the rest of the library.

use vstd::prelude::*;

verus! {

/// Appends one character to a string (`String::push`).
#[verifier::external_body]
pub(crate) fn push_char(text: &mut String, character: char)
    ensures
        final(text)@ == old(text)@.push(character),
{
    text.push(character);
}

/// Whether two strings hold the same characters.
pub fn text_equals(left: &str, right: &str) -> (equal: bool)
    ensures
        equal == (left@ == right@),
{
    let length = left.unicode_len();
    if length != right.unicode_len() {
        return false;
    }
    let mut index: usize = 0;
    while index < length
        invariant
            length == left@.len(),
            length == right@.len(),
            index <= length,
            forall|k: int| 0 <= k < index ==> left@[k] == right@[k],
        decreases length - index,
    {
        if left.get_char(index) != right.get_char(index) {
            return false;
        }
        index += 1;
    }
    assert(left@ =~= right@);
    true
}


/// Rust's `char::is_whitespace`: the Unicode `White_Space` property.
pub open spec fn is_white_space(c: char) -> bool {
    ||| ('\u{9}' <= c && c <= '\u{d}')
    ||| c == ' '
    ||| c == '\u{85}'
    ||| c == '\u{a0}'
    ||| c == '\u{1680}'
    ||| ('\u{2000}' <= c && c <= '\u{200a}')
    ||| c == '\u{2028}'
    ||| c == '\u{2029}'
    ||| c == '\u{202f}'
    ||| c == '\u{205f}'
    ||| c == '\u{3000}'
}

pub fn white_space(c: char) -> (result: bool)
    ensures
        result == is_white_space(c),
{
    ('\u{9}' <= c && c <= '\u{d}') || c == ' ' || c == '\u{85}' || c == '\u{a0}' || c
        == '\u{1680}' || ('\u{2000}' <= c && c <= '\u{200a}') || c == '\u{2028}' || c
        == '\u{2029}' || c == '\u{202f}' || c == '\u{205f}' || c == '\u{3000}'
}

/// The characters left after removing leading white space.
pub open spec fn trim_start(s: Seq<char>) -> Seq<char>
    decreases s.len(),
{
    if s.len() > 0 && is_white_space(s[0]) {
        trim_start(s.drop_first())
    } else {
        s
    }
}

/// The characters left after removing trailing white space.
pub open spec fn trim_end(s: Seq<char>) -> Seq<char>
    decreases s.len(),
{
    if s.len() > 0 && is_white_space(s.last()) {
        trim_end(s.drop_last())
    } else {
        s
    }
}

/// `str::trim`: leading and trailing white space removed.
pub open spec fn trim(s: Seq<char>) -> Seq<char> {
    trim_end(trim_start(s))
}

/// A text is blank when it holds only white space (`trim().is_empty()`).
pub open spec fn is_blank(s: Seq<char>) -> bool {
    forall|i: int| 0 <= i < s.len() ==> is_white_space(#[trigger] s[i])
}

pub proof fn lemma_trim_start_skip(s: Seq<char>, k: int)
    requires
        0 <= k <= s.len(),
        forall|i: int| 0 <= i < k ==> is_white_space(#[trigger] s[i]),
    ensures
        trim_start(s) == trim_start(s.subrange(k, s.len() as int)),
    decreases k,
{
    if k > 0 {
        assert(s.drop_first() =~= s.subrange(1, s.len() as int));
        lemma_trim_start_skip(s.drop_first(), k - 1);
        assert(s.drop_first().subrange(k - 1, s.drop_first().len() as int) =~= s.subrange(
            k,
            s.len() as int,
        ));
    } else {
        assert(s.subrange(0, s.len() as int) =~= s);
    }
}

pub proof fn lemma_trim_end_skip(s: Seq<char>, k: int)
    requires
        0 <= k <= s.len(),
        forall|i: int| k <= i < s.len() ==> is_white_space(#[trigger] s[i]),
    ensures
        trim_end(s) == trim_end(s.subrange(0, k)),
    decreases s.len() - k,
{
    if k < s.len() {
        assert(s.drop_last() =~= s.subrange(0, s.len() - 1));
        lemma_trim_end_skip(s.drop_last(), k);
        assert(s.drop_last().subrange(0, k) =~= s.subrange(0, k));
    } else {
        assert(s.subrange(0, k) =~= s);
    }
}

pub proof fn lemma_blank_trim(s: Seq<char>)
    ensures
        is_blank(s) <==> trim(s).len() == 0,
    decreases s.len(),
{
    if s.len() > 0 && is_white_space(s[0]) {
        lemma_blank_trim(s.drop_first());
        assert(is_blank(s) <==> is_blank(s.drop_first())) by {
            if is_blank(s.drop_first()) {
                assert forall|i: int| 0 <= i < s.len() implies is_white_space(#[trigger] s[i]) by {
                    if i > 0 {
                        assert(s[i] == s.drop_first()[i - 1]);
                    }
                }
            }
            if is_blank(s) {
                assert forall|i: int| 0 <= i < s.drop_first().len() implies is_white_space(
                    #[trigger] s.drop_first()[i],
                ) by {
                    assert(s.drop_first()[i] == s[i + 1]);
                }
            }
        }
    } else if s.len() > 0 {
        assert(!is_white_space(trim_start(s)[0]));
        lemma_trim_end_nonempty(s);
    }
}

proof fn lemma_trim_end_nonempty(s: Seq<char>)
    requires
        s.len() > 0,
        !is_white_space(s[0]),
    ensures
        trim_end(s).len() > 0,
    decreases s.len(),
{
    if is_white_space(s.last()) {
        assert(s.len() > 1);
        assert(s.drop_last()[0] == s[0]);
        lemma_trim_end_nonempty(s.drop_last());
    }
}

/// The text with leading and trailing white space removed (`str::trim`).
pub fn trimmed(text: &str) -> (result: String)
    ensures
        result@ == trim(text@),
{
    let length = text.unicode_len();
    let mut start: usize = 0;
    while start < length && white_space(text.get_char(start))
        invariant
            length == text@.len(),
            start <= length,
            forall|i: int| 0 <= i < start ==> is_white_space(#[trigger] text@[i]),
        decreases length - start,
    {
        start += 1;
    }
    let mut end: usize = length;
    while end > start && white_space(text.get_char(end - 1))
        invariant
            length == text@.len(),
            start <= end <= length,
            forall|i: int| end <= i < length ==> is_white_space(#[trigger] text@[i]),
        decreases end,
    {
        end -= 1;
    }
    proof {
        lemma_trim_start_skip(text@, start as int);
        let rest = text@.subrange(start as int, length as int);
        if start < length {
            assert(rest[0] == text@[start as int]);
            assert(!is_white_space(rest[0]));
        } else {
            assert(rest.len() == 0);
        }
        assert(trim_start(rest) == rest);
        assert forall|i: int| (end - start) <= i < rest.len() implies is_white_space(
            #[trigger] rest[i],
        ) by {
            assert(rest[i] == text@[start + i]);
        }
        lemma_trim_end_skip(rest, (end - start) as int);
        let kept = rest.subrange(0, (end - start) as int);
        if end > start {
            assert(kept.last() == text@[end - 1]);
        }
        assert(trim_end(kept) == kept);
        assert(kept =~= text@.subrange(start as int, end as int));
    }
    let mut result = String::new();
    let mut index: usize = start;
    while index < end
        invariant
            length == text@.len(),
            start <= index <= end <= length,
            result@ =~= text@.subrange(start as int, index as int),
        decreases end - index,
    {
        push_char(&mut result, text.get_char(index));
        index += 1;
    }
    result
}

/// Whether the text holds only white space (`text.trim().is_empty()`).
pub fn blank(text: &str) -> (result: bool)
    ensures
        result == is_blank(text@),
{
    let length = text.unicode_len();
    let mut index: usize = 0;
    while index < length
        invariant
            length == text@.len(),
            index <= length,
            forall|i: int| 0 <= i < index ==> is_white_space(#[trigger] text@[i]),
        decreases length - index,
    {
        if !white_space(text.get_char(index)) {
            return false;
        }
        index += 1;
    }
    true
}

/// A copy of the characters of a string slice.
pub fn to_owned_text(text: &str) -> (result: String)
    ensures
        result@ == text@,
{
    String::from_str(text)
}

/// Whether `prefix` is a prefix of `text` (`str::starts_with`).
pub fn starts_with(text: &str, prefix: &str) -> (result: bool)
    ensures
        result == (prefix@.len() <= text@.len() && text@.subrange(0, prefix@.len() as int)
            == prefix@),
{
    let length = prefix.unicode_len();
    if length > text.unicode_len() {
        return false;
    }
    let mut index: usize = 0;
    while index < length
        invariant
            length == prefix@.len(),
            length <= text@.len(),
            index <= length,
            forall|k: int| 0 <= k < index ==> text@[k] == prefix@[k],
        decreases length - index,
    {
        if text.get_char(index) != prefix.get_char(index) {
            assert(text@.subrange(0, length as int)[index as int] != prefix@[index as int]);
            return false;
        }
        index += 1;
    }
    assert(text@.subrange(0, length as int) =~= prefix@);
    true
}


/// `needle` occurs in `text` starting at `start`.
pub open spec fn occurs_at(text: Seq<char>, needle: Seq<char>, start: int) -> bool {
    &&& 0 <= start
    &&& start + needle.len() <= text.len()
    &&& text.subrange(start, start + needle.len()) == needle
}

pub open spec fn is_first_occurrence(text: Seq<char>, needle: Seq<char>, start: int) -> bool {
    &&& occurs_at(text, needle, start)
    &&& forall|earlier: int| 0 <= earlier < start ==> !occurs_at(text, needle, earlier)
}

/// Where `needle` first occurs in `text` (`str::find`); an empty needle
/// occurs at the start.
pub open spec fn first_occurrence(text: Seq<char>, needle: Seq<char>) -> Option<int> {
    if exists|start: int| is_first_occurrence(text, needle, start) {
        Some(choose|start: int| is_first_occurrence(text, needle, start))
    } else {
        None
    }
}

pub proof fn lemma_first_occurrence_unique(text: Seq<char>, needle: Seq<char>, start: int)
    requires
        is_first_occurrence(text, needle, start),
    ensures
        first_occurrence(text, needle) == Some(start),
{
    let chosen = choose|s: int| is_first_occurrence(text, needle, s);
    assert(is_first_occurrence(text, needle, chosen));
    if chosen < start {
        assert(!occurs_at(text, needle, chosen));
    }
    if start < chosen {
        assert(!occurs_at(text, needle, start));
    }
}

/// Where `needle` first occurs in `text`.
pub fn find_text(text: &str, needle: &str) -> (found: Option<usize>)
    ensures
        match first_occurrence(text@, needle@) {
            Some(start) => found == Some(start as usize),
            None => found is None,
        },
        found matches Some(start) ==> occurs_at(text@, needle@, start as int),
{
    let text_length = text.unicode_len();
    let needle_length = needle.unicode_len();
    if needle_length > text_length {
        assert forall|s: int| !is_first_occurrence(text@, needle@, s) by {}
        return None;
    }
    let last = text_length - needle_length;
    let mut start: usize = 0;
    while start <= last
        invariant
            last == text@.len() - needle@.len(),
            text_length == text@.len(),
            needle_length == needle@.len(),
            start <= last + 1,
            forall|earlier: int| 0 <= earlier < start ==> !occurs_at(text@, needle@, earlier),
        decreases last + 1 - start,
    {
        let mut offset: usize = 0;
        let mut same = true;
        while same && offset < needle_length
            invariant
                start <= last,
                last == text@.len() - needle@.len(),
                text_length == text@.len(),
                needle_length == needle@.len(),
                offset <= needle_length,
                same ==> forall|k: int| 0 <= k < offset ==> text@[start + k] == needle@[k],
                !same ==> exists|k: int| 0 <= k < needle@.len() && text@[start + k] != needle@[k],
            decreases needle_length - offset + (if same { 1int } else { 0int }),
        {
            if text.get_char(start + offset) != needle.get_char(offset) {
                same = false;
            } else {
                offset += 1;
            }
        }
        if same {
            assert(text@.subrange(start as int, start + needle@.len()) =~= needle@);
            proof {
                lemma_first_occurrence_unique(text@, needle@, start as int);
            }
            return Some(start);
        }
        proof {
            let k = choose|k: int| 0 <= k < needle@.len() && text@[start + k] != needle@[k];
            assert(text@.subrange(start as int, start + needle@.len())[k] != needle@[k]);
        }
        if start == last {
            proof {
                assert forall|s: int| !is_first_occurrence(text@, needle@, s) by {
                    if occurs_at(text@, needle@, s) {
                        assert(s <= last);
                    }
                }
            }
            return None;
        }
        start += 1;
    }
    proof {
        assert forall|s: int| !is_first_occurrence(text@, needle@, s) by {
            if occurs_at(text@, needle@, s) {
                assert(s <= last);
            }
        }
    }
    None
}

/// The characters of `text` from `from` to `to`.
pub fn slice_text(text: &str, from: usize, to: usize) -> (piece: String)
    requires
        from <= to <= text@.len(),
    ensures
        piece@ == text@.subrange(from as int, to as int),
{
    let mut piece = String::new();
    let mut i = from;
    while i < to
        invariant
            from <= i <= to <= text@.len(),
            piece@ == text@.subrange(from as int, i as int),
        decreases to - i,
    {
        push_char(&mut piece, text.get_char(i));
        assert(text@.subrange(from as int, i + 1) =~= text@.subrange(from as int, i as int).push(
            text@[i as int],
        ));
        i += 1;
    }
    piece
}

/// `str::split_once`: the text before and after the first occurrence of
/// `needle`.
pub open spec fn split_once(text: Seq<char>, needle: Seq<char>) -> Option<(Seq<char>, Seq<char>)> {
    match first_occurrence(text, needle) {
        Some(start) => Some(
            (text.subrange(0, start), text.subrange(start + needle.len(), text.len() as int)),
        ),
        None => None,
    }
}

/// The text before and after the first occurrence of `needle`.
pub fn split_text_once(text: &str, needle: &str) -> (parts: Option<(String, String)>)
    ensures
        match split_once(text@, needle@) {
            Some((before, after)) => parts matches Some((b, a)) && b@ == before && a@ == after,
            None => parts is None,
        },
{
    match find_text(text, needle) {
        Some(start) => {
            let needle_length = needle.unicode_len();
            let text_length = text.unicode_len();
            let before = slice_text(text, 0, start);
            let after = slice_text(text, start + needle_length, text_length);
            Some((before, after))
        },
        None => None,
    }
}

} // verus!
