//! Character-level helpers: comparison, search, splitting, decimal numbers.
//!
//! Every function here is stated over the characters of its arguments
//! (`Seq<char>`), never over bytes.

use crate::error::UpnpError;
use vstd::prelude::*;
use vstd::string::*;
use vstd::utf8::*;

verus! {

/// The characters of `text`, in order.
pub fn chars_of(text: &str) -> (chars: Vec<char>)
    ensures
        chars@ == text@,
{
    let mut chars: Vec<char> = Vec::new();
    for c in it: text.chars()
        invariant
            it.seq() == text@,
            chars@ == it.seq().take(it.index() as int),
    {
        chars.push(c);
    }
    chars
}

/// Whether two strings hold the same characters.
pub fn text_eq(a: &str, b: &str) -> (equal: bool)
    ensures
        equal == (a@ == b@),
{
    let x = a.as_bytes();
    let y = b.as_bytes();
    proof {
        encode_utf8_decode_utf8(a@);
        encode_utf8_decode_utf8(b@);
    }
    if x.len() != y.len() {
        return false;
    }
    let mut i: usize = 0;
    while i < x.len()
        invariant
            i <= x@.len(),
            x@.len() == y@.len(),
            x@ == encode_utf8(a@),
            y@ == encode_utf8(b@),
            forall|k: int| 0 <= k < i ==> x@[k] == y@[k],
        decreases x@.len() - i,
    {
        if x[i] != y[i] {
            return false;
        }
        i += 1;
    }
    assert(x@ =~= y@);
    true
}

/// `pattern` stands in `text` at position `at`.
pub open spec fn occurs_at(text: Seq<char>, pattern: Seq<char>, at: int) -> bool {
    &&& 0 <= at
    &&& at + pattern.len() <= text.len()
    &&& text.subrange(at, at + pattern.len()) == pattern
}

/// `pattern` stands somewhere in `text`. The empty pattern stands in every
/// text.
pub open spec fn contains(text: Seq<char>, pattern: Seq<char>) -> bool {
    exists|at: int| occurs_at(text, pattern, at)
}

fn occurs_here(text: &Vec<char>, pattern: &Vec<char>, at: usize) -> (found: bool)
    requires
        at + pattern.len() <= text.len(),
    ensures
        found == occurs_at(text@, pattern@, at as int),
{
    let ghost window = text@.subrange(at as int, at + pattern.len());
    let mut k: usize = 0;
    while k < pattern.len()
        invariant
            k <= pattern.len(),
            at + pattern.len() <= text.len(),
            window == text@.subrange(at as int, at + pattern.len()),
            forall|j: int| 0 <= j < k ==> window[j] == pattern@[j],
        decreases pattern.len() - k,
    {
        if text[at + k] != pattern[k] {
            assert(window[k as int] != pattern@[k as int]);
            return false;
        }
        k += 1;
    }
    assert(window =~= pattern@);
    true
}

/// Whether `pattern` stands somewhere in `text`.
pub fn text_contains(text: &str, pattern: &str) -> (found: bool)
    ensures
        found == contains(text@, pattern@),
{
    let hay = chars_of(text);
    let needle = chars_of(pattern);
    if needle.len() > hay.len() {
        return false;
    }
    let mut at: usize = 0;
    while needle.len() <= hay.len() - at
        invariant
            at <= hay.len(),
            hay@ == text@,
            needle@ == pattern@,
            forall|k: int| 0 <= k < at ==> !occurs_at(hay@, needle@, k),
        decreases hay.len() - at,
    {
        if occurs_here(&hay, &needle, at) {
            return true;
        }
        assert(needle.len() > 0) by {
            if needle.len() == 0 {
                assert(hay@.subrange(at as int, at as int) =~= needle@);
            }
        }
        at += 1;
    }
    false
}

/// The position of the first `c` in `text`, or the length of `text` where it
/// holds none.
pub open spec fn index_of(text: Seq<char>, c: char) -> int
    decreases text.len(),
{
    if text.len() == 0 {
        0
    } else if text[0] == c {
        0
    } else {
        1 + index_of(text.drop_first(), c)
    }
}

/// `index_of` is the one position that no `c` precedes and that either holds
/// a `c` or ends the text.
pub proof fn lemma_index_of(text: Seq<char>, c: char, at: int)
    requires
        0 <= at <= text.len(),
        forall|k: int| 0 <= k < at ==> text[k] != c,
        at < text.len() ==> text[at] == c,
    ensures
        index_of(text, c) == at,
    decreases text.len(),
{
    if at > 0 {
        lemma_index_of(text.drop_first(), c, at - 1);
    }
}

/// The pieces of `text` between the occurrences of `separator`: one more
/// piece than there are separators, so the empty text has one empty piece.
pub open spec fn split(text: Seq<char>, separator: char) -> Seq<Seq<char>>
    decreases text.len(),
{
    let at = index_of(text, separator);
    if 0 <= at < text.len() {
        seq![text.take(at)] + split(text.skip(at + 1), separator)
    } else {
        seq![text]
    }
}

/// `pieces` with `separator` between each two of them.
pub open spec fn join(pieces: Seq<Seq<char>>, separator: char) -> Seq<char>
    decreases pieces.len(),
{
    if pieces.len() == 0 {
        Seq::empty()
    } else if pieces.len() == 1 {
        pieces[0]
    } else {
        pieces[0] + seq![separator] + join(pieces.drop_first(), separator)
    }
}

/// Splitting loses nothing: there is at least one piece, no piece holds the
/// separator, and the pieces with the separator between them are the text.
pub proof fn lemma_split_join(text: Seq<char>, separator: char)
    ensures
        split(text, separator).len() >= 1,
        forall|i: int, k: int|
            0 <= i < split(text, separator).len() && 0 <= k < split(text, separator)[i].len()
                ==> split(text, separator)[i][k] != separator,
        join(split(text, separator), separator) == text,
    decreases text.len(),
{
    let at = index_of(text, separator);
    lemma_index_of_is_first(text, separator);
    if 0 <= at < text.len() {
        let rest = text.skip(at + 1);
        lemma_split_join(rest, separator);
        let pieces = split(text, separator);
        let tail = split(rest, separator);
        assert(pieces =~= seq![text.take(at)] + tail);
        assert(pieces.drop_first() =~= tail);
        assert(pieces[0] + seq![separator] + rest =~= text);
        assert forall|i: int, k: int|
            0 <= i < pieces.len() && 0 <= k < pieces[i].len() implies pieces[i][k]
            != separator by {
            if i > 0 {
                assert(pieces[i] == tail[i - 1]);
            }
        }
    }
}

/// No `separator` stands before `index_of`, and one stands at it unless it
/// is the end of the text.
pub proof fn lemma_index_of_is_first(text: Seq<char>, c: char)
    ensures
        0 <= index_of(text, c) <= text.len(),
        forall|k: int| 0 <= k < index_of(text, c) ==> text[k] != c,
        index_of(text, c) < text.len() ==> text[index_of(text, c)] == c,
    decreases text.len(),
{
    if text.len() > 0 && text[0] != c {
        let tail = text.drop_first();
        lemma_index_of_is_first(tail, c);
        assert forall|k: int| 0 <= k < index_of(text, c) implies text[k] != c by {
            if k > 0 {
                assert(tail[k - 1] == text[k]);
            }
        }
    }
}

/// The empty text has one piece, which is empty.
pub proof fn lemma_split_empty(separator: char)
    ensures
        split(Seq::empty(), separator) == seq![Seq::<char>::empty()],
{
}

/// The pieces of `text` between the occurrences of `separator`.
pub fn split_text(text: &str, separator: char) -> (pieces: Vec<String>)
    ensures
        pieces.deep_view() == split(text@, separator),
{
    let chars = chars_of(text);
    let mut pieces: Vec<String> = Vec::new();
    let mut start: usize = 0;
    let mut i: usize = 0;
    assert(text@.skip(0) =~= text@);
    assert(pieces.deep_view() =~= Seq::<Seq<char>>::empty());
    while i < chars.len()
        invariant
            start <= i <= chars.len(),
            chars@ == text@,
            forall|k: int| start <= k < i ==> chars@[k] != separator,
            pieces.deep_view() + split(text@.skip(start as int), separator) == split(
                text@,
                separator,
            ),
        decreases chars.len() - i,
    {
        if chars[i] == separator {
            let ghost before = pieces.deep_view();
            let piece = text.substring_char(start, i).to_owned();
            pieces.push(piece);
            proof {
                let rest = text@.skip(start as int);
                lemma_index_of(rest, separator, i - start);
                assert(rest.take(i - start) =~= text@.subrange(start as int, i as int));
                assert(rest.skip(i - start + 1) =~= text@.skip(i + 1));
                assert(pieces.deep_view() =~= before.push(piece@));
                assert(before.push(piece@) + split(text@.skip(i + 1), separator) =~= before + (
                seq![piece@] + split(text@.skip(i + 1), separator)));
            }
            start = i + 1;
        }
        i += 1;
    }
    let ghost before = pieces.deep_view();
    let piece = text.substring_char(start, chars.len()).to_owned();
    pieces.push(piece);
    proof {
        let rest = text@.skip(start as int);
        lemma_index_of(rest, separator, rest.len() as int);
        assert(rest =~= text@.subrange(start as int, chars.len() as int));
        assert(pieces.deep_view() =~= before.push(piece@));
        assert(before.push(piece@) =~= before + seq![piece@]);
    }
    pieces
}

/// `text` with every `c` taken out.
pub open spec fn without(text: Seq<char>, c: char) -> Seq<char>
    decreases text.len(),
{
    if text.len() == 0 {
        text
    } else if text.last() == c {
        without(text.drop_last(), c)
    } else {
        without(text.drop_last(), c).push(text.last())
    }
}

/// The characters of `text` but for every `c`.
pub fn strip_char(text: &str, c: char) -> (kept: Vec<char>)
    ensures
        kept@ == without(text@, c),
{
    let chars = chars_of(text);
    let mut kept: Vec<char> = Vec::new();
    let mut i: usize = 0;
    while i < chars.len()
        invariant
            i <= chars.len(),
            chars@ == text@,
            kept@ == without(text@.take(i as int), c),
        decreases chars.len() - i,
    {
        assert(text@.take(i + 1).drop_last() =~= text@.take(i as int));
        if chars[i] != c {
            kept.push(chars[i]);
        }
        i += 1;
    }
    assert(text@.take(chars.len() as int) =~= text@);
    kept
}

/// `c` is one of the ten decimal digits.
pub open spec fn is_digit(c: char) -> bool {
    '0' <= c <= '9'
}

/// The number that the digit `c` stands for.
pub open spec fn digit_value(c: char) -> nat {
    (c as int - '0' as int) as nat
}

/// Every character of `text` is a decimal digit.
pub open spec fn all_digits(text: Seq<char>) -> bool {
    forall|i: int| 0 <= i < text.len() ==> is_digit(#[trigger] text[i])
}

/// The number that the digits of `text` write in base ten; 0 for the empty
/// text.
pub open spec fn digits_value(text: Seq<char>) -> nat
    decreases text.len(),
{
    if text.len() == 0 {
        0
    } else {
        digits_value(text.drop_last()) * 10 + digit_value(text.last())
    }
}

/// The unsigned number that `text` writes, where it writes one no larger than
/// `limit`: an optional `+`, then one or more decimal digits and nothing
/// else. Leading zeros are accepted; spaces and `-` are not.
pub open spec fn unsigned_decimal(text: Seq<char>, limit: nat) -> Option<nat> {
    let digits = if text.len() > 0 && text[0] == '+' {
        text.drop_first()
    } else {
        text
    };
    if digits.len() > 0 && all_digits(digits) && digits_value(digits) <= limit {
        Some(digits_value(digits))
    } else {
        None
    }
}

/// A number written with more digits is no smaller than the one its leading
/// digits write.
pub proof fn lemma_digits_value_grows(text: Seq<char>, n: int)
    requires
        0 <= n <= text.len(),
    ensures
        digits_value(text.take(n)) <= digits_value(text),
    decreases text.len() - n,
{
    if n == text.len() {
        assert(text.take(n) =~= text);
    } else {
        lemma_digits_value_grows(text, n + 1);
        assert(text.take(n + 1).drop_last() =~= text.take(n));
    }
}

/// The number that the digits `chars[from..to]` write, where every one of
/// them is a digit and the number is no larger than `limit`.
pub(crate) fn parse_digits(chars: &Vec<char>, from: usize, to: usize, limit: u64) -> (value: Option<u64>)
    requires
        from <= to <= chars.len(),
    ensures
        match value {
            Some(v) => {
                &&& all_digits(chars@.subrange(from as int, to as int))
                &&& v == digits_value(chars@.subrange(from as int, to as int))
                &&& v <= limit
            },
            None => !all_digits(chars@.subrange(from as int, to as int)) || digits_value(
                chars@.subrange(from as int, to as int),
            ) > limit,
        },
{
    let ghost digits = chars@.subrange(from as int, to as int);
    let mut value: u64 = 0;
    let mut i: usize = from;
    assert(digits.take(0) =~= Seq::<char>::empty());
    while i < to
        invariant
            from <= i <= to <= chars.len(),
            digits == chars@.subrange(from as int, to as int),
            all_digits(digits.take(i - from)),
            value == digits_value(digits.take(i - from)),
            value <= limit,
        decreases to - i,
    {
        let c = chars[i];
        assert(digits[i - from] == c);
        assert(digits.take(i - from + 1).drop_last() =~= digits.take(i - from));
        if c < '0' || c > '9' {
            assert(!is_digit(digits[i - from]));
            return None;
        }
        let d: u64 = (c as u32 - '0' as u32) as u64;
        if d > limit || value > (limit - d) / 10 {
            proof {
                lemma_digits_value_grows(digits, i - from + 1);
            }
            return None;
        }
        value = value * 10 + d;
        assert forall|k: int| 0 <= k < i - from + 1 implies is_digit(
            #[trigger] digits.take(i - from + 1)[k],
        ) by {
            if k < i - from {
                assert(digits.take(i - from)[k] == digits[k]);
            }
        }
        i += 1;
    }
    assert(digits.take(to - from) =~= digits);
    Some(value)
}

/// The unsigned number that `chars` write, as `unsigned_decimal` has it.
pub fn parse_unsigned_chars(chars: &Vec<char>, limit: u64) -> (value: Option<u64>)
    ensures
        match value {
            Some(v) => unsigned_decimal(chars@, limit as nat) == Some(v as nat),
            None => unsigned_decimal(chars@, limit as nat) is None,
        },
{
    let from: usize = if chars.len() > 0 && chars[0] == '+' {
        1
    } else {
        0
    };
    assert(chars@.subrange(from as int, chars.len() as int) =~= if from == 1 {
        chars@.drop_first()
    } else {
        chars@
    });
    if from == chars.len() {
        return None;
    }
    parse_digits(chars, from, chars.len(), limit)
}

/// The unsigned number that `text` writes, as `unsigned_decimal` has it.
pub fn parse_unsigned(text: &str, limit: u64) -> (value: Option<u64>)
    ensures
        match value {
            Some(v) => unsigned_decimal(text@, limit as nat) == Some(v as nat),
            None => unsigned_decimal(text@, limit as nat) is None,
        },
{
    let chars = chars_of(text);
    parse_unsigned_chars(&chars, limit)
}

/// The number that the last of `texts` writes, where every one of them
/// writes an unsigned number no larger than `limit`: `InvalidNumber` where
/// one does not, `None` for no text at all.
pub open spec fn last_number(texts: Seq<Seq<char>>, limit: nat) -> Result<Option<nat>, UpnpError> {
    if exists|i: int| 0 <= i < texts.len() && unsigned_decimal(#[trigger] texts[i], limit) is None {
        Err(UpnpError::InvalidNumber)
    } else if texts.len() == 0 {
        Ok(None)
    } else {
        Ok(unsigned_decimal(texts.last(), limit))
    }
}

/// The number that the last of `texts` writes, as `last_number` has it.
pub fn parse_last_number(texts: &Vec<String>, limit: u64) -> (number: Result<Option<u64>, UpnpError>)
    ensures
        match number {
            Ok(Some(v)) => last_number(texts.deep_view(), limit as nat) == Ok::<
                Option<nat>,
                UpnpError,
            >(Some(v as nat)),
            Ok(None) => last_number(texts.deep_view(), limit as nat) == Ok::<
                Option<nat>,
                UpnpError,
            >(None),
            Err(error) => last_number(texts.deep_view(), limit as nat) == Err::<
                Option<nat>,
                UpnpError,
            >(error),
        },
{
    let ghost all = texts.deep_view();
    let mut number: Option<u64> = None;
    let mut i: usize = 0;
    while i < texts.len()
        invariant
            i <= texts.len(),
            all == texts.deep_view(),
            forall|k: int| 0 <= k < i ==> unsigned_decimal(#[trigger] all[k], limit as nat) is Some,
            i == 0 ==> number is None,
            i > 0 ==> number is Some && unsigned_decimal(all[i - 1], limit as nat) == Some(
                number.unwrap() as nat,
            ),
        decreases texts.len() - i,
    {
        assert(all[i as int] == texts[i as int]@);
        match parse_unsigned(texts[i].as_str(), limit) {
            Some(v) => {
                number = Some(v);
            },
            None => {
                assert(unsigned_decimal(all[i as int], limit as nat) is None);
                return Err(UpnpError::InvalidNumber);
            },
        }
        i += 1;
    }
    Ok(number)
}

} // verus!
