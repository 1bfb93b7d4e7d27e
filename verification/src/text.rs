//! Text as sequences of characters: the searches and conversions that the probe log is read with.

use vstd::prelude::*;
use vstd::slice::slice_subrange;

verus! {

/// The index of the first occurrence of `pattern` in `text` at or after `start`.
pub open spec fn find_from(text: Seq<char>, pattern: Seq<char>, start: int) -> Option<int>
    decreases text.len() - start + 1,
{
    if start < 0 || start + pattern.len() > text.len() {
        None
    } else if text.subrange(start, start + pattern.len()) == pattern {
        Some(start)
    } else {
        find_from(text, pattern, start + 1)
    }
}

/// The index of the first occurrence of `pattern` in `text`.
pub open spec fn find(text: Seq<char>, pattern: Seq<char>) -> Option<int> {
    find_from(text, pattern, 0)
}

/// Whether `pattern` occurs anywhere in `text`.
pub open spec fn contains(text: Seq<char>, pattern: Seq<char>) -> bool {
    find(text, pattern) is Some
}

/// What stands before and after the first occurrence of `pattern` in `text`.
pub open spec fn split_once(text: Seq<char>, pattern: Seq<char>) -> Option<(Seq<char>, Seq<char>)> {
    match find(text, pattern) {
        Some(i) => Some((text.take(i), text.skip(i + pattern.len()))),
        None => None,
    }
}

/// The pieces of `text` between the occurrences of `separator`.
pub open spec fn split(text: Seq<char>, separator: char) -> Seq<Seq<char>>
    decreases text.len(),
{
    match split_once(text, seq![separator]) {
        Some((head, tail)) => if tail.len() < text.len() {
            seq![head] + split(tail, separator)
        } else {
            seq![text]
        },
        None => seq![text],
    }
}

/// The characters with the Unicode property `White_Space`.
pub open spec fn is_white_space(c: char) -> bool {
    let code = c as u32;
    ||| 0x09 <= code <= 0x0d
    ||| code == 0x20
    ||| code == 0x85
    ||| code == 0xa0
    ||| code == 0x1680
    ||| 0x2000 <= code <= 0x200a
    ||| code == 0x2028
    ||| code == 0x2029
    ||| code == 0x202f
    ||| code == 0x205f
    ||| code == 0x3000
}

/// `text` without its leading white space.
pub open spec fn trim_start(text: Seq<char>) -> Seq<char>
    decreases text.len(),
{
    if text.len() > 0 && is_white_space(text[0]) {
        trim_start(text.skip(1))
    } else {
        text
    }
}

/// `text` without one `suffix` at its end, if it has one there.
pub open spec fn without_suffix(text: Seq<char>, suffix: char) -> Seq<char> {
    if text.len() > 0 && text.last() == suffix {
        text.drop_last()
    } else {
        text
    }
}

/// Whether `c` is a decimal digit.
pub open spec fn is_digit(c: char) -> bool {
    '0' <= c <= '9'
}

/// The number that a sequence of decimal digits denotes.
pub open spec fn decimal_value(digits: Seq<char>) -> nat
    decreases digits.len(),
{
    if digits.len() == 0 {
        0
    } else {
        10 * decimal_value(digits.drop_last()) + (digits.last() as nat - '0' as nat) as nat
    }
}

/// The digits of a decimal number: its text without a leading plus sign.
pub open spec fn unsigned_digits(text: Seq<char>) -> Seq<char> {
    if text.len() > 0 && text[0] == '+' {
        text.skip(1)
    } else {
        text
    }
}

/// The unsigned 64-bit number that `text` denotes: an optional plus sign and one or more decimal
/// digits, whose value must fit.
pub open spec fn unsigned_number(text: Seq<char>) -> Option<u64> {
    let digits = unsigned_digits(text);
    if digits.len() > 0 && (forall|i: int| 0 <= i < digits.len() ==> is_digit(#[trigger] digits[i]))
        && decimal_value(digits) <= u64::MAX {
        Some(decimal_value(digits) as u64)
    } else {
        None
    }
}

/// Some pieces of text with a separator between each two.
pub open spec fn join(pieces: Seq<Seq<char>>, separator: char) -> Seq<char>
    decreases pieces.len(),
{
    if pieces.len() == 0 {
        Seq::empty()
    } else if pieces.len() == 1 {
        pieces[0]
    } else {
        pieces[0] + seq![separator] + join(pieces.skip(1), separator)
    }
}

/// Nothing is lost when text is split: the pieces with the separators between them are the text,
/// and none of them holds a separator.
pub proof fn law_split_keeps_text(text: Seq<char>, separator: char)
    ensures
        split(text, separator).len() > 0,
        join(split(text, separator), separator) == text,
        forall|i: int|
            0 <= i < split(text, separator).len() ==> !(#[trigger] split(
                text,
                separator,
            )[i]).contains(separator),
    decreases text.len(),
{
    let pattern = seq![separator];
    lemma_find_from(text, pattern, 0);
    let pieces = split(text, separator);
    match find(text, pattern) {
        Some(i) => {
            let (head, tail) = (text.take(i), text.skip(i + 1));
            law_split_keeps_text(tail, separator);
            assert(text[i] == separator) by {
                assert(text.subrange(i, i + 1)[0] == pattern[0]);
            }
            assert forall|j: int| 0 <= j < i implies #[trigger] text[j] != separator by {
                if text[j] == separator {
                    assert(text.subrange(j, j + 1) =~= pattern);
                }
            }
            assert(!head.contains(separator));
            assert(pieces == seq![head] + split(tail, separator));
            assert(pieces.skip(1) == split(tail, separator));
            assert(text =~= head + pattern + tail);
        },
        None => {
            assert forall|j: int| 0 <= j < text.len() implies #[trigger] text[j] != separator by {
                if text[j] == separator {
                    assert(text.subrange(j, j + 1) =~= pattern);
                }
            }
        },
    }
}

/// The first occurrence of a pattern is the one before which there is none.
pub proof fn lemma_find_is(text: Seq<char>, pattern: Seq<char>, i: int)
    requires
        0 <= i,
        i + pattern.len() <= text.len(),
        text.subrange(i, i + pattern.len()) == pattern,
        forall|j: int| 0 <= j < i ==> #[trigger] text.subrange(j, j + pattern.len()) != pattern,
    ensures
        find(text, pattern) == Some(i),
{
    lemma_find_from(text, pattern, 0);
}

/// Text is split at a character before which there is none like it.
pub proof fn lemma_split_at(head: Seq<char>, c: char, tail: Seq<char>)
    requires
        !head.contains(c),
    ensures
        split_once(head + seq![c] + tail, seq![c]) == Some((head, tail)),
{
    let text = head + seq![c] + tail;
    let n = head.len() as int;
    assert(text.subrange(n, n + 1) =~= seq![c]);
    assert forall|j: int| 0 <= j < n implies #[trigger] text.subrange(j, j + 1) != seq![c] by {
        assert(text.subrange(j, j + 1)[0] == head[j]);
        assert(seq![c][0] == c);
    }
    lemma_find_is(text, seq![c], n);
    assert(text.take(n) =~= head);
    assert(text.skip(n + 1) =~= tail);
}

/// Pieces that hold no separator are given back when their text is split.
pub proof fn law_joined_pieces_are_split(pieces: Seq<Seq<char>>, separator: char)
    requires
        pieces.len() > 0,
        forall|i: int| 0 <= i < pieces.len() ==> !(#[trigger] pieces[i]).contains(separator),
    ensures
        split(join(pieces, separator), separator) == pieces,
    decreases pieces.len(),
{
    let text = join(pieces, separator);
    let pattern = seq![separator];
    if pieces.len() == 1 {
        lemma_find_from(text, pattern, 0);
        if let Some(i) = find(text, pattern) {
            assert(text.subrange(i, i + 1)[0] == text[i]);
            assert(pattern[0] == separator);
            assert(pieces[0].contains(separator));
        }
        assert(pieces =~= seq![text]);
    } else {
        let rest = pieces.skip(1);
        assert(forall|i: int| 0 <= i < rest.len() ==> #[trigger] rest[i] == pieces[i + 1]);
        law_joined_pieces_are_split(rest, separator);
        lemma_split_at(pieces[0], separator, join(rest, separator));
        assert(pieces =~= seq![pieces[0]] + rest);
    }
}

/// Leading white space is trimmed from text that goes on with something else.
pub proof fn lemma_trim_start(lead: Seq<char>, text: Seq<char>)
    requires
        forall|i: int| 0 <= i < lead.len() ==> is_white_space(#[trigger] lead[i]),
        text.len() > 0 && !is_white_space(text[0]),
    ensures
        trim_start(lead + text) == text,
    decreases lead.len(),
{
    if lead.len() == 0 {
        assert(lead + text == text);
    } else {
        assert(is_white_space(lead[0]));
        assert((lead + text).skip(1) =~= lead.skip(1) + text);
        lemma_trim_start(lead.skip(1), text);
    }
}

/// What is found of a pattern is its first occurrence, and nothing is found only where there is none.
pub proof fn law_first_occurrence_is_found(text: Seq<char>, pattern: Seq<char>)
    ensures
        match find(text, pattern) {
            Some(i) => {
                &&& 0 <= i
                &&& i + pattern.len() <= text.len()
                &&& text.subrange(i, i + pattern.len()) == pattern
                &&& forall|j: int|
                    0 <= j < i ==> #[trigger] text.subrange(j, j + pattern.len()) != pattern
            },
            None => forall|j: int|
                0 <= j && j + pattern.len() <= text.len() ==> #[trigger] text.subrange(
                    j,
                    j + pattern.len(),
                ) != pattern,
        },
        contains(text, pattern) <==> exists|j: int|
            0 <= j && j + pattern.len() <= text.len() && #[trigger] text.subrange(
                j,
                j + pattern.len(),
            ) == pattern,
{
    lemma_find_from(text, pattern, 0);
}

/// Text is split once at the first occurrence of a pattern: the parts with the pattern between them
/// are the text, and the pattern does not begin anywhere before. It is not split only where the
/// pattern does not occur.
pub proof fn law_split_once_is_at_first_occurrence(text: Seq<char>, pattern: Seq<char>)
    ensures
        match split_once(text, pattern) {
            Some((head, tail)) => {
                &&& head + pattern + tail == text
                &&& forall|j: int|
                    0 <= j < head.len() ==> #[trigger] text.subrange(j, j + pattern.len())
                        != pattern
            },
            None => forall|j: int|
                0 <= j && j + pattern.len() <= text.len() ==> #[trigger] text.subrange(
                    j,
                    j + pattern.len(),
                ) != pattern,
        },
{
    lemma_find_from(text, pattern, 0);
    if let Some(i) = find(text, pattern) {
        assert(text.take(i) + pattern + text.skip(i + pattern.len()) =~= text);
    }
}

/// The first piece of text reaches to the first separator, and the others are the pieces of what
/// follows it. Text without a separator is one piece.
pub proof fn law_first_piece_ends_at_separator(head: Seq<char>, tail: Seq<char>, separator: char)
    requires
        !head.contains(separator),
    ensures
        split(head, separator) == seq![head],
        split(head + seq![separator] + tail, separator) == seq![head] + split(tail, separator),
{
    lemma_split_at(head, separator, tail);
    lemma_find_from(head, seq![separator], 0);
    if let Some(i) = find(head, seq![separator]) {
        assert(head.subrange(i, i + 1)[0] == head[i]);
        assert(seq![separator][0] == separator);
    }
}

/// The text of one more piece in front is that piece, a separator and the text of the others.
pub proof fn law_joined_text_begins_with_first_piece(
    piece: Seq<char>,
    pieces: Seq<Seq<char>>,
    separator: char,
)
    ensures
        join(seq![piece], separator) == piece,
        pieces.len() > 0 ==> join(seq![piece] + pieces, separator) == piece + seq![separator]
            + join(pieces, separator),
{
    if pieces.len() > 0 {
        assert((seq![piece] + pieces).skip(1) =~= pieces);
    }
}

/// Trimmed text is what is left behind the leading white space, and all of that is taken off.
pub proof fn law_trimmed_text_follows_white_space(text: Seq<char>)
    ensures
        trim_start(text).len() <= text.len(),
        trim_start(text) == text.skip(text.len() - trim_start(text).len()),
        forall|i: int|
            0 <= i < text.len() - trim_start(text).len() ==> is_white_space(#[trigger] text[i]),
        trim_start(text).len() > 0 ==> !is_white_space(trim_start(text)[0]),
    decreases text.len(),
{
    if text.len() > 0 && is_white_space(text[0]) {
        let rest = text.skip(1);
        law_trimmed_text_follows_white_space(rest);
        assert forall|i: int| 0 <= i < text.len() - trim_start(text).len() implies is_white_space(
            #[trigger] text[i],
        ) by {
            if i > 0 {
                assert(rest[i - 1] == text[i]);
            }
        }
    }
}

/// One suffix is taken off where there is one, and nothing else.
pub proof fn law_one_suffix_is_stripped(text: Seq<char>, suffix: char)
    ensures
        without_suffix(text.push(suffix), suffix) == text,
        text.len() == 0 || text.last() != suffix ==> without_suffix(text, suffix) == text,
{
    assert(text.push(suffix).drop_last() == text);
}

/// One more digit makes a number ten times as large, and adds the digit.
pub proof fn law_digits_have_decimal_weight(digits: Seq<char>, digit: char)
    requires
        '0' <= digit <= '9',
    ensures
        decimal_value(Seq::empty()) == 0,
        decimal_value(digits.push(digit)) == 10 * decimal_value(digits) + (digit as int
            - '0' as int),
{
    assert(digits.push(digit).drop_last() == digits);
}

/// Text is read as a number exactly where it is one or more decimal digits, behind at most one plus
/// sign, whose value fits: then the number is that value.
pub proof fn law_number_is_digits_behind_plus(digits: Seq<char>)
    requires
        digits.len() > 0 ==> digits[0] != '+',
    ensures
        ({
            let valid = digits.len() > 0 && (forall|i: int|
                0 <= i < digits.len() ==> '0' <= #[trigger] digits[i] <= '9') && decimal_value(
                digits,
            ) <= u64::MAX;
            let number = if valid {
                Some(decimal_value(digits) as u64)
            } else {
                None
            };
            &&& unsigned_number(digits) == number
            &&& unsigned_number(seq!['+'] + digits) == number
        }),
        unsigned_number(seq!['+', '+'] + digits) is None,
{
    assert((seq!['+'] + digits).skip(1) =~= digits);
    assert forall|i: int| 0 <= i < digits.len() implies is_digit(#[trigger] digits[i]) == ('0'
        <= digits[i] <= '9') by {}
    let doubled = seq!['+', '+'] + digits;
    assert(doubled.skip(1)[0] == '+');
    assert(!is_digit(doubled.skip(1)[0]));
}

/// The decimal digits of a number.
pub open spec fn decimal_of(number: nat) -> Seq<char>
    decreases number,
{
    let digit = ('0' as nat + number % 10) as char;
    if number < 10 {
        seq![digit]
    } else {
        decimal_of(number / 10).push(digit)
    }
}

/// A number is read back from its decimal digits.
pub proof fn law_number_is_read_back(number: u64)
    ensures
        unsigned_number(decimal_of(number as nat)) == Some(number),
{
    lemma_decimal_of(number as nat);
    let digits = decimal_of(number as nat);
    assert(is_digit(digits[0]));
    assert(unsigned_digits(digits) == digits);
}

/// The decimal digits of a number are digits, and denote it.
pub proof fn lemma_decimal_of(number: nat)
    ensures
        decimal_of(number).len() > 0,
        forall|i: int|
            0 <= i < decimal_of(number).len() ==> is_digit(#[trigger] decimal_of(number)[i]),
        decimal_value(decimal_of(number)) == number,
    decreases number,
{
    let digit = ('0' as nat + number % 10) as char;
    if number < 10 {
        reveal_with_fuel(decimal_value, 2);
        assert(seq![digit].drop_last() == Seq::<char>::empty());
    } else {
        lemma_decimal_of(number / 10);
        assert(decimal_of(number).drop_last() == decimal_of(number / 10));
    }
}

/// An occurrence that `find_from` reports is one, lies at or after `start`, and none lies between.
pub proof fn lemma_find_from(text: Seq<char>, pattern: Seq<char>, start: int)
    requires
        0 <= start,
    ensures
        match find_from(text, pattern, start) {
            Some(i) => {
                &&& start <= i
                &&& i + pattern.len() <= text.len()
                &&& text.subrange(i, i + pattern.len()) == pattern
                &&& forall|j: int|
                    start <= j < i ==> #[trigger] text.subrange(j, j + pattern.len()) != pattern
            },
            None => forall|j: int|
                start <= j && j + pattern.len() <= text.len() ==> #[trigger] text.subrange(
                    j,
                    j + pattern.len(),
                ) != pattern,
        },
    decreases text.len() - start + 1,
{
    if start + pattern.len() <= text.len() && text.subrange(start, start + pattern.len())
        != pattern {
        lemma_find_from(text, pattern, start + 1);
    }
}

/// Digits appended to a number only make it larger.
proof fn lemma_decimal_value_grows(digits: Seq<char>, n: int)
    requires
        0 <= n <= digits.len(),
        forall|i: int| 0 <= i < digits.len() ==> is_digit(#[trigger] digits[i]),
    ensures
        decimal_value(digits.take(n)) <= decimal_value(digits),
    decreases digits.len() - n,
{
    if n == digits.len() {
        assert(digits.take(n) == digits);
    } else {
        assert(digits.take(n + 1).drop_last() == digits.take(n));
        lemma_decimal_value_grows(digits, n + 1);
    }
}

/// The characters of `text`, one by one.
pub fn chars_of(text: &str) -> (chars: Vec<char>)
    ensures
        chars@ == text@,
{
    let mut chars: Vec<char> = Vec::new();
    for c in it: text.chars()
        invariant
            it.seq() == text@,
            chars@ == text@.take(it.index()),
    {
        chars.push(c);
        assert(text@.take(it.index() + 1) == text@.take(it.index()).push(c));
    }
    assert(text@.take(text@.len() as int) == text@);
    chars
}

/// Whether `text` and `other` hold the same characters.
pub fn same_chars(text: &[char], other: &[char]) -> (same: bool)
    ensures
        same == (text@ == other@),
{
    if text.len() != other.len() {
        return false;
    }
    let mut i: usize = 0;
    while i < text.len()
        invariant
            i <= text@.len() == other@.len(),
            text@.take(i as int) == other@.take(i as int),
        decreases text@.len() - i,
    {
        if text[i] != other[i] {
            assert(text@[i as int] != other@[i as int]);
            return false;
        }
        i = i + 1;
        assert(text@.take(i as int) == text@.take(i - 1).push(text@[i - 1]));
        assert(other@.take(i as int) == other@.take(i - 1).push(other@[i - 1]));
    }
    assert(text@.take(i as int) == text@);
    assert(other@.take(i as int) == other@);
    true
}

/// Finds the first occurrence of `pattern` in `text`.
pub fn find_chars(text: &[char], pattern: &[char]) -> (index: Option<usize>)
    ensures
        match index {
            Some(i) => find(text@, pattern@) == Some(i as int),
            None => find(text@, pattern@) is None,
        },
        index matches Some(i) ==> i + pattern@.len() <= text@.len(),
{
    if pattern.len() > text.len() {
        return None;
    }
    let last: usize = text.len() - pattern.len();
    let mut i: usize = 0;
    while i <= last
        invariant
            i <= last + 1,
            last + pattern@.len() == text@.len() <= usize::MAX,
            find(text@, pattern@) == find_from(text@, pattern@, i as int),
        decreases last + 1 - i,
    {
        if same_chars(slice_subrange(text, i, i + pattern.len()), pattern) {
            return Some(i);
        }
        if i == last {
            assert(find_from(text@, pattern@, i + 1) is None);
            return None;
        }
        i = i + 1;
    }
    None
}

/// Splits `text` at the first occurrence of `pattern`.
pub fn split_chars_once<'a>(text: &'a [char], pattern: &[char]) -> (parts: Option<
    (&'a [char], &'a [char]),
>)
    ensures
        match parts {
            Some((head, tail)) => split_once(text@, pattern@) == Some((head@, tail@)),
            None => split_once(text@, pattern@) is None,
        },
        parts matches Some((head, tail)) ==> head@ + pattern@ + tail@ == text@,
{
    let end: usize = text.len();
    match find_chars(text, pattern) {
        Some(i) => {
            let head = slice_subrange(text, 0, i);
            let tail = slice_subrange(text, i + pattern.len(), end);
            assert(head@ == text@.take(i as int));
            assert(tail@ == text@.skip(i + pattern@.len()));
            proof {
                lemma_find_from(text@, pattern@, 0);
                let middle = text@.subrange(i as int, i + pattern@.len());
                assert(head@ + middle + tail@ == text@);
            }
            Some((head, tail))
        },
        None => None,
    }
}

/// Splits `text` at every occurrence of `separator`.
pub fn split_chars<'a>(text: &'a [char], separator: char) -> (pieces: Vec<&'a [char]>)
    ensures
        pieces@.len() == split(text@, separator).len(),
        forall|i: int|
            0 <= i < pieces@.len() ==> (#[trigger] pieces@[i])@ == split(text@, separator)[i],
{
    let pattern: Vec<char> = vec![separator];
    assert(pattern@ == seq![separator]);
    let mut pieces: Vec<&'a [char]> = Vec::new();
    let mut rest: &'a [char] = text;
    assert(split(text@, separator) == Seq::<Seq<char>>::empty() + split(rest@, separator));
    let ghost mut done: Seq<Seq<char>> = Seq::empty();
    loop
        invariant
            pattern@ == seq![separator],
            split(text@, separator) == done + split(rest@, separator),
            pieces@.len() == done.len(),
            forall|i: int| 0 <= i < pieces@.len() ==> (#[trigger] pieces@[i])@ == done[i],
        decreases rest@.len(),
    {
        match split_chars_once(rest, pattern.as_slice()) {
            Some((head, tail)) => {
                proof {
                    lemma_find_from(rest@, pattern@, 0);
                    assert(split(rest@, separator) == seq![head@] + split(tail@, separator));
                    assert(done + (seq![head@] + split(tail@, separator)) == done.push(head@) + split(
                        tail@,
                        separator,
                    ));
                    done = done.push(head@);
                }
                pieces.push(head);
                rest = tail;
            },
            None => {
                assert(split(rest@, separator) == seq![rest@]);
                pieces.push(rest);
                return pieces;
            },
        }
    }
}

/// Whether `c` is white space.
pub fn is_white_space_char(c: char) -> (white: bool)
    ensures
        white == is_white_space(c),
{
    let code: u32 = c as u32;
    (0x09 <= code && code <= 0x0d) || code == 0x20 || code == 0x85 || code == 0xa0 || code == 0x1680
        || (0x2000 <= code && code <= 0x200a) || code == 0x2028 || code == 0x2029 || code == 0x202f
        || code == 0x205f || code == 0x3000
}

/// Drops the leading white space of `text`.
pub fn trim_chars_start<'a>(text: &'a [char]) -> (trimmed: &'a [char])
    ensures
        trimmed@ == trim_start(text@),
{
    let mut rest: &'a [char] = text;
    while rest.len() > 0 && is_white_space_char(rest[0])
        invariant
            trim_start(text@) == trim_start(rest@),
        decreases rest@.len(),
    {
        let next = slice_subrange(rest, 1, rest.len());
        assert(next@ == rest@.skip(1));
        rest = next;
    }
    rest
}

/// Drops one `suffix` from the end of `text`, if it ends with one.
pub fn strip_char_suffix<'a>(text: &'a [char], suffix: char) -> (stripped: &'a [char])
    ensures
        stripped@ == without_suffix(text@, suffix),
{
    if text.len() > 0 && text[text.len() - 1] == suffix {
        let shorter = slice_subrange(text, 0, text.len() - 1);
        assert(shorter@ == text@.drop_last());
        shorter
    } else {
        text
    }
}

/// Whether `text` begins with `prefix`.
pub fn begins_with(text: &[char], prefix: &[char]) -> (begins: bool)
    ensures
        begins == prefix@.is_prefix_of(text@),
{
    if prefix.len() > text.len() {
        return false;
    }
    same_chars(slice_subrange(text, 0, prefix.len()), prefix)
}

/// Reads `text` as an unsigned decimal number.
pub fn parse_number(text: &[char]) -> (number: Option<u64>)
    ensures
        number == unsigned_number(text@),
{
    let mut i: usize = 0;
    if text.len() > 0 && text[0] == '+' {
        i = 1;
    }
    let ghost first: int = i as int;
    let ghost digits = unsigned_digits(text@);
    if i == text.len() {
        return None;
    }
    let mut value: u64 = 0;
    while i < text.len()
        invariant
            first <= i <= text@.len(),
            first == text@.len() - digits.len(),
            digits.len() > 0,
            digits == unsigned_digits(text@),
            digits == text@.skip(first),
            forall|j: int| 0 <= j < i - first ==> is_digit(#[trigger] digits[j]),
            value == decimal_value(digits.take(i - first)),
        decreases text@.len() - i,
    {
        let c: char = text[i];
        assert(c == digits[i - first]);
        if !('0' <= c && c <= '9') {
            assert(!is_digit(digits[i - first]));
            return None;
        }
        let digit: u64 = (c as u64) - ('0' as u64);
        assert(digits.take(i - first + 1).drop_last() == digits.take(i - first));
        assert(decimal_value(digits.take(i - first + 1)) == 10 * value + digit);
        if value > u64::MAX / 10 || 10 * value > u64::MAX - digit {
            proof {
                if forall|j: int| 0 <= j < digits.len() ==> is_digit(#[trigger] digits[j]) {
                    lemma_decimal_value_grows(digits, i - first + 1);
                }
            }
            return None;
        }
        value = 10 * value + digit;
        i = i + 1;
    }
    assert(digits.take(i - first) == digits);
    Some(value)
}

} // verus!
