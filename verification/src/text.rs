//! Text building blocks: decimal numbers, searching, trimming and joining.
//!
//! Contracts speak of a text as the sequence of its characters.

use vstd::prelude::*;
use vstd::slice::slice_subrange;

verus! {

/// `String::push` appends one character to the end of the string.
pub assume_specification[ String::push ](s: &mut String, c: char)
    ensures
        final(s)@ == old(s)@.push(c),
;

/// The characters of a text, in order.
pub fn characters(text: &str) -> (chars: Vec<char>)
    ensures
        chars@ == text@,
{
    let mut chars: Vec<char> = Vec::new();
    for c in it: text.chars()
        invariant
            it.seq() == text@,
            chars@ == text@.take(it.index()),
    {
        chars.push(c);
    }
    chars
}

/// A text made of the given characters.
pub fn from_characters(chars: &[char]) -> (text: String)
    ensures
        text@ == chars@,
{
    let mut text: String = String::new();
    let mut i: usize = 0;
    while i < chars.len()
        invariant
            i <= chars@.len(),
            text@ == chars@.take(i as int),
        decreases chars@.len() - i,
    {
        text.push(chars[i]);
        i = i + 1;
    }
    assert(chars@.take(i as int) =~= chars@);
    text
}

/// A copy of the characters from `from` up to, but not including, `to`.
pub fn slice_text(chars: &[char], from: usize, to: usize) -> (text: String)
    requires
        from <= to <= chars@.len(),
    ensures
        text@ == chars@.subrange(from as int, to as int),
{
    from_characters(slice_subrange(chars, from, to))
}

/// Whether two texts hold the same characters.
pub fn same_text(left: &str, right: &str) -> (same: bool)
    ensures
        same == (left@ == right@),
{
    let (a, b) = (characters(left), characters(right));
    if a.len() != b.len() {
        return false;
    }
    let mut i: usize = 0;
    while i < a.len()
        invariant
            i <= a@.len(),
            a@ == left@,
            b@ == right@,
            a@.len() == b@.len(),
            forall|j: int| 0 <= j < i ==> a@[j] == b@[j],
        decreases a@.len() - i,
    {
        if a[i] != b[i] {
            return false;
        }
        i = i + 1;
    }
    assert(left@ =~= right@);
    true
}

// ---------------------------------------------------------------------------------------
// Decimal numbers
// ---------------------------------------------------------------------------------------

/// The character that writes one decimal digit.
pub open spec fn digit(n: nat) -> char {
    ('0' as nat + n) as char
}

/// The decimal digits of a number, without leading zeros.
pub open spec fn decimal(n: nat) -> Seq<char>
    decreases n,
{
    if n < 10 {
        seq![digit(n)]
    } else {
        decimal(n / 10).push(digit(n % 10))
    }
}

/// A number in decimal is written with digits alone.
pub proof fn decimals_are_digits(n: nat)
    ensures
        decimal(n).len() > 0,
        forall|i: int| 0 <= i < decimal(n).len() ==> '0' <= #[trigger] decimal(n)[i] <= '9',
    decreases n,
{
    if n >= 10 {
        decimals_are_digits(n / 10);
    }
}

/// A number of either sign in decimal, with a leading `-` below zero.
pub open spec fn signed_decimal(n: int) -> Seq<char> {
    if n < 0 {
        seq!['-'] + decimal((-n) as nat)
    } else {
        decimal(n as nat)
    }
}

/// A number in decimal, padded with zeros on the left to at least two digits.
pub open spec fn two_digits(n: nat) -> Seq<char> {
    if n < 10 {
        seq!['0', digit(n)]
    } else {
        decimal(n)
    }
}

/// The character that writes one decimal digit.
fn digit_char(n: u64) -> (c: char)
    requires
        n < 10,
    ensures
        c == digit(n as nat),
{
    (48u8 + n as u8) as char
}

/// Append a number of any size to a text, in decimal.
pub fn push_wide(out: &mut String, n: u128)
    ensures
        final(out)@ == old(out)@ + decimal(n as nat),
    decreases n,
{
    if n >= 10 {
        push_wide(out, n / 10);
    }
    out.push(digit_char((n % 10) as u64));
}

/// Append a number to a text, in decimal.
pub fn push_number(out: &mut String, n: u64)
    ensures
        final(out)@ == old(out)@ + decimal(n as nat),
{
    push_wide(out, n as u128);
}

/// Append a number of either sign to a text, in decimal.
pub fn push_signed(out: &mut String, n: i64)
    ensures
        final(out)@ == old(out)@ + signed_decimal(n as int),
{
    if n < 0 {
        out.push('-');
        let magnitude: u64 = if n == i64::MIN {
            9_223_372_036_854_775_808
        } else {
            (-n) as u64
        };
        push_number(out, magnitude);
    } else {
        push_number(out, n as u64);
    }
}

/// Append a number to a text, padded to at least two digits.
pub fn push_two_digits(out: &mut String, n: u64)
    ensures
        final(out)@ == old(out)@ + two_digits(n as nat),
{
    if n < 10 {
        out.push('0');
    }
    push_number(out, n);
}

// ---------------------------------------------------------------------------------------
// Searching
// ---------------------------------------------------------------------------------------

/// Whether `needle` stands in `text` with its first character at `at`.
pub open spec fn matches_at(text: Seq<char>, needle: Seq<char>, at: int) -> bool {
    &&& 0 <= at
    &&& at + needle.len() <= text.len()
    &&& text.subrange(at, at + needle.len()) == needle
}

/// Whether `needle` stands anywhere in `text`.
pub open spec fn contains_text(text: Seq<char>, needle: Seq<char>) -> bool {
    exists|at: int| matches_at(text, needle, at)
}

/// Whether `needle` stands in `text` at `at`.
pub fn is_match_at(text: &[char], needle: &[char], at: usize) -> (found: bool)
    requires
        at <= text@.len(),
    ensures
        found == matches_at(text@, needle@, at as int),
{
    if needle.len() > text.len() - at {
        return false;
    }
    let length: usize = text.len();
    let mut i: usize = 0;
    while i < needle.len()
        invariant
            i <= needle@.len(),
            length == text@.len(),
            at + needle@.len() <= length,
            forall|j: int| 0 <= j < i ==> text@[at + j] == needle@[j],
        decreases needle@.len() - i,
    {
        if text[at + i] != needle[i] {
            proof {
                let there = text@.subrange(at as int, at + needle@.len());
                assert(there[i as int] == text@[at + i]);
            }
            return false;
        }
        i = i + 1;
    }
    assert(text@.subrange(at as int, at + needle@.len()) =~= needle@);
    true
}

/// Where `needle` first stands in `text`.
pub fn find(text: &[char], needle: &[char]) -> (found: Option<usize>)
    ensures
        match found {
            Some(at) => matches_at(text@, needle@, at as int) && forall|earlier: int|
                earlier < at ==> !matches_at(text@, needle@, earlier),
            None => !contains_text(text@, needle@),
        },
{
    let mut at: usize = 0;
    while at < text.len()
        invariant
            at <= text@.len(),
            forall|earlier: int| earlier < at ==> !matches_at(text@, needle@, earlier),
        decreases text@.len() - at,
    {
        if is_match_at(text, needle, at) {
            return Some(at);
        }
        at = at + 1;
    }
    if is_match_at(text, needle, at) {
        Some(at)
    } else {
        None
    }
}

// ---------------------------------------------------------------------------------------
// Trimming and replacing
// ---------------------------------------------------------------------------------------

/// The characters with the Unicode property White_Space.
pub open spec fn is_white_space(c: char) -> bool {
    let code = c as u32;
    ||| 0x9 <= code <= 0xD
    ||| code == 0x20
    ||| code == 0x85
    ||| code == 0xA0
    ||| code == 0x1680
    ||| 0x2000 <= code <= 0x200A
    ||| code == 0x2028
    ||| code == 0x2029
    ||| code == 0x202F
    ||| code == 0x205F
    ||| code == 0x3000
}

/// Whether a character is Unicode white space.
pub fn white_space(c: char) -> (yes: bool)
    ensures
        yes == is_white_space(c),
{
    let code: u32 = c as u32;
    (0x9 <= code && code <= 0xD) || code == 0x20 || code == 0x85 || code == 0xA0 || code == 0x1680
        || (0x2000 <= code && code <= 0x200A) || code == 0x2028 || code == 0x2029 || code == 0x202F
        || code == 0x205F || code == 0x3000
}

/// A text without the white space it starts with.
pub open spec fn trimmed_start(text: Seq<char>) -> Seq<char>
    decreases text.len(),
{
    if text.len() > 0 && is_white_space(text[0]) {
        trimmed_start(text.skip(1))
    } else {
        text
    }
}

/// A text without the white space it ends with.
pub open spec fn trimmed_end(text: Seq<char>) -> Seq<char>
    decreases text.len(),
{
    if text.len() > 0 && is_white_space(text.last()) {
        trimmed_end(text.drop_last())
    } else {
        text
    }
}

/// A text without white space at either end.
pub open spec fn trimmed(text: Seq<char>) -> Seq<char> {
    trimmed_end(trimmed_start(text))
}

/// Remove white space from both ends.
pub fn trim(text: &str) -> (result: String)
    ensures
        result@ == trimmed(text@),
{
    let chars: Vec<char> = characters(text);
    let mut from: usize = 0;
    proof {
        assert(text@.skip(0) =~= text@);
    }
    while from < chars.len() && white_space(chars[from])
        invariant
            from <= chars@.len(),
            chars@ == text@,
            trimmed_start(text@) == trimmed_start(chars@.skip(from as int)),
        decreases chars@.len() - from,
    {
        proof {
            assert(chars@.skip(from as int).skip(1) =~= chars@.skip(from + 1));
        }
        from = from + 1;
    }
    let ghost kept = chars@.skip(from as int);
    let mut to: usize = chars.len();
    proof {
        assert(kept =~= chars@.subrange(from as int, to as int));
    }
    while to > from && white_space(chars[to - 1])
        invariant
            from <= to <= chars@.len(),
            trimmed_end(kept) == trimmed_end(chars@.subrange(from as int, to as int)),
        decreases to,
    {
        proof {
            let now = chars@.subrange(from as int, to as int);
            assert(now.drop_last() =~= chars@.subrange(from as int, to - 1));
        }
        to = to - 1;
    }
    slice_text(chars.as_slice(), from, to)
}

/// A text without any `c` at its end.
pub open spec fn without_trailing(text: Seq<char>, c: char) -> Seq<char>
    decreases text.len(),
{
    if text.len() > 0 && text.last() == c {
        without_trailing(text.drop_last(), c)
    } else {
        text
    }
}

/// Remove every `c` from the end of a text.
pub fn trim_trailing(text: &str, c: char) -> (result: String)
    ensures
        result@ == without_trailing(text@, c),
{
    let chars: Vec<char> = characters(text);
    let mut to: usize = chars.len();
    proof {
        assert(chars@.take(to as int) =~= text@);
    }
    while to > 0 && chars[to - 1] == c
        invariant
            to <= chars@.len(),
            without_trailing(text@, c) == without_trailing(chars@.take(to as int), c),
        decreases to,
    {
        proof {
            assert(chars@.take(to as int).drop_last() =~= chars@.take(to - 1));
        }
        to = to - 1;
    }
    proof {
        assert(chars@.take(to as int) =~= chars@.subrange(0, to as int));
    }
    slice_text(chars.as_slice(), 0, to)
}

/// A text without any number of copies of `prefix` at its start.
pub open spec fn without_leading(text: Seq<char>, prefix: Seq<char>) -> Seq<char>
    decreases text.len(),
{
    if prefix.len() > 0 && matches_at(text, prefix, 0) {
        without_leading(text.skip(prefix.len() as int), prefix)
    } else {
        text
    }
}

/// Remove every copy of `prefix` from the start of a text.
pub fn trim_leading(text: &str, prefix: &str) -> (result: String)
    ensures
        result@ == without_leading(text@, prefix@),
{
    let chars: Vec<char> = characters(text);
    let leading: Vec<char> = characters(prefix);
    let length: usize = chars.len();
    let mut from: usize = 0;
    proof {
        assert(chars@.skip(0) =~= text@);
    }
    if leading.len() > 0 {
        while is_match_at(chars.as_slice(), leading.as_slice(), from)
            invariant
                from <= length,
                length == chars@.len(),
                leading@ == prefix@,
                leading@.len() > 0,
                without_leading(text@, prefix@) == without_leading(
                    chars@.skip(from as int),
                    prefix@,
                ),
            decreases chars@.len() - from,
        {
            proof {
                let rest = chars@.skip(from as int);
                assert(rest.subrange(0, prefix@.len() as int) =~= chars@.subrange(
                    from as int,
                    from + prefix@.len(),
                ));
                assert(matches_at(rest, prefix@, 0));
                assert(rest.skip(prefix@.len() as int) =~= chars@.skip(from + prefix@.len()));
            }
            from = from + leading.len();
        }
        proof {
            let rest = chars@.skip(from as int);
            if matches_at(rest, prefix@, 0) {
                assert(rest.subrange(0, prefix@.len() as int) =~= chars@.subrange(
                    from as int,
                    from + prefix@.len(),
                ));
            }
        }
    }
    proof {
        assert(chars@.skip(from as int) =~= chars@.subrange(from as int, chars@.len() as int));
    }
    slice_text(chars.as_slice(), from, chars.len())
}

/// One character, with `from` exchanged for `to`.
pub open spec fn exchanged(c: char, from: char, to: char) -> char {
    if c == from {
        to
    } else {
        c
    }
}

/// A text with every `from` exchanged for `to`.
pub open spec fn with_replaced(text: Seq<char>, from: char, to: char) -> Seq<char> {
    text.map_values(|c: char| exchanged(c, from, to))
}

/// Exchange every `from` in a text for `to`.
pub fn replace_char(text: &str, from: char, to: char) -> (result: String)
    ensures
        result@ == with_replaced(text@, from, to),
{
    let chars: Vec<char> = characters(text);
    let mut result: String = String::new();
    let mut i: usize = 0;
    while i < chars.len()
        invariant
            i <= chars@.len(),
            chars@ == text@,
            result@ == with_replaced(text@.take(i as int), from, to),
        decreases chars@.len() - i,
    {
        let c: char = chars[i];
        result.push(
            if c == from {
                to
            } else {
                c
            },
        );
        i = i + 1;
        proof {
            assert(result@ =~= with_replaced(text@.take(i as int), from, to));
        }
    }
    proof {
        assert(text@.take(i as int) =~= text@);
    }
    result
}

/// A text without any `c` in it.
pub open spec fn without(text: Seq<char>, c: char) -> Seq<char> {
    text.filter(|other: char| other != c)
}

/// Remove every `c` from a text.
pub fn remove_char(text: &str, c: char) -> (result: String)
    ensures
        result@ == without(text@, c),
{
    let chars: Vec<char> = characters(text);
    let mut result: String = String::new();
    let mut i: usize = 0;
    proof {
        reveal(Seq::filter);
    }
    while i < chars.len()
        invariant
            i <= chars@.len(),
            chars@ == text@,
            result@ == without(text@.take(i as int), c),
        decreases chars@.len() - i,
    {
        proof {
            reveal(Seq::filter);
            assert(text@.take(i + 1).drop_last() =~= text@.take(i as int));
        }
        if chars[i] != c {
            result.push(chars[i]);
        }
        i = i + 1;
    }
    proof {
        assert(text@.take(i as int) =~= text@);
    }
    result
}

// ---------------------------------------------------------------------------------------
// Joining
// ---------------------------------------------------------------------------------------

/// The texts of a list, one after the other, with `separator` between neighbours.
pub open spec fn joined(parts: Seq<String>, separator: Seq<char>) -> Seq<char>
    decreases parts.len(),
{
    if parts.len() == 0 {
        Seq::empty()
    } else if parts.len() == 1 {
        parts[0]@
    } else {
        joined(parts.drop_last(), separator) + separator + parts.last()@
    }
}

/// Join texts with a separator between neighbours.
pub fn join(parts: &[String], separator: &str) -> (text: String)
    ensures
        text@ == joined(parts@, separator@),
{
    let mut text: String = String::new();
    let mut i: usize = 0;
    while i < parts.len()
        invariant
            i <= parts@.len(),
            text@ == joined(parts@.take(i as int), separator@),
        decreases parts@.len() - i,
    {
        proof {
            assert(parts@.take(i + 1).drop_last() =~= parts@.take(i as int));
        }
        if i > 0 {
            text.append(separator);
        }
        text.append(parts[i].as_str());
        i = i + 1;
    }
    proof {
        assert(parts@.take(i as int) =~= parts@);
    }
    text
}

// ---------------------------------------------------------------------------------------
// Case, quoting and padding
// ---------------------------------------------------------------------------------------

/// A character with an ASCII capital turned into the small letter.
pub open spec fn lower_char(c: char) -> char {
    if 'A' <= c <= 'Z' {
        (c as u32 + 32) as char
    } else {
        c
    }
}

/// A text with every ASCII capital turned into the small letter.
pub open spec fn lowered(text: Seq<char>) -> Seq<char> {
    text.map_values(|c: char| lower_char(c))
}

/// Turn the ASCII capitals of a text into small letters.
pub fn to_lower(text: &str) -> (result: String)
    ensures
        result@ == lowered(text@),
{
    let chars: Vec<char> = characters(text);
    let mut result: String = String::new();
    let mut i: usize = 0;
    while i < chars.len()
        invariant
            i <= chars@.len(),
            chars@ == text@,
            result@ == lowered(text@.take(i as int)),
        decreases chars@.len() - i,
    {
        let c: char = chars[i];
        if 'A' <= c && c <= 'Z' {
            result.push((c as u8 + 32) as char);
        } else {
            result.push(c);
        }
        i = i + 1;
        proof {
            assert(result@ =~= lowered(text@.take(i as int)));
        }
    }
    proof {
        assert(text@.take(i as int) =~= text@);
    }
    result
}

/// How many bytes a text takes in UTF-8.
pub open spec fn byte_length(text: Seq<char>) -> nat {
    vstd::utf8::encode_utf8(text).len()
}

/// How many bytes a text takes in UTF-8.
pub fn byte_len(text: &str) -> (length: usize)
    ensures
        length == byte_length(text@),
{
    text.as_bytes().len()
}

/// A text in double quotes, with what cannot be shown plainly written as an escape.
pub uninterp spec fn quoted(text: Seq<char>) -> Seq<char>;

/// Whether a character is printable ASCII other than the double quote and the backslash.
pub open spec fn is_plain(c: char) -> bool {
    ' ' <= c <= '~' && c != '"' && c != '\\'
}

/// The `Debug` rendering of a `str`: the text in double quotes, with quotes, backslashes and
/// unprintable characters escaped. Printable ASCII needs no escape.
#[verifier::external_body]
pub(crate) fn quote(text: &str) -> (out: String)
    ensures
        out@ == quoted(text@),
        (forall|i: int| 0 <= i < text@.len() ==> is_plain(#[trigger] text@[i])) ==> out@ == seq![
            '"',
        ] + text@ + seq!['"'],
{
    format!("{text:?}")
}

/// As many spaces as are missing from `length` to `width`.
pub open spec fn padding(length: int, width: int) -> Seq<char>
    decreases width - length,
{
    if length >= width {
        Seq::empty()
    } else {
        padding(length + 1, width).push(' ')
    }
}

/// Append as many spaces as are missing from `length` to `width`.
fn push_padding(out: &mut String, length: usize, width: usize)
    ensures
        final(out)@ == old(out)@ + padding(length as int, width as int),
    decreases width - length,
{
    if length < width {
        push_padding(out, length + 1, width);
        out.push(' ');
    }
}

/// Append a text, filled up with spaces on the right to `width` characters.
pub fn push_left_aligned(out: &mut String, text: &str, width: usize)
    ensures
        final(out)@ == old(out)@ + text@ + padding(text@.len() as int, width as int),
{
    let chars: Vec<char> = characters(text);
    out.append(text);
    push_padding(out, chars.len(), width);
}

/// Append a text, filled up with spaces on the left to `width` characters.
pub fn push_right_aligned(out: &mut String, text: &str, width: usize)
    ensures
        final(out)@ == old(out)@ + padding(text@.len() as int, width as int) + text@,
{
    let chars: Vec<char> = characters(text);
    push_padding(out, chars.len(), width);
    out.append(text);
}

/// Whether a text ends with another.
pub open spec fn has_suffix(text: Seq<char>, suffix: Seq<char>) -> bool {
    suffix.len() <= text.len() && text.skip(text.len() - suffix.len()) == suffix
}

/// Whether a text ends with another.
pub fn ends_with(text: &str, suffix: &str) -> (yes: bool)
    ensures
        yes == has_suffix(text@, suffix@),
{
    let chars: Vec<char> = characters(text);
    let tail: Vec<char> = characters(suffix);
    if tail.len() > chars.len() {
        return false;
    }
    let at: usize = chars.len() - tail.len();
    proof {
        assert(chars@.subrange(at as int, at + tail@.len()) =~= chars@.skip(at as int));
    }
    is_match_at(chars.as_slice(), tail.as_slice(), at)
}

// ---------------------------------------------------------------------------------------
// Splitting
// ---------------------------------------------------------------------------------------

/// The parts of a text between separators. A text without a separator is one part.
pub open spec fn split(text: Seq<char>, separators: Seq<char>) -> Seq<Seq<char>>
    decreases text.len(),
{
    if text.len() == 0 {
        seq![Seq::empty()]
    } else {
        let before = split(text.drop_last(), separators);
        if separators.contains(text.last()) {
            before.push(Seq::empty())
        } else {
            before.drop_last().push(before.last().push(text.last()))
        }
    }
}

/// Splitting always gives at least one part.
pub proof fn split_is_never_empty(text: Seq<char>, separators: Seq<char>)
    ensures
        split(text, separators).len() > 0,
    decreases text.len(),
{
    if text.len() > 0 {
        split_is_never_empty(text.drop_last(), separators);
    }
}

/// Whether a character is one of those listed.
fn is_listed(c: char, list: &[char]) -> (yes: bool)
    ensures
        yes == list@.contains(c),
{
    let mut i: usize = 0;
    while i < list.len()
        invariant
            i <= list@.len(),
            forall|k: int| 0 <= k < i ==> list@[k] != c,
        decreases list@.len() - i,
    {
        if list[i] == c {
            return true;
        }
        i = i + 1;
    }
    false
}

/// The parts of a text between separators.
pub fn split_text(text: &str, separators: &[char]) -> (parts: Vec<String>)
    ensures
        parts@.len() == split(text@, separators@).len(),
        forall|i: int| 0 <= i < parts@.len() ==> #[trigger] parts@[i]@ == split(text@, separators@)[i],
{
    let chars: Vec<char> = characters(text);
    let mut done: Vec<String> = Vec::new();
    let mut part: String = String::new();
    let mut i: usize = 0;
    while i < chars.len()
        invariant
            i <= chars@.len(),
            chars@ == text@,
            split(text@.take(i as int), separators@).len() == done@.len() + 1,
            split(text@.take(i as int), separators@).last() == part@,
            forall|k: int|
                0 <= k < done@.len() ==> #[trigger] done@[k]@ == split(
                    text@.take(i as int),
                    separators@,
                )[k],
        decreases chars@.len() - i,
    {
        proof {
            assert(text@.take(i + 1).drop_last() =~= text@.take(i as int));
        }
        let c: char = chars[i];
        if is_listed(c, separators) {
            done.push(part);
            part = String::new();
        } else {
            part.push(c);
        }
        i = i + 1;
    }
    proof {
        assert(text@.take(i as int) =~= text@);
    }
    done.push(part);
    done
}

// ---------------------------------------------------------------------------------------
// What the texts say
// ---------------------------------------------------------------------------------------

/// The number that decimal digits stand for, read from the left.
pub open spec fn read_as(digits: Seq<char>) -> int
    decreases digits.len(),
{
    if digits.len() == 0 {
        0
    } else {
        10 * read_as(digits.drop_last()) + (digits.last() as int - '0' as int)
    }
}

/// A number in decimal reads as that number, and only zero starts with a zero.
pub proof fn decimals_read_back(n: nat)
    ensures
        read_as(decimal(n)) == n,
        decimal(n).len() > 0,
        decimal(n)[0] == '0' ==> n == 0,
        n < 10 <==> decimal(n).len() == 1,
        n < 100 <==> decimal(n).len() <= 2,
        n < 1_000 <==> decimal(n).len() <= 3,
        n < 10_000 <==> decimal(n).len() <= 4,
    decreases n,
{
    reveal_with_fuel(read_as, 2);
    if n < 10 {
        assert(decimal(n).drop_last() =~= Seq::<char>::empty());
    } else {
        decimals_read_back(n / 10);
        assert(decimal(n).drop_last() =~= decimal(n / 10));
        assert(decimal(n)[0] == decimal(n / 10)[0]);
    }
}

/// A zero in front of digits changes nothing of what they stand for.
pub proof fn leading_zeros_count_for_nothing(digits: Seq<char>)
    ensures
        read_as(seq!['0'] + digits) == read_as(digits),
    decreases digits.len(),
{
    let more = seq!['0'] + digits;
    if digits.len() == 0 {
        reveal_with_fuel(read_as, 2);
        assert(more.drop_last() =~= Seq::<char>::empty());
    } else {
        leading_zeros_count_for_nothing(digits.drop_last());
        assert(more.drop_last() =~= seq!['0'] + digits.drop_last());
        assert(more.last() == digits.last());
    }
}

/// A number below zero is told by its sign, and what follows the sign reads as its size.
pub proof fn signed_numbers_read_back(n: int)
    ensures
        n >= 0 ==> read_as(signed_decimal(n)) == n,
        n < 0 ==> signed_decimal(n)[0] == '-' && read_as(signed_decimal(n).skip(1)) == -n,
        signed_decimal(n)[0] == '-' <==> n < 0,
{
    if n < 0 {
        decimals_read_back((-n) as nat);
        assert(signed_decimal(n).skip(1) =~= decimal((-n) as nat));
    } else {
        decimals_read_back(n as nat);
        decimals_are_digits(n as nat);
    }
}

/// Two digits are two digits, and read as the number they stand for.
pub proof fn two_digits_read_back(n: nat)
    requires
        n < 100,
    ensures
        two_digits(n).len() == 2,
        read_as(two_digits(n)) == n,
{
    decimals_read_back(n);
    if n < 10 {
        leading_zeros_count_for_nothing(decimal(n));
        assert(two_digits(n) =~= seq!['0'] + decimal(n));
    }
}

/// How much of a text is cut off in front when white space is trimmed there.
proof fn cut_in_front(text: Seq<char>) -> (from: int)
    ensures
        0 <= from <= text.len(),
        trimmed_start(text) == text.skip(from),
        forall|i: int| 0 <= i < from ==> is_white_space(#[trigger] text[i]),
        from < text.len() ==> !is_white_space(text[from]),
    decreases text.len(),
{
    if text.len() > 0 && is_white_space(text[0]) {
        let rest = text.skip(1);
        let from = cut_in_front(rest) + 1;
        assert(rest.skip(from - 1) =~= text.skip(from));
        assert forall|i: int| 0 <= i < from implies is_white_space(#[trigger] text[i]) by {
            if i > 0 {
                assert(text[i] == rest[i - 1]);
            }
        }
        if from < text.len() {
            assert(text[from] == rest[from - 1]);
        }
        from
    } else {
        assert(text.skip(0) =~= text);
        0
    }
}

/// How much of a text is left when white space is trimmed at its end.
proof fn left_at_the_end(text: Seq<char>) -> (to: int)
    ensures
        0 <= to <= text.len(),
        trimmed_end(text) == text.take(to),
        forall|i: int| to <= i < text.len() ==> is_white_space(#[trigger] text[i]),
        to > 0 ==> !is_white_space(text[to - 1]),
    decreases text.len(),
{
    if text.len() > 0 && is_white_space(text.last()) {
        let rest = text.drop_last();
        let to = left_at_the_end(rest);
        assert(rest.take(to) =~= text.take(to));
        assert forall|i: int| to <= i < text.len() implies is_white_space(#[trigger] text[i]) by {
            if i < rest.len() {
                assert(text[i] == rest[i]);
            }
        }
        if to > 0 {
            assert(text[to - 1] == rest[to - 1]);
        }
        to
    } else {
        assert(text.take(text.len() as int) =~= text);
        text.len() as int
    }
}

/// Trimming takes white space off both ends and nothing else: what is left stands in the text
/// in one piece, everything around it is white space, and neither of its ends is.
pub proof fn trimming_takes_white_space_off_the_ends(text: Seq<char>) -> (cut: (int, int))
    ensures
        0 <= cut.0 <= cut.1 <= text.len(),
        trimmed(text) == text.subrange(cut.0, cut.1),
        forall|i: int|
            0 <= i < cut.0 || cut.1 <= i < text.len() ==> is_white_space(#[trigger] text[i]),
        cut.0 < cut.1 ==> !is_white_space(text[cut.0]) && !is_white_space(text[cut.1 - 1]),
{
    let from = cut_in_front(text);
    let rest = text.skip(from);
    let to = left_at_the_end(rest);
    assert(rest.take(to) =~= text.subrange(from, from + to));
    assert forall|i: int|
        0 <= i < from || from + to <= i < text.len() implies is_white_space(#[trigger] text[i]) by {
        if i >= from {
            assert(text[i] == rest[i - from]);
        }
    }
    if to > 0 {
        assert(text[from] == rest[0]);
        assert(text[from + to - 1] == rest[to - 1]);
    }
    (from, from + to)
}

/// What is trimmed stays as it is when it is trimmed again.
pub proof fn trimming_twice_is_trimming_once(text: Seq<char>)
    ensures
        trimmed(trimmed(text)) == trimmed(text),
{
    let cut = trimming_takes_white_space_off_the_ends(text);
    let once = trimmed(text);
    if once.len() > 0 {
        assert(once[0] == text[cut.0]);
        assert(once.last() == text[cut.1 - 1]);
    }
}

/// A text without the character it ends with ends with another one, and only that character
/// was taken off.
pub proof fn only_what_trails_is_taken_off(text: Seq<char>, c: char) -> (to: int)
    ensures
        0 <= to <= text.len(),
        without_trailing(text, c) == text.take(to),
        forall|i: int| to <= i < text.len() ==> #[trigger] text[i] == c,
        to > 0 ==> text[to - 1] != c,
    decreases text.len(),
{
    if text.len() > 0 && text.last() == c {
        let rest = text.drop_last();
        let to = only_what_trails_is_taken_off(rest, c);
        assert(rest.take(to) =~= text.take(to));
        assert forall|i: int| to <= i < text.len() implies #[trigger] text[i] == c by {
            if i < rest.len() {
                assert(text[i] == rest[i]);
            }
        }
        if to > 0 {
            assert(text[to - 1] == rest[to - 1]);
        }
        to
    } else {
        assert(text.take(text.len() as int) =~= text);
        text.len() as int
    }
}

/// A text without what it starts with no longer starts with it, and ends as it did.
pub proof fn what_leads_is_taken_off(text: Seq<char>, prefix: Seq<char>)
    requires
        prefix.len() > 0,
    ensures
        !matches_at(without_leading(text, prefix), prefix, 0),
        has_suffix(text, without_leading(text, prefix)),
        without_leading(prefix + text, prefix) == without_leading(text, prefix),
    decreases text.len(),
{
    let more = prefix + text;
    assert(more.subrange(0, prefix.len() as int) =~= prefix);
    assert(more.skip(prefix.len() as int) =~= text);
    if matches_at(text, prefix, 0) {
        let rest = text.skip(prefix.len() as int);
        what_leads_is_taken_off(rest, prefix);
        let left = without_leading(rest, prefix);
        assert(rest.skip(rest.len() - left.len()) =~= text.skip(text.len() - left.len()));
    } else {
        assert(text.skip(0) =~= text);
    }
}

/// One text stands in another exactly where all of its characters do.
pub proof fn matches_are_character_by_character(text: Seq<char>, needle: Seq<char>, at: int)
    ensures
        matches_at(text, needle, at) <==> 0 <= at && at + needle.len() <= text.len() && forall|i: int|
            0 <= i < needle.len() ==> text[at + i] == #[trigger] needle[i],
{
    if 0 <= at && at + needle.len() <= text.len() {
        let there = text.subrange(at, at + needle.len());
        if forall|i: int| 0 <= i < needle.len() ==> text[at + i] == #[trigger] needle[i] {
            assert(there =~= needle);
        }
        if there == needle {
            assert forall|i: int| 0 <= i < needle.len() implies text[at + i]
                == #[trigger] needle[i] by {
                assert(there[i] == text[at + i]);
            }
        }
    }
}

/// A text that was put together from three parts contains the one in the middle, and ends
/// with the last.
pub proof fn parts_are_contained(before: Seq<char>, middle: Seq<char>, after: Seq<char>)
    ensures
        contains_text(before + middle + after, middle),
        has_suffix(before + middle + after, after),
{
    let text = before + middle + after;
    let at = before.len() as int;
    assert(text.subrange(at, at + middle.len()) =~= middle);
    assert(matches_at(text, middle, at));
    assert(text.skip(text.len() - after.len()) =~= after);
}

/// What ends with a suffix is something in front of it, and the suffix.
pub proof fn suffixes_stand_at_the_end(text: Seq<char>, suffix: Seq<char>)
    requires
        has_suffix(text, suffix),
    ensures
        text == text.take(text.len() - suffix.len()) + suffix,
{
    let at = text.len() - suffix.len();
    assert(text =~= text.take(at) + text.skip(at));
}

/// Exchanging a character leaves none of it, changes no other and keeps every place.
pub proof fn exchanging_changes_one_character(text: Seq<char>, from: char, to: char, i: int)
    requires
        0 <= i < text.len(),
    ensures
        with_replaced(text, from, to).len() == text.len(),
        with_replaced(text, from, to)[i] == if text[i] == from {
            to
        } else {
            text[i]
        },
{
}

/// Only capitals change in a text turned to small letters, each into its own small letter, and
/// two texts that differ in case alone turn into one.
pub proof fn only_capitals_change(text: Seq<char>, i: int)
    requires
        0 <= i < text.len(),
    ensures
        lowered(text).len() == text.len(),
        'A' <= text[i] <= 'Z' ==> lowered(text)[i] as int - 'a' as int == text[i] as int
            - 'A' as int,
        !('A' <= text[i] <= 'Z') ==> lowered(text)[i] == text[i],
        lowered(lowered(text)) == lowered(text),
{
    assert(lowered(lowered(text)) =~= lowered(text));
}

/// Texts are joined in order, with the separator between neighbours and nowhere else.
pub proof fn separators_stand_between_neighbours(
    parts: Seq<String>,
    more: String,
    separator: Seq<char>,
)
    ensures
        joined(Seq::empty(), separator) == Seq::<char>::empty(),
        joined(seq![more], separator) == more@,
        parts.len() > 0 ==> joined(parts.push(more), separator) == joined(parts, separator)
            + separator + more@,
{
    assert(parts.push(more).drop_last() =~= parts);
}

/// Padding is spaces, as many as are missing.
pub proof fn padding_is_what_is_missing(length: int, width: int)
    ensures
        length <= width ==> padding(length, width).len() == width - length,
        length >= width ==> padding(length, width).len() == 0,
        forall|i: int|
            0 <= i < padding(length, width).len() ==> #[trigger] padding(length, width)[i] == ' ',
    decreases width - length,
{
    if length < width {
        padding_is_what_is_missing(length + 1, width);
    }
}

/// A text without separators is one word.
pub proof fn words_hold_no_separators(text: Seq<char>, separators: Seq<char>)
    requires
        forall|i: int| 0 <= i < text.len() ==> !separators.contains(#[trigger] text[i]),
    ensures
        split(text, separators) == seq![text],
    decreases text.len(),
{
    if text.len() > 0 {
        let rest = text.drop_last();
        assert forall|i: int| 0 <= i < rest.len() implies !separators.contains(
            #[trigger] rest[i],
        ) by {
            assert(rest[i] == text[i]);
        }
        words_hold_no_separators(rest, separators);
        assert(text[text.len() - 1] == text.last());
        assert(rest.push(text.last()) =~= text);
        assert(split(text, separators) =~= seq![text]);
    } else {
        assert(text =~= Seq::empty());
    }
}

/// A text falls apart at every separator: its words are those in front of the separator and
/// those behind it.
pub proof fn texts_fall_apart_at_separators(text: Seq<char>, separators: Seq<char>, at: int)
    requires
        0 <= at < text.len(),
        separators.contains(text[at]),
    ensures
        split(text, separators) == split(text.take(at), separators) + split(
            text.skip(at + 1),
            separators,
        ),
    decreases text.len(),
{
    let before = text.take(at);
    let after = text.skip(at + 1);
    split_is_never_empty(before, separators);
    split_is_never_empty(after, separators);
    if at == text.len() - 1 {
        assert(text.drop_last() =~= before);
        assert(after =~= Seq::empty());
        assert(split(text, separators) =~= split(before, separators) + split(after, separators));
    } else {
        let rest = text.drop_last();
        texts_fall_apart_at_separators(rest, separators, at);
        assert(rest.take(at) =~= before);
        assert(rest.skip(at + 1) =~= after.drop_last());
        assert(after.last() == text.last());
        split_is_never_empty(after.drop_last(), separators);
        assert(split(text, separators) =~= split(before, separators) + split(after, separators));
    }
}

/// What a text contains it still contains with more text around it.
pub proof fn more_text_takes_nothing_away(
    before: Seq<char>,
    text: Seq<char>,
    after: Seq<char>,
    needle: Seq<char>,
)
    requires
        contains_text(text, needle),
    ensures
        contains_text(before + text + after, needle),
{
    let at = choose|at: int| matches_at(text, needle, at);
    let longer = before + text + after;
    let there = before.len() + at;
    assert(longer.subrange(there, there + needle.len()) =~= text.subrange(
        at,
        at + needle.len(),
    ));
    assert(matches_at(longer, needle, there));
}

/// Letters, digits and marks are no white space; a space, a tab and the ends of lines are.
pub proof fn white_space_is_blank(c: char)
    ensures
        '!' <= c <= '~' ==> !is_white_space(c),
        c == ' ' || c == '\t' || c == '\n' || c == '\r' ==> is_white_space(c),
        is_white_space(c) && c <= '~' ==> c == ' ' || '\t' <= c <= '\r',
        c as u32 == 0x85 || c as u32 == 0xA0 || c as u32 == 0x3000 ==> is_white_space(c),
{
}

} // verus!
