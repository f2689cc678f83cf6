//! Turning an analysis into a self-contained HTML page.

use vstd::prelude::*;

use crate::text;

pub mod color;
pub mod html;
pub mod layout;
pub mod payback;
pub mod svg;

verus! {

// ---------------------------------------------------------------------------------------
// Escaping
// ---------------------------------------------------------------------------------------

/// What a character is written as in markup.
pub open spec fn entity(c: char) -> Seq<char> {
    if c == '&' {
        "&amp;"@
    } else if c == '<' {
        "&lt;"@
    } else if c == '>' {
        "&gt;"@
    } else if c == '"' {
        "&quot;"@
    } else if c == '\'' {
        "&#39;"@
    } else {
        seq![c]
    }
}

/// A text as it is written in markup.
pub open spec fn escaped(text: Seq<char>) -> Seq<char>
    decreases text.len(),
{
    if text.len() == 0 {
        Seq::empty()
    } else {
        escaped(text.drop_last()) + entity(text.last())
    }
}

/// Escape text for inclusion in HTML or SVG markup.
pub fn escape(text: &str) -> (result: String)
    ensures
        result@ == escaped(text@),
{
    let mut result: String = String::new();
    let chars: Vec<char> = text::characters(text);
    let mut i: usize = 0;
    while i < chars.len()
        invariant
            i <= chars@.len(),
            chars@ == text@,
            result@ == escaped(text@.take(i as int)),
        decreases chars@.len() - i,
    {
        proof {
            assert(text@.take(i + 1).drop_last() =~= text@.take(i as int));
        }
        let c: char = chars[i];
        if c == '&' {
            result.append("&amp;");
        } else if c == '<' {
            result.append("&lt;");
        } else if c == '>' {
            result.append("&gt;");
        } else if c == '"' {
            result.append("&quot;");
        } else if c == '\'' {
            result.append("&#39;");
        } else {
            let ghost before = result@;
            result.push(c);
            assert(result@ =~= before + seq![c]);
        }
        i = i + 1;
    }
    proof {
        assert(text@.take(i as int) =~= text@);
    }
    result
}

/// The characters that could open or close a tag or an attribute.
pub open spec fn is_markup(c: char) -> bool {
    c == '<' || c == '>' || c == '"' || c == '\''
}

/// An escaped text cannot open or close a tag or an attribute, whatever was in it.
pub proof fn escaped_text_holds_no_markup(text: Seq<char>, i: int)
    requires
        0 <= i < escaped(text).len(),
    ensures
        !is_markup(escaped(text)[i]),
    decreases text.len(),
{
    let before = escaped(text.drop_last());
    if i < before.len() {
        escaped_text_holds_no_markup(text.drop_last(), i);
    } else {
        reveal_strlit("&amp;");
        reveal_strlit("&lt;");
        reveal_strlit("&gt;");
        reveal_strlit("&quot;");
        reveal_strlit("&#39;");
        assert(escaped(text)[i] == entity(text.last())[i - before.len()]);
    }
}

/// Text without any character to escape is left as it is.
pub proof fn plain_text_is_not_escaped(text: Seq<char>)
    requires
        forall|i: int| 0 <= i < text.len() ==> !is_markup(#[trigger] text[i]) && text[i] != '&',
    ensures
        escaped(text) == text,
    decreases text.len(),
{
    if text.len() > 0 {
        assert forall|i: int| 0 <= i < text.drop_last().len() implies !is_markup(
            #[trigger] text.drop_last()[i],
        ) && text.drop_last()[i] != '&' by {
            assert(text.drop_last()[i] == text[i]);
        }
        plain_text_is_not_escaped(text.drop_last());
        assert(text[text.len() - 1] == text.last());
        assert(escaped(text) =~= text);
    } else {
        assert(escaped(text) =~= text);
    }
}

// ---------------------------------------------------------------------------------------
// Numbers
// ---------------------------------------------------------------------------------------

/// A formatted number without the zeros that end its decimals, and without the point where
/// none are left.
pub open spec fn without_zeros(number: Seq<char>) -> Seq<char> {
    if number.contains('.') {
        text::without_trailing(text::without_trailing(number, '0'), '.')
    } else {
        number
    }
}

/// Drop the zeros that end a formatted number's decimals.
pub fn trim_zeros(number: &str) -> (result: String)
    ensures
        result@ == without_zeros(number@),
{
    let chars: Vec<char> = text::characters(number);
    let mut i: usize = 0;
    while i < chars.len()
        invariant
            i <= chars@.len(),
            chars@ == number@,
            forall|k: int| 0 <= k < i ==> chars@[k] != '.',
        decreases chars@.len() - i,
    {
        if chars[i] == '.' {
            assert(number@[i as int] == '.');
            return text::trim_trailing(text::trim_trailing(number, '0').as_str(), '.');
        }
        i = i + 1;
    }
    String::from_str(number)
}

/// Where the first point stands, or the end of a text without one.
pub open spec fn point_at(number: Seq<char>) -> nat
    decreases number.len(),
{
    if number.len() == 0 || number[0] == '.' {
        0
    } else {
        1 + point_at(number.skip(1))
    }
}

/// The first `count` digits of an integer with a comma wherever a multiple of three bytes
/// is left to its end.
pub open spec fn grouped(integer: Seq<char>, count: nat) -> Seq<char>
    decreases count,
{
    if count == 0 {
        Seq::empty()
    } else {
        let index = count - 1;
        let before = grouped(integer, index as nat);
        if index > 0 && (text::byte_length(integer) - index) % 3 == 0 {
            before.push(',').push(integer[index])
        } else {
            before.push(integer[index])
        }
    }
}

/// A formatted number with its integer part grouped in threes.
pub open spec fn with_groups(number: Seq<char>) -> Seq<char> {
    let negative = number.len() > 0 && number[0] == '-';
    let digits = if negative {
        number.skip(1)
    } else {
        number
    };
    let point = point_at(digits) as int;
    let integer = digits.take(point);
    let sign = if negative {
        "-"@
    } else {
        ""@
    };
    if point + 1 < digits.len() {
        sign + grouped(integer, integer.len()) + "."@ + digits.skip(point + 1)
    } else {
        sign + grouped(integer, integer.len())
    }
}

/// A text has at least as many bytes as characters.
proof fn bytes_cover_characters(text: Seq<char>)
    ensures
        text::byte_length(text) >= text.len(),
    decreases text.len(),
{
    reveal_with_fuel(vstd::utf8::encode_utf8, 2);
    if text.len() > 0 {
        bytes_cover_characters(text.drop_first());
    }
}

fn group_digits(integer: &str) -> (result: String)
    ensures
        result@ == grouped(integer@, integer@.len()),
{
    let chars: Vec<char> = text::characters(integer);
    let length: usize = text::byte_len(integer);
    proof {
        bytes_cover_characters(integer@);
    }
    let mut result: String = String::new();
    let mut i: usize = 0;
    while i < chars.len()
        invariant
            i <= chars@.len(),
            chars@ == integer@,
            length == text::byte_length(integer@),
            chars@.len() <= length,
            result@ == grouped(integer@, i as nat),
        decreases chars@.len() - i,
    {
        if i > 0 && (length - i) % 3 == 0 {
            result.push(',');
        }
        result.push(chars[i]);
        i = i + 1;
    }
    result
}

/// Group the integer part of a formatted number in threes: `6500` becomes `6,500`.
pub fn group_thousands(number: &str) -> (result: String)
    ensures
        result@ == with_groups(number@),
{
    let all: Vec<char> = text::characters(number);
    let negative: bool = all.len() > 0 && all[0] == '-';
    let start: usize = if negative {
        1
    } else {
        0
    };
    let ghost digits = if negative {
        number@.skip(1)
    } else {
        number@
    };
    proof {
        assert(all@.skip(start as int) =~= digits);
        assert(digits.skip(0) =~= digits);
    }
    let mut point: usize = start;
    while point < all.len() && all[point] != '.'
        invariant
            start <= point <= all@.len(),
            digits == all@.skip(start as int),
            point_at(digits) == point - start + point_at(digits.skip(point - start)),
        decreases all@.len() - point,
    {
        proof {
            assert(digits.skip(point - start).skip(1) =~= digits.skip(point - start + 1));
            assert(digits.skip(point - start)[0] == all@[point as int]);
        }
        point = point + 1;
    }
    proof {
        if point < all@.len() {
            assert(digits.skip(point - start)[0] == all@[point as int]);
        }
        assert(point_at(digits) == point - start);
        assert(digits.take(point - start) =~= all@.subrange(start as int, point as int));
    }
    let integer: String = text::slice_text(all.as_slice(), start, point);
    let mut result: String = String::from_str(
        if negative {
            "-"
        } else {
            ""
        },
    );
    result.append(group_digits(integer.as_str()).as_str());
    if point < all.len() && point + 1 < all.len() {
        result.append(".");
        proof {
            assert(digits.skip(point - start + 1) =~= all@.subrange(
                point + 1,
                all@.len() as int,
            ));
        }
        result.append(text::slice_text(all.as_slice(), point + 1, all.len()).as_str());
    }
    result
}

/// Texts are escaped character by character: whatever stands next to it, a character is
/// written as its own entity.
pub proof fn escaping_goes_character_by_character(before: Seq<char>, after: Seq<char>)
    ensures
        escaped(before + after) == escaped(before) + escaped(after),
        escaped(seq!['&']) == "&amp;"@,
        escaped(seq!['<']) == "&lt;"@,
        escaped(seq!['>']) == "&gt;"@,
        escaped(seq!['"']) == "&quot;"@,
        escaped(seq!['\'']) == "&#39;"@,
    decreases after.len(),
{
    reveal_with_fuel(escaped, 2);
    if after.len() == 0 {
        assert(before + after =~= before);
        assert(escaped(before) + escaped(after) =~= escaped(before));
    } else {
        escaping_goes_character_by_character(before, after.drop_last());
        assert((before + after).drop_last() =~= before + after.drop_last());
        assert((before + after).last() == after.last());
        assert(escaped(before + after) =~= escaped(before) + escaped(after));
    }
    assert(seq!['&'].drop_last() =~= Seq::<char>::empty());
    assert(seq!['<'].drop_last() =~= Seq::<char>::empty());
    assert(seq!['>'].drop_last() =~= Seq::<char>::empty());
    assert(seq!['"'].drop_last() =~= Seq::<char>::empty());
    assert(seq!['\''].drop_last() =~= Seq::<char>::empty());
    assert(escaped(seq!['&']) =~= "&amp;"@);
    assert(escaped(seq!['<']) =~= "&lt;"@);
    assert(escaped(seq!['>']) =~= "&gt;"@);
    assert(escaped(seq!['"']) =~= "&quot;"@);
    assert(escaped(seq!['\'']) =~= "&#39;"@);
}

/// Only the zeros that end a number's decimals are dropped, with the point where none are
/// left: the integer part stays whole, no other decimal is lost, and what is left ends with
/// neither.
pub proof fn only_trailing_zeros_are_dropped(integer: Seq<char>, decimals: Seq<char>)
    requires
        !integer.contains('.'),
        !decimals.contains('.'),
    ensures
        without_zeros(integer) == integer,
        ({
            let number = integer + seq!['.'] + decimals;
            let short = without_zeros(number);
            &&& integer.len() <= short.len() <= number.len()
            &&& short == number.take(short.len() as int)
            &&& forall|i: int|
                short.len() <= i < number.len() && i != integer.len() ==> #[trigger] number[i]
                    == '0'
            &&& short.len() > integer.len() ==> short.len() > integer.len() + 1 && short.last()
                != '0'
        }),
{
    let number = integer + seq!['.'] + decimals;
    let n = integer.len() as int;
    assert(number[n] == '.');
    let some = text::without_trailing(number, '0');
    let to = text::only_what_trails_is_taken_off(number, '0');
    assert(to > n) by {
        if to <= n {
            assert(number[n] == '0');
        }
    }
    let short = without_zeros(number);
    let cut = text::only_what_trails_is_taken_off(some, '.');
    assert(short =~= number.take(cut));
    assert(cut >= n) by {
        if cut < n {
            assert(some[n - 1] == '.');
            assert(integer[n - 1] == '.');
        }
    }
    assert(cut < to ==> to == n + 1) by {
        if cut < to {
            assert(some[to - 1] == '.');
            if to - 1 > n {
                assert(number[to - 1] == decimals[to - n - 2]);
                assert(decimals.contains('.'));
            }
        }
    }
    if cut > n {
        assert(some[n] == '.');
        assert(cut > n + 1) by {
            if cut == n + 1 {
                assert(some[cut - 1] != '.');
            }
        }
        assert(cut == to);
        assert(short.last() == number[to - 1]);
    }
    assert forall|i: int| short.len() <= i < number.len() && i != n implies #[trigger] number[i]
        == '0' by {
        if i < to {
            assert(to == n + 1);
        }
    }
}

/// Every character takes one byte where all of them are ASCII.
proof fn ascii_takes_a_byte_each(text: Seq<char>)
    requires
        forall|i: int| 0 <= i < text.len() ==> '0' <= #[trigger] text[i] <= '9',
    ensures
        text::byte_length(text) == text.len(),
    decreases text.len(),
{
    reveal_with_fuel(vstd::utf8::encode_utf8, 2);
    if text.len() > 0 {
        let rest = text.drop_first();
        assert forall|i: int| 0 <= i < rest.len() implies '0' <= #[trigger] rest[i] <= '9' by {
            assert(rest[i] == text[i + 1]);
        }
        ascii_takes_a_byte_each(rest);
        assert('0' <= text[0] <= '9');
    }
}

/// What is grouped of an integer depends only on how far it is from its end, in threes.
proof fn groups_are_counted_from_the_end(integer: Seq<char>, longer: Seq<char>, count: nat)
    requires
        count <= integer.len(),
        integer.len() <= longer.len(),
        longer.take(integer.len() as int) == integer,
        text::byte_length(longer) == text::byte_length(integer) + 3,
    ensures
        grouped(longer, count) == grouped(integer, count),
    decreases count,
{
    if count > 0 {
        groups_are_counted_from_the_end(integer, longer, (count - 1) as nat);
        assert(longer.take(integer.len() as int)[count - 1] == longer[count - 1]);
        let (short, long) = (
            text::byte_length(integer) - (count - 1),
            text::byte_length(longer) - (count - 1),
        );
        assert(long == short + 3);
        assert(long % 3 == short % 3);
    }
}

/// An integer of no more than three digits is left whole, and three digits more are set off
/// with a comma.
pub proof fn groups_are_threes(integer: Seq<char>, three: Seq<char>)
    requires
        integer.len() > 0,
        three.len() == 3,
        forall|i: int| 0 <= i < integer.len() ==> '0' <= #[trigger] integer[i] <= '9',
        forall|i: int| 0 <= i < three.len() ==> '0' <= #[trigger] three[i] <= '9',
    ensures
        integer.len() <= 3 ==> grouped(integer, integer.len()) == integer,
        grouped(integer + three, integer.len() + 3) == grouped(integer, integer.len()) + seq![',']
            + three,
{
    let n = integer.len();
    let longer = integer + three;
    assert forall|i: int| 0 <= i < longer.len() implies '0' <= #[trigger] longer[i] <= '9' by {
        if i < n {
            assert(longer[i] == integer[i]);
        } else {
            assert(longer[i] == three[i - n]);
        }
    }
    ascii_takes_a_byte_each(integer);
    ascii_takes_a_byte_each(longer);
    if n <= 3 {
        reveal_with_fuel(grouped, 4);
        assert(grouped(integer, n) =~= integer);
    }
    assert(longer.take(n as int) =~= integer);
    groups_are_counted_from_the_end(integer, longer, n);
    let first = grouped(longer, n + 1);
    let second = grouped(longer, n + 2);
    let third = grouped(longer, n + 3);
    assert(longer[n as int] == three[0]);
    assert(longer[(n + 1) as int] == three[1]);
    assert(longer[(n + 2) as int] == three[2]);
    assert(first == grouped(longer, n).push(',').push(three[0]));
    assert(second == first.push(three[1]));
    assert(third == second.push(three[2]));
    assert(third =~= grouped(integer, n) + seq![','] + three);
}

/// Only the integer part of a number is grouped: its sign stays in front and its decimals
/// behind.
pub proof fn only_the_integer_is_grouped(integer: Seq<char>, decimals: Seq<char>)
    requires
        integer.len() > 0,
        decimals.len() > 0,
        !integer.contains('.'),
        integer[0] != '-',
    ensures
        with_groups(integer) == grouped(integer, integer.len()),
        with_groups(integer + seq!['.'] + decimals) == grouped(integer, integer.len()) + seq!['.']
            + decimals,
        with_groups(seq!['-'] + integer) == seq!['-'] + grouped(integer, integer.len()),
        with_groups(seq!['-'] + integer + seq!['.'] + decimals) == seq!['-'] + grouped(
            integer,
            integer.len(),
        ) + seq!['.'] + decimals,
{
    reveal_strlit("-");
    reveal_strlit(".");
    reveal_strlit("");
    let empty = Seq::<char>::empty();
    let n = integer.len() as int;
    let groups = grouped(integer, integer.len());
    points_end_the_integer(integer, empty);
    points_end_the_integer(integer, seq!['.'] + decimals);
    assert(integer + empty =~= integer);
    assert(integer.take(n) =~= integer);
    assert(with_groups(integer) =~= groups);
    let number = integer + seq!['.'] + decimals;
    assert(number =~= integer + (seq!['.'] + decimals));
    assert(number.take(n) =~= integer);
    assert(number.skip(n + 1) =~= decimals);
    assert(with_groups(number) =~= groups + seq!['.'] + decimals);
    let negative = seq!['-'] + integer;
    assert(negative.skip(1) =~= integer);
    assert(with_groups(negative) =~= seq!['-'] + groups);
    let below = seq!['-'] + integer + seq!['.'] + decimals;
    assert(below.skip(1) =~= number);
    assert(with_groups(below) =~= seq!['-'] + groups + seq!['.'] + decimals);
}

proof fn points_end_the_integer(integer: Seq<char>, rest: Seq<char>)
    requires
        !integer.contains('.'),
        rest.len() > 0 ==> rest[0] == '.',
    ensures
        point_at(integer + rest) == integer.len(),
    decreases integer.len(),
{
    let number = integer + rest;
    if integer.len() == 0 {
        assert(number =~= rest);
    } else {
        assert(number[0] == integer[0]);
        assert(integer.contains(integer[0]));
        let fewer = integer.skip(1);
        assert(!fewer.contains('.')) by {
            if fewer.contains('.') {
                let i = choose|i: int| 0 <= i < fewer.len() && fewer[i] == '.';
                assert(integer[i + 1] == '.');
            }
        }
        points_end_the_integer(fewer, rest);
        assert(number.skip(1) =~= fewer + rest);
    }
}

} // verus!
