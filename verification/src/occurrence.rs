//! How often one text stands in another that was put together from pieces.
//!
//! A needle is told by a mark: two characters that stand next to each other once in it and
//! nowhere in the pieces around it.

use vstd::prelude::*;

use crate::sums;
use crate::text;

verus! {

/// How often a needle stands in a text.
pub open spec fn occurrences(text: Seq<char>, needle: Seq<char>) -> nat {
    sums::count_where(text.len() + 1, |at: int| text::matches_at(text, needle, at))
}

/// Whether a mark stands in a text with its first character at `at`.
pub open spec fn marked_at(text: Seq<char>, mark: (char, char), at: int) -> bool {
    0 <= at && at + 1 < text.len() && text[at] == mark.0 && text[at + 1] == mark.1
}

/// Whether a piece neither holds a mark nor completes one that the text before it began.
pub open spec fn is_unmarked(piece: Seq<char>, mark: (char, char)) -> bool {
    &&& forall|at: int| !#[trigger] marked_at(piece, mark, at)
    &&& piece.len() > 0 ==> piece[0] != mark.1
}

/// Whether a needle holds a mark at `at` and nowhere else, and does not complete one that
/// the text before it began.
pub open spec fn is_marked_once(needle: Seq<char>, mark: (char, char), at: int) -> bool {
    &&& marked_at(needle, mark, at)
    &&& forall|i: int| #[trigger] marked_at(needle, mark, i) ==> i == at
    &&& needle[0] != mark.1
}

/// Whether a character is missing from a text.
pub open spec fn lacks(text: Seq<char>, c: char) -> bool {
    forall|i: int| 0 <= i < text.len() ==> #[trigger] text[i] != c
}

/// Pieces without a mark make a text without it.
pub proof fn unmarked_pieces_add_up(first: Seq<char>, second: Seq<char>, mark: (char, char))
    requires
        is_unmarked(first, mark),
        is_unmarked(second, mark),
    ensures
        is_unmarked(first + second, mark),
{
    assert forall|at: int| !#[trigger] marked_at(first + second, mark, at) by {
        assert(!marked_at(first, mark, at));
        assert(!marked_at(second, mark, at - first.len()));
    }
}

/// A text that one character of a mark is missing from does not hold the mark.
pub proof fn marks_need_both_characters(text: Seq<char>, mark: (char, char))
    requires
        lacks(text, mark.0) || lacks(text, mark.1),
        text.len() > 0 ==> text[0] != mark.1,
    ensures
        is_unmarked(text, mark),
{
    assert forall|at: int| !#[trigger] marked_at(text, mark, at) by {
        if 0 <= at && at + 1 < text.len() {
            assert(text[at] != mark.0 || text[at + 1] != mark.1);
        }
    }
}

/// A needle that holds a mark once still does when unmarked text follows it.
pub proof fn what_follows_adds_no_mark(
    needle: Seq<char>,
    more: Seq<char>,
    mark: (char, char),
    at: int,
)
    requires
        is_marked_once(needle, mark, at),
        is_unmarked(more, mark),
    ensures
        is_marked_once(needle + more, mark, at),
{
    assert forall|i: int| #[trigger] marked_at(needle + more, mark, i) implies i == at by {
        assert(!marked_at(more, mark, i - needle.len()));
        if i + 1 < needle.len() {
            assert(marked_at(needle, mark, i));
        }
    }
}

/// Whether a needle that holds a mark once stands in a text at the places listed, from the
/// first to the last, and the mark stands nowhere else in it.
pub open spec fn stands_at(
    text: Seq<char>,
    needle: Seq<char>,
    mark: (char, char),
    at: int,
    places: Seq<int>,
) -> bool {
    &&& is_marked_once(needle, mark, at)
    &&& forall|j: int|
        0 <= j < places.len() ==> text::matches_at(text, needle, #[trigger] places[j])
    &&& forall|i: int, j: int| 0 <= i < j < places.len() ==> places[i] < places[j]
    &&& forall|i: int| #[trigger] marked_at(text, mark, i) ==> places.contains(i - at)
}

/// An unmarked piece adds no place.
pub proof fn other_pieces_add_no_place(
    text: Seq<char>,
    needle: Seq<char>,
    mark: (char, char),
    at: int,
    places: Seq<int>,
    piece: Seq<char>,
)
    requires
        stands_at(text, needle, mark, at, places),
        is_unmarked(piece, mark),
    ensures
        stands_at(text + piece, needle, mark, at, places),
{
    let longer = text + piece;
    assert forall|j: int| 0 <= j < places.len() implies text::matches_at(
        longer,
        needle,
        #[trigger] places[j],
    ) by {
        let p = places[j];
        assert(text::matches_at(text, needle, p));
        assert(longer.subrange(p, p + needle.len()) =~= text.subrange(p, p + needle.len()));
    }
    assert forall|i: int| #[trigger] marked_at(longer, mark, i) implies places.contains(i - at) by {
        assert(!marked_at(piece, mark, i - text.len()));
        if i + 1 < text.len() {
            assert(marked_at(text, mark, i));
        }
    }
}

/// The needle itself adds the place where it was put.
pub proof fn the_needle_adds_its_place(
    text: Seq<char>,
    needle: Seq<char>,
    mark: (char, char),
    at: int,
    places: Seq<int>,
)
    requires
        stands_at(text, needle, mark, at, places),
    ensures
        stands_at(text + needle, needle, mark, at, places.push(text.len() as int)),
{
    let longer = text + needle;
    let more = places.push(text.len() as int);
    let end = text.len() as int;
    assert forall|j: int| 0 <= j < more.len() implies text::matches_at(
        longer,
        needle,
        #[trigger] more[j],
    ) by {
        let p = more[j];
        if j < places.len() {
            assert(text::matches_at(text, needle, places[j]));
            assert(longer.subrange(p, p + needle.len()) =~= text.subrange(p, p + needle.len()));
        } else {
            assert(longer.subrange(p, p + needle.len()) =~= needle);
        }
    }
    assert forall|i: int, j: int| 0 <= i < j < more.len() implies more[i] < more[j] by {
        assert(text::matches_at(text, needle, places[i]));
    }
    assert forall|i: int| #[trigger] marked_at(longer, mark, i) implies more.contains(i - at) by {
        if i + 1 < end {
            assert(marked_at(text, mark, i));
            let j = choose|j: int| 0 <= j < places.len() && places[j] == i - at;
            assert(more[j] == i - at);
        } else if i + 1 > end {
            assert(marked_at(needle, mark, i - end));
            assert(more[places.len() as int] == i - at);
        }
    }
}

/// The numbers below `n` that a condition picks, where it picks those listed.
proof fn count_of_places(n: nat, holds: spec_fn(int) -> bool, places: Seq<int>, below: nat)
    requires
        forall|i: int| 0 <= i < n ==> (#[trigger] holds(i) <==> places.contains(i)),
        forall|i: int, j: int| 0 <= i < j < places.len() ==> places[i] < places[j],
        forall|j: int| 0 <= j < places.len() ==> 0 <= #[trigger] places[j],
        below <= places.len(),
        forall|j: int| 0 <= j < below ==> #[trigger] places[j] < n,
        forall|j: int| below <= j < places.len() ==> #[trigger] places[j] >= n,
    ensures
        sums::count_where(n, holds) == below,
    decreases n,
{
    if n == 0 {
        if below > 0 {
            assert(places[0] < n);
        }
    } else if holds(n - 1) {
        let j = choose|j: int| 0 <= j < places.len() && places[j] == n - 1;
        if j < below - 1 {
            assert(places[j] < places[below - 1]);
        }
        assert(j == below - 1);
        count_of_places((n - 1) as nat, holds, places, (below - 1) as nat);
    } else {
        assert forall|j: int| 0 <= j < below implies #[trigger] places[j] < n - 1 by {
            assert(places.contains(places[j]));
        }
        count_of_places((n - 1) as nat, holds, places, below);
    }
}

/// A needle stands in a text as often as there are places for it.
pub proof fn there_is_a_place_for_every_occurrence(
    text: Seq<char>,
    needle: Seq<char>,
    mark: (char, char),
    at: int,
    places: Seq<int>,
)
    requires
        stands_at(text, needle, mark, at, places),
    ensures
        occurrences(text, needle) == places.len(),
{
    let holds = |p: int| text::matches_at(text, needle, p);
    assert forall|i: int| 0 <= i < text.len() + 1 implies (#[trigger] holds(i)
        <==> places.contains(i)) by {
        if holds(i) {
            let found = text.subrange(i, i + needle.len());
            assert(found[at] == needle[at] && found[at + 1] == needle[at + 1]);
            assert(marked_at(text, mark, i + at));
        }
        if places.contains(i) {
            let j = choose|j: int| 0 <= j < places.len() && places[j] == i;
            assert(text::matches_at(text, needle, places[j]));
        }
    }
    assert forall|j: int| 0 <= j < places.len() implies 0 <= #[trigger] places[j]
        < text.len() + 1 by {
        assert(text::matches_at(text, needle, places[j]));
    }
    count_of_places(text.len() + 1, holds, places, places.len());
}

/// A text without a mark does not hold a needle with it.
pub proof fn unmarked_texts_hold_no_marked_needle(
    text: Seq<char>,
    needle: Seq<char>,
    mark: (char, char),
    at: int,
)
    requires
        is_unmarked(text, mark),
        marked_at(needle, mark, at),
    ensures
        !text::contains_text(text, needle),
{
    assert forall|p: int| !text::matches_at(text, needle, p) by {
        if text::matches_at(text, needle, p) {
            let found = text.subrange(p, p + needle.len());
            assert(found[at] == needle[at] && found[at + 1] == needle[at + 1]);
            assert(marked_at(text, mark, p + at));
        }
    }
}

} // verus!
