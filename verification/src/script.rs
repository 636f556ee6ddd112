//! What an edit script says about the two texts, and the laws that the
//! script of the greedy search obeys: it turns the old text into the new
//! one, numbers every line by its place, and no script does so with fewer
//! insertions and deletions.

use crate::myers::{
    corner_reached, edit_distance, entering_edit, furthest, hits, in_round, lemma_edit_distance,
    lemma_round_bounds, lemma_round_monotone, lemma_snake, matched, myers_script, path_script,
    previous_diagonal, snake_end, start_x, Edit,
};
use vstd::prelude::*;

verus! {

/// The lines of a text, each with its 1-based number.
pub open spec fn numbered(lines: Seq<Seq<char>>) -> Seq<(int, Seq<char>)> {
    Seq::new(lines.len(), |i: int| (i + 1, lines[i]))
}

/// The old text as a script tells it: the entries that are no insertions,
/// each with the line number it carries.
pub open spec fn old_side(script: Seq<Edit>) -> Seq<(int, Seq<char>)>
    decreases script.len(),
{
    if script.len() == 0 {
        Seq::empty()
    } else {
        let rest = old_side(script.drop_last());
        match script.last() {
            Edit::Match { line, text } => rest.push((line, text)),
            Edit::Delete { line, text } => rest.push((line, text)),
            Edit::Insert { .. } => rest,
        }
    }
}

/// The new text as a script tells it: the entries that are no deletions. An
/// insertion stands with the line number it carries, a match with the next
/// free one.
pub open spec fn new_side(script: Seq<Edit>) -> Seq<(int, Seq<char>)>
    decreases script.len(),
{
    if script.len() == 0 {
        Seq::empty()
    } else {
        let rest = new_side(script.drop_last());
        match script.last() {
            Edit::Match { line, text } => rest.push(((rest.len() + 1) as int, text)),
            Edit::Insert { line, text } => rest.push((line, text)),
            Edit::Delete { .. } => rest,
        }
    }
}

/// The number of insertions and deletions in a script.
pub open spec fn edit_count(script: Seq<Edit>) -> nat
    decreases script.len(),
{
    if script.len() == 0 {
        0
    } else {
        edit_count(script.drop_last()) + match script.last() {
            Edit::Match { .. } => 0nat,
            _ => 1nat,
        }
    }
}

/// A script transforms `old_lines` into `new_lines` when it tells both texts
/// in full, with every line number in its place.
pub open spec fn transforms(
    script: Seq<Edit>,
    old_lines: Seq<Seq<char>>,
    new_lines: Seq<Seq<char>>,
) -> bool {
    old_side(script) == numbered(old_lines) && new_side(script) == numbered(new_lines)
}

/// The ids stand for the lines: an old and a new line have the same id
/// exactly when they have the same text.
pub open spec fn ids_stand_for_lines(
    a: Seq<usize>,
    b: Seq<usize>,
    old_lines: Seq<Seq<char>>,
    new_lines: Seq<Seq<char>>,
) -> bool {
    &&& a.len() == old_lines.len()
    &&& b.len() == new_lines.len()
    &&& forall|i: int, j: int|
        0 <= i < a.len() && 0 <= j < b.len() ==> (a[i] == b[j] <==> old_lines[i] == new_lines[j])
}

proof fn lemma_sides_of_matches(
    script: Seq<Edit>,
    old_lines: Seq<Seq<char>>,
    new_lines: Seq<Seq<char>>,
    from: int,
    to: int,
    k: int,
)
    requires
        0 <= from <= to <= old_lines.len(),
        0 <= from - k,
        to - k <= new_lines.len(),
        forall|i: int| from <= i < to ==> old_lines[i] == new_lines[i - k],
        old_side(script) == numbered(old_lines).subrange(0, from),
        new_side(script) == numbered(new_lines).subrange(0, from - k),
    ensures
        old_side(script + matched(old_lines, from, to)) == numbered(old_lines).subrange(0, to),
        new_side(script + matched(old_lines, from, to)) == numbered(new_lines).subrange(
            0,
            to - k,
        ),
        edit_count(script + matched(old_lines, from, to)) == edit_count(script),
    decreases to - from,
{
    if from == to {
        assert(script + matched(old_lines, from, to) == script);
    } else {
        lemma_sides_of_matches(script, old_lines, new_lines, from, to - 1, k);
        let shorter = script + matched(old_lines, from, to - 1);
        let longer = script + matched(old_lines, from, to);
        assert(longer.drop_last() == shorter);
        assert(longer.last() == Edit::Match { line: to, text: old_lines[to - 1] });
        assert(old_side(longer) == numbered(old_lines).subrange(0, to));
        assert(new_side(longer) == numbered(new_lines).subrange(0, to - k));
    }
}

/// The script of a recorded path tells the lines that the path has consumed,
/// and holds as many insertions and deletions as the round's number.
proof fn lemma_path_is_valid(
    a: Seq<usize>,
    b: Seq<usize>,
    old_lines: Seq<Seq<char>>,
    new_lines: Seq<Seq<char>>,
    d: int,
    k: int,
)
    requires
        ids_stand_for_lines(a, b, old_lines, new_lines),
        in_round(d, k),
        furthest(a, b, d, k) <= a.len(),
        furthest(a, b, d, k) - k <= b.len(),
    ensures
        old_side(path_script(a, b, old_lines, new_lines, d, k)) == numbered(old_lines).subrange(
            0,
            furthest(a, b, d, k),
        ),
        new_side(path_script(a, b, old_lines, new_lines, d, k)) == numbered(new_lines).subrange(
            0,
            furthest(a, b, d, k) - k,
        ),
        edit_count(path_script(a, b, old_lines, new_lines, d, k)) == d,
    decreases d,
{
    let start = start_x(a, b, d, k);
    let end = furthest(a, b, d, k);
    lemma_round_bounds(a, b, d, k);
    lemma_snake(a, b, start, start - k);
    if d == 0 {
        let none = Seq::<Edit>::empty();
        assert(old_side(none) == numbered(old_lines).subrange(0, 0));
        assert(new_side(none) == numbered(new_lines).subrange(0, 0));
        lemma_sides_of_matches(none, old_lines, new_lines, 0, end, k);
        assert(none + matched(old_lines, 0, end) == matched(old_lines, 0, end));
    } else {
        let pk = previous_diagonal(a, b, d, k);
        lemma_round_bounds(a, b, d - 1, pk);
        lemma_path_is_valid(a, b, old_lines, new_lines, d - 1, pk);
        let before = path_script(a, b, old_lines, new_lines, d - 1, pk);
        let step = entering_edit(a, b, old_lines, new_lines, d, k);
        let entered = before.push(step);
        assert(entered.drop_last() == before);
        assert(entered.last() == step);
        assert(old_side(entered) == numbered(old_lines).subrange(0, start));
        assert(new_side(entered) == numbered(new_lines).subrange(0, start - k));
        lemma_sides_of_matches(entered, old_lines, new_lines, start, end, k);
    }
}

/// The script of the search transforms the old lines into the new ones, and
/// holds exactly `edit_distance` insertions and deletions.
pub proof fn law_script_transforms(
    a: Seq<usize>,
    b: Seq<usize>,
    old_lines: Seq<Seq<char>>,
    new_lines: Seq<Seq<char>>,
)
    requires
        ids_stand_for_lines(a, b, old_lines, new_lines),
    ensures
        transforms(myers_script(a, b, old_lines, new_lines), old_lines, new_lines),
        edit_count(myers_script(a, b, old_lines, new_lines)) == edit_distance(a, b),
{
    lemma_edit_distance(a, b);
    lemma_path_is_valid(a, b, old_lines, new_lines, edit_distance(a, b), a.len() - b.len());
    assert(numbered(old_lines).subrange(0, a.len() as int) == numbered(old_lines));
    assert(numbered(new_lines).subrange(0, b.len() as int) == numbered(new_lines));
}

/// A script that tells a prefix of each text ends at a point that the round
/// with as many edits has reached or passed.
proof fn lemma_round_reaches(
    a: Seq<usize>,
    b: Seq<usize>,
    old_lines: Seq<Seq<char>>,
    new_lines: Seq<Seq<char>>,
    script: Seq<Edit>,
    x: int,
    y: int,
)
    requires
        ids_stand_for_lines(a, b, old_lines, new_lines),
        0 <= x <= a.len(),
        0 <= y <= b.len(),
        old_side(script) == numbered(old_lines).subrange(0, x),
        new_side(script) == numbered(new_lines).subrange(0, y),
    ensures
        in_round(edit_count(script) as int, x - y),
        furthest(a, b, edit_count(script) as int, x - y) >= x,
    decreases script.len(),
{
    if script.len() == 0 {
        lemma_round_bounds(a, b, 0, 0);
    } else {
        let rest = script.drop_last();
        let e = edit_count(rest) as int;
        match script.last() {
            Edit::Match { line, text } => {
                assert(old_side(rest) == old_side(script).drop_last());
                assert(new_side(rest) == new_side(script).drop_last());
                assert(old_side(script).last() == numbered(old_lines)[x - 1]);
                assert(new_side(script).last() == numbered(new_lines)[y - 1]);
                assert(old_lines[x - 1] == new_lines[y - 1]);
                assert(old_side(rest) == numbered(old_lines).subrange(0, x - 1));
                assert(new_side(rest) == numbered(new_lines).subrange(0, y - 1));
                lemma_round_reaches(a, b, old_lines, new_lines, rest, x - 1, y - 1);
                let k = x - y;
                let start = start_x(a, b, e, k);
                lemma_round_bounds(a, b, e, k);
                lemma_snake(a, b, start, start - k);
                if furthest(a, b, e, k) == x - 1 {
                    lemma_snake_stops(a, b, start, start - k);
                }
            },
            Edit::Delete { line, text } => {
                assert(old_side(rest) == old_side(script).drop_last());
                assert(old_side(rest) == numbered(old_lines).subrange(0, x - 1));
                lemma_round_reaches(a, b, old_lines, new_lines, rest, x - 1, y);
                lemma_round_monotone(a, b, e + 1, x - y);
            },
            Edit::Insert { line, text } => {
                assert(new_side(rest) == new_side(script).drop_last());
                assert(new_side(rest) == numbered(new_lines).subrange(0, y - 1));
                lemma_round_reaches(a, b, old_lines, new_lines, rest, x, y - 1);
                lemma_round_monotone(a, b, e + 1, x - y);
            },
        }
    }
}

/// A run of equal lines ends where the next two lines differ or a text ends.
proof fn lemma_snake_stops(a: Seq<usize>, b: Seq<usize>, x: int, y: int)
    requires
        0 <= x,
        0 <= y,
    ensures
        ({
            let end = snake_end(a, b, x, y);
            !(end < a.len() && end - x + y < b.len() && a[end] == b[end - x + y])
        }),
    decreases a.len() - x,
{
    if 0 <= x < a.len() && 0 <= y < b.len() && a[x] == b[y] {
        lemma_snake_stops(a, b, x + 1, y + 1);
    }
}

/// No script that transforms the old lines into the new ones has fewer
/// insertions and deletions than the script of the search.
pub proof fn law_script_is_shortest(
    a: Seq<usize>,
    b: Seq<usize>,
    old_lines: Seq<Seq<char>>,
    new_lines: Seq<Seq<char>>,
    other: Seq<Edit>,
)
    requires
        ids_stand_for_lines(a, b, old_lines, new_lines),
        transforms(other, old_lines, new_lines),
    ensures
        edit_count(myers_script(a, b, old_lines, new_lines)) <= edit_count(other),
{
    law_script_transforms(a, b, old_lines, new_lines);
    lemma_edit_distance(a, b);
    assert(numbered(old_lines).subrange(0, a.len() as int) == numbered(old_lines));
    assert(numbered(new_lines).subrange(0, b.len() as int) == numbered(new_lines));
    lemma_round_reaches(a, b, old_lines, new_lines, other, a.len() as int, b.len() as int);
    let e = edit_count(other) as int;
    if e < edit_distance(a, b) {
        assert(hits(a, b, e, a.len() - b.len()));
    }
}

/// Where both sequences carry the same ids, the search ends in round 0 and
/// its script matches every line, one entry per line, in order.
pub proof fn law_identical_sequences_match(
    a: Seq<usize>,
    b: Seq<usize>,
    old_lines: Seq<Seq<char>>,
    new_lines: Seq<Seq<char>>,
)
    requires
        a == b,
    ensures
        edit_distance(a, b) == 0,
        myers_script(a, b, old_lines, new_lines) == matched(old_lines, 0, a.len() as int),
{
    lemma_equal_run(a, 0);
    assert(corner_reached(a, b, 0));
}

proof fn lemma_equal_run(a: Seq<usize>, x: int)
    requires
        0 <= x <= a.len(),
    ensures
        snake_end(a, a, x, x) == a.len(),
    decreases a.len() - x,
{
    if x < a.len() {
        lemma_equal_run(a, x + 1);
    }
}

/// A script holds at least as many insertions and deletions as any of its
/// beginnings.
pub proof fn lemma_edit_count_of_beginning(script: Seq<Edit>, i: int)
    requires
        0 <= i <= script.len(),
    ensures
        edit_count(script.subrange(0, i)) <= edit_count(script),
    decreases script.len() - i,
{
    if i < script.len() {
        let next = script.subrange(0, i + 1);
        assert(next.drop_last() == script.subrange(0, i));
        lemma_edit_count_of_beginning(script, i + 1);
    } else {
        assert(script.subrange(0, i) == script);
    }
}

/// A run of `Match` entries holds no insertion and no deletion.
pub proof fn lemma_matches_hold_no_edit(old_lines: Seq<Seq<char>>, from: int, to: int)
    ensures
        edit_count(matched(old_lines, from, to)) == 0,
    decreases to - from,
{
    if to > from {
        let longer = matched(old_lines, from, to);
        assert(longer.drop_last() == matched(old_lines, from, to - 1));
        lemma_matches_hold_no_edit(old_lines, from, to - 1);
    }
}

} // verus!
