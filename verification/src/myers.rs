//! The mathematics of the greedy shortest-edit-script search.
//!
//! Two sequences of line ids `a` (old) and `b` (new) span a grid; a point
//! `(x, y)` stands for "`x` old lines and `y` new lines consumed" and lies on
//! diagonal `k = x - y`. One edit moves right (a deletion) or down (an
//! insertion); equal lines are crossed for free along the diagonal. Round `d`
//! records, for every diagonal it can reach, the furthest point reachable
//! with `d` edits.

use vstd::prelude::*;

verus! {

/// One entry of an edit script. `line` is 1-based and counts in the old
/// sequence for `Match` and `Delete`, in the new one for `Insert`.
pub enum Edit {
    Match { line: int, text: Seq<char> },
    Insert { line: int, text: Seq<char> },
    Delete { line: int, text: Seq<char> },
}

/// Where the run of equal lines that starts at `(x, y)` ends, as its `x`.
pub open spec fn snake_end(a: Seq<usize>, b: Seq<usize>, x: int, y: int) -> int
    decreases a.len() - x,
{
    if 0 <= x < a.len() && 0 <= y < b.len() && a[x] == b[y] {
        snake_end(a, b, x + 1, y + 1)
    } else {
        x
    }
}

/// The diagonals that round `d` visits: `-d, -d + 2, .., d`.
pub open spec fn in_round(d: int, k: int) -> bool {
    0 <= d && -d <= k <= d && (d + k) % 2 == 0
}

/// Whether round `d` enters diagonal `k` from the diagonal above it, that is
/// by an insertion. It does so on the lowest diagonal, and elsewhere (but on
/// the highest) when that start lies further than the one a deletion gives;
/// where both give the same start, the insertion is taken.
pub open spec fn from_above(a: Seq<usize>, b: Seq<usize>, d: int, k: int) -> bool
    decreases d, 0int,
{
    d > 0 && (k == -d || (k != d && furthest(a, b, d - 1, k - 1) < furthest(a, b, d - 1, k + 1)))
}

/// The `x` at which round `d` enters diagonal `k`, before it follows equal
/// lines.
pub open spec fn start_x(a: Seq<usize>, b: Seq<usize>, d: int, k: int) -> int
    decreases d, 1int,
{
    if d <= 0 {
        0
    } else if from_above(a, b, d, k) {
        furthest(a, b, d - 1, k + 1)
    } else {
        furthest(a, b, d - 1, k - 1) + 1
    }
}

/// The furthest `x` that round `d` reaches on diagonal `k`.
pub open spec fn furthest(a: Seq<usize>, b: Seq<usize>, d: int, k: int) -> int
    decreases d, 2int,
{
    snake_end(a, b, start_x(a, b, d, k), start_x(a, b, d, k) - k)
}

/// Whether round `d` has consumed both sequences on diagonal `k`.
pub open spec fn hits(a: Seq<usize>, b: Seq<usize>, d: int, k: int) -> bool {
    furthest(a, b, d, k) >= a.len() && furthest(a, b, d, k) - k >= b.len()
}

/// No round before `d` has consumed both sequences.
pub open spec fn no_hit_before(a: Seq<usize>, b: Seq<usize>, d: int) -> bool {
    forall|e: int, k: int| 0 <= e < d && in_round(e, k) ==> !#[trigger] hits(a, b, e, k)
}

/// Whether round `d` ends in the corner `(a.len(), b.len())`.
pub open spec fn corner_reached(a: Seq<usize>, b: Seq<usize>, d: int) -> bool {
    in_round(d, a.len() - b.len()) && furthest(a, b, d, a.len() - b.len()) == a.len()
}

/// The first round at or after `d` that ends in the corner.
pub open spec fn distance_from(a: Seq<usize>, b: Seq<usize>, d: int) -> int
    decreases a.len() + b.len() - d,
{
    if d >= a.len() + b.len() || corner_reached(a, b, d) {
        d
    } else {
        distance_from(a, b, d + 1)
    }
}

/// The number of insertions and deletions of the script that the search
/// finds: the first round that ends in the corner.
pub open spec fn edit_distance(a: Seq<usize>, b: Seq<usize>) -> int {
    distance_from(a, b, 0)
}

/// `Match` entries for the old lines `from..to`.
pub open spec fn matched(old_lines: Seq<Seq<char>>, from: int, to: int) -> Seq<Edit> {
    Seq::new(
        if to >= from {
            (to - from) as nat
        } else {
            0
        },
        |i: int| Edit::Match { line: from + i + 1, text: old_lines[from + i] },
    )
}

/// The edit with which round `d` enters diagonal `k`.
pub open spec fn entering_edit(
    a: Seq<usize>,
    b: Seq<usize>,
    old_lines: Seq<Seq<char>>,
    new_lines: Seq<Seq<char>>,
    d: int,
    k: int,
) -> Edit {
    let x = start_x(a, b, d, k);
    if from_above(a, b, d, k) {
        Edit::Insert { line: x - k, text: new_lines[x - k - 1] }
    } else {
        Edit::Delete { line: x, text: old_lines[x - 1] }
    }
}

/// The diagonal from which round `d` enters diagonal `k`.
pub open spec fn previous_diagonal(a: Seq<usize>, b: Seq<usize>, d: int, k: int) -> int {
    if from_above(a, b, d, k) {
        k + 1
    } else {
        k - 1
    }
}

/// The script of the path that round `d` takes to its furthest point on
/// diagonal `k`, from the origin on.
pub open spec fn path_script(
    a: Seq<usize>,
    b: Seq<usize>,
    old_lines: Seq<Seq<char>>,
    new_lines: Seq<Seq<char>>,
    d: int,
    k: int,
) -> Seq<Edit>
    decreases d,
{
    if d <= 0 {
        matched(old_lines, 0, furthest(a, b, d, k))
    } else {
        path_script(a, b, old_lines, new_lines, d - 1, previous_diagonal(a, b, d, k)).push(
            entering_edit(a, b, old_lines, new_lines, d, k),
        ) + matched(old_lines, start_x(a, b, d, k), furthest(a, b, d, k))
    }
}

/// The edit script between two line sequences: the path of the first round
/// that ends in the corner.
pub open spec fn myers_script(
    a: Seq<usize>,
    b: Seq<usize>,
    old_lines: Seq<Seq<char>>,
    new_lines: Seq<Seq<char>>,
) -> Seq<Edit> {
    path_script(a, b, old_lines, new_lines, edit_distance(a, b), a.len() - b.len())
}

/// A run of equal lines ends at or after its start, inside the grid if it
/// started there, and the lines it crosses are pairwise equal.
pub proof fn lemma_snake(a: Seq<usize>, b: Seq<usize>, x: int, y: int)
    ensures
        snake_end(a, b, x, y) >= x,
        0 <= x <= a.len() ==> snake_end(a, b, x, y) <= a.len(),
        x > a.len() ==> snake_end(a, b, x, y) == x,
        0 <= y <= b.len() ==> snake_end(a, b, x, y) - x + y <= b.len(),
        y > b.len() ==> snake_end(a, b, x, y) == x,
        forall|i: int| x <= i < snake_end(a, b, x, y) ==> 0 <= i < a.len() && 0 <= i - x + y < b.len() && a[i] == b[i - x + y],
        snake_end(a, b, x, y) > x ==> 0 <= x && 0 <= y,
    decreases a.len() - x,
{
    if 0 <= x < a.len() && 0 <= y < b.len() && a[x] == b[y] {
        lemma_snake(a, b, x + 1, y + 1);
    }
}

/// Following equal lines from a point inside a run leads to the run's end.
pub proof fn lemma_snake_inside(a: Seq<usize>, b: Seq<usize>, x: int, y: int, steps: int)
    requires
        0 <= steps <= snake_end(a, b, x, y) - x,
    ensures
        snake_end(a, b, x + steps, y + steps) == snake_end(a, b, x, y),
    decreases steps,
{
    if steps > 0 {
        lemma_snake(a, b, x, y);
        lemma_snake_inside(a, b, x + 1, y + 1, steps - 1);
    }
}

/// Every point that a round records has consumed at least as many lines as
/// there were edits, lies in the quadrant of the grid, and is not further out
/// than edits alone can carry.
pub proof fn lemma_round_bounds(a: Seq<usize>, b: Seq<usize>, d: int, k: int)
    requires
        in_round(d, k),
    ensures
        0 <= start_x(a, b, d, k) <= furthest(a, b, d, k),
        0 <= start_x(a, b, d, k) - k,
        2 * start_x(a, b, d, k) - k >= d,
        2 * furthest(a, b, d, k) - k >= d,
        furthest(a, b, d, k) <= a.len() + d,
        furthest(a, b, d, k) - k <= b.len() + d,
        d > 0 ==> in_round(d - 1, previous_diagonal(a, b, d, k)),
    decreases d,
{
    let x = start_x(a, b, d, k);
    lemma_snake(a, b, x, x - k);
    if d > 0 {
        if k != d {
            lemma_round_bounds(a, b, d - 1, k + 1);
        }
        if k != -d {
            lemma_round_bounds(a, b, d - 1, k - 1);
        }
    }
}

/// A round starts each diagonal at least as far as either neighbour of the
/// round before allows.
pub proof fn lemma_round_monotone(a: Seq<usize>, b: Seq<usize>, d: int, k: int)
    requires
        in_round(d, k),
        d > 0,
    ensures
        k != d ==> furthest(a, b, d, k) >= furthest(a, b, d - 1, k + 1),
        k != -d ==> furthest(a, b, d, k) >= furthest(a, b, d - 1, k - 1) + 1,
{
    lemma_round_bounds(a, b, d, k);
}

/// After as many rounds as there are lines, the corner's diagonal has
/// consumed both sequences.
pub proof fn lemma_last_round_hits(a: Seq<usize>, b: Seq<usize>)
    ensures
        in_round((a.len() + b.len()) as int, a.len() - b.len()),
        hits(a, b, (a.len() + b.len()) as int, a.len() - b.len()),
{
    let n = a.len() as int;
    let m = b.len() as int;
    assert((n + m + (n - m)) % 2 == 0) by {
        assert(n + m + (n - m) == 2 * n);
    }
    lemma_round_bounds(a, b, n + m, n - m);
}

/// A point that lies right of the grid was preceded, one round earlier, by a
/// point at the grid's right edge or beyond that was at least as far down.
pub proof fn lemma_overshoot_right(a: Seq<usize>, b: Seq<usize>, d: int, k: int) -> (p: int)
    requires
        in_round(d, k),
        furthest(a, b, d, k) > a.len(),
    ensures
        d > 0,
        in_round(d - 1, p),
        furthest(a, b, d - 1, p) >= a.len(),
        furthest(a, b, d - 1, p) - p >= furthest(a, b, d, k) - k,
    decreases d,
{
    let x = start_x(a, b, d, k);
    lemma_snake(a, b, x, x - k);
    lemma_round_bounds(a, b, d, k);
    if from_above(a, b, d, k) {
        let q = lemma_overshoot_right(a, b, d - 1, k + 1);
        lemma_round_monotone(a, b, d - 1, q - 1);
        q - 1
    } else {
        k - 1
    }
}

/// A point that lies below the grid was preceded, one round earlier, by a
/// point at the grid's lower edge or beyond that was at least as far right.
pub proof fn lemma_overshoot_down(a: Seq<usize>, b: Seq<usize>, d: int, k: int) -> (p: int)
    requires
        in_round(d, k),
        furthest(a, b, d, k) - k > b.len(),
    ensures
        d > 0,
        in_round(d - 1, p),
        furthest(a, b, d - 1, p) - p >= b.len(),
        furthest(a, b, d - 1, p) >= furthest(a, b, d, k),
    decreases d,
{
    let x = start_x(a, b, d, k);
    lemma_snake(a, b, x, x - k);
    lemma_round_bounds(a, b, d, k);
    if from_above(a, b, d, k) {
        k + 1
    } else {
        let q = lemma_overshoot_down(a, b, d - 1, k - 1);
        lemma_round_monotone(a, b, d - 1, q + 1);
        q + 1
    }
}

/// The first point that has consumed both sequences is the corner itself.
pub proof fn lemma_first_hit_is_corner(a: Seq<usize>, b: Seq<usize>, d: int, k: int)
    requires
        in_round(d, k),
        hits(a, b, d, k),
        no_hit_before(a, b, d),
    ensures
        furthest(a, b, d, k) == a.len(),
        k == a.len() - b.len(),
        corner_reached(a, b, d),
{
    if furthest(a, b, d, k) > a.len() {
        let p = lemma_overshoot_right(a, b, d, k);
        assert(hits(a, b, d - 1, p));
    }
    if furthest(a, b, d, k) - k > b.len() {
        let p = lemma_overshoot_down(a, b, d, k);
        assert(hits(a, b, d - 1, p));
    }
}

/// Rounds that did not consume both sequences do not count for the distance.
pub proof fn lemma_distance_skip(a: Seq<usize>, b: Seq<usize>, from: int, d: int)
    requires
        0 <= from <= d <= a.len() + b.len(),
        no_hit_before(a, b, d),
    ensures
        distance_from(a, b, from) == distance_from(a, b, d),
    decreases d - from,
{
    if from < d {
        if corner_reached(a, b, from) {
            assert(hits(a, b, from, a.len() - b.len()));
        }
        lemma_distance_skip(a, b, from + 1, d);
    }
}

/// The distance is the first round that consumes both sequences, and it is at
/// most the number of lines.
pub proof fn lemma_edit_distance(a: Seq<usize>, b: Seq<usize>)
    ensures
        0 <= edit_distance(a, b) <= a.len() + b.len(),
        corner_reached(a, b, edit_distance(a, b)),
        no_hit_before(a, b, edit_distance(a, b)),
{
    lemma_distance_search(a, b, 0);
}

proof fn lemma_distance_search(a: Seq<usize>, b: Seq<usize>, d: int)
    requires
        0 <= d <= a.len() + b.len(),
        no_hit_before(a, b, d),
    ensures
        d <= distance_from(a, b, d) <= a.len() + b.len(),
        corner_reached(a, b, distance_from(a, b, d)),
        no_hit_before(a, b, distance_from(a, b, d)),
    decreases a.len() + b.len() - d,
{
    if d >= a.len() + b.len() {
        lemma_last_round_hits(a, b);
        lemma_first_hit_is_corner(a, b, d, a.len() - b.len());
    } else if !corner_reached(a, b, d) {
        assert forall|e: int, k: int| 0 <= e < d + 1 && in_round(e, k) implies !#[trigger] hits(
            a,
            b,
            e,
            k,
        ) by {
            if e == d && hits(a, b, e, k) {
                lemma_first_hit_is_corner(a, b, d, k);
            }
        }
        lemma_distance_search(a, b, d + 1);
    }
}

} // verus!
