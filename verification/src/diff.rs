//! Line-level differences between two texts: interned line sequences, the
//! edit script between them, and the line range of a file argument.

use crate::myers::{
    corner_reached, edit_distance, entering_edit, furthest, from_above, hits, in_round,
    lemma_distance_skip, lemma_first_hit_is_corner, lemma_last_round_hits, lemma_round_bounds,
    matched, myers_script, no_hit_before, path_script, previous_diagonal, snake_end, start_x, Edit,
};
use crate::text::{
    chars_of, decimal, find_char, find_char_from, lines_of, parse_unsigned, parse_unsigned_range,
    push_decimal, split_lines, texts,
};
use crate::script::{
    edit_count, ids_stand_for_lines, law_identical_sequences_match, law_script_is_shortest,
    law_script_transforms, lemma_edit_count_of_beginning, transforms,
};
use vstd::prelude::*;
use vstd::string::StringExecFns;

verus! {

/// One entry of an edit script with its 1-based line number and the line's
/// text. `Match` and `Delete` count lines in the old text, `Insert` in the
/// new one.
#[derive(Debug, PartialEq)]
pub enum Diff {
    Match((usize, String)),
    Insert((usize, String)),
    Delete((usize, String)),
}

impl View for Diff {
    type V = Edit;

    open spec fn view(&self) -> Edit {
        match self {
            Diff::Match(entry) => Edit::Match { line: entry.0 as int, text: entry.1@ },
            Diff::Insert(entry) => Edit::Insert { line: entry.0 as int, text: entry.1@ },
            Diff::Delete(entry) => Edit::Delete { line: entry.0 as int, text: entry.1@ },
        }
    }
}

/// The views of a vector of script entries.
pub open spec fn edits_of(v: Seq<Diff>) -> Seq<Edit> {
    Seq::new(v.len(), |i: int| v[i]@)
}

/// How one entry is written: the line number, a space and the text; an
/// inserted line after `+ `, a deleted one after `- `, a matching one bare.
pub open spec fn rendered_edit(e: Edit) -> Seq<char> {
    match e {
        Edit::Match { line, text } => decimal(line as nat) + seq![' '] + text,
        Edit::Insert { line, text } => seq!['+', ' '] + decimal(line as nat) + seq![' '] + text,
        Edit::Delete { line, text } => seq!['-', ' '] + decimal(line as nat) + seq![' '] + text,
    }
}

impl Diff {
    /// Appends the written form of this entry to `out`.
    pub fn write_to(&self, out: &mut String)
        ensures
            final(out)@ == old(out)@ + rendered_edit(self@),
    {
        match self {
            Diff::Match(entry) => {
                push_decimal(out, entry.0);
                out.push(' ');
                out.append(entry.1.as_str());
            },
            Diff::Insert(entry) => {
                out.push('+');
                out.push(' ');
                push_decimal(out, entry.0);
                out.push(' ');
                out.append(entry.1.as_str());
            },
            Diff::Delete(entry) => {
                out.push('-');
                out.push(' ');
                push_decimal(out, entry.0);
                out.push(' ');
                out.append(entry.1.as_str());
            },
        }
        assert(out@ == old(out)@ + rendered_edit(self@));
    }

    /// The written form of this entry.
    pub fn to_string(&self) -> (s: String)
        ensures
            s@ == rendered_edit(self@),
    {
        let mut s = String::new();
        self.write_to(&mut s);
        assert(s@ == rendered_edit(self@));
        s
    }
}

/// An array of reached positions indexed by diagonal, which may be negative.
pub struct SignedArray {
    pos_arr: Vec<i128>,
    neg_arr: Vec<i128>,
}

impl SignedArray {
    /// Both halves have the same, positive length.
    pub closed spec fn wf(&self) -> bool {
        self.pos_arr.len() == self.neg_arr.len() && 1 <= self.pos_arr.len()
    }

    /// The largest index, and the negation of the smallest.
    pub closed spec fn reach(&self) -> int {
        self.pos_arr.len() - 1
    }

    /// The value stored at `idx`.
    pub closed spec fn at(&self, idx: int) -> i128 {
        if idx < 0 {
            self.neg_arr@[-idx]
        } else {
            self.pos_arr@[idx]
        }
    }

    /// An array for the indices `-length..=length`, every entry -1.
    pub fn new(length: usize) -> (r: Self)
        ensures
            r.wf(),
            r.reach() == length,
            forall|idx: int| -length <= idx <= length ==> #[trigger] r.at(idx) == -1,
    {
        let mut pos_arr: Vec<i128> = Vec::new();
        let mut neg_arr: Vec<i128> = Vec::new();
        while pos_arr.len() <= length
            invariant
                pos_arr.len() == neg_arr.len(),
                pos_arr.len() <= length + 1,
                forall|i: int| 0 <= i < pos_arr.len() ==> pos_arr@[i] == -1 && neg_arr@[i] == -1,
            decreases length + 1 - pos_arr.len(),
        {
            pos_arr.push(-1);
            neg_arr.push(-1);
        }
        Self { pos_arr, neg_arr }
    }

    /// Stores `value` at `idx` and leaves every other entry as it was.
    pub fn set(&mut self, idx: i128, value: i128)
        requires
            old(self).wf(),
            -old(self).reach() <= idx <= old(self).reach(),
        ensures
            final(self).wf(),
            final(self).reach() == old(self).reach(),
            final(self).at(idx as int) == value,
            forall|j: int|
                -old(self).reach() <= j <= old(self).reach() && j != idx
                    ==> #[trigger] final(self).at(j) == old(self).at(j),
    {
        if idx < 0 {
            self.neg_arr[(-idx) as usize] = value;
        } else {
            self.pos_arr[idx as usize] = value;
        }
    }

    /// The value stored at `idx`.
    pub fn get(&self, idx: i128) -> (value: i128)
        requires
            self.wf(),
            -self.reach() <= idx <= self.reach(),
        ensures
            value == self.at(idx as int),
    {
        if idx < 0 {
            self.neg_arr[(-idx) as usize]
        } else {
            self.pos_arr[idx as usize]
        }
    }
}

/// Position of the first line equal to `line` at or after `from`, or
/// `lines.len()` when there is none.
pub open spec fn first_occurrence(lines: Seq<Seq<char>>, line: Seq<char>, from: int) -> int
    decreases lines.len() - from,
{
    if from >= lines.len() {
        lines.len() as int
    } else if lines[from] == line {
        from
    } else {
        first_occurrence(lines, line, from + 1)
    }
}

/// Whether position `i` holds a line that no earlier position holds.
pub open spec fn is_first(lines: Seq<Seq<char>>, i: int) -> bool {
    first_occurrence(lines, lines[i], 0) == i
}

/// The number of distinct lines among the first `i`.
pub open spec fn distinct_before(lines: Seq<Seq<char>>, i: int) -> nat
    decreases i,
{
    if i <= 0 {
        0
    } else {
        distinct_before(lines, i - 1) + if is_first(lines, i - 1) {
            1nat
        } else {
            0nat
        }
    }
}

/// The id of the line at position `i`: ids are handed out in the order in
/// which distinct lines are first seen, starting at 0.
pub open spec fn line_id(lines: Seq<Seq<char>>, i: int) -> nat {
    distinct_before(lines, first_occurrence(lines, lines[i], 0))
}

/// The ids of the `count` lines from position `from` on.
pub open spec fn ids_in(lines: Seq<Seq<char>>, from: int, count: nat) -> Seq<usize> {
    Seq::new(count, |i: int| line_id(lines, from + i) as usize)
}

/// Whether every id is small enough for a `usize`.
pub open spec fn ids_fit(lines: Seq<Seq<char>>) -> bool {
    forall|i: int| 0 <= i < lines.len() ==> #[trigger] line_id(lines, i) <= usize::MAX
}

/// An id is at most the position of the line that carries it.
pub proof fn lemma_line_id_bound(lines: Seq<Seq<char>>, i: int)
    requires
        0 <= i < lines.len(),
    ensures
        line_id(lines, i) <= i,
{
    lemma_first_occurrence(lines, lines[i], 0);
    lemma_distinct_before_bound(lines, first_occurrence(lines, lines[i], 0));
}

proof fn lemma_distinct_before_bound(lines: Seq<Seq<char>>, i: int)
    requires
        0 <= i,
    ensures
        distinct_before(lines, i) <= i,
    decreases i,
{
    if i > 0 {
        lemma_distinct_before_bound(lines, i - 1);
    }
}

/// `first_occurrence` finds `line` and nothing equal to it earlier.
pub proof fn lemma_first_occurrence(lines: Seq<Seq<char>>, line: Seq<char>, from: int)
    requires
        0 <= from <= lines.len(),
    ensures
        from <= first_occurrence(lines, line, from) <= lines.len(),
        first_occurrence(lines, line, from) < lines.len() ==> lines[first_occurrence(
            lines,
            line,
            from,
        )] == line,
        forall|j: int| from <= j < first_occurrence(lines, line, from) ==> lines[j] != line,
    decreases lines.len() - from,
{
    if from < lines.len() && lines[from] != line {
        lemma_first_occurrence(lines, line, from + 1);
    }
}

/// The number of distinct lines does not shrink as more lines are counted.
pub proof fn lemma_distinct_before_monotone(lines: Seq<Seq<char>>, i: int, j: int)
    requires
        i <= j,
    ensures
        distinct_before(lines, i) <= distinct_before(lines, j),
    decreases j - i,
{
    if i < j {
        lemma_distinct_before_monotone(lines, i, j - 1);
    }
}

/// Two positions have the same id exactly when they hold the same line.
pub proof fn lemma_line_id_injective(lines: Seq<Seq<char>>, i: int, j: int)
    requires
        0 <= i < lines.len(),
        0 <= j < lines.len(),
    ensures
        line_id(lines, i) == line_id(lines, j) <==> lines[i] == lines[j],
{
    let fi = first_occurrence(lines, lines[i], 0);
    let fj = first_occurrence(lines, lines[j], 0);
    lemma_first_occurrence(lines, lines[i], 0);
    lemma_first_occurrence(lines, lines[j], 0);
    if lines[i] != lines[j] {
        assert(is_first(lines, fi));
        assert(is_first(lines, fj));
        if fi < fj {
            lemma_distinct_before_monotone(lines, fi + 1, fj);
        } else {
            lemma_distinct_before_monotone(lines, fj + 1, fi);
        }
    }
}

/// A sequence of lines with an integer id for each, so that two lines are
/// equal exactly when their ids are.
pub struct LineSequence {
    hashes: Vec<usize>,
    lines: Vec<String>,
}

impl LineSequence {
    #[verifier::type_invariant]
    spec fn inv(self) -> bool {
        self.hashes.len() == self.lines.len()
    }

    /// The ids of the lines.
    pub closed spec fn ids(&self) -> Seq<usize> {
        self.hashes@
    }

    /// The texts of the lines.
    pub closed spec fn line_texts(&self) -> Seq<Seq<char>> {
        texts(self.lines@)
    }

    /// The number of lines.
    pub open spec fn spec_len(&self) -> nat {
        self.ids().len()
    }

    /// Splits both texts into lines and gives every distinct line an id, in
    /// the order in which the lines are first seen in the old text followed
    /// by the new one.
    pub fn from_lines(old_text: &str, new_text: &str) -> (r: (Self, Self))
        ensures
            r.0.line_texts() == lines_of(old_text@),
            r.1.line_texts() == lines_of(new_text@),
            r.0.ids() == ids_in(lines_of(old_text@) + lines_of(new_text@), 0, lines_of(old_text@).len()),
            r.1.ids() == ids_in(
                lines_of(old_text@) + lines_of(new_text@),
                lines_of(old_text@).len() as int,
                lines_of(new_text@).len(),
            ),
            ids_fit(lines_of(old_text@) + lines_of(new_text@)),
    {
        let lines1 = split_lines(old_text);
        let lines2 = split_lines(new_text);
        let ghost all = lines_of(old_text@) + lines_of(new_text@);
        let mut table: Vec<String> = Vec::new();
        let (hashes1, origin1) = intern(&lines1, &mut table, Ghost(all), Ghost(0), Ghost(Seq::empty()));
        let (hashes2, _) = intern(
            &lines2,
            &mut table,
            Ghost(all),
            Ghost(lines1@.len() as int),
            origin1,
        );
        proof {
            let n = lines_of(old_text@).len();
            assert(hashes1@ == ids_in(all, 0, n));
            assert(hashes2@ == ids_in(all, n as int, lines_of(new_text@).len()));
            assert forall|i: int| 0 <= i < all.len() implies line_id(all, i) <= usize::MAX by {
                if i < n {
                    assert(hashes1@[i] as nat == line_id(all, i));
                } else {
                    assert(hashes2@[i - n] as nat == line_id(all, n + (i - n)));
                }
            }
        }
        (Self { hashes: hashes1, lines: lines1 }, Self { hashes: hashes2, lines: lines2 })
    }

    /// The number of lines.
    pub fn len(&self) -> (n: usize)
        ensures
            n == self.spec_len(),
    {
        self.hashes.len()
    }
}

/// What the table of distinct lines holds once the first `done` lines of
/// `all` have their ids.
spec fn table_matches(all: Seq<Seq<char>>, done: int, table: Seq<String>, origin: Seq<int>) -> bool {
    &&& 0 <= done <= all.len()
    &&& table.len() == distinct_before(all, done)
    &&& origin.len() == table.len()
    &&& forall|t: int|
        0 <= t < table.len() ==> 0 <= #[trigger] origin[t] < done && is_first(all, origin[t])
            && distinct_before(all, origin[t]) == t && all[origin[t]] == table[t]@
    &&& forall|j: int|
        0 <= j < done ==> line_id(all, j) < table.len() && table[line_id(all, j) as int]@
            == #[trigger] all[j]
}

/// Gives the lines `all[base..base + lines.len()]` their ids, extending the
/// table of distinct lines seen so far.
fn intern(
    lines: &Vec<String>,
    table: &mut Vec<String>,
    Ghost(all): Ghost<Seq<Seq<char>>>,
    Ghost(base): Ghost<int>,
    Ghost(seen): Ghost<Seq<int>>,
) -> (r: (Vec<usize>, Ghost<Seq<int>>))
    requires
        0 <= base,
        base + lines@.len() <= all.len(),
        forall|i: int| 0 <= i < lines@.len() ==> lines@[i]@ == all[base + i],
        table_matches(all, base, old(table)@, seen),
    ensures
        r.0@.len() == lines@.len(),
        forall|i: int| 0 <= i < r.0@.len() ==> r.0@[i] as nat == line_id(all, base + i),
        table_matches(all, base + lines@.len(), final(table)@, r.1@),
{
    let mut ids: Vec<usize> = Vec::new();
    let ghost mut origin = seen;
    let mut i: usize = 0;
    while i < lines.len()
        invariant
            0 <= base,
            base + lines@.len() <= all.len(),
            forall|j: int| 0 <= j < lines@.len() ==> lines@[j]@ == all[base + j],
            i <= lines.len(),
            ids@.len() == i,
            forall|j: int| 0 <= j < i ==> ids@[j] as nat == line_id(all, base + j),
            table_matches(all, base + i, table@, origin),
        decreases lines.len() - i,
    {
        let line = &lines[i];
        let ghost pos = base + i;
        let mut t: usize = 0;
        while t < table.len() && table[t] != *line
            invariant
                t <= table.len(),
                forall|s: int| 0 <= s < t ==> table@[s]@ != line@,
            decreases table.len() - t,
        {
            t += 1;
        }
        proof {
            lemma_first_occurrence(all, all[pos], 0);
            let f = first_occurrence(all, all[pos], 0);
            if t < table.len() {
                let o = origin[t as int];
                assert(all[o] == all[pos]);
                if f < o {
                    assert(table@[line_id(all, f) as int]@ == all[f]);
                    assert(line_id(all, f) == distinct_before(all, f));
                    lemma_distinct_before_monotone(all, f + 1, o);
                    assert(is_first(all, f));
                }
                assert(f == o);
                assert(line_id(all, pos) == t);
                assert(!is_first(all, pos));
            } else {
                if f < pos {
                    assert(table@[line_id(all, f) as int]@ == all[f]);
                }
                assert(is_first(all, pos));
                assert(line_id(all, pos) == table.len());
            }
        }
        if t == table.len() {
            table.push(line.clone());
            proof {
                origin = origin.push(pos);
            }
        }
        ids.push(t);
        proof {
            assert forall|j: int| 0 <= j < pos + 1 implies line_id(all, j) < table@.len()
                && table@[line_id(all, j) as int]@ == #[trigger] all[j] by {
                if j == pos {
                } else {
                    assert(all[j] == all[j]);
                }
            }
        }
        i += 1;
    }
    (ids, Ghost(origin))
}

/// All differences between two line sequences, in the order of the texts.
#[derive(Debug)]
pub struct DiffsManager {
    pub diffs: Vec<Diff>,
}

/// Whether `t` holds what round `d` reaches on each of its diagonals.
pub open spec fn records_round(t: SignedArray, a: Seq<usize>, b: Seq<usize>, d: int) -> bool {
    &&& t.wf()
    &&& t.reach() == d
    &&& forall|k: int| in_round(d, k) ==> (#[trigger] t.at(k)) as int == furthest(a, b, d, k)
}

/// Whether `trace` holds the rounds `0..rounds`.
pub open spec fn records_rounds(
    trace: Seq<SignedArray>,
    a: Seq<usize>,
    b: Seq<usize>,
    rounds: int,
) -> bool {
    &&& trace.len() == rounds
    &&& forall|e: int| 0 <= e < rounds ==> records_round(#[trigger] trace[e], a, b, e)
}

/// Whether both sequences are as long as sequences in memory can be.
spec fn in_memory(a: Seq<usize>, b: Seq<usize>) -> bool {
    a.len() <= usize::MAX && b.len() <= usize::MAX
}

fn enters_from_above(
    prev: &SignedArray,
    d: i128,
    k: i128,
    Ghost(a): Ghost<Seq<usize>>,
    Ghost(b): Ghost<Seq<usize>>,
) -> (r: bool)
    requires
        1 <= d <= usize::MAX,
        in_round(d as int, k as int),
        records_round(*prev, a, b, d - 1),
    ensures
        r == from_above(a, b, d as int, k as int),
{
    if k == -d {
        true
    } else if k == d {
        false
    } else {
        assert(in_round(d - 1, k - 1));
        assert(in_round(d - 1, k + 1));
        prev.get(k - 1) < prev.get(k + 1)
    }
}

fn entry_point(
    prev: &SignedArray,
    d: i128,
    k: i128,
    Ghost(a): Ghost<Seq<usize>>,
    Ghost(b): Ghost<Seq<usize>>,
) -> (r: (bool, i128))
    requires
        1 <= d <= usize::MAX,
        in_round(d as int, k as int),
        records_round(*prev, a, b, d - 1),
        in_memory(a, b),
    ensures
        r.0 == from_above(a, b, d as int, k as int),
        r.1 == furthest(a, b, d - 1, previous_diagonal(a, b, d as int, k as int)),
        in_round(d - 1, previous_diagonal(a, b, d as int, k as int)),
        0 <= r.1 <= a.len() + d - 1,
{
    let above = enters_from_above(prev, d, k, Ghost(a), Ghost(b));
    proof {
        lemma_round_bounds(a, b, d as int, k as int);
        lemma_round_bounds(a, b, d - 1, previous_diagonal(a, b, d as int, k as int));
    }
    if above {
        (above, prev.get(k + 1))
    } else {
        (above, prev.get(k - 1))
    }
}

impl DiffsManager {
    /// The edit script from `seq1` to `seq2`, found by the greedy search for
    /// the furthest-reaching paths with 0, 1, 2, .. edits.
    pub fn from_myers_algorithm(seq1: LineSequence, seq2: LineSequence) -> (r: DiffsManager)
        ensures
            edits_of(r.diffs@) == myers_script(
                seq1.ids(),
                seq2.ids(),
                seq1.line_texts(),
                seq2.line_texts(),
            ),
    {
        let trace = forward_search(&seq1, &seq2);
        let mut reversed = backtrack(&seq1, &seq2, &trace);
        let ghost target = myers_script(
            seq1.ids(),
            seq2.ids(),
            seq1.line_texts(),
            seq2.line_texts(),
        );
        let ghost backward = edits_of(reversed@);
        let mut diffs: Vec<Diff> = Vec::new();
        while reversed.len() > 0
            invariant
                backward.len() == target.len(),
                forall|i: int|
                    0 <= i < backward.len() ==> backward[i] == target[target.len() - 1 - i],
                reversed@.len() + diffs@.len() == target.len(),
                edits_of(reversed@) == backward.subrange(0, reversed@.len() as int),
                edits_of(diffs@) == target.subrange(0, diffs@.len() as int),
            decreases reversed.len(),
        {
            let ghost before = reversed@;
            let ghost done = diffs@;
            let entry = reversed.pop();
            match entry {
                Some(diff) => {
                    proof {
                        let i = before.len() - 1;
                        assert(diff@ == edits_of(before)[i]);
                        assert(diff@ == backward[i]);
                    }
                    diffs.push(diff);
                    proof {
                        assert(edits_of(diffs@) == edits_of(done).push(diff@));
                        assert(edits_of(reversed@) == backward.subrange(
                            0,
                            reversed@.len() as int,
                        )) by {
                            assert forall|i: int| 0 <= i < reversed@.len() implies edits_of(
                                reversed@,
                            )[i] == backward[i] by {
                                assert(edits_of(before)[i] == backward[i]);
                            }
                        }
                    }
                },
                None => {},
            }
        }
        assert(edits_of(diffs@) == target);
        DiffsManager { diffs }
    }
}

/// Runs the rounds of the search until one ends in the corner, and returns
/// what the rounds before it reached.
fn forward_search(seq1: &LineSequence, seq2: &LineSequence) -> (trace: Vec<SignedArray>)
    ensures
        trace@.len() == edit_distance(seq1.ids(), seq2.ids()),
        records_rounds(trace@, seq1.ids(), seq2.ids(), edit_distance(seq1.ids(), seq2.ids())),
        corner_reached(seq1.ids(), seq2.ids(), edit_distance(seq1.ids(), seq2.ids())),
        edit_distance(seq1.ids(), seq2.ids()) <= seq1.spec_len() + seq2.spec_len(),
{
    let ghost a = seq1.ids();
    let ghost b = seq2.ids();
    let mut trace: Vec<SignedArray> = Vec::new();
    let mut found = false;
    while !found
        invariant
            a == seq1.ids(),
            b == seq2.ids(),
            trace@.len() <= a.len() + b.len(),
            records_rounds(trace@, a, b, trace@.len() as int),
            no_hit_before(a, b, trace@.len() as int),
            found ==> corner_reached(a, b, trace@.len() as int),
        decreases a.len() + b.len() - trace@.len() + (if found { 0int } else { 1int }),
    {
        let d = trace.len();
        let (row, hit) = run_round(seq1, seq2, &trace, d);
        if hit {
            found = true;
        } else {
            proof {
                if d == a.len() + b.len() {
                    lemma_last_round_hits(a, b);
                }
                assert forall|e: int, k: int| 0 <= e < d + 1 && in_round(e, k) implies !#[trigger] hits(
                    a,
                    b,
                    e,
                    k,
                ) by {}
            }
            let ghost before = trace@;
            trace.push(row);
            proof {
                assert forall|e: int| 0 <= e < d + 1 implies records_round(
                    #[trigger] trace@[e],
                    a,
                    b,
                    e,
                ) by {
                    if e < d {
                        assert(trace@[e] == before[e]);
                    }
                }
            }
        }
    }
    proof {
        lemma_distance_skip(a, b, 0, trace@.len() as int);
    }
    trace
}

/// Computes round `d` from the rounds before it. The flag says whether the
/// round ended in the corner; if it did not, the array holds the whole round.
fn run_round(seq1: &LineSequence, seq2: &LineSequence, trace: &Vec<SignedArray>, d: usize) -> (r: (
    SignedArray,
    bool,
))
    requires
        d <= seq1.spec_len() + seq2.spec_len(),
        records_rounds(trace@, seq1.ids(), seq2.ids(), d as int),
        no_hit_before(seq1.ids(), seq2.ids(), d as int),
    ensures
        r.1 ==> corner_reached(seq1.ids(), seq2.ids(), d as int),
        !r.1 ==> records_round(r.0, seq1.ids(), seq2.ids(), d as int),
        !r.1 ==> forall|k: int|
            in_round(d as int, k) ==> !#[trigger] hits(seq1.ids(), seq2.ids(), d as int, k),
{
    let ghost a = seq1.ids();
    let ghost b = seq2.ids();
    let n = seq1.hashes.len();
    let m = seq2.hashes.len();
    let old_len: i128 = n as i128;
    let new_len: i128 = m as i128;
    let round: i128 = d as i128;
    let mut row = SignedArray::new(d);
    let mut k: i128 = -round;
    let mut found = false;
    while !found && k <= round
        invariant
            a == seq1.ids(),
            b == seq2.ids(),
            a == seq1.hashes@,
            b == seq2.hashes@,
            n == a.len(),
            m == b.len(),
            old_len == n,
            new_len == m,
            round == d,
            d <= n + m,
            records_rounds(trace@, a, b, d as int),
            no_hit_before(a, b, d as int),
            -d <= k <= d + 2,
            (d + k) % 2 == 0,
            row.wf(),
            row.reach() == d,
            forall|j: int|
                in_round(d as int, j) && j < k ==> (#[trigger] row.at(j)) as int == furthest(
                    a,
                    b,
                    d as int,
                    j,
                ),
            forall|j: int| in_round(d as int, j) && j < k ==> !#[trigger] hits(a, b, d as int, j),
            found ==> corner_reached(a, b, d as int),
        decreases d + 2 - k + (if found { 0int } else { 1int }),
    {
        assert(in_round(d as int, k as int));
        proof {
            lemma_round_bounds(a, b, d as int, k as int);
        }
        let start: i128 = if d == 0 {
            0
        } else {
            let prev = &trace[d - 1];
            let (above, reached) = entry_point(prev, round, k, Ghost(a), Ghost(b));
            if above {
                reached
            } else {
                reached + 1
            }
        };
        assert(start == start_x(a, b, d as int, k as int));
        let mut x: i128 = start;
        let mut y: i128 = start - k;
        while x < old_len && y < new_len && seq1.hashes[x as usize] == seq2.hashes[y as usize]
            invariant
                a == seq1.hashes@,
                b == seq2.hashes@,
                n == a.len(),
                m == b.len(),
                old_len == n,
                new_len == m,
                0 <= x,
                0 <= y,
                x - y == k,
                snake_end(a, b, x as int, y as int) == furthest(a, b, d as int, k as int),
            decreases n - x,
        {
            x += 1;
            y += 1;
        }
        assert(x == furthest(a, b, d as int, k as int));
        let ghost before = row;
        row.set(k, x);
        if x >= old_len && y >= new_len {
            proof {
                assert(hits(a, b, d as int, k as int));
                lemma_first_hit_is_corner(a, b, d as int, k as int);
            }
            found = true;
        } else {
            proof {
                assert forall|j: int| in_round(d as int, j) && j < k + 2 implies (#[trigger] row.at(
                    j,
                )) as int == furthest(a, b, d as int, j) by {
                    if j != k {
                        assert(j < k);
                        assert(row.at(j) == before.at(j));
                    }
                }
                assert forall|j: int| in_round(d as int, j) && j < k + 2 implies !#[trigger] hits(
                    a,
                    b,
                    d as int,
                    j,
                ) by {
                    if j != k {
                        assert(j < k);
                    }
                }
            }
            k += 2;
        }
    }
    (row, found)
}

/// Walks back from the corner through the recorded rounds and collects the
/// script's entries, last entry first.
fn backtrack(seq1: &LineSequence, seq2: &LineSequence, trace: &Vec<SignedArray>) -> (edits: Vec<
    Diff,
>)
    requires
        edit_distance(seq1.ids(), seq2.ids()) <= seq1.spec_len() + seq2.spec_len(),
        records_rounds(trace@, seq1.ids(), seq2.ids(), edit_distance(seq1.ids(), seq2.ids())),
        corner_reached(seq1.ids(), seq2.ids(), edit_distance(seq1.ids(), seq2.ids())),
    ensures
        edits@.len() == myers_script(
            seq1.ids(),
            seq2.ids(),
            seq1.line_texts(),
            seq2.line_texts(),
        ).len(),
        forall|i: int|
            0 <= i < edits@.len() ==> edits_of(edits@)[i] == myers_script(
                seq1.ids(),
                seq2.ids(),
                seq1.line_texts(),
                seq2.line_texts(),
            )[edits@.len() - 1 - i],
{
    proof {
        use_type_invariant(seq1);
        use_type_invariant(seq2);
    }
    let ghost a = seq1.ids();
    let ghost b = seq2.ids();
    let ghost la = seq1.line_texts();
    let ghost lb = seq2.line_texts();
    let ghost target = myers_script(a, b, la, lb);
    let ghost total = edit_distance(a, b);
    let n = seq1.hashes.len();
    let m = seq2.hashes.len();
    let mut x: usize = n;
    let mut y: usize = m;
    let mut d: usize = trace.len();
    let mut edits: Vec<Diff> = Vec::new();
    while d > 0
        invariant
            a == seq1.ids(),
            b == seq2.ids(),
            la == seq1.line_texts(),
            lb == seq2.line_texts(),
            la == texts(seq1.lines@),
            lb == texts(seq2.lines@),
            la.len() == n,
            lb.len() == m,
            n == a.len(),
            m == b.len(),
            target == myers_script(a, b, la, lb),
            total == edit_distance(a, b),
            total <= n + m,
            records_rounds(trace@, a, b, total),
            d <= total,
            x <= n,
            y <= m,
            in_round(d as int, x - y),
            x == furthest(a, b, d as int, x - y),
            edits@.len() <= target.len(),
            target.subrange(0, target.len() - edits@.len()) == path_script(
                a,
                b,
                la,
                lb,
                d as int,
                x - y,
            ),
            forall|i: int|
                0 <= i < edits@.len() ==> edits_of(edits@)[i] == target[target.len() - 1 - i],
        decreases d,
    {
        let k: i128 = x as i128 - y as i128;
        let prev = &trace[d - 1];
        let (above, reached) = entry_point(prev, d as i128, k, Ghost(a), Ghost(b));
        let ghost start = start_x(a, b, d as int, k as int);
        let ghost pk = previous_diagonal(a, b, d as int, k as int);
        let ghost before_path = path_script(a, b, la, lb, d - 1, pk).push(
            entering_edit(a, b, la, lb, d as int, k as int),
        );
        proof {
            lemma_round_bounds(a, b, d as int, k as int);
        }
        let prev_x: usize = reached as usize;
        let prev_y: usize = if above {
            (reached - k - 1) as usize
        } else {
            (reached - k + 1) as usize
        };
        proof {
            lemma_round_bounds(a, b, d - 1, pk);
        }
        while x > prev_x && y > prev_y
            invariant
                la == texts(seq1.lines@),
                la.len() == n,
                x <= n,
                y <= m,
                x - y == k,
                start <= x,
                start == (if above {
                    prev_x as int
                } else {
                    prev_x + 1
                }),
                prev_y == prev_x - pk,
                pk == (if above {
                    k + 1
                } else {
                    k - 1
                }),
                edits@.len() <= target.len(),
                target.subrange(0, target.len() - edits@.len()) == before_path + matched(
                    la,
                    start,
                    x as int,
                ),
                forall|i: int|
                    0 <= i < edits@.len() ==> edits_of(edits@)[i] == target[target.len() - 1 - i],
            decreases x,
        {
            let ghost emitted = edits@;
            let ghost rest = target.subrange(0, target.len() - edits@.len());
            let entry = Diff::Match((x, seq1.lines[x - 1].clone()));
            proof {
                assert(rest.len() == before_path.len() + (x - start));
                assert(rest[rest.len() - 1] == matched(la, start, x as int)[x - start - 1]);
                assert(entry@ == target[target.len() - 1 - emitted.len()]);
            }
            edits.push(entry);
            x -= 1;
            y -= 1;
            proof {
                assert(target.subrange(0, target.len() - edits@.len()) == before_path + matched(
                    la,
                    start,
                    x as int,
                )) by {
                    let shorter = target.subrange(0, target.len() - edits@.len());
                    assert(shorter == rest.subrange(0, rest.len() - 1));
                }
                assert forall|i: int| 0 <= i < edits@.len() implies edits_of(edits@)[i]
                    == target[target.len() - 1 - i] by {
                    if i < emitted.len() {
                        assert(edits_of(emitted)[i] == target[target.len() - 1 - i]);
                    }
                }
            }
        }
        assert(x == start);
        let ghost emitted = edits@;
        let ghost rest = target.subrange(0, target.len() - edits@.len());
        proof {
            assert(matched(la, start, x as int).len() == 0);
            assert(rest == before_path);
            assert(rest[rest.len() - 1] == entering_edit(a, b, la, lb, d as int, k as int));
        }
        if x == prev_x {
            let entry = Diff::Insert((y, seq2.lines[y - 1].clone()));
            assert(entry@ == entering_edit(a, b, la, lb, d as int, k as int));
            edits.push(entry);
            y -= 1;
        } else {
            let entry = Diff::Delete((x, seq1.lines[x - 1].clone()));
            assert(entry@ == entering_edit(a, b, la, lb, d as int, k as int));
            edits.push(entry);
            x -= 1;
        }
        d -= 1;
        proof {
            assert(target.subrange(0, target.len() - edits@.len()) == path_script(
                a,
                b,
                la,
                lb,
                d as int,
                pk,
            )) by {
                let shorter = target.subrange(0, target.len() - edits@.len());
                assert(shorter == rest.subrange(0, rest.len() - 1));
            }
            assert forall|i: int| 0 <= i < edits@.len() implies edits_of(edits@)[i]
                == target[target.len() - 1 - i] by {
                if i < emitted.len() {
                    assert(edits_of(emitted)[i] == target[target.len() - 1 - i]);
                }
            }
        }
    }
    proof {
        lemma_round_bounds(a, b, 0, x - y);
    }
    while x > 0 && y > 0
        invariant
            la == texts(seq1.lines@),
            la.len() == n,
            x <= n,
            x == y,
            edits@.len() <= target.len(),
            target.subrange(0, target.len() - edits@.len()) == matched(la, 0, x as int),
            forall|i: int|
                0 <= i < edits@.len() ==> edits_of(edits@)[i] == target[target.len() - 1 - i],
        decreases x,
    {
        let ghost emitted = edits@;
        let ghost rest = target.subrange(0, target.len() - edits@.len());
        let entry = Diff::Match((x, seq1.lines[x - 1].clone()));
        proof {
            assert(rest.len() == x);
            assert(rest[rest.len() - 1] == matched(la, 0, x as int)[x - 1]);
            assert(entry@ == target[target.len() - 1 - emitted.len()]);
        }
        edits.push(entry);
        x -= 1;
        y -= 1;
        proof {
            assert(target.subrange(0, target.len() - edits@.len()) == matched(la, 0, x as int)) by {
                let shorter = target.subrange(0, target.len() - edits@.len());
                assert(shorter == rest.subrange(0, rest.len() - 1));
            }
            assert forall|i: int| 0 <= i < edits@.len() implies edits_of(edits@)[i]
                == target[target.len() - 1 - i] by {
                if i < emitted.len() {
                    assert(edits_of(emitted)[i] == target[target.len() - 1 - i]);
                }
            }
        }
    }
    proof {
        assert(target.subrange(0, target.len() - edits@.len()).len() == 0);
    }
    edits
}

/// The ids of the old lines when `old_text` and `new_text` are interned
/// together.
pub open spec fn old_ids(old_text: Seq<char>, new_text: Seq<char>) -> Seq<usize> {
    ids_in(lines_of(old_text) + lines_of(new_text), 0, lines_of(old_text).len())
}

/// The ids of the new lines when `old_text` and `new_text` are interned
/// together.
pub open spec fn new_ids(old_text: Seq<char>, new_text: Seq<char>) -> Seq<usize> {
    ids_in(
        lines_of(old_text) + lines_of(new_text),
        lines_of(old_text).len() as int,
        lines_of(new_text).len(),
    )
}

/// The edit script between the lines of two texts.
pub open spec fn text_script(old_text: Seq<char>, new_text: Seq<char>) -> Seq<Edit> {
    myers_script(
        old_ids(old_text, new_text),
        new_ids(old_text, new_text),
        lines_of(old_text),
        lines_of(new_text),
    )
}

impl DiffsManager {
    /// Whether the script holds an insertion or a deletion.
    pub fn has_changes(&self) -> (r: bool)
        ensures
            r == (edit_count(edits_of(self.diffs@)) > 0),
    {
        let ghost script = edits_of(self.diffs@);
        let mut i: usize = 0;
        while i < self.diffs.len()
            invariant
                i <= self.diffs.len(),
                script == edits_of(self.diffs@),
                edit_count(script.subrange(0, i as int)) == 0,
            decreases self.diffs.len() - i,
        {
            proof {
                let longer = script.subrange(0, i + 1);
                assert(longer.drop_last() == script.subrange(0, i as int));
                assert(longer.last() == self.diffs@[i as int]@);
                lemma_edit_count_of_beginning(script, i + 1);
            }
            match &self.diffs[i] {
                Diff::Match(_) => {},
                _ => {
                    return true;
                },
            }
            i += 1;
        }
        assert(script.subrange(0, i as int) == script);
        false
    }

    /// The edit script between the lines of two texts.
    pub fn from_texts(old_text: &str, new_text: &str) -> (r: DiffsManager)
        ensures
            edits_of(r.diffs@) == text_script(old_text@, new_text@),
            ids_fit(lines_of(old_text@) + lines_of(new_text@)),
    {
        let (seq1, seq2) = LineSequence::from_lines(old_text, new_text);
        DiffsManager::from_myers_algorithm(seq1, seq2)
    }
}

/// When two texts are interned together, an old and a new line have the same
/// id exactly when they are the same line.
pub proof fn law_ids_stand_for_lines(old_text: Seq<char>, new_text: Seq<char>)
    requires
        ids_fit(lines_of(old_text) + lines_of(new_text)),
    ensures
        ids_stand_for_lines(
            old_ids(old_text, new_text),
            new_ids(old_text, new_text),
            lines_of(old_text),
            lines_of(new_text),
        ),
{
    let lo = lines_of(old_text);
    let ln = lines_of(new_text);
    let all = lo + ln;
    let a = old_ids(old_text, new_text);
    let b = new_ids(old_text, new_text);
    assert forall|i: int, j: int| 0 <= i < a.len() && 0 <= j < b.len() implies (a[i] == b[j]
        <==> lo[i] == ln[j]) by {
        lemma_line_id_injective(all, i, lo.len() + j);
        assert(line_id(all, i) <= usize::MAX);
        assert(line_id(all, lo.len() + j) <= usize::MAX);
        assert(all[i] == lo[i]);
        assert(all[lo.len() + j] == ln[j]);
    }
}

/// The script between two texts whose lines can be numbered, as those of any
/// two texts in memory can, transforms the lines of the old text into those
/// of the new one, and no script does so with fewer insertions and
/// deletions.
pub proof fn law_text_script_is_shortest_transformation(
    old_text: Seq<char>,
    new_text: Seq<char>,
    other: Seq<Edit>,
)
    requires
        ids_fit(lines_of(old_text) + lines_of(new_text)),
    ensures
        transforms(text_script(old_text, new_text), lines_of(old_text), lines_of(new_text)),
        transforms(other, lines_of(old_text), lines_of(new_text)) ==> edit_count(
            text_script(old_text, new_text),
        ) <= edit_count(other),
{
    law_ids_stand_for_lines(old_text, new_text);
    let a = old_ids(old_text, new_text);
    let b = new_ids(old_text, new_text);
    law_script_transforms(a, b, lines_of(old_text), lines_of(new_text));
    if transforms(other, lines_of(old_text), lines_of(new_text)) {
        law_script_is_shortest(a, b, lines_of(old_text), lines_of(new_text), other);
    }
}

/// The script between a text and itself holds one `Match` entry per line, in
/// the order of the lines, and nothing else.
pub proof fn law_identical_texts_match(text: Seq<char>)
    ensures
        text_script(text, text) == matched(lines_of(text), 0, lines_of(text).len() as int),
{
    let lines = lines_of(text);
    let all = lines + lines;
    let a = old_ids(text, text);
    let b = new_ids(text, text);
    assert forall|i: int| 0 <= i < lines.len() implies a[i] == b[i] by {
        lemma_line_id_injective(all, i, lines.len() + i);
    }
    assert(a == b);
    law_identical_sequences_match(a, b, lines, lines);
}

/// A range of lines in a file. `end == 0` stands for the end of the file.
#[derive(Debug, Clone, Copy)]
pub struct Range {
    pub start: usize,
    pub end: usize,
}

/// A number, or `fallback` where there is none.
pub open spec fn number_or(parsed: Option<usize>, fallback: usize) -> usize {
    match parsed {
        Some(n) => n,
        None => fallback,
    }
}

/// The range that a file argument `path:start[-end]` names. The range is
/// what follows the first `:`. Where it holds a `-`, the numeral before the
/// first `-` is the start (1 where it is no numeral) and the one after it the
/// end (0 where it is none). Where it holds no `-`, the whole of it is the
/// start (1 where it is no numeral) and the range runs to the end of the
/// file. An argument without `:` names no range.
pub open spec fn range_of_arg(arg: Seq<char>) -> Option<(usize, usize)> {
    let colon = find_char(arg, ':', 0);
    let dash = find_char(arg, '-', colon + 1);
    if colon >= arg.len() {
        None
    } else if dash >= arg.len() {
        Some((number_or(parse_unsigned(arg.subrange(colon + 1, arg.len() as int)), 1), 0))
    } else {
        Some(
            (
                number_or(parse_unsigned(arg.subrange(colon + 1, dash)), 1),
                number_or(parse_unsigned(arg.subrange(dash + 1, arg.len() as int)), 0),
            ),
        )
    }
}

/// How a range is written: `:start-end`.
pub open spec fn rendered_range(start: usize, end: usize) -> Seq<char> {
    seq![':'] + decimal(start as nat) + seq!['-'] + decimal(end as nat)
}

impl Default for Range {
    fn default() -> (r: Self)
        ensures
            r.start == 1,
            r.end == 0,
    {
        Self { start: 1, end: 0 }
    }
}

impl Range {
    /// The range that a file argument names, if it names one.
    pub fn from_file_arg(arg: &str) -> (r: Option<Self>)
        ensures
            match r {
                Some(range) => range_of_arg(arg@) == Some((range.start, range.end)),
                None => range_of_arg(arg@) is None,
            },
    {
        let chars = chars_of(arg);
        let colon = find_char_from(&chars, ':', 0);
        if colon >= chars.len() {
            return None;
        }
        let dash = find_char_from(&chars, '-', colon + 1);
        if dash >= chars.len() {
            let start = match parse_unsigned_range(&chars, colon + 1, chars.len()) {
                Some(n) => n,
                None => 1,
            };
            return Some(Self { start, end: 0 });
        }
        let start = match parse_unsigned_range(&chars, colon + 1, dash) {
            Some(n) => n,
            None => 1,
        };
        let end = match parse_unsigned_range(&chars, dash + 1, chars.len()) {
            Some(n) => n,
            None => 0,
        };
        Some(Self { start, end })
    }

    /// The written form of this range: `:start-end`.
    pub fn to_string(&self) -> (s: String)
        ensures
            s@ == rendered_range(self.start, self.end),
    {
        let mut s = String::new();
        s.push(':');
        push_decimal(&mut s, self.start);
        s.push('-');
        push_decimal(&mut s, self.end);
        assert(s@ == rendered_range(self.start, self.end));
        s
    }
}

} // verus!
