use copilot_chat::diff::{Diff, DiffsManager, LineSequence, Range};

fn script(old_text: &str, new_text: &str) -> Vec<Diff> {
    let (seq1, seq2) = LineSequence::from_lines(old_text, new_text);
    DiffsManager::from_myers_algorithm(seq1, seq2).diffs
}

#[test]
fn test_myers() {
    let str1 = r#"hello, this is a test
and this is a Myers' Algorithm
hello world
Bye world
"#
    .to_string();

    let str2 = r#"bye, this is a test
and this is a Myers' Algorithm
hello earth
bye world
additional line
"#
    .to_string();

    let (seq1, seq2) = LineSequence::from_lines(&str1, &str2);
    let diffs = DiffsManager::from_myers_algorithm(seq1, seq2);

    let expected = vec![
        Diff::Delete((1, "hello, this is a test".to_string())),
        Diff::Insert((1, "bye, this is a test".to_string())),
        Diff::Match((2, "and this is a Myers' Algorithm".to_string())),
        Diff::Delete((3, "hello world".to_string())),
        Diff::Delete((4, "Bye world".to_string())),
        Diff::Insert((3, "hello earth".to_string())),
        Diff::Insert((4, "bye world".to_string())),
        Diff::Insert((5, "additional line".to_string())),
    ];

    assert_eq!(diffs.diffs.len(), expected.len());

    for (i, edit) in diffs.diffs.iter().enumerate() {
        assert_eq!(*edit, expected[i]);
    }
}

#[test]
fn extract_range() {
    let range = Range::from_file_arg("/path/to/file:20-30");

    assert!(range.is_some());
    let range = range.expect("valid range");
    assert_eq!(range.start, 20);
    assert_eq!(range.end, 30);
}

#[test]
fn identical_texts_give_one_match_per_line() {
    let text = "alpha\nbeta\ngamma\n";
    let expected = vec![
        Diff::Match((1, "alpha".to_string())),
        Diff::Match((2, "beta".to_string())),
        Diff::Match((3, "gamma".to_string())),
    ];
    assert_eq!(script(text, text), expected);
}

#[test]
fn empty_texts_give_an_empty_script() {
    assert_eq!(script("", ""), Vec::<Diff>::new());
}

#[test]
fn common_first_lines_are_matched() {
    let expected = vec![
        Diff::Match((1, "a".to_string())),
        Diff::Match((2, "b".to_string())),
        Diff::Delete((3, "c".to_string())),
        Diff::Insert((3, "d".to_string())),
        Diff::Match((4, "e".to_string())),
    ];
    assert_eq!(script("a\nb\nc\ne\n", "a\nb\nd\ne\n"), expected);
}

#[test]
fn new_text_against_nothing_is_all_insertions() {
    let expected =
        vec![Diff::Insert((1, "x".to_string())), Diff::Insert((2, "y".to_string()))];
    assert_eq!(script("", "x\ny\n"), expected);
}

#[test]
fn old_text_against_nothing_is_all_deletions() {
    let expected =
        vec![Diff::Delete((1, "x".to_string())), Diff::Delete((2, "y".to_string()))];
    assert_eq!(script("x\ny", ""), expected);
}

#[test]
fn insertion_is_taken_where_both_edits_reach_as_far() {
    let expected = vec![Diff::Delete((1, "a".to_string())), Diff::Insert((1, "b".to_string()))];
    assert_eq!(script("a", "b"), expected);
}

fn apply(old_text: &str, script: &[Diff]) -> (Vec<String>, Vec<String>, usize) {
    let mut old_side = Vec::new();
    let mut new_side = Vec::new();
    let mut edits = 0;
    for entry in script {
        match entry {
            Diff::Match((line, text)) => {
                assert_eq!(*line, old_side.len() + 1);
                old_side.push(text.clone());
                new_side.push(text.clone());
            }
            Diff::Delete((line, text)) => {
                assert_eq!(*line, old_side.len() + 1);
                old_side.push(text.clone());
                edits += 1;
            }
            Diff::Insert((line, text)) => {
                assert_eq!(*line, new_side.len() + 1);
                new_side.push(text.clone());
                edits += 1;
            }
        }
    }
    assert_eq!(old_side, old_text.lines().map(str::to_string).collect::<Vec<_>>());
    (old_side, new_side, edits)
}

fn distance(a: &[&str], b: &[&str]) -> usize {
    let mut longest = vec![vec![0usize; b.len() + 1]; a.len() + 1];
    for i in 0..a.len() {
        for j in 0..b.len() {
            longest[i + 1][j + 1] = if a[i] == b[j] {
                longest[i][j] + 1
            } else {
                longest[i][j + 1].max(longest[i + 1][j])
            };
        }
    }
    a.len() + b.len() - 2 * longest[a.len()][b.len()]
}

#[test]
fn script_transforms_old_into_new_with_fewest_edits() {
    let texts = [
        "",
        "a",
        "a\nb\nc",
        "c\nb\na",
        "a\nb\na\nb\na",
        "b\na\nb",
        "x\na\nb\nc\ny",
        "a\n\n\nb\n",
        "q\nw\ne\nr\nt\ny",
        "w\nq\ne\ne\nr\ny\nt",
    ];
    for old_text in texts {
        for new_text in texts {
            let found = script(old_text, new_text);
            let (_, new_side, edits) = apply(old_text, &found);
            let new_lines: Vec<String> = new_text.lines().map(str::to_string).collect();
            assert_eq!(new_side, new_lines, "{:?} -> {:?}", old_text, new_text);
            let a: Vec<&str> = old_text.lines().collect();
            let b: Vec<&str> = new_text.lines().collect();
            assert_eq!(edits, distance(&a, &b), "{:?} -> {:?}", old_text, new_text);
        }
    }
}

#[test]
fn lines_are_split_as_the_standard_library_splits_them() {
    for text in ["", "\n", "a", "a\n", "a\r\n", "a\r", "a\r\nb\n\nc", "\r\n\r\n", "x\n\r\ny", "é\nü\r\n"]
    {
        let found: Vec<String> = script(text, text)
            .into_iter()
            .map(|entry| match entry {
                Diff::Match((_, line)) => line,
                other => panic!("{:?}", other),
            })
            .collect();
        let expected: Vec<String> = text.lines().map(str::to_string).collect();
        assert_eq!(found, expected, "{:?}", text);
    }
}

#[test]
fn equal_lines_share_an_id_across_both_texts() {
    let (old_seq, new_seq) = LineSequence::from_lines("a\nb\na\n", "c\nb\nc\na\n");
    assert_eq!(old_seq.len(), 3);
    assert_eq!(new_seq.len(), 4);
    let found = DiffsManager::from_myers_algorithm(old_seq, new_seq).diffs;
    apply("a\nb\na\n", &found);
}

#[test]
fn texts_are_compared_directly() {
    let manager = DiffsManager::from_texts("one\ntwo\n", "one\nthree\n");
    assert_eq!(
        manager.diffs,
        vec![
            Diff::Match((1, "one".to_string())),
            Diff::Delete((2, "two".to_string())),
            Diff::Insert((2, "three".to_string())),
        ]
    );
}

#[test]
fn entries_are_written_with_marker_number_and_text() {
    assert_eq!(Diff::Match((12, "same".to_string())).to_string(), "12 same");
    assert_eq!(Diff::Insert((3, "new".to_string())).to_string(), "+ 3 new");
    assert_eq!(Diff::Delete((100, "old".to_string())).to_string(), "- 100 old");
    assert_eq!(Diff::Match((1, "".to_string())).to_string(), "1 ");
}

#[test]
fn argument_without_a_colon_names_no_range() {
    assert!(Range::from_file_arg("/path/to/file").is_none());
    assert!(Range::from_file_arg("/path/to-file").is_none());
    assert!(Range::from_file_arg("20-30").is_none());
    assert!(Range::from_file_arg("").is_none());
}

#[test]
fn start_alone_names_the_range_to_the_end_of_the_file() {
    assert_eq!(range("src/main.rs:20"), (20, 0));
    assert_eq!(range("/path/to/file:1"), (1, 0));
    assert_eq!(range("f:+7"), (7, 0));
    assert_eq!(range("f:"), (1, 0));
    assert_eq!(range("f:abc"), (1, 0));
    assert_eq!(range("f: 20"), (1, 0));
    assert_eq!(range("a-b:4"), (4, 0));
    assert_eq!(range("c:d:4"), (1, 0));
    assert_eq!(range(&format!("f:{}", usize::MAX)), (usize::MAX, 0));
    assert_eq!(range("f:99999999999999999999999999"), (1, 0));
}

fn range(arg: &str) -> (usize, usize) {
    let range = Range::from_file_arg(arg).expect("a range");
    (range.start, range.end)
}

#[test]
fn range_falls_back_where_a_numeral_is_missing() {
    assert_eq!(range("f:-30"), (1, 30));
    assert_eq!(range("f:20-"), (20, 0));
    assert_eq!(range("f:-"), (1, 0));
    assert_eq!(range("f:a-b"), (1, 0));
    assert_eq!(range("f: 2-3 "), (1, 0));
    assert_eq!(range("f:+2-+3"), (2, 3));
    assert_eq!(range("f:007-010"), (7, 10));
    assert_eq!(range("f:1-2-3"), (1, 0));
    assert_eq!(range("a-b:4-5"), (4, 5));
    assert_eq!(range("c:d:4-5"), (1, 5));
    assert_eq!(range("f:99999999999999999999999999-7"), (1, 7));
    assert_eq!(range(&format!("f:{}-{}", usize::MAX, usize::MAX)), (usize::MAX, usize::MAX));
}

#[test]
fn range_is_written_with_both_ends() {
    assert_eq!(Range { start: 20, end: 30 }.to_string(), ":20-30");
    assert_eq!(Range::default().to_string(), ":1-0");
    let default = Range::default();
    assert_eq!((default.start, default.end), (1, 0));
}

/// The greedy search written with plain arrays, to hold the library against.
fn greedy_script(a: &[&str], b: &[&str]) -> Vec<Diff> {
    let n = a.len() as i64;
    let m = b.len() as i64;
    let max = n + m;
    let width = (2 * max + 3) as usize;
    let at = |k: i64| (k + max + 1) as usize;
    let mut rounds: Vec<Vec<i64>> = Vec::new();
    let mut last = 0;
    'search: for d in 0..=max {
        let mut row = vec![-1i64; width];
        let mut k = -d;
        while k <= d {
            let mut x = if d == 0 {
                0
            } else {
                let before = &rounds[(d - 1) as usize];
                if k == -d || (k != d && before[at(k - 1)] < before[at(k + 1)]) {
                    before[at(k + 1)]
                } else {
                    before[at(k - 1)] + 1
                }
            };
            let mut y = x - k;
            while x < n && y < m && a[x as usize] == b[y as usize] {
                x += 1;
                y += 1;
            }
            row[at(k)] = x;
            if x >= n && y >= m {
                last = d;
                break 'search;
            }
            k += 2;
        }
        rounds.push(row);
    }
    let (mut x, mut y) = (n, m);
    let mut found = Vec::new();
    for d in (1..=last).rev() {
        let before = &rounds[(d - 1) as usize];
        let k = x - y;
        let down = k == -d || (k != d && before[at(k - 1)] < before[at(k + 1)]);
        let from = if down { k + 1 } else { k - 1 };
        let from_x = before[at(from)];
        let from_y = from_x - from;
        while x > from_x && y > from_y {
            found.push(Diff::Match((x as usize, a[(x - 1) as usize].to_string())));
            x -= 1;
            y -= 1;
        }
        if down {
            found.push(Diff::Insert((y as usize, b[(y - 1) as usize].to_string())));
            y -= 1;
        } else {
            found.push(Diff::Delete((x as usize, a[(x - 1) as usize].to_string())));
            x -= 1;
        }
    }
    while x > 0 {
        found.push(Diff::Match((x as usize, a[(x - 1) as usize].to_string())));
        x -= 1;
    }
    found.reverse();
    found
}

#[test]
fn script_is_the_one_of_the_greedy_search() {
    let words = ["a", "b", "c", "d"];
    let mut state: u64 = 0x2545F4914F6CDD1D;
    let mut next = move |bound: u64| {
        state ^= state << 13;
        state ^= state >> 7;
        state ^= state << 17;
        state % bound
    };
    for _ in 0..400 {
        let old_len = next(9) as usize;
        let new_len = next(9) as usize;
        let alphabet = 1 + next(4);
        let old_lines: Vec<&str> = (0..old_len).map(|_| words[next(alphabet) as usize]).collect();
        let new_lines: Vec<&str> = (0..new_len).map(|_| words[next(alphabet) as usize]).collect();
        let old_text: String = old_lines.iter().map(|line| format!("{}\n", line)).collect();
        let new_text: String = new_lines.iter().map(|line| format!("{}\n", line)).collect();
        assert_eq!(
            script(&old_text, &new_text),
            greedy_script(&old_lines, &new_lines),
            "{:?} -> {:?}",
            old_lines,
            new_lines
        );
    }
}

#[test]
fn long_texts_are_compared_like_short_ones() {
    let old_text: String = (0..3000).map(|i| format!("line {}\n", i % 700)).collect();
    let new_text: String = (0..3000).map(|i| format!("line {}\n", (i + 1) % 700)).collect();
    let found = DiffsManager::from_texts(&old_text, &new_text).diffs;
    let (_, new_side, edits) = apply(&old_text, &found);
    assert_eq!(new_side, new_text.lines().map(str::to_string).collect::<Vec<_>>());
    assert_eq!(edits, 2);
    let same = DiffsManager::from_texts(&old_text, &old_text);
    assert!(!same.has_changes());
    assert_eq!(same.diffs.len(), 3000);
}
