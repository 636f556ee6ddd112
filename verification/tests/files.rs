use copilot_chat::chat::{Builder, Message, Role};
use copilot_chat::diff::Range;
use copilot_chat::errors::ChatError;
use copilot_chat::files::{number_lines, path_of, Readable, Timestamp, TrackedFile};
use copilot_chat::tracker::{ChangeTracker, FileReader, FileSnapshot, ReaderTool};

const CONTENT: &str = "Hello\nWelcome to Copilot\nTell me something\n";

fn readable_at(id: usize) -> TrackedFile {
    TrackedFile::with_time(Some(format!("/tmp/copilot-test-{}", id)), Timestamp { nanos: 0 })
}

fn on_disk(content: &str, nanos: u128) -> Result<FileSnapshot, String> {
    Ok(FileSnapshot { content: content.to_string(), modified: Timestamp { nanos } })
}

#[test]
fn numbered_lines() {
    let reader = FileReader;
    let mut readable = readable_at(0);
    reader.read(&mut readable, on_disk(CONTENT, 5)).expect("read the file");
    let numbered = readable.add_line_numbers();

    assert_eq!(numbered, "1: Hello\n2: Welcome to Copilot\n3: Tell me something\n");
    assert_eq!(readable.modified_time().nanos, 5);
}

#[test]
fn prepare_once() {
    let mut readable = readable_at(1);
    let mut file_tracked = TrackedFile::new(None);
    let reader = FileReader;
    reader.read(&mut readable, on_disk(CONTENT, 5)).expect("read the file");

    file_tracked.set_content(readable.content().to_string());
    file_tracked.path = readable.location().into();

    let prepared = file_tracked.prepare_load_once();

    assert_eq!(
        prepared,
        format!(
            "File: {} [load-once]\n\n1: Hello\n2: Welcome to Copilot\n3: Tell me something\n",
            readable.location()
        )
    );
}

#[test]
fn prepare_copilot() {
    let mut readable = readable_at(2);
    let mut file_tracked = TrackedFile::new(None);
    let reader = FileReader;

    reader.read(&mut readable, on_disk(CONTENT, 5)).expect("read the file");

    file_tracked.set_content(readable.content().into());
    file_tracked.path = readable.location().into();

    let range = Range::from_file_arg(&format!("{}:1-2", readable.location()));
    let prepared = file_tracked.prepare_for_copilot(&range.unwrap());

    assert_eq!(prepared, format!("File: {}:1-2", readable.location()));
}

#[test]
fn reference_that_was_written_is_read_back() {
    let file = TrackedFile::with_time(Some("src/main.rs".to_string()), Timestamp { nanos: 1 });
    for (start, end) in [(20, 0), (1, 0), (3, 9), (7, 7), (usize::MAX, 0), (12, usize::MAX)] {
        let written = file.prepare_for_copilot(&Range { start, end });
        let arg = written.strip_prefix("File: ").expect("a reference");
        assert_eq!(path_of(arg), "src/main.rs");
        let read = Range::from_file_arg(arg).expect("a range");
        assert_eq!((read.start, read.end), (start, end), "{}", written);
    }
}

#[test]
fn reference_keeps_the_start_that_the_user_gave() {
    let mut tracker = ChangeTracker::new();
    let mut builder = Builder::new(vec![]);
    tracker.reference("a.rs:5", on_disk("x\n", 10), &mut builder).expect("referenced");
    assert_eq!(contents(&builder)[1], "File: a.rs:5");
    let mut builder = Builder::new(vec![]);
    tracker.reference("a.rs:5", on_disk("x\n", 10), &mut builder).expect("referenced");
    assert_eq!(contents(&builder), vec!["File: a.rs:5".to_string()]);
}

#[test]
fn reference_without_end_names_the_start_alone() {
    let file = TrackedFile::with_time(Some("src/main.rs".to_string()), Timestamp { nanos: 1 });
    assert_eq!(file.prepare_for_copilot(&Range { start: 7, end: 0 }), "File: src/main.rs:7");
    assert_eq!(file.prepare_for_copilot(&Range::default()), "File: src/main.rs:1");
    assert_eq!(file.reference_marker(None), "File: src/main.rs");
    assert_eq!(
        file.reference_marker(Some(&Range { start: 2, end: 9 })),
        "File: src/main.rs:2-9"
    );
}

#[test]
fn lines_are_numbered_from_one() {
    assert_eq!(number_lines(""), "");
    assert_eq!(number_lines("only"), "1: only\n");
    assert_eq!(number_lines("a\r\nb"), "1: a\n2: b\n");
    let twelve = "x\n".repeat(12);
    assert!(number_lines(&twelve).ends_with("9: x\n10: x\n11: x\n12: x\n"));
}

#[test]
fn path_is_what_stands_before_the_first_colon() {
    assert_eq!(path_of("/path/to/file:10-20"), "/path/to/file");
    assert_eq!(path_of("/path/to/file"), "/path/to/file");
    assert_eq!(path_of("a:b:c"), "a");
    assert_eq!(path_of(":1-2"), "");
    let file = TrackedFile::from_file_arg("lib.rs:3-4", Timestamp { nanos: 9 });
    assert_eq!(file.location(), "lib.rs");
    assert_eq!(file.content(), "");
    assert_eq!(file.modified_time().nanos, 9);
}

#[test]
fn new_file_has_the_given_path_and_no_content() {
    let file = TrackedFile::new(Some("a.rs".to_string()));
    assert_eq!(file.path, "a.rs");
    assert_eq!(file.content(), "");
    let file = TrackedFile::default();
    assert_eq!(file.path, "");
    assert_eq!(file.content(), "");
}

fn contents(builder: &Builder) -> Vec<String> {
    builder
        .messages
        .iter()
        .map(|message| {
            assert_eq!(message.role, Role::User);
            message.content.clone()
        })
        .collect()
}

fn baselines(tracker: &ChangeTracker) -> Vec<(String, String, u128)> {
    (0..tracker.len())
        .map(|i| {
            let file = tracker.get(i).expect("in range");
            (file.location().to_string(), file.content().to_string(), file.modified_time().nanos)
        })
        .collect()
}

#[test]
fn first_reference_shows_the_file_in_full() {
    let mut tracker = ChangeTracker::new();
    let mut builder = Builder::new(vec![]);
    tracker.reference("a.rs:1-2", on_disk("x\ny\n", 10), &mut builder).expect("referenced");
    assert_eq!(
        contents(&builder),
        vec!["File: a.rs [load-once]\n\n1: x\n2: y\n".to_string(), "File: a.rs:1-2".to_string()]
    );
    assert_eq!(baselines(&tracker), vec![("a.rs".to_string(), "x\ny\n".to_string(), 10)]);
    assert_eq!(tracker.position("a.rs"), Some(0));
    assert_eq!(tracker.position("b.rs"), None);
}

#[test]
fn unmodified_file_gets_the_reference_alone() {
    let mut tracker = ChangeTracker::new();
    let mut builder = Builder::new(vec![]);
    tracker.reference("a.rs", on_disk("x\n", 10), &mut builder).expect("referenced");
    let mut builder = Builder::new(vec![]);
    tracker.reference("a.rs:5-", on_disk("changed\n", 10), &mut builder).expect("referenced");
    assert_eq!(contents(&builder), vec!["File: a.rs:5".to_string()]);
    let mut builder = Builder::new(vec![]);
    tracker.reference("a.rs", on_disk("changed\n", 9), &mut builder).expect("referenced");
    assert_eq!(contents(&builder), vec!["File: a.rs".to_string()]);
    assert_eq!(baselines(&tracker), vec![("a.rs".to_string(), "x\n".to_string(), 10)]);
}

#[test]
fn modified_file_gets_its_changes_and_a_new_baseline() {
    let mut tracker = ChangeTracker::new();
    let mut builder = Builder::new(vec![]);
    tracker.reference("a.rs", on_disk("one\ntwo\n", 10), &mut builder).expect("referenced");
    tracker.reference("b.rs", on_disk("other\n", 10), &mut builder).expect("referenced");
    let mut builder = Builder::new(vec![Message { role: Role::User, content: "hi".to_string() }]);
    tracker
        .reference("a.rs:1-2", on_disk("one\nthree\n", 11), &mut builder)
        .expect("referenced");
    assert_eq!(
        contents(&builder),
        vec![
            "hi".to_string(),
            "Here are the updates of file a.rs:\n\n1 one- 2 two+ 2 three".to_string(),
            "File: a.rs:1-2".to_string(),
        ]
    );
    assert_eq!(
        baselines(&tracker),
        vec![
            ("a.rs".to_string(), "one\nthree\n".to_string(), 11),
            ("b.rs".to_string(), "other\n".to_string(), 10),
        ]
    );
}

#[test]
fn file_written_again_with_the_same_content_gets_no_block() {
    let mut tracker = ChangeTracker::new();
    let mut builder = Builder::new(vec![]);
    tracker.reference("a.rs", on_disk("one\ntwo\n", 10), &mut builder).expect("referenced");
    let mut builder = Builder::new(vec![]);
    tracker.reference("a.rs:2-2", on_disk("one\ntwo\n", 11), &mut builder).expect("referenced");
    assert_eq!(contents(&builder), vec!["File: a.rs:2-2".to_string()]);
    assert_eq!(baselines(&tracker), vec![("a.rs".to_string(), "one\ntwo\n".to_string(), 11)]);
}

#[test]
fn file_that_became_empty_is_rewritten_without_a_block() {
    let mut tracker = ChangeTracker::new();
    let mut builder = Builder::new(vec![]);
    tracker.reference("a.rs", on_disk("", 10), &mut builder).expect("referenced");
    let mut builder = Builder::new(vec![]);
    tracker.reference("a.rs", on_disk("", 11), &mut builder).expect("referenced");
    assert_eq!(contents(&builder), vec!["File: a.rs".to_string()]);
    assert_eq!(baselines(&tracker), vec![("a.rs".to_string(), "".to_string(), 11)]);
}

#[test]
fn file_that_cannot_be_read_changes_nothing() {
    let mut tracker = ChangeTracker::new();
    let mut builder = Builder::new(vec![]);
    tracker.reference("a.rs", on_disk("x\n", 10), &mut builder).expect("referenced");
    let before = contents(&builder);
    let outcome = tracker.reference("a.rs", Err("permission denied".to_string()), &mut builder);
    assert_eq!(outcome, Err(ChatError::Tool("permission denied".to_string())));
    assert_eq!(contents(&builder), before);
    assert_eq!(baselines(&tracker), vec![("a.rs".to_string(), "x\n".to_string(), 10)]);
    let outcome = tracker.reference("new.rs", Err("not found".to_string()), &mut builder);
    assert_eq!(outcome, Err(ChatError::Tool("not found".to_string())));
    assert_eq!(tracker.len(), 1);
    tracker.reference("a.rs", on_disk("y\n", 12), &mut builder).expect("a later try succeeds");
    assert_eq!(baselines(&tracker), vec![("a.rs".to_string(), "y\n".to_string(), 12)]);
}

#[test]
fn reader_takes_over_what_was_found() {
    let reader = FileReader;
    let mut readable = readable_at(3);
    assert_eq!(
        reader.read(&mut readable, Err("gone".to_string())),
        Err(ChatError::Tool("gone".to_string()))
    );
    assert_eq!(readable.content(), "");
    reader.read(&mut readable, on_disk("a\n", 4)).expect("read");
    assert_eq!(readable.content(), "a\n");
    assert_eq!(readable.modified_time().nanos, 4);
    assert_eq!(readable.location(), "/tmp/copilot-test-3");
}

#[test]
fn reader_compares_only_what_was_modified_later() {
    let reader = FileReader;
    let mut readable = readable_at(4);
    reader.read(&mut readable, on_disk("a\n", 4)).expect("read");
    let same_time = FileSnapshot { content: "b\n".to_string(), modified: Timestamp { nanos: 4 } };
    assert!(reader.get_diffs(&readable, &same_time).is_none());
    let later = FileSnapshot { content: "b\n".to_string(), modified: Timestamp { nanos: 5 } };
    let changes = reader.get_diffs(&readable, &later).expect("changes");
    assert_eq!(changes.diffs.len(), 2);
}

#[test]
fn reader_records_the_time_that_was_found() {
    let reader = FileReader;
    let mut readable = readable_at(5);
    reader.read(&mut readable, on_disk("a\n", 4)).expect("read");
    reader.update_modified_time(&mut readable, Timestamp { nanos: 8 });
    assert_eq!(readable.modified_time().nanos, 8);
    assert_eq!(readable.content(), "a\n");
}

#[test]
fn timestamps_are_ordered_by_their_nanoseconds() {
    let early = Timestamp { nanos: 1 };
    let late = Timestamp { nanos: 2 };
    assert!(late.is_at_or_after(&early));
    assert!(late.is_at_or_after(&late));
    assert!(!early.is_at_or_after(&late));
}

#[test]
fn clock_reading_becomes_a_point_in_time() {
    assert_eq!(Timestamp::since_epoch(Some(1_700_000_000_000_000_123)).nanos, 1_700_000_000_000_000_123);
    assert_eq!(Timestamp::since_epoch(Some(0)), Timestamp { nanos: 0 });
    assert_eq!(Timestamp::since_epoch(None), Timestamp { nanos: 0 });
    assert_eq!(Timestamp::since_epoch(Some(u128::MAX)).nanos, u128::MAX);
}
