//! Files that were shown to the service: what was sent of each, and how a
//! file is written into a request.

use crate::diff::{range_of_arg, rendered_range, Range};
use crate::text::{
    chars_of, decimal, digit_value, find_char, find_char_from, lemma_decimal_is_read_back,
    lemma_decimal_writes_the_number, lemma_find_char_absent, lemma_find_char_at, lines_of,
    push_decimal, split_lines, string_of, texts,
};
use vstd::prelude::*;
use vstd::string::StringExecFns;

verus! {

/// A point in time, in nanoseconds since the Unix epoch.
#[derive(Debug, Clone, Copy, PartialEq, Eq)]
pub struct Timestamp {
    pub nanos: u128,
}

impl Timestamp {
    /// Whether this point in time is not before `other`.
    pub fn is_at_or_after(&self, other: &Timestamp) -> (r: bool)
        ensures
            r == (self.nanos >= other.nanos),
    {
        self.nanos >= other.nanos
    }
}

/// `SystemTime::elapsed` on `UNIX_EPOCH`: the time that has passed since the
/// epoch, handed out in nanoseconds; `None` where the call fails because the
/// clock is set before the epoch. Nothing is claimed of the result.
#[verifier::external_body]
pub(crate) fn nanos_since_epoch() -> Option<u128> {
    std::time::UNIX_EPOCH.elapsed().ok().map(|elapsed| elapsed.as_nanos())
}

/// The time of the call, made of what the clock shows; the clock decides it.
pub fn current_time() -> Timestamp {
    Timestamp::since_epoch(nanos_since_epoch())
}

/// The point in time that lies `elapsed` nanoseconds after the Unix epoch;
/// the epoch itself where nothing is known to have elapsed.
pub open spec fn time_after_epoch(elapsed: Option<u128>) -> Timestamp {
    match elapsed {
        Some(nanos) => Timestamp { nanos },
        None => Timestamp { nanos: 0 },
    }
}

impl Timestamp {
    /// The point in time that a clock shows which has counted `elapsed`
    /// nanoseconds since the Unix epoch, or none because it is set before
    /// the epoch.
    pub fn since_epoch(elapsed: Option<u128>) -> (r: Timestamp)
        ensures
            r == time_after_epoch(elapsed),
    {
        match elapsed {
            Some(nanos) => Timestamp { nanos },
            None => Timestamp { nanos: 0 },
        }
    }
}

/// The lines of a text, each after its 1-based number and `: `, and each
/// ended by a line feed.
pub open spec fn numbered_lines(lines: Seq<Seq<char>>) -> Seq<char>
    decreases lines.len(),
{
    if lines.len() == 0 {
        Seq::empty()
    } else {
        numbered_lines(lines.drop_last()) + decimal(lines.len()) + seq![':', ' '] + lines.last()
            + seq!['\n']
    }
}

/// Writes the lines of `content` with their numbers.
pub fn number_lines(content: &str) -> (r: String)
    ensures
        r@ == numbered_lines(lines_of(content@)),
{
    let lines = split_lines(content);
    let ghost all = texts(lines@);
    let mut out = String::new();
    let mut i: usize = 0;
    while i < lines.len()
        invariant
            i <= lines.len(),
            all == texts(lines@),
            out@ == numbered_lines(all.subrange(0, i as int)),
        decreases lines.len() - i,
    {
        proof {
            let longer = all.subrange(0, i + 1);
            assert(longer.drop_last() == all.subrange(0, i as int));
            assert(longer.last() == lines@[i as int]@);
        }
        push_decimal(&mut out, i + 1);
        out.push(':');
        out.push(' ');
        out.append(lines[i].as_str());
        out.push('\n');
        i += 1;
    }
    assert(all.subrange(0, i as int) == all);
    out
}

/// Any readable resource.
pub trait Readable {
    /// Where the resource is found.
    spec fn location_view(&self) -> Seq<char>;

    /// What was read of the resource.
    spec fn content_view(&self) -> Seq<char>;

    /// When the resource was last modified, as far as known.
    spec fn modified_view(&self) -> Timestamp;

    /// Where the resource is found, for a file its path.
    fn location(&self) -> (r: &str)
        ensures
            r@ == self.location_view(),
    ;

    /// When the resource was last modified, as far as known.
    fn modified_time(&self) -> (r: &Timestamp)
        ensures
            *r == self.modified_view(),
    ;

    /// Records a new time of modification.
    fn set_modified_time(&mut self, new_time: Timestamp)
        ensures
            final(self).modified_view() == new_time,
            final(self).location_view() == old(self).location_view(),
            final(self).content_view() == old(self).content_view(),
    ;

    /// Records a new content.
    fn set_content(&mut self, content: String)
        ensures
            final(self).content_view() == content@,
            final(self).location_view() == old(self).location_view(),
            final(self).modified_view() == old(self).modified_view(),
    ;

    /// What was read of the resource.
    fn content(&self) -> (r: &str)
        ensures
            r@ == self.content_view(),
    ;

    /// The content with the number of each line before it.
    fn add_line_numbers(&self) -> (r: String)
        ensures
            r@ == numbered_lines(lines_of(self.content_view())),
    {
        number_lines(self.content())
    }
}

/// A file that was shown to the service: its path, the content that was
/// sent last, and the file's time of modification at that moment.
#[derive(Debug, Clone, PartialEq)]
pub struct TrackedFile {
    pub path: String,
    content: String,
    last_modification: Timestamp,
}

/// The mathematical value of a [`TrackedFile`].
pub struct TrackedFileView {
    pub path: Seq<char>,
    pub content: Seq<char>,
    pub modified: Timestamp,
}

impl View for TrackedFile {
    type V = TrackedFileView;

    closed spec fn view(&self) -> TrackedFileView {
        TrackedFileView {
            path: self.path@,
            content: self.content@,
            modified: self.last_modification,
        }
    }
}

impl Readable for TrackedFile {
    open spec fn location_view(&self) -> Seq<char> {
        self@.path
    }

    open spec fn content_view(&self) -> Seq<char> {
        self@.content
    }

    open spec fn modified_view(&self) -> Timestamp {
        self@.modified
    }

    fn location(&self) -> (r: &str) {
        self.path.as_str()
    }

    fn modified_time(&self) -> (r: &Timestamp) {
        &self.last_modification
    }

    fn set_modified_time(&mut self, new_time: Timestamp) {
        self.last_modification = new_time
    }

    fn set_content(&mut self, content: String) {
        self.content = content
    }

    fn content(&self) -> (r: &str) {
        self.content.as_str()
    }
}

/// The path of a file argument: what stands before the first `:`, or the
/// whole argument where it holds none.
pub open spec fn path_of_arg(arg: Seq<char>) -> Seq<char> {
    arg.subrange(0, find_char(arg, ':', 0))
}

/// The text that shows a file in full: a heading with the path, an empty
/// line, and the numbered lines of the content.
pub open spec fn load_once_text(path: Seq<char>, content: Seq<char>) -> Seq<char> {
    "File: "@ + path + " [load-once]\n\n"@ + numbered_lines(lines_of(content))
}

/// How a range is written in a reference: `:start-end`, or `:start` alone
/// where the range runs to the end of the file.
pub open spec fn range_suffix(start: usize, end: usize) -> Seq<char> {
    if end == 0 {
        seq![':'] + decimal(start as nat)
    } else {
        rendered_range(start, end)
    }
}

/// The text that refers to a file that the service has seen: the path, and
/// the range of lines that the request is about, if it names one.
pub open spec fn reference_text(path: Seq<char>, range: Option<(usize, usize)>) -> Seq<char> {
    match range {
        Some(range) => "File: "@ + path + range_suffix(range.0, range.1),
        None => "File: "@ + path,
    }
}

/// The path of a file argument.
pub fn path_of(arg: &str) -> (path: String)
    ensures
        path@ == path_of_arg(arg@),
{
    let chars = chars_of(arg);
    let colon = find_char_from(&chars, ':', 0);
    string_of(&chars, 0, colon)
}

impl TrackedFile {
    /// A file at `path`, or at the empty path where none is given, with no
    /// content yet; its time of modification is the time of the call.
    pub fn new(path: Option<String>) -> (r: Self)
        ensures
            r@.path == (match path {
                Some(p) => p@,
                None => Seq::empty(),
            }),
            r@.content == Seq::<char>::empty(),
    {
        Self::with_time(path, current_time())
    }

    /// A file at `path`, or at the empty path where none is given, with no
    /// content yet and the given time of modification.
    pub fn with_time(path: Option<String>, modified: Timestamp) -> (r: Self)
        ensures
            r@ == (TrackedFileView {
                path: match path {
                    Some(p) => p@,
                    None => Seq::empty(),
                },
                content: Seq::empty(),
                modified,
            }),
    {
        match path {
            Some(path) => Self { path, content: String::new(), last_modification: modified },
            None => Self {
                path: String::new(),
                content: String::new(),
                last_modification: modified,
            },
        }
    }

    /// Whether this file is found at `path`.
    pub fn is_at(&self, path: &String) -> (r: bool)
        ensures
            r == (self@.path == path@),
    {
        self.path == *path
    }

    /// A file at `path` with the given content and time of modification.
    pub fn with_content(path: String, content: String, modified: Timestamp) -> (r: Self)
        ensures
            r@ == (TrackedFileView { path: path@, content: content@, modified }),
    {
        Self { path, content, last_modification: modified }
    }

    /// The file that a file argument names, with no content yet and the
    /// given time of modification.
    pub fn from_file_arg(arg: &str, modified: Timestamp) -> (r: Self)
        ensures
            r@ == (TrackedFileView {
                path: path_of_arg(arg@),
                content: Seq::empty(),
                modified,
            }),
    {
        Self { path: path_of(arg), content: String::new(), last_modification: modified }
    }

    /// The text that shows this file in full, every line with its number.
    pub fn prepare_load_once(&self) -> (r: String)
        ensures
            r@ == load_once_text(self@.path, self@.content),
    {
        let mut out = String::from_str("File: ");
        out.append(self.path.as_str());
        out.append(" [load-once]\n\n");
        let numbered = self.add_line_numbers();
        out.append(numbered.as_str());
        out
    }

    /// The text that refers to the given range of this file.
    pub fn prepare_for_copilot(&self, range: &Range) -> (r: String)
        ensures
            r@ == reference_text(self@.path, Some((range.start, range.end))),
    {
        self.reference_marker(Some(range))
    }

    /// The text that refers to this file, and to a range of it if one is
    /// given.
    pub fn reference_marker(&self, range: Option<&Range>) -> (r: String)
        ensures
            r@ == reference_text(
                self@.path,
                match range {
                    Some(range) => Some((range.start, range.end)),
                    None => None,
                },
            ),
    {
        let mut out = String::from_str("File: ");
        out.append(self.path.as_str());
        match range {
            Some(range) => {
                if range.end == 0 {
                    out.push(':');
                    push_decimal(&mut out, range.start);
                } else {
                    let suffix = range.to_string();
                    out.append(suffix.as_str());
                }
            },
            None => {},
        }
        out
    }
}

impl Default for TrackedFile {
    fn default() -> (r: Self)
        ensures
            r@.path == Seq::<char>::empty(),
            r@.content == Seq::<char>::empty(),
    {
        Self::new(None)
    }
}

/// A reference that was written is read back: for a path without `:`, the
/// argument made of the path and the written range names that path and that
/// range.
pub proof fn law_written_reference_is_read_back(path: Seq<char>, start: usize, end: usize)
    requires
        forall|i: int| 0 <= i < path.len() ==> path[i] != ':',
    ensures
        path_of_arg(path + range_suffix(start, end)) == path,
        range_of_arg(path + range_suffix(start, end)) == Some((start, end)),
{
    let first = decimal(start as nat);
    let second = decimal(end as nat);
    let arg = path + range_suffix(start, end);
    let colon = path.len() as int;
    lemma_decimal_writes_the_number(start as nat);
    lemma_decimal_writes_the_number(end as nat);
    lemma_decimal_is_read_back(start);
    lemma_decimal_is_read_back(end);
    assert(arg[colon] == ':');
    assert forall|i: int| 0 <= i < colon implies arg[i] != ':' by {
        assert(arg[i] == path[i]);
    }
    lemma_find_char_at(arg, ':', 0, colon);
    assert(arg.subrange(0, colon) == path);
    assert forall|i: int| colon + 1 <= i < colon + 1 + first.len() implies arg[i] != '-' by {
        assert(arg[i] == first[i - colon - 1]);
        assert(digit_value(first[i - colon - 1]) is Some);
    }
    if end == 0 {
        assert(arg.len() == colon + 1 + first.len());
        lemma_find_char_absent(arg, '-', colon + 1);
        assert(arg.subrange(colon + 1, arg.len() as int) == first);
    } else {
        let dash = colon + 1 + first.len();
        assert(arg[dash] == '-');
        lemma_find_char_at(arg, '-', colon + 1, dash);
        assert(arg.subrange(colon + 1, dash) == first);
        assert(arg.subrange(dash + 1, arg.len() as int) == second);
    }
}

} // verus!
