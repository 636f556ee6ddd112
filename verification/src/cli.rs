//! The command line as plain values, and what follows from it: how a run is
//! carried out, what a line of input asks for, and which files a pattern
//! stands for.

use crate::chat::{optional_string_view, MessageType};
use crate::text::{chars_of, find_char, find_char_from, string_of, texts, trim, trimmed};
use vstd::prelude::*;
use vstd::string::StringExecFns;

verus! {

/// The arguments of the program.
#[derive(Debug)]
pub struct Cli {
    /// The subcommand, if one was given.
    pub command: Option<Command>,
    /// Paths of the files that the request refers to.
    pub files: Option<Vec<String>>,
    /// Names of files and directories that a `*` pattern passes over.
    pub exclude: Option<Vec<String>>,
    /// Where the token is found.
    pub token_path: Option<String>,
    /// The words of the prompt.
    pub prompt: Option<Vec<String>>,
    /// The model that answers.
    pub model: Option<String>,
}

/// The subcommands of the program.
#[derive(Debug, PartialEq)]
pub enum Command {
    /// Serve requests that arrive on a TCP port (4000 where none is given).
    Tcp { port: Option<String> },
    /// Write the commit message for the current directory.
    Commit,
    /// List the models that are available.
    Models,
    /// Forget the chat of the current directory.
    Clear,
}

/// How a run is carried out.
#[derive(Debug, PartialEq)]
pub enum ExecutionType {
    Once,
    Interactive,
    Pipe,
    Exit,
}

/// How the run of a subcommand is carried out.
pub open spec fn execution_of(command: Command) -> ExecutionType {
    match command {
        Command::Tcp { .. } => ExecutionType::Interactive,
        Command::Commit => ExecutionType::Once,
        Command::Models => ExecutionType::Exit,
        Command::Clear => ExecutionType::Exit,
    }
}

impl ExecutionType {
    /// How the run of a subcommand is carried out.
    pub fn from(value: &Command) -> (r: Self)
        ensures
            r == execution_of(*value),
    {
        match value {
            Command::Tcp { port: _ } => ExecutionType::Interactive,
            Command::Commit => ExecutionType::Once,
            Command::Models | Command::Clear => ExecutionType::Exit,
        }
    }
}

/// Where the chat of a run comes from.
#[derive(Debug, Clone, Copy, PartialEq, Eq)]
pub enum ChatSource {
    /// A new chat with the client of the run.
    Fresh,
    /// The chat that is stored for the directory, with the client of the
    /// run; a new one where none is stored.
    Stored,
    /// A new chat with a client of its own, for a run that asks nothing.
    Detached,
}

/// Where the chat of a run comes from: a commit message starts afresh, the
/// server and the plain prompt go on with the stored chat, and the runs that
/// leave at once need no chat of the run's client.
pub open spec fn chat_source_of(command: Option<Command>) -> ChatSource {
    match command {
        Some(Command::Commit) => ChatSource::Fresh,
        Some(Command::Tcp { .. }) => ChatSource::Stored,
        None => ChatSource::Stored,
        Some(Command::Models) => ChatSource::Detached,
        Some(Command::Clear) => ChatSource::Detached,
    }
}

/// The command line together with the prompt of the user.
pub struct CommandHandler<'a> {
    pub cli_command: &'a Cli,
    pub user_prompt: Option<&'a str>,
}

/// What a run needs to know before it starts.
#[derive(Debug)]
pub struct ExecutionPlan {
    pub message_type: MessageType,
    pub execution_type: ExecutionType,
    pub is_tcp: bool,
    pub port: String,
}

/// Whether the subcommand serves a TCP port.
pub open spec fn serves_tcp(command: Option<Command>) -> bool {
    command matches Some(Command::Tcp { .. })
}

/// The port that a run listens on: the one given with `tcp`, else 4000.
pub open spec fn port_of(command: Option<Command>) -> Seq<char> {
    match command {
        Some(Command::Tcp { port: Some(port) }) => port@,
        _ => "4000"@,
    }
}

/// How a run is carried out: as its subcommand says, and by leaving at once
/// where there is none.
pub open spec fn execution_type_of(command: Option<Command>) -> ExecutionType {
    match command {
        Some(command) => execution_of(command),
        None => ExecutionType::Exit,
    }
}

/// The view of an optional `&str`.
pub open spec fn optional_str_view(s: Option<&str>) -> Option<Seq<char>> {
    match s {
        Some(s) => Some(s@),
        None => None,
    }
}

/// The views of an optional list of strings.
pub open spec fn optional_texts(v: Option<Vec<String>>) -> Option<Seq<Seq<char>>> {
    match v {
        Some(v) => Some(texts(v@)),
        None => None,
    }
}

/// Whether `message_type` is the kind of request that the command line asks
/// for: a commit message for `commit`, else code with the files of the
/// command line; either with the prompt of the user.
pub open spec fn is_requested_kind(
    message_type: MessageType,
    command: Option<Command>,
    files: Option<Vec<String>>,
    prompt: Option<Seq<char>>,
) -> bool {
    match command {
        Some(Command::Commit) => message_type matches MessageType::Commit(user_prompt)
            && optional_string_view(user_prompt) == prompt,
        _ => message_type matches MessageType::Code { user_prompt, files: listed }
            && optional_string_view(user_prompt) == prompt && optional_texts(listed)
            == optional_texts(files),
    }
}

fn copy_strings(list: &Vec<String>) -> (r: Vec<String>)
    ensures
        texts(r@) == texts(list@),
{
    let mut r: Vec<String> = Vec::new();
    let mut i: usize = 0;
    while i < list.len()
        invariant
            i <= list.len(),
            texts(r@) == texts(list@).subrange(0, i as int),
        decreases list.len() - i,
    {
        let ghost before = r@;
        r.push(list[i].clone());
        assert(texts(r@) == texts(before).push(list@[i as int]@));
        i += 1;
        assert(texts(r@) == texts(list@).subrange(0, i as int));
    }
    assert(texts(list@).subrange(0, i as int) == texts(list@));
    r
}

impl<'a> CommandHandler<'a> {
    /// Puts the command line and the prompt of the user together.
    pub fn new(cli_command: &'a Cli, user_prompt: Option<&'a str>) -> (r: Self)
        ensures
            r.cli_command == cli_command,
            r.user_prompt == user_prompt,
    {
        Self { cli_command, user_prompt }
    }

    /// Where the chat of the run comes from.
    pub fn chat_source(&self) -> (r: ChatSource)
        ensures
            r == chat_source_of(self.cli_command.command),
    {
        match &self.cli_command.command {
            Some(Command::Commit) => ChatSource::Fresh,
            Some(Command::Tcp { port: _ }) | None => ChatSource::Stored,
            Some(Command::Models) | Some(Command::Clear) => ChatSource::Detached,
        }
    }

    /// The kind of request that the command line asks for.
    pub fn message_type(&self) -> (r: MessageType)
        ensures
            is_requested_kind(
                r,
                self.cli_command.command,
                self.cli_command.files,
                optional_str_view(self.user_prompt),
            ),
    {
        let user_prompt = match self.user_prompt {
            Some(prompt) => Some(String::from_str(prompt)),
            None => None,
        };
        match &self.cli_command.command {
            Some(Command::Commit) => MessageType::Commit(user_prompt),
            _ => {
                let files = match &self.cli_command.files {
                    Some(files) => Some(copy_strings(files)),
                    None => None,
                };
                MessageType::Code { user_prompt, files }
            },
        }
    }

    /// What the run needs to know before it starts.
    pub fn plan(&self) -> (r: ExecutionPlan)
        ensures
            r.is_tcp == serves_tcp(self.cli_command.command),
            r.port@ == port_of(self.cli_command.command),
            r.execution_type == execution_type_of(self.cli_command.command),
            is_requested_kind(
                r.message_type,
                self.cli_command.command,
                self.cli_command.files,
                optional_str_view(self.user_prompt),
            ),
    {
        let (is_tcp, port) = match &self.cli_command.command {
            Some(Command::Tcp { port: Some(port) }) => (true, port.clone()),
            Some(Command::Tcp { port: None }) => (true, String::from_str("4000")),
            _ => (false, String::from_str("4000")),
        };
        let execution_type = match &self.cli_command.command {
            Some(command) => ExecutionType::from(command),
            None => ExecutionType::Exit,
        };
        ExecutionPlan { message_type: self.message_type(), execution_type, is_tcp, port }
    }
}

/// What a line of input asks for: a prompt, and the files it is about.
#[derive(Debug, Default)]
pub struct RequestProtocol {
    pub prompt: String,
    pub files: Option<Vec<String>>,
}

/// The prompt of a line of input: what follows the first `@`, or the whole
/// line where it holds none.
pub open spec fn prompt_of_input(raw: Seq<char>) -> Seq<char> {
    let at = find_char(raw, '@', 0);
    if at < raw.len() {
        raw.subrange(at + 1, raw.len() as int)
    } else {
        raw
    }
}

/// The file of a line of input: what stands before the first `@`, if that
/// is not empty.
pub open spec fn files_of_input(raw: Seq<char>) -> Option<Seq<Seq<char>>> {
    let at = find_char(raw, '@', 0);
    if 0 < at < raw.len() {
        Some(seq![raw.subrange(0, at)])
    } else {
        None
    }
}

impl RequestProtocol {
    /// Whether the line asks to end the run: its prompt, without the white
    /// space around it, is `exit`.
    pub fn asks_to_exit(&self) -> (r: bool)
        ensures
            r == (trimmed(self.prompt@) == "exit"@),
    {
        let word = trim(self.prompt.as_str());
        word == String::from_str("exit")
    }

    /// The request that the line asks for: code, with the prompt without the
    /// white space around it, about the files of the line.
    pub fn into_message_type(self) -> (r: MessageType)
        ensures
            r matches MessageType::Code { user_prompt, files } && optional_string_view(user_prompt)
                == Some(trimmed(self.prompt@)) && optional_texts(files) == optional_texts(
                self.files,
            ),
    {
        let user_prompt = trim(self.prompt.as_str());
        MessageType::Code { user_prompt: Some(user_prompt), files: self.files }
    }

    /// Reads a line of input of the form `file@prompt` or `prompt`.
    pub fn from_input(raw_input: &str) -> (r: Self)
        ensures
            r.prompt@ == prompt_of_input(raw_input@),
            optional_texts(r.files) == files_of_input(raw_input@),
    {
        let chars = chars_of(raw_input);
        let at = find_char_from(&chars, '@', 0);
        if at < chars.len() {
            let prompt = string_of(&chars, at + 1, chars.len());
            if at == 0 {
                Self { prompt, files: None }
            } else {
                let file = string_of(&chars, 0, at);
                let mut files: Vec<String> = Vec::new();
                files.push(file);
                assert(texts(files@) == seq![raw_input@.subrange(0, at as int)]);
                Self { prompt, files: Some(files) }
            }
        } else {
            let prompt = string_of(&chars, 0, chars.len());
            assert(prompt@ == raw_input@);
            Self { prompt, files: None }
        }
    }
}

/// What an entry of a directory is.
#[derive(Debug)]
pub enum EntryKind {
    /// A directory, with its own entries.
    Directory(Vec<DirEntry>),
    /// A regular file.
    File,
    /// Anything else.
    Other,
}

/// An entry of a directory as it was found on disk: its name, where the name
/// is text, its path, and what it is.
#[derive(Debug)]
pub struct DirEntry {
    pub name: Option<String>,
    pub path: String,
    pub kind: EntryKind,
}

/// Whether a file argument is a pattern: it holds a `*`.
pub open spec fn is_pattern(file: Seq<char>) -> bool {
    find_char(file, '*', 0) < file.len()
}

/// The extension that a pattern asks for: what follows a leading `*.`, and
/// the empty extension for any other pattern.
pub open spec fn extension_of(pattern: Seq<char>) -> Seq<char> {
    if pattern.len() >= 2 && pattern[0] == '*' && pattern[1] == '.' {
        pattern.subrange(2, pattern.len() as int)
    } else {
        Seq::empty()
    }
}

/// Whether a path ends with a `.` and the extension.
pub open spec fn has_extension(path: Seq<char>, ext: Seq<char>) -> bool {
    path.len() >= ext.len() + 1 && path.subrange(path.len() - ext.len() - 1, path.len() as int)
        == seq!['.'] + ext
}

/// Whether an entry is passed over: its name is text and is one of the
/// excluded names.
pub open spec fn is_excluded(name: Option<String>, exclude: Option<Seq<Seq<char>>>) -> bool {
    name matches Some(n) && exclude matches Some(list) && list.contains(n@)
}

/// The files that an entry stands for: none if it is passed over; for a
/// directory those of its entries; for a regular file its path, if that has
/// the extension and is not among the file arguments.
pub open spec fn found_in_entry(
    entry: DirEntry,
    ext: Seq<char>,
    files: Seq<Seq<char>>,
    exclude: Option<Seq<Seq<char>>>,
) -> Seq<Seq<char>>
    decreases entry, 0nat,
{
    if is_excluded(entry.name, exclude) {
        Seq::empty()
    } else {
        match entry.kind {
            EntryKind::Directory(children) => found_in(
                children@,
                children@.len(),
                ext,
                files,
                exclude,
            ),
            EntryKind::File => if has_extension(entry.path@, ext) && !files.contains(entry.path@) {
                seq![entry.path@]
            } else {
                Seq::empty()
            },
            EntryKind::Other => Seq::empty(),
        }
    }
}

/// The files that the first `n` entries stand for, in the order of the
/// entries.
pub open spec fn found_in(
    entries: Seq<DirEntry>,
    n: nat,
    ext: Seq<char>,
    files: Seq<Seq<char>>,
    exclude: Option<Seq<Seq<char>>>,
) -> Seq<Seq<char>>
    decreases entries, n,
{
    if n == 0 || n > entries.len() {
        Seq::empty()
    } else {
        found_in(entries, (n - 1) as nat, ext, files, exclude) + found_in_entry(
            entries[n - 1],
            ext,
            files,
            exclude,
        )
    }
}

/// The files that the first `n` file arguments stand for: an argument that
/// is no pattern stands for itself, a pattern for the files of the listing
/// that have its extension.
pub open spec fn expanded(
    files: Seq<Seq<char>>,
    n: nat,
    listing: Seq<DirEntry>,
    exclude: Option<Seq<Seq<char>>>,
) -> Seq<Seq<char>>
    decreases n,
{
    if n == 0 || n > files.len() {
        Seq::empty()
    } else {
        expanded(files, (n - 1) as nat, listing, exclude) + if is_pattern(files[n - 1]) {
            found_in(listing, listing.len(), extension_of(files[n - 1]), files, exclude)
        } else {
            seq![files[n - 1]]
        }
    }
}

/// The views of an optional reference to a list of strings.
pub open spec fn optional_list_view(v: Option<&Vec<String>>) -> Option<Seq<Seq<char>>> {
    match v {
        Some(v) => Some(texts(v@)),
        None => None,
    }
}

fn contains_text(list: &Vec<String>, wanted: &String) -> (r: bool)
    ensures
        r == texts(list@).contains(wanted@),
{
    let mut i: usize = 0;
    while i < list.len()
        invariant
            i <= list.len(),
            forall|j: int| 0 <= j < i ==> texts(list@)[j] != wanted@,
        decreases list.len() - i,
    {
        if list[i] == *wanted {
            assert(texts(list@)[i as int] == wanted@);
            return true;
        }
        i += 1;
    }
    false
}

fn ends_with_extension(path: &str, ext: &Vec<char>) -> (r: bool)
    ensures
        r == has_extension(path@, ext@),
{
    let chars = chars_of(path);
    if chars.len() <= ext.len() {
        return false;
    }
    let start = chars.len() - ext.len() - 1;
    let ghost tail = path@.subrange(start as int, path@.len() as int);
    let ghost wanted = seq!['.'] + ext@;
    if chars[start] != '.' {
        assert(tail[0] != wanted[0]);
        return false;
    }
    let mut i: usize = 0;
    while i < ext.len()
        invariant
            i <= ext.len(),
            chars@ == path@,
            start + 1 + ext.len() == chars.len(),
            tail == path@.subrange(start as int, path@.len() as int),
            wanted == seq!['.'] + ext@,
            forall|j: int| 0 <= j < i ==> chars@[start + 1 + j] == ext@[j],
        decreases ext.len() - i,
    {
        if chars[start + 1 + i] != ext[i] {
            assert(tail[i + 1] != wanted[i + 1]);
            return false;
        }
        i += 1;
    }
    assert(tail == wanted);
    true
}

/// Whether an entry is passed over, with all it holds.
pub fn entry_is_excluded(entry: &DirEntry, exclude: Option<&Vec<String>>) -> (r: bool)
    ensures
        r == is_excluded(entry.name, optional_list_view(exclude)),
{
    match (&entry.name, exclude) {
        (Some(name), Some(list)) => contains_text(list, name),
        _ => false,
    }
}

/// Walks through a listing and collects the files that have the extension
/// `ext`, passing over every entry whose name is excluded and every path
/// that is among the file arguments.
fn find_files_with_ext(
    entries: &Vec<DirEntry>,
    ext: &Vec<char>,
    files: &Vec<String>,
    exclude: Option<&Vec<String>>,
) -> (r: Vec<String>)
    ensures
        texts(r@) == found_in(
            entries@,
            entries@.len(),
            ext@,
            texts(files@),
            optional_list_view(exclude),
        ),
    decreases entries,
{
    let mut found: Vec<String> = Vec::new();
    let mut i: usize = 0;
    while i < entries.len()
        invariant
            i <= entries.len(),
            texts(found@) == found_in(
                entries@,
                i as nat,
                ext@,
                texts(files@),
                optional_list_view(exclude),
            ),
        decreases entries.len() - i,
    {
        let entry = &entries[i];
        let ghost before = texts(found@);
        let ghost here = found_in_entry(
            entries@[i as int],
            ext@,
            texts(files@),
            optional_list_view(exclude),
        );
        if !entry_is_excluded(entry, exclude) {
            match &entry.kind {
                EntryKind::Directory(children) => {
                    let mut inner = find_files_with_ext(children, ext, files, exclude);
                    let ghost added = texts(inner@);
                    let ghost old_found = found@;
                    let ghost old_inner = inner@;
                    found.append(&mut inner);
                    assert(texts(found@) == before + added) by {
                        assert(found@ == old_found + old_inner);
                    }
                    assert(here == added);
                },
                EntryKind::File => {
                    if ends_with_extension(entry.path.as_str(), ext) && !contains_text(
                        files,
                        &entry.path,
                    ) {
                        found.push(entry.path.clone());
                        assert(texts(found@) == before + seq![entry.path@]);
                        assert(here == seq![entry.path@]);
                    } else {
                        assert(before + Seq::<Seq<char>>::empty() == before);
                        assert(here == Seq::<Seq<char>>::empty());
                    }
                },
                EntryKind::Other => {
                    assert(before + Seq::<Seq<char>>::empty() == before);
                    assert(here == Seq::<Seq<char>>::empty());
                },
            }
        } else {
            assert(before + Seq::<Seq<char>>::empty() == before);
            assert(here == Seq::<Seq<char>>::empty());
        }
        assert(texts(found@) == before + here);
        i += 1;
    }
    found
}

impl<'a> CommandHandler<'a> {
    /// Whether one of the file arguments is a pattern, so that a listing is
    /// needed to expand it.
    pub fn has_pattern(files: &Vec<String>) -> (r: bool)
        ensures
            r == exists|i: int| 0 <= i < files@.len() && is_pattern(#[trigger] texts(files@)[i]),
    {
        let mut i: usize = 0;
        while i < files.len()
            invariant
                i <= files.len(),
                forall|j: int| 0 <= j < i ==> !is_pattern(#[trigger] texts(files@)[j]),
            decreases files.len() - i,
        {
            let chars = chars_of(files[i].as_str());
            if find_char_from(&chars, '*', 0) < chars.len() {
                assert(is_pattern(texts(files@)[i as int]));
                return true;
            }
            i += 1;
        }
        false
    }

    /// Replaces every pattern among the file arguments by the files of the
    /// listing that have the pattern's extension, such as `*.rs` by all
    /// files that end in `.rs`. Entries with an excluded name are passed
    /// over, directories with all they hold. Without file arguments there is
    /// nothing to expand.
    pub fn expand_files_from_dir(
        listing: &Vec<DirEntry>,
        files: Option<&Vec<String>>,
        exclude: Option<&Vec<String>>,
    ) -> (r: Option<Vec<String>>)
        ensures
            match files {
                Some(list) => r is Some && texts(r->Some_0@) == expanded(
                    texts(list@),
                    list@.len(),
                    listing@,
                    optional_list_view(exclude),
                ),
                None => r is None,
            },
    {
        let files = match files {
            Some(files) => files,
            None => {
                return None;
            },
        };
        let mut result: Vec<String> = Vec::new();
        let mut i: usize = 0;
        while i < files.len()
            invariant
                i <= files.len(),
                texts(result@) == expanded(
                    texts(files@),
                    i as nat,
                    listing@,
                    optional_list_view(exclude),
                ),
            decreases files.len() - i,
        {
            let ghost before = texts(result@);
            let chars = chars_of(files[i].as_str());
            let star = find_char_from(&chars, '*', 0);
            if star < chars.len() {
                let ext: Vec<char> = if chars.len() >= 2 && chars[0] == '*' && chars[1] == '.' {
                    let mut ext: Vec<char> = Vec::new();
                    let mut j: usize = 2;
                    while j < chars.len()
                        invariant
                            2 <= j <= chars.len(),
                            ext@ == chars@.subrange(2, j as int),
                        decreases chars.len() - j,
                    {
                        ext.push(chars[j]);
                        j += 1;
                        assert(ext@ == chars@.subrange(2, j as int));
                    }
                    ext
                } else {
                    Vec::new()
                };
                assert(ext@ == extension_of(files@[i as int]@));
                let mut found = find_files_with_ext(listing, &ext, files, exclude);
                let ghost added = texts(found@);
                let ghost old_result = result@;
                let ghost old_found = found@;
                result.append(&mut found);
                assert(texts(result@) == before + added) by {
                    assert(result@ == old_result + old_found);
                }
            } else {
                result.push(files[i].clone());
                assert(texts(result@) == before + seq![files@[i as int]@]);
            }
            i += 1;
        }
        Some(result)
    }
}

} // verus!
