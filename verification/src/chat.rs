//! Messages of a conversation and the rules by which a request is put
//! together from them.

use crate::diff::{edits_of, rendered_edit, DiffsManager};
use crate::myers::Edit;
use crate::script::edit_count;
use crate::prompts::{CODE, COMMIT, GENERAL, GIT};
use vstd::prelude::*;
use vstd::string::StringExecFns;

verus! {

/// The sender of a message.
#[derive(Debug, Clone, Copy, PartialEq, Eq)]
pub enum Role {
    System,
    User,
    Assistant,
}

/// A chat message.
#[derive(Debug, Clone)]
pub struct Message {
    pub role: Role,
    pub content: String,
}

/// The mathematical value of a [`Message`].
pub struct MessageView {
    pub role: Role,
    pub content: Seq<char>,
}

impl View for Message {
    type V = MessageView;

    open spec fn view(&self) -> MessageView {
        MessageView { role: self.role, content: self.content@ }
    }
}

/// The views of a list of messages.
pub open spec fn messages_of(v: Seq<Message>) -> Seq<MessageView> {
    Seq::new(v.len(), |i: int| v[i]@)
}

/// A message of the user with the given content.
pub open spec fn user_message(content: Seq<char>) -> MessageView {
    MessageView { role: Role::User, content }
}

/// The kind of a request, each with the prompt that the user gave, if any.
#[derive(Debug, Clone)]
pub enum MessageType {
    Commit(Option<String>),
    Code { user_prompt: Option<String>, files: Option<Vec<String>> },
    Git(Option<String>),
}

/// The instructions that belong to a kind of request.
pub open spec fn instructions(message_type: MessageType) -> Seq<char> {
    match message_type {
        MessageType::Code { .. } => CODE@,
        MessageType::Commit(_) => COMMIT@,
        MessageType::Git(_) => GIT@,
    }
}

/// The prompt that the user gave with a request.
pub open spec fn user_prompt_of(message_type: MessageType) -> Option<String> {
    match message_type {
        MessageType::Code { user_prompt, .. } => user_prompt,
        MessageType::Commit(user_prompt) => user_prompt,
        MessageType::Git(user_prompt) => user_prompt,
    }
}

/// The view of an optional string.
pub open spec fn optional_string_view(s: Option<String>) -> Option<Seq<char>> {
    match s {
        Some(s) => Some(s@),
        None => None,
    }
}

/// The view of an optional message.
pub open spec fn optional_message_view(m: Option<Message>) -> Option<MessageView> {
    match m {
        Some(m) => Some(m@),
        None => None,
    }
}

/// The message that carries the user's own prompt, if there is one.
pub open spec fn user_prompt_message(message_type: MessageType) -> Option<MessageView> {
    match user_prompt_of(message_type) {
        Some(prompt) => Some(user_message(prompt@)),
        None => None,
    }
}

impl MessageType {
    /// The instructions that belong to this kind of request.
    pub fn to_string(&self) -> (s: String)
        ensures
            s@ == instructions(*self),
    {
        match self {
            MessageType::Code { .. } => String::from_str(CODE),
            MessageType::Commit(_) => String::from_str(COMMIT),
            MessageType::Git(_) => String::from_str(GIT),
        }
    }

    /// The user's own prompt as a message of the user.
    pub fn resolve_user_prompt(&self) -> (r: Option<Message>)
        ensures
            optional_message_view(r) == user_prompt_message(*self),
    {
        let prompt = match self {
            MessageType::Code { user_prompt, .. } => user_prompt,
            MessageType::Commit(user_prompt) => user_prompt,
            MessageType::Git(user_prompt) => user_prompt,
        };
        match prompt {
            Some(content) => Some(Message { role: Role::User, content: content.clone() }),
            None => None,
        }
    }

    /// Forgets the user's own prompt and leaves the rest as it is.
    pub fn clear_user_prompt(&mut self)
        ensures
            user_prompt_of(*final(self)) is None,
            instructions(*final(self)) == instructions(*old(self)),
            match (*old(self), *final(self)) {
                (
                    MessageType::Code { files: before, .. },
                    MessageType::Code { files: after, .. },
                ) => before == after,
                (MessageType::Commit(_), MessageType::Commit(_)) => true,
                (MessageType::Git(_), MessageType::Git(_)) => true,
                _ => false,
            },
    {
        match self {
            MessageType::Code { user_prompt, .. } => {
                *user_prompt = None;
            },
            MessageType::Commit(user_prompt) => {
                *user_prompt = None;
            },
            MessageType::Git(user_prompt) => {
                *user_prompt = None;
            },
        }
    }
}

/// `messages` with one more message at the end, if there is one.
pub open spec fn with_optional(messages: Seq<MessageView>, message: Option<MessageView>) -> Seq<
    MessageView,
> {
    match message {
        Some(message) => messages.push(message),
        None => messages,
    }
}

/// The messages of a request once a turn has been added to the conversation
/// `before`: a conversation that was empty starts with the general
/// instructions and those of the request's kind; then comes the message of
/// the turn, if it has one, and then the user's own prompt, if there is one.
pub open spec fn with_turn(
    before: Seq<MessageView>,
    message: Option<MessageView>,
    message_type: MessageType,
) -> Seq<MessageView> {
    let opened = if before.len() == 0 {
        seq![user_message(GENERAL@), user_message(instructions(message_type))]
    } else {
        before
    };
    with_optional(with_optional(opened, message), user_prompt_message(message_type))
}

/// All entries of a script as they are written, one after the other.
pub open spec fn rendered_script(script: Seq<Edit>) -> Seq<char>
    decreases script.len(),
{
    if script.len() == 0 {
        Seq::empty()
    } else {
        rendered_script(script.drop_last()) + rendered_edit(script.last())
    }
}

/// The text that reports the changes of a file: a heading with the file's
/// name, an empty line, and the entries of the script.
pub open spec fn diff_block(script: Seq<Edit>, filename: Seq<char>) -> Seq<char> {
    "Here are the updates of file "@ + filename + ":\n\n"@ + rendered_script(script)
}

/// The messages after the changes of a file were attached: a script without
/// insertions and deletions attaches nothing, any other one message of the
/// user with all its entries.
pub open spec fn with_changes(
    before: Seq<MessageView>,
    script: Seq<Edit>,
    filename: Seq<char>,
) -> Seq<MessageView> {
    if edit_count(script) == 0 {
        before
    } else {
        before.push(user_message(diff_block(script, filename)))
    }
}

/// Collects the messages of a request.
pub struct Builder {
    pub messages: Vec<Message>,
}

impl View for Builder {
    type V = Seq<MessageView>;

    open spec fn view(&self) -> Seq<MessageView> {
        messages_of(self.messages@)
    }
}

impl Builder {
    /// A builder that starts from the given messages.
    pub fn new(messages: Vec<Message>) -> (r: Self)
        ensures
            r@ == messages_of(messages@),
    {
        Self { messages }
    }

    /// Appends a message.
    pub fn with(&mut self, message: Message)
        ensures
            final(self)@ == old(self)@.push(message@),
    {
        self.messages.push(message);
        assert(self@ == old(self)@.push(message@));
    }

    /// Attaches the changes of the file `filename`, unless there are none.
    pub fn with_diffs(&mut self, diff_man: &DiffsManager, filename: &str)
        ensures
            final(self)@ == with_changes(old(self)@, edits_of(diff_man.diffs@), filename@),
    {
        if !diff_man.has_changes() {
            return ;
        }
        let mut content = String::from_str("Here are the updates of file ");
        content.append(filename);
        content.append(":\n\n");
        let ghost heading = content@;
        let ghost script = edits_of(diff_man.diffs@);
        let mut i: usize = 0;
        while i < diff_man.diffs.len()
            invariant
                i <= diff_man.diffs.len(),
                script == edits_of(diff_man.diffs@),
                content@ == heading + rendered_script(script.subrange(0, i as int)),
            decreases diff_man.diffs.len() - i,
        {
            diff_man.diffs[i].write_to(&mut content);
            proof {
                let longer = script.subrange(0, i + 1);
                assert(longer.drop_last() == script.subrange(0, i as int));
                assert(longer.last() == diff_man.diffs@[i as int]@);
            }
            i += 1;
        }
        assert(script.subrange(0, i as int) == script);
        self.with(Message { role: Role::User, content });
    }

    /// Adds a turn: the instructions, if the conversation was empty, the
    /// message of the turn, if it has one, and the user's own prompt, if
    /// there is one.
    pub fn with_turn(&mut self, message: Option<Message>, message_type: &MessageType)
        ensures
            final(self)@ == with_turn(
                old(self)@,
                optional_message_view(message),
                *message_type,
            ),
    {
        if self.messages.len() == 0 {
            self.with(Message { role: Role::User, content: String::from_str(GENERAL) });
            self.with(Message { role: Role::User, content: message_type.to_string() });
        }
        match message {
            Some(message) => {
                self.with(message);
            },
            None => {},
        }
        match message_type.resolve_user_prompt() {
            Some(user_message) => {
                self.with(user_message);
            },
            None => {},
        }
    }

    /// The messages collected so far.
    pub fn into_messages(self) -> (messages: Vec<Message>)
        ensures
            messages_of(messages@) == self@,
    {
        self.messages
    }
}

} // verus!
