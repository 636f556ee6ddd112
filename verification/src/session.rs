//! A chat session: the conversation so far with the files it has shown, the
//! collector of a streamed response, and the name under which a session is
//! stored.

use crate::chat::{
    messages_of, optional_message_view, with_turn, Builder, Message, MessageType, MessageView,
    Role,
};
use crate::errors::ChatError;
use crate::stream::{feed_model, DecoderModel, DecoderStatus, StreamDecoder, StreamError};
use crate::text::{digit_char, texts};
use crate::tracker::{observed_view, reference_model, ChangeTracker, FileSnapshot};
use crate::files::TrackedFileView;
use vstd::prelude::*;
use vstd::string::StringExecFns;
use vstd::utf8::encode_utf8;

verus! {

/// A chat: its messages, and the files that it has shown to the service.
pub struct Chat {
    conversation: Builder,
    tracker: ChangeTracker,
}

impl Chat {
    /// The messages of the chat.
    pub closed spec fn messages_view(&self) -> Seq<MessageView> {
        self.conversation@
    }

    /// The files that the chat tracks.
    pub closed spec fn files_view(&self) -> Seq<TrackedFileView> {
        self.tracker@
    }

    /// A chat without messages that tracks no file.
    pub fn new() -> (r: Self)
        ensures
            r.messages_view() == Seq::<MessageView>::empty(),
            r.files_view() == Seq::<TrackedFileView>::empty(),
    {
        let conversation = Builder::new(Vec::new());
        assert(conversation@ == Seq::<MessageView>::empty());
        Self { conversation, tracker: ChangeTracker::new() }
    }

    /// A chat with the given messages and tracked files.
    pub fn restore(messages: Vec<Message>, tracker: ChangeTracker) -> (r: Self)
        ensures
            r.messages_view() == messages_of(messages@),
            r.files_view() == tracker@,
    {
        Self { conversation: Builder::new(messages), tracker }
    }

    /// Appends a message.
    pub fn add_message(&mut self, message: Message)
        ensures
            final(self).messages_view() == old(self).messages_view().push(message@),
            final(self).files_view() == old(self).files_view(),
    {
        self.conversation.with(message);
    }

    /// The messages of the chat.
    pub fn messages(&self) -> (r: &Vec<Message>)
        ensures
            messages_of(r@) == self.messages_view(),
    {
        &self.conversation.messages
    }

    /// The files that the chat tracks.
    pub fn tracker(&self) -> (r: &ChangeTracker)
        ensures
            r@ == self.files_view(),
    {
        &self.tracker
    }

    /// Opens a turn: the instructions, if the chat was empty, then the
    /// message of the turn, if it has one, and the user's own prompt, if
    /// there is one.
    pub fn begin_turn(&mut self, message: Option<Message>, message_type: &MessageType)
        ensures
            final(self).messages_view() == with_turn(
                old(self).messages_view(),
                optional_message_view(message),
                *message_type,
            ),
            final(self).files_view() == old(self).files_view(),
    {
        self.conversation.with_turn(message, message_type);
    }

    /// Refers to a file in the current turn, given what was found of the
    /// file on disk.
    pub fn reference_file(&mut self, arg: &str, observed: Result<FileSnapshot, String>) -> (r:
        Result<(), ChatError>)
        ensures
            match reference_model(
                old(self).files_view(),
                old(self).messages_view(),
                arg@,
                observed_view(observed),
            ) {
                Ok(referenced) => r is Ok && final(self).files_view() == referenced.files
                    && final(self).messages_view() == referenced.messages,
                Err(fault) => r is Err && r->Err_0@ == fault && final(self).files_view() == old(
                    self,
                ).files_view() && final(self).messages_view() == old(self).messages_view(),
            },
    {
        self.tracker.reference(arg, observed, &mut self.conversation)
    }
}

/// All fragments, one after the other.
pub open spec fn concatenated(deltas: Seq<Seq<char>>) -> Seq<char>
    decreases deltas.len(),
{
    if deltas.len() == 0 {
        Seq::empty()
    } else {
        concatenated(deltas.drop_last()) + deltas.last()
    }
}

/// The state of a collector: that of its decoder, and the response so far.
pub struct CollectorModel {
    pub decoder: DecoderModel,
    pub response: Seq<char>,
}

/// Collects the response of the service from the chunks of its stream.
pub struct ResponseCollector {
    decoder: StreamDecoder,
    response: String,
}

impl View for ResponseCollector {
    type V = CollectorModel;

    closed spec fn view(&self) -> CollectorModel {
        CollectorModel { decoder: self.decoder@, response: self.response@ }
    }
}

impl ResponseCollector {
    /// A collector with an open decoder and an empty response.
    pub fn new() -> (r: Self)
        ensures
            r@ == (CollectorModel {
                decoder: DecoderModel { pending: Seq::empty(), status: DecoderStatus::Open },
                response: Seq::empty(),
            }),
    {
        Self { decoder: StreamDecoder::new(), response: String::new() }
    }

    /// Whether the stream may bring more: the decoder has met neither the end
    /// marker nor a fault. Once this is false, reading the stream on changes
    /// nothing.
    pub fn is_open(&self) -> (r: bool)
        ensures
            r == (self@.decoder.status is Open),
    {
        match self.decoder.status() {
            DecoderStatus::Open => true,
            _ => false,
        }
    }

    /// The number of bytes that the decoder holds back.
    pub fn pending_len(&self) -> (n: usize)
        ensures
            n == self@.decoder.pending.len(),
    {
        self.decoder.pending_len()
    }

    /// Takes the next chunk of the stream. The fragments that it completes
    /// are appended to the response and returned, to be passed on in this
    /// order. After a fault the response is as it was.
    pub fn take_chunk(&mut self, chunk: &[u8]) -> (r: Result<Vec<String>, StreamError>)
        requires
            old(self)@.decoder.pending.len() + chunk@.len() <= isize::MAX,
        ensures
            final(self)@.decoder == feed_model(old(self)@.decoder, chunk@).next,
            match feed_model(old(self)@.decoder, chunk@).outcome {
                Ok(found) => r is Ok && texts(r->Ok_0@) == found.0 && final(self)@.response == old(
                    self,
                )@.response + concatenated(found.0),
                Err(fault) => r is Err && r->Err_0@ == fault && final(self)@.response == old(
                    self,
                )@.response,
            },
    {
        match self.decoder.feed(chunk) {
            Err(e) => Err(e),
            Ok((deltas, _)) => {
                let ghost all = texts(deltas@);
                let ghost start = self.response@;
                let mut i: usize = 0;
                while i < deltas.len()
                    invariant
                        i <= deltas.len(),
                        all == texts(deltas@),
                        self.decoder@ == feed_model(old(self)@.decoder, chunk@).next,
                        self.response@ == start + concatenated(all.subrange(0, i as int)),
                    decreases deltas.len() - i,
                {
                    proof {
                        let longer = all.subrange(0, i + 1);
                        assert(longer.drop_last() == all.subrange(0, i as int));
                        assert(longer.last() == deltas@[i as int]@);
                    }
                    self.response.append(deltas[i].as_str());
                    i += 1;
                }
                assert(all.subrange(0, i as int) == all);
                Ok(deltas)
            },
        }
    }

    /// The response as a message of the assistant.
    pub fn finish(self) -> (message: Message)
        ensures
            message@ == (MessageView { role: Role::Assistant, content: self@.response }),
    {
        Message { role: Role::Assistant, content: self.response }
    }
}

/// How the two sides of a response end together: the fault of the side that
/// writes comes first, then the fault of the side that collects; where
/// neither failed, the collected message is the outcome.
pub open spec fn joined_outcome(
    written: Result<(), ChatError>,
    collected: Result<Message, ChatError>,
) -> Result<Message, ChatError> {
    match (written, collected) {
        (Err(e), _) => Err(e),
        (Ok(_), Err(e)) => Err(e),
        (Ok(_), Ok(message)) => Ok(message),
    }
}

/// Joins the side that wrote the fragments and the side that collected
/// them, once both have ended.
pub fn pipeline_outcome(written: Result<(), ChatError>, collected: Result<Message, ChatError>) -> (r:
    Result<Message, ChatError>)
    ensures
        r == joined_outcome(written, collected),
{
    match written {
        Err(e) => Err(e),
        Ok(_) => collected,
    }
}

/// Whether a byte is an ASCII letter or digit.
pub open spec fn is_alphanumeric(byte: u8) -> bool {
    (48 <= byte <= 57) || (65 <= byte <= 90) || (97 <= byte <= 122)
}

/// The character that writes the hexadecimal digit `d`, in upper case.
pub open spec fn hex_digit(d: int) -> char {
    if d < 10 {
        digit_char(d)
    } else if d == 10 {
        'A'
    } else if d == 11 {
        'B'
    } else if d == 12 {
        'C'
    } else if d == 13 {
        'D'
    } else if d == 14 {
        'E'
    } else {
        'F'
    }
}

/// A byte as it is escaped: an ASCII letter or digit stands for itself, any
/// other byte is written as `%` and its two hexadecimal digits.
pub open spec fn escaped_byte(byte: u8) -> Seq<char> {
    if is_alphanumeric(byte) {
        seq![byte as char]
    } else {
        seq!['%', hex_digit(byte as int / 16), hex_digit(byte as int % 16)]
    }
}

/// All bytes, escaped one by one.
pub open spec fn escaped(bytes: Seq<u8>) -> Seq<char>
    decreases bytes.len(),
{
    if bytes.len() == 0 {
        Seq::empty()
    } else {
        escaped(bytes.drop_last()) + escaped_byte(bytes.last())
    }
}

/// `percent_encoding::percent_encode` with the set `NON_ALPHANUMERIC`,
/// written out as a string: every byte that is no ASCII letter or digit is
/// replaced by `%` and its two upper-case hexadecimal digits.
#[verifier::external_body]
pub(crate) fn percent_encoded(input: &[u8]) -> (s: String)
    ensures
        s@ == escaped(input@),
{
    percent_encoding::percent_encode(input, percent_encoding::NON_ALPHANUMERIC).to_string()
}

/// The name of the file in which the chat of a working directory is stored:
/// the escaped path of the directory, with the extension `.json`.
pub open spec fn cache_name(directory: Seq<u8>) -> Seq<char> {
    escaped(directory) + ".json"@
}

/// The name of the file in which the chat of the working directory `cwd` is
/// stored.
pub fn cache_file_name(cwd: &str) -> (name: String)
    ensures
        name@ == cache_name(encode_utf8(cwd@)),
{
    let mut name = percent_encoded(cwd.as_bytes());
    name.append(".json");
    name
}

} // verus!
