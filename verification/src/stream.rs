//! The incremental decoder of the completion event stream.
//!
//! The stream is a sequence of events, each ended by two line feeds. An event
//! that starts with `data: ` carries a payload: the end marker `[DONE]`, a
//! completion document with a text fragment, or an error document. The
//! decoder takes the bytes in whatever pieces the transport delivers them and
//! hands out the fragments in the order of the events.

use crate::buffer::{append_bytes, buffer_bytes, buffered, discard_front, new_buffer};
use crate::json::{
    field, fragment_view, json_document, json_value, lemma_values_upto, optional_ref_view,
    optional_text, optional_view, parse_json, read_optional_text, values_upto, Json, JsonValue,
};
use crate::text::{lossy_decoding, lossy_text, texts};
use vstd::prelude::*;
use vstd::slice::{slice_subrange, slice_to_vec};
use vstd::string::StringExecFns;

verus! {

/// The bytes `data: `, with which an event that carries a payload starts.
pub open spec fn data_prefix() -> Seq<u8> {
    seq![100u8, 97u8, 116u8, 97u8, 58u8, 32u8]
}

/// The bytes `[DONE]`, with which the payload of the last event starts.
pub open spec fn done_marker() -> Seq<u8> {
    seq![91u8, 68u8, 79u8, 78u8, 69u8, 93u8]
}

/// Whether `s` starts with `prefix`.
pub open spec fn starts_with(s: Seq<u8>, prefix: Seq<u8>) -> bool {
    prefix.len() <= s.len() && s.subrange(0, prefix.len() as int) == prefix
}

/// Whether the separator of two events, a pair of line feeds, starts at `p`.
pub open spec fn separator_at(buf: Seq<u8>, p: int) -> bool {
    0 <= p && p + 1 < buf.len() && buf[p] == 10u8 && buf[p + 1] == 10u8
}

/// Position of the first separator at or after `from`, or `buf.len()` when
/// there is none.
pub open spec fn next_separator(buf: Seq<u8>, from: int) -> int
    decreases buf.len() - from,
{
    if from < 0 || from + 1 >= buf.len() {
        buf.len() as int
    } else if separator_at(buf, from) {
        from
    } else {
        next_separator(buf, from + 1)
    }
}

/// Why decoding stopped.
#[derive(Debug, PartialEq)]
pub enum StreamError {
    /// The service sent an error document; this is its message.
    Provider(String),
    /// A payload was neither a completion nor an error document; these are
    /// its bytes.
    Parse(Vec<u8>),
}

/// The mathematical value of a [`StreamError`].
pub enum StreamFault {
    Provider(Seq<char>),
    Parse(Seq<u8>),
}

impl View for StreamError {
    type V = StreamFault;

    open spec fn view(&self) -> StreamFault {
        match self {
            StreamError::Provider(message) => StreamFault::Provider(message@),
            StreamError::Parse(payload) => StreamFault::Parse(payload@),
        }
    }
}

/// How a fault is reported: the service's message as it came, or the
/// payload that could not be read, after `cannot parse chunk: `.
pub open spec fn fault_text(fault: StreamFault) -> Seq<char> {
    match fault {
        StreamFault::Provider(message) => message,
        StreamFault::Parse(payload) => "cannot parse chunk: "@ + lossy_decoding(payload),
    }
}

impl StreamError {
    /// The report of this error.
    pub fn to_string(&self) -> (s: String)
        ensures
            s@ == fault_text(self@),
    {
        match self {
            StreamError::Provider(message) => message.clone(),
            StreamError::Parse(payload) => {
                let mut s = String::from_str("cannot parse chunk: ");
                let raw = lossy_text(payload.as_slice());
                s.append(raw.as_str());
                s
            },
        }
    }
}

/// The fragment of a `delta` member: the member may be missing or null, or
/// an object whose `content` is an optional text.
pub open spec fn delta_text(delta: Option<JsonValue>) -> Option<Option<Seq<char>>> {
    match delta {
        None => Some(None),
        Some(JsonValue::Null) => Some(None),
        Some(JsonValue::Object(members)) => optional_text(
            field(JsonValue::Object(members), "content"@),
        ),
        Some(_) => None,
    }
}

/// Whether an `index` member is acceptable: missing, or an integer in the
/// range of `i32`.
pub open spec fn acceptable_index(index: Option<JsonValue>) -> bool {
    match index {
        None => true,
        Some(JsonValue::Number(Some(i))) => i32::MIN <= i <= i32::MAX,
        Some(_) => false,
    }
}

/// The fragment of one choice, or `None` where the document is no choice: a
/// choice is an object with an acceptable `index`, an optional text as
/// `finish_reason`, and a `delta` as above.
pub open spec fn choice_text(choice: JsonValue) -> Option<Option<Seq<char>>> {
    if choice is Object && acceptable_index(field(choice, "index"@)) && optional_text(
        field(choice, "finish_reason"@),
    ) is Some {
        delta_text(field(choice, "delta"@))
    } else {
        None
    }
}

/// The fragment of a completion document, or `None` where the document is no
/// completion: a completion is an object whose `choices` is an array of
/// choices; its fragment is that of the first choice.
pub open spec fn completion_text(doc: JsonValue) -> Option<Option<Seq<char>>> {
    match field(doc, "choices"@) {
        Some(JsonValue::Array(choices)) => {
            if forall|i: int| 0 <= i < choices.len() ==> choice_text(#[trigger] choices[i]) is Some {
                if choices.len() > 0 {
                    choice_text(choices[0])
                } else {
                    Some(None)
                }
            } else {
                None
            }
        },
        _ => None,
    }
}

/// The message of an error document, or `None` where the document is none:
/// an error document is an object whose `error` is an object whose `message`
/// is a text.
pub open spec fn error_message(doc: JsonValue) -> Option<Seq<char>> {
    match field(doc, "error"@) {
        Some(JsonValue::Object(members)) => match field(
            JsonValue::Object(members),
            "message"@,
        ) {
            Some(JsonValue::Text(message)) => Some(message),
            _ => None,
        },
        _ => None,
    }
}

/// What a payload yields, given the document that was read from it: the
/// non-empty fragment of a completion, nothing for a completion without one,
/// the service's message as a fault for an error document, and the payload
/// itself as a fault for everything else.
pub open spec fn payload_outcome(payload: Seq<u8>, doc: Option<JsonValue>) -> Result<
    Option<Seq<char>>,
    StreamFault,
> {
    match doc {
        None => Err(StreamFault::Parse(payload)),
        Some(json) => match completion_text(json) {
            Some(Some(t)) => if t.len() > 0 {
                Ok(Some(t))
            } else {
                Ok(None)
            },
            Some(None) => Ok(None),
            None => match error_message(json) {
                Some(message) => Err(StreamFault::Provider(message)),
                None => Err(StreamFault::Parse(payload)),
            },
        },
    }
}

fn read_delta(delta: Option<&Json>) -> (r: Option<Option<String>>)
    ensures
        fragment_view(r) == delta_text(optional_ref_view(delta)),
{
    match delta {
        None => Some(None),
        Some(Json::Null) => Some(None),
        Some(Json::Object(members)) => {
            let object = delta.unwrap();
            assert(object@ is Object);
            read_optional_text(object.get("content"))
        },
        Some(_) => None,
    }
}

fn index_is_acceptable(index: Option<&Json>) -> (r: bool)
    ensures
        r == acceptable_index(optional_ref_view(index)),
{
    match index {
        None => true,
        Some(Json::Number(Some(i))) => -2147483648 <= *i && *i <= 2147483647,
        Some(_) => false,
    }
}

fn is_object(doc: &Json) -> (r: bool)
    ensures
        r == (doc@ is Object),
{
    match doc {
        Json::Object(_) => true,
        _ => false,
    }
}

fn read_choice(choice: &Json) -> (r: Option<Option<String>>)
    ensures
        fragment_view(r) == choice_text(choice@),
{
    if !is_object(choice) {
        return None;
    }
    if !index_is_acceptable(choice.get("index")) {
        return None;
    }
    match read_optional_text(choice.get("finish_reason")) {
        None => None,
        Some(_) => read_delta(choice.get("delta")),
    }
}

/// Reads a document as a completion.
pub fn read_completion(doc: &Json) -> (r: Option<Option<String>>)
    ensures
        fragment_view(r) == completion_text(doc@),
{
    match doc.get("choices") {
        Some(Json::Array(choices)) => {
            let ghost values = values_upto(choices@, choices@.len());
            proof {
                lemma_values_upto(choices@, choices@.len());
            }
            let mut first: Option<Option<String>> = Some(None);
            let mut i: usize = 0;
            while i < choices.len()
                invariant
                    i <= choices.len(),
                    field(doc@, "choices"@) == Some(JsonValue::Array(values)),
                    values.len() == choices@.len(),
                    forall|j: int|
                        0 <= j < choices@.len() ==> #[trigger] values[j] == json_value(choices@[j]),
                    forall|j: int| 0 <= j < i ==> choice_text(#[trigger] values[j]) is Some,
                    i == 0 ==> first == Some(None::<String>),
                    i > 0 ==> fragment_view(first) == choice_text(values[0]),
                decreases choices.len() - i,
            {
                match read_choice(&choices[i]) {
                    None => {
                        assert(choice_text(values[i as int]) is None);
                        return None;
                    },
                    Some(text) => {
                        if i == 0 {
                            first = Some(text);
                        }
                    },
                }
                i += 1;
            }
            first
        },
        _ => None,
    }
}

/// Reads a document as an error document.
pub fn read_error(doc: &Json) -> (r: Option<String>)
    ensures
        match r {
            Some(message) => error_message(doc@) == Some(message@),
            None => error_message(doc@) is None,
        },
{
    match doc.get("error") {
        Some(Json::Object(members)) => {
            let object = doc.get("error").unwrap();
            assert(object@ is Object);
            match object.get("message") {
                Some(Json::Text(message)) => Some(message.clone()),
                _ => None,
            }
        },
        _ => None,
    }
}

/// The view of what a payload yields.
pub open spec fn outcome_view(r: Result<Option<String>, StreamError>) -> Result<
    Option<Seq<char>>,
    StreamFault,
> {
    match r {
        Ok(Some(s)) => Ok(Some(s@)),
        Ok(None) => Ok(None),
        Err(e) => Err(e@),
    }
}

/// Decides what a payload yields, given the document that was read from it
/// (`None` where the payload is no JSON).
pub fn interpret_payload(payload: &[u8], doc: &Option<Json>) -> (r: Result<
    Option<String>,
    StreamError,
>)
    ensures
        outcome_view(r) == payload_outcome(payload@, optional_view(*doc)),
{
    match doc {
        None => Err(StreamError::Parse(slice_to_vec(payload))),
        Some(json) => match read_completion(json) {
            Some(Some(text)) => {
                if text.as_str().unicode_len() > 0 {
                    Ok(Some(text))
                } else {
                    Ok(None)
                }
            },
            Some(None) => Ok(None),
            None => match read_error(json) {
                Some(message) => Err(StreamError::Provider(message)),
                None => Err(StreamError::Parse(slice_to_vec(payload))),
            },
        },
    }
}

/// What one event does to the decoding.
pub enum Event {
    /// The event carries no payload for this decoder and is passed over.
    Skipped,
    /// The event is the end marker.
    Done,
    /// The event was read; it yields a fragment or nothing.
    Read(Option<Seq<char>>),
    /// The event cannot be decoded, or reports an error of the service.
    Failed(StreamFault),
}

/// What the event with the given bytes (without its separator) does.
pub open spec fn event_of(chunk: Seq<u8>) -> Event {
    if !starts_with(chunk, data_prefix()) {
        Event::Skipped
    } else {
        let payload = chunk.subrange(data_prefix().len() as int, chunk.len() as int);
        if starts_with(payload, done_marker()) {
            Event::Done
        } else {
            match payload_outcome(payload, json_document(payload)) {
                Ok(fragment) => Event::Read(fragment),
                Err(fault) => Event::Failed(fault),
            }
        }
    }
}

/// The result of scanning a buffer: the fragments of the events that were
/// read, the position up to which the buffer is used up, and whether the end
/// marker was met.
pub struct Scan {
    pub deltas: Seq<Seq<char>>,
    pub consumed: int,
    pub terminated: bool,
}

/// `rest`, with the fragments `first` before its own.
pub open spec fn after_deltas(first: Seq<Seq<char>>, rest: Result<Scan, StreamFault>) -> Result<
    Scan,
    StreamFault,
> {
    match rest {
        Ok(scan) => Ok(
            Scan {
                deltas: first + scan.deltas,
                consumed: scan.consumed,
                terminated: scan.terminated,
            },
        ),
        Err(fault) => Err(fault),
    }
}

/// The fragments that an event adds: its own, if it yields one.
pub open spec fn fragment_seq(fragment: Option<Seq<char>>) -> Seq<Seq<char>> {
    match fragment {
        Some(t) => seq![t],
        None => Seq::empty(),
    }
}

/// Scans `buf` from `pos` on, event by event. Scanning ends where no
/// complete event is left, after the end marker, or with the fault of the
/// first event that fails.
pub open spec fn scan_from(buf: Seq<u8>, pos: int) -> Result<Scan, StreamFault>
    decreases buf.len() - pos,
{
    let sep = next_separator(buf, pos);
    if pos < 0 || sep < pos || sep + 2 > buf.len() {
        Ok(Scan { deltas: Seq::empty(), consumed: pos, terminated: false })
    } else {
        match event_of(buf.subrange(pos, sep)) {
            Event::Skipped => scan_from(buf, sep + 2),
            Event::Done => Ok(Scan { deltas: Seq::empty(), consumed: sep + 2, terminated: true }),
            Event::Read(fragment) => after_deltas(fragment_seq(fragment), scan_from(buf, sep + 2)),
            Event::Failed(fault) => Err(fault),
        }
    }
}

/// `next_separator` returns a position at or after `from` at which a
/// separator starts, unless it returns the length; none starts between.
pub proof fn lemma_next_separator(buf: Seq<u8>, from: int)
    requires
        0 <= from,
    ensures
        from <= next_separator(buf, from) || next_separator(buf, from) == buf.len(),
        next_separator(buf, from) <= buf.len(),
        next_separator(buf, from) < buf.len() ==> from <= next_separator(buf, from)
            && separator_at(buf, next_separator(buf, from)),
        forall|p: int| from <= p < next_separator(buf, from) ==> !#[trigger] separator_at(buf, p),
    decreases buf.len() - from,
{
    if from + 1 < buf.len() && !separator_at(buf, from) {
        lemma_next_separator(buf, from + 1);
    }
}

/// A position reached without meeting a separator has the same next
/// separator.
pub proof fn lemma_next_separator_skip(buf: Seq<u8>, from: int, to: int)
    requires
        0 <= from <= to,
        forall|p: int| from <= p < to ==> !#[trigger] separator_at(buf, p),
    ensures
        next_separator(buf, from) == next_separator(buf, to),
    decreases to - from,
{
    if from < to {
        if from + 1 < buf.len() {
            lemma_next_separator_skip(buf, from + 1, to);
        } else {
            lemma_next_separator(buf, to);
        }
    }
}

fn find_separator(buffer: &[u8], from: usize) -> (p: usize)
    requires
        from <= buffer@.len(),
    ensures
        p == next_separator(buffer@, from as int),
        from <= p <= buffer@.len(),
        p < buffer@.len() ==> p + 2 <= buffer@.len(),
{
    let n = buffer.len();
    let mut i: usize = from;
    while i < n && !(n - i >= 2 && buffer[i] == 10u8 && buffer[i + 1] == 10u8)
        invariant
            n == buffer@.len(),
            from <= i <= n,
            forall|p: int| from <= p < i ==> !#[trigger] separator_at(buffer@, p),
        decreases n - i,
    {
        i += 1;
    }
    proof {
        lemma_next_separator_skip(buffer@, from as int, i as int);
        lemma_next_separator(buffer@, i as int);
    }
    i
}

fn has_prefix(bytes: &[u8], prefix: &[u8]) -> (r: bool)
    ensures
        r == starts_with(bytes@, prefix@),
{
    if prefix.len() > bytes.len() {
        return false;
    }
    let mut i: usize = 0;
    while i < prefix.len()
        invariant
            i <= prefix.len() <= bytes.len(),
            forall|j: int| 0 <= j < i ==> bytes@[j] == prefix@[j],
        decreases prefix.len() - i,
    {
        if bytes[i] != prefix[i] {
            assert(bytes@.subrange(0, prefix@.len() as int)[i as int] != prefix@[i as int]);
            return false;
        }
        i += 1;
    }
    assert(bytes@.subrange(0, prefix@.len() as int) == prefix@);
    true
}

/// What scanning a buffer gave.
#[derive(Debug, PartialEq)]
pub struct Scanned {
    /// The fragments of the events that were read, in their order.
    pub deltas: Vec<String>,
    /// The number of bytes that the scanned events take, separators included.
    pub consumed: usize,
    /// Whether the end marker was met.
    pub terminated: bool,
}

impl View for Scanned {
    type V = Scan;

    open spec fn view(&self) -> Scan {
        Scan {
            deltas: texts(self.deltas@),
            consumed: self.consumed as int,
            terminated: self.terminated,
        }
    }
}

/// The view of the result of a scan.
pub open spec fn scanned_view(r: Result<Scanned, StreamError>) -> Result<Scan, StreamFault> {
    match r {
        Ok(scanned) => Ok(scanned@),
        Err(e) => Err(e@),
    }
}

/// What reading one event gave.
pub enum Step {
    Skipped,
    Done,
    Read(Option<String>),
    Failed(StreamError),
}

impl View for Step {
    type V = Event;

    open spec fn view(&self) -> Event {
        match self {
            Step::Skipped => Event::Skipped,
            Step::Done => Event::Done,
            Step::Read(Some(s)) => Event::Read(Some(s@)),
            Step::Read(None) => Event::Read(None),
            Step::Failed(e) => Event::Failed(e@),
        }
    }
}

fn read_event(chunk: &[u8]) -> (step: Step)
    ensures
        step@ == event_of(chunk@),
{
    let prefix: Vec<u8> = vec![100u8, 97u8, 116u8, 97u8, 58u8, 32u8];
    let marker: Vec<u8> = vec![91u8, 68u8, 79u8, 78u8, 69u8, 93u8];
    assert(prefix@ == data_prefix());
    assert(marker@ == done_marker());
    if !has_prefix(chunk, prefix.as_slice()) {
        return Step::Skipped;
    }
    let payload = slice_subrange(chunk, 6, chunk.len());
    if has_prefix(payload, marker.as_slice()) {
        return Step::Done;
    }
    let doc = parse_json(payload);
    match interpret_payload(payload, &doc) {
        Ok(fragment) => Step::Read(fragment),
        Err(e) => Step::Failed(e),
    }
}

/// Scans a buffer event by event.
pub fn scan_events(buffer: &[u8]) -> (r: Result<Scanned, StreamError>)
    ensures
        scanned_view(r) == scan_from(buffer@, 0),
{
    let mut deltas: Vec<String> = Vec::new();
    let mut pos: usize = 0;
    loop
        invariant
            pos <= buffer@.len(),
            scan_from(buffer@, 0) == after_deltas(texts(deltas@), scan_from(buffer@, pos as int)),
        decreases buffer@.len() - pos,
    {
        let sep = find_separator(buffer, pos);
        if sep >= buffer.len() {
            proof {
                assert(texts(deltas@) + Seq::<Seq<char>>::empty() == texts(deltas@));
            }
            return Ok(Scanned { deltas, consumed: pos, terminated: false });
        }
        let ghost before = texts(deltas@);
        let ghost rest = scan_from(buffer@, sep + 2);
        match read_event(slice_subrange(buffer, pos, sep)) {
            Step::Skipped => {},
            Step::Done => {
                proof {
                    assert(texts(deltas@) + Seq::<Seq<char>>::empty() == texts(deltas@));
                }
                return Ok(Scanned { deltas, consumed: sep + 2, terminated: true });
            },
            Step::Read(Some(text)) => {
                let ghost fragment = text@;
                deltas.push(text);
                proof {
                    assert(texts(deltas@) == before + seq![fragment]);
                    lemma_after_deltas_twice(before, seq![fragment], rest);
                }
            },
            Step::Read(None) => {
                proof {
                    lemma_after_deltas_twice(before, Seq::empty(), rest);
                    assert(before + Seq::<Seq<char>>::empty() == before);
                }
            },
            Step::Failed(e) => {
                return Err(e);
            },
        }
        pos = sep + 2;
    }
}

/// Putting fragments before a result twice is putting their concatenation
/// before it once.
pub proof fn lemma_after_deltas_twice(
    first: Seq<Seq<char>>,
    second: Seq<Seq<char>>,
    rest: Result<Scan, StreamFault>,
)
    ensures
        after_deltas(first, after_deltas(second, rest)) == after_deltas(first + second, rest),
{
    match rest {
        Ok(scan) => {
            assert(first + (second + scan.deltas) == (first + second) + scan.deltas);
        },
        Err(_) => {},
    }
}

/// What a buffer's events amount to for a caller that keeps the buffer
/// itself: nothing where no fragment was read and no byte was used up, else
/// the fragments and the number of bytes to discard.
pub open spec fn processed(buf: Seq<u8>) -> Result<Option<(Seq<Seq<char>>, int)>, StreamFault> {
    match scan_from(buf, 0) {
        Ok(scan) => if scan.deltas.len() == 0 && scan.consumed == 0 {
            Ok(None)
        } else {
            Ok(Some((scan.deltas, scan.consumed)))
        },
        Err(fault) => Err(fault),
    }
}

/// The view of what `process_buffer` returns.
pub open spec fn processed_view(r: Result<Option<(Vec<String>, usize)>, StreamError>) -> Result<
    Option<(Seq<Seq<char>>, int)>,
    StreamFault,
> {
    match r {
        Ok(Some(found)) => Ok(Some((texts(found.0@), found.1 as int))),
        Ok(None) => Ok(None),
        Err(e) => Err(e@),
    }
}

/// Decodes the event stream of a chat completion.
#[derive(Clone, Copy, Debug)]
pub struct ChatStreamer;

impl ChatStreamer {
    /// Reads the complete events at the start of `buffer` and returns their
    /// fragments with the number of bytes that they take, or `None` where
    /// there is nothing to report. A trailing incomplete event is left alone.
    pub fn process_buffer(&self, buffer: &[u8]) -> (r: Result<
        Option<(Vec<String>, usize)>,
        StreamError,
    >)
        ensures
            processed_view(r) == processed(buffer@),
    {
        match scan_events(buffer) {
            Ok(scanned) => {
                if scanned.deltas.len() == 0 && scanned.consumed == 0 {
                    Ok(None)
                } else {
                    Ok(Some((scanned.deltas, scanned.consumed)))
                }
            },
            Err(e) => Err(e),
        }
    }
}

/// Whether a decoder still takes input.
#[derive(Debug, Clone, Copy, PartialEq, Eq)]
pub enum DecoderStatus {
    /// More events are expected.
    Open,
    /// The end marker was met; what follows is ignored.
    Terminated,
    /// An event failed; what follows is ignored.
    Failed,
}

/// The state of a decoder: the bytes that no complete event has used up yet,
/// and the status.
pub struct DecoderModel {
    pub pending: Seq<u8>,
    pub status: DecoderStatus,
}

/// What one feed does: the state after it, and the fragments with the number
/// of bytes used up, or the fault.
pub struct Fed {
    pub next: DecoderModel,
    pub outcome: Result<(Seq<Seq<char>>, int), StreamFault>,
}

/// Feeding `bytes` to a decoder in state `state`. An open decoder appends
/// the bytes to those pending and scans the whole; it drops what the scanned
/// events took, and closes after the end marker or a fault. A closed decoder
/// does nothing.
pub open spec fn feed_model(state: DecoderModel, bytes: Seq<u8>) -> Fed {
    if !(state.status is Open) {
        Fed { next: state, outcome: Ok((Seq::empty(), 0)) }
    } else {
        let full = state.pending + bytes;
        match scan_from(full, 0) {
            Err(fault) => Fed {
                next: DecoderModel { pending: full, status: DecoderStatus::Failed },
                outcome: Err(fault),
            },
            Ok(scan) => Fed {
                next: DecoderModel {
                    pending: full.subrange(scan.consumed, full.len() as int),
                    status: if scan.terminated {
                        DecoderStatus::Terminated
                    } else {
                        DecoderStatus::Open
                    },
                },
                outcome: Ok((scan.deltas, scan.consumed)),
            },
        }
    }
}

/// The view of what `feed` returns.
pub open spec fn fed_view(r: Result<(Vec<String>, usize), StreamError>) -> Result<
    (Seq<Seq<char>>, int),
    StreamFault,
> {
    match r {
        Ok(found) => Ok((texts(found.0@), found.1 as int)),
        Err(e) => Err(e@),
    }
}

/// Whether a state holds no complete event that an open decoder has yet to
/// read. Every state that a decoder reaches is settled.
pub open spec fn settled(state: DecoderModel) -> bool {
    state.status is Open ==> next_separator(state.pending, 0) + 2 > state.pending.len()
}

/// A scan that did not meet the end marker ends where no complete event is
/// left.
pub proof fn lemma_scan_leaves_no_event(buf: Seq<u8>, pos: int)
    requires
        0 <= pos <= buf.len(),
    ensures
        scan_from(buf, pos) matches Ok(scan) ==> scan.terminated || next_separator(
            buf,
            scan.consumed,
        ) + 2 > buf.len(),
    decreases buf.len() - pos,
{
    let sep = next_separator(buf, pos);
    lemma_next_separator(buf, pos);
    if !(sep < pos || sep + 2 > buf.len()) {
        lemma_scan_leaves_no_event(buf, sep + 2);
    }
}

/// A scan ends between its start and the end of the buffer.
pub proof fn lemma_scan_bounds(buf: Seq<u8>, pos: int)
    requires
        0 <= pos <= buf.len(),
    ensures
        scan_from(buf, pos) matches Ok(scan) ==> pos <= scan.consumed <= buf.len(),
    decreases buf.len() - pos,
{
    let sep = next_separator(buf, pos);
    lemma_next_separator(buf, pos);
    if !(sep < pos || sep + 2 > buf.len()) {
        lemma_scan_bounds(buf, sep + 2);
    }
}

/// An incremental decoder of the event stream: it keeps the bytes of the
/// event that is not complete yet, and its status.
pub struct StreamDecoder {
    buffer: bytes::BytesMut,
    status: DecoderStatus,
}

impl View for StreamDecoder {
    type V = DecoderModel;

    closed spec fn view(&self) -> DecoderModel {
        DecoderModel { pending: buffered(self.buffer), status: self.status }
    }
}

impl StreamDecoder {
    /// An open decoder with nothing pending.
    pub fn new() -> (r: Self)
        ensures
            r@ == (DecoderModel { pending: Seq::empty(), status: DecoderStatus::Open }),
            settled(r@),
    {
        Self { buffer: new_buffer(8192), status: DecoderStatus::Open }
    }

    /// The status of this decoder.
    pub fn status(&self) -> (r: DecoderStatus)
        ensures
            r == self@.status,
    {
        self.status
    }

    /// The number of bytes that are pending.
    pub fn pending_len(&self) -> (n: usize)
        ensures
            n == self@.pending.len(),
    {
        buffer_bytes(&self.buffer).len()
    }

    /// Takes the next bytes of the stream and returns the fragments of the
    /// events that they complete, with the number of bytes that those events
    /// took from the buffer.
    pub fn feed(&mut self, bytes: &[u8]) -> (r: Result<(Vec<String>, usize), StreamError>)
        requires
            old(self)@.pending.len() + bytes@.len() <= isize::MAX,
        ensures
            final(self)@ == feed_model(old(self)@, bytes@).next,
            fed_view(r) == feed_model(old(self)@, bytes@).outcome,
            settled(final(self)@),
    {
        match self.status {
            DecoderStatus::Open => {},
            _ => {
                let none: Vec<String> = Vec::new();
                assert(texts(none@) == Seq::<Seq<char>>::empty());
                return Ok((none, 0));
            },
        }
        append_bytes(&mut self.buffer, bytes);
        let ghost full = buffered(self.buffer);
        proof {
            lemma_scan_bounds(full, 0);
            lemma_scan_leaves_no_event(full, 0);
            if let Ok(scan) = scan_from(full, 0) {
                lemma_separator_moved(full, scan.consumed, scan.consumed);
            }
        }
        match scan_events(buffer_bytes(&self.buffer)) {
            Err(e) => {
                self.status = DecoderStatus::Failed;
                Err(e)
            },
            Ok(scanned) => {
                discard_front(&mut self.buffer, scanned.consumed);
                if scanned.terminated {
                    self.status = DecoderStatus::Terminated;
                }
                Ok((scanned.deltas, scanned.consumed))
            },
        }
    }
}

/// Where a separator is found inside `a`, it is found at the same place when
/// more bytes follow.
pub proof fn lemma_separator_stays(a: Seq<u8>, b: Seq<u8>, pos: int)
    requires
        0 <= pos,
        next_separator(a, pos) + 2 <= a.len(),
    ensures
        next_separator(a + b, pos) == next_separator(a, pos),
    decreases a.len() - pos,
{
    if pos + 1 < a.len() {
        assert(separator_at(a, pos) == separator_at(a + b, pos));
        if !separator_at(a, pos) {
            lemma_separator_stays(a, b, pos + 1);
        }
    }
}

/// Scanning a buffer after more bytes were appended: a fault stays, a scan
/// that met the end marker stays, and any other scan goes on from where it
/// ended.
pub proof fn lemma_scan_extended(a: Seq<u8>, b: Seq<u8>, pos: int)
    requires
        0 <= pos <= a.len(),
    ensures
        match scan_from(a, pos) {
            Err(fault) => scan_from(a + b, pos) == Err::<Scan, StreamFault>(fault),
            Ok(scan) => if scan.terminated {
                scan_from(a + b, pos) == Ok::<Scan, StreamFault>(scan)
            } else {
                scan_from(a + b, pos) == after_deltas(
                    scan.deltas,
                    scan_from(a + b, scan.consumed),
                )
            },
        },
    decreases a.len() - pos,
{
    let sep = next_separator(a, pos);
    lemma_next_separator(a, pos);
    if sep < pos || sep + 2 > a.len() {
        lemma_after_nothing(scan_from(a + b, pos));
    } else {
        lemma_separator_stays(a, b, pos);
        assert((a + b).subrange(pos, sep) == a.subrange(pos, sep));
        let event = event_of(a.subrange(pos, sep));
        match event {
            Event::Skipped => {
                lemma_scan_extended(a, b, sep + 2);
            },
            Event::Done => {},
            Event::Read(fragment) => {
                lemma_scan_extended(a, b, sep + 2);
                match scan_from(a, sep + 2) {
                    Ok(inner) => {
                        if !inner.terminated {
                            lemma_after_deltas_twice(
                                fragment_seq(fragment),
                                inner.deltas,
                                scan_from(a + b, inner.consumed),
                            );
                        }
                    },
                    Err(_) => {},
                }
            },
            Event::Failed(_) => {},
        }
    }
}

/// Putting no fragments before a result leaves it as it is.
pub proof fn lemma_after_nothing(rest: Result<Scan, StreamFault>)
    ensures
        after_deltas(Seq::empty(), rest) == rest,
{
    match rest {
        Ok(scan) => {
            assert(Seq::<Seq<char>>::empty() + scan.deltas == scan.deltas);
        },
        Err(_) => {},
    }
}

/// `result`, with every position moved forward by `by`.
pub open spec fn moved(result: Result<Scan, StreamFault>, by: int) -> Result<Scan, StreamFault> {
    match result {
        Ok(scan) => Ok(
            Scan { deltas: scan.deltas, consumed: scan.consumed + by, terminated: scan.terminated },
        ),
        Err(fault) => Err(fault),
    }
}

proof fn lemma_separator_moved(buf: Seq<u8>, cut: int, pos: int)
    requires
        0 <= cut <= pos <= buf.len(),
    ensures
        ({
            let tail = buf.subrange(cut, buf.len() as int);
            next_separator(buf, pos) == next_separator(tail, pos - cut) + cut
        }),
    decreases buf.len() - pos,
{
    let tail = buf.subrange(cut, buf.len() as int);
    if pos + 1 < buf.len() {
        assert(separator_at(buf, pos) == separator_at(tail, pos - cut));
        if !separator_at(buf, pos) {
            lemma_separator_moved(buf, cut, pos + 1);
        }
    }
}

/// Scanning what is left of a buffer after its first `cut` bytes were
/// dropped gives what scanning the buffer from `cut` on gives.
pub proof fn lemma_scan_moved(buf: Seq<u8>, cut: int, pos: int)
    requires
        0 <= cut <= pos <= buf.len(),
    ensures
        scan_from(buf, pos) == moved(scan_from(buf.subrange(cut, buf.len() as int), pos - cut), cut),
    decreases buf.len() - pos,
{
    let tail = buf.subrange(cut, buf.len() as int);
    let sep = next_separator(buf, pos);
    lemma_next_separator(buf, pos);
    lemma_separator_moved(buf, cut, pos);
    if !(sep < pos || sep + 2 > buf.len()) {
        assert(buf.subrange(pos, sep) == tail.subrange(pos - cut, sep - cut));
        lemma_scan_moved(buf, cut, sep + 2);
    }
}

/// The fragments of an outcome; none for a fault.
pub open spec fn emitted(outcome: Result<(Seq<Seq<char>>, int), StreamFault>) -> Seq<Seq<char>> {
    match outcome {
        Ok(found) => found.0,
        Err(_) => Seq::empty(),
    }
}

/// Two states from which decoding goes on alike: the same status, and the
/// same pending bytes where the decoder is open.
pub open spec fn same_progress(left: DecoderModel, right: DecoderModel) -> bool {
    left.status == right.status && (left.status is Open ==> left.pending == right.pending)
}

/// Feeding bytes in two pieces gives the fragments that feeding them at once
/// gives, and leads to the same progress, unless feeding them at once fails.
pub proof fn law_two_feeds_are_one(state: DecoderModel, a: Seq<u8>, b: Seq<u8>)
    requires
        feed_model(state, a + b).outcome is Ok,
    ensures
        feed_model(state, a).outcome is Ok,
        feed_model(feed_model(state, a).next, b).outcome is Ok,
        emitted(feed_model(state, a + b).outcome) == emitted(feed_model(state, a).outcome)
            + emitted(feed_model(feed_model(state, a).next, b).outcome),
        same_progress(
            feed_model(state, a + b).next,
            feed_model(feed_model(state, a).next, b).next,
        ),
{
    if state.status is Open {
        let first = state.pending + a;
        let full = state.pending + (a + b);
        assert(full == first + b);
        lemma_scan_extended(first, b, 0);
        lemma_scan_bounds(first, 0);
        match scan_from(first, 0) {
            Err(_) => {},
            Ok(scan) => {
                if scan.terminated {
                    assert(scan.deltas + Seq::<Seq<char>>::empty() == scan.deltas);
                } else {
                    let cut = scan.consumed;
                    let rest = first.subrange(cut, first.len() as int);
                    assert(rest + b == full.subrange(cut, full.len() as int));
                    lemma_scan_moved(full, cut, cut);
                    lemma_scan_bounds(rest + b, 0);
                    match scan_from(rest + b, 0) {
                        Err(_) => {},
                        Ok(second) => {
                            assert((rest + b).subrange(second.consumed, (rest + b).len() as int)
                                == full.subrange(cut + second.consumed, full.len() as int));
                        },
                    }
                }
            },
        }
    } else {
        assert(Seq::<Seq<char>>::empty() + Seq::<Seq<char>>::empty() == Seq::<Seq<char>>::empty());
    }
}

/// The bytes of all chunks, in order.
pub open spec fn joined(chunks: Seq<Seq<u8>>) -> Seq<u8>
    decreases chunks.len(),
{
    if chunks.len() == 0 {
        Seq::empty()
    } else {
        joined(chunks.drop_last()) + chunks.last()
    }
}

/// The fault of an outcome, if it is one.
pub open spec fn fault_of(outcome: Result<(Seq<Seq<char>>, int), StreamFault>) -> Option<
    StreamFault,
> {
    match outcome {
        Ok(_) => None,
        Err(fault) => Some(fault),
    }
}

/// The state after a run of feeds, all fragments that they gave, and the
/// fault with which the first of them failed, if one did.
pub struct Run {
    pub state: DecoderModel,
    pub deltas: Seq<Seq<char>>,
    pub fault: Option<StreamFault>,
}

/// Feeding the chunks one after the other.
pub open spec fn feed_all(state: DecoderModel, chunks: Seq<Seq<u8>>) -> Run
    decreases chunks.len(),
{
    if chunks.len() == 0 {
        Run { state, deltas: Seq::empty(), fault: None }
    } else {
        let before = feed_all(state, chunks.drop_last());
        let fed = feed_model(before.state, chunks.last());
        Run {
            state: fed.next,
            deltas: before.deltas + emitted(fed.outcome),
            fault: if before.fault is Some {
                before.fault
            } else {
                fault_of(fed.outcome)
            },
        }
    }
}

/// Where feeding bytes at once fails, feeding them in two pieces fails with
/// the same fault, in the first piece or in the second.
pub proof fn law_two_feeds_fail_as_one(state: DecoderModel, a: Seq<u8>, b: Seq<u8>)
    requires
        feed_model(state, a + b).outcome is Err,
    ensures
        feed_model(state, a).outcome == feed_model(state, a + b).outcome || (feed_model(
            state,
            a,
        ).outcome is Ok && feed_model(feed_model(state, a).next, b).outcome == feed_model(
            state,
            a + b,
        ).outcome),
{
    let first = state.pending + a;
    let full = state.pending + (a + b);
    assert(full == first + b);
    lemma_scan_extended(first, b, 0);
    lemma_scan_bounds(first, 0);
    match scan_from(first, 0) {
        Err(_) => {},
        Ok(scan) => {
            let cut = scan.consumed;
            let rest = first.subrange(cut, first.len() as int);
            assert(rest + b == full.subrange(cut, full.len() as int));
            lemma_scan_moved(full, cut, cut);
        },
    }
}

/// From two states of the same progress, a feed gives the same outcome and
/// leads to the same progress.
pub proof fn lemma_same_progress_feed(left: DecoderModel, right: DecoderModel, bytes: Seq<u8>)
    requires
        same_progress(left, right),
    ensures
        feed_model(left, bytes).outcome == feed_model(right, bytes).outcome,
        same_progress(feed_model(left, bytes).next, feed_model(right, bytes).next),
{
}

/// However a stream is cut into chunks, feeding the chunks one by one ends
/// as feeding the whole stream at once ends: with the same fault, or with no
/// fault, the same fragments in the same order and the same progress. Where
/// decoding fails, the fragments that were read before the fault are handed
/// out only if they came in an earlier chunk.
pub proof fn law_chunk_boundaries_do_not_matter(state: DecoderModel, chunks: Seq<Seq<u8>>)
    requires
        settled(state),
    ensures
        feed_all(state, chunks).fault == fault_of(feed_model(state, joined(chunks)).outcome),
        feed_all(state, chunks).fault is None ==> feed_all(state, chunks).deltas == emitted(
            feed_model(state, joined(chunks)).outcome,
        ) && same_progress(feed_all(state, chunks).state, feed_model(state, joined(chunks)).next),
    decreases chunks.len(),
{
    if chunks.len() == 0 {
        lemma_nothing_fed(state);
    } else {
        let a = joined(chunks.drop_last());
        let b = chunks.last();
        let before = feed_all(state, chunks.drop_last());
        law_chunk_boundaries_do_not_matter(state, chunks.drop_last());
        if feed_model(state, a + b).outcome is Ok {
            law_two_feeds_are_one(state, a, b);
            lemma_same_progress_feed(before.state, feed_model(state, a).next, b);
        } else {
            law_two_feeds_fail_as_one(state, a, b);
            if feed_model(state, a).outcome is Ok {
                lemma_same_progress_feed(before.state, feed_model(state, a).next, b);
            }
        }
    }
}

proof fn lemma_nothing_fed(state: DecoderModel)
    requires
        settled(state),
    ensures
        feed_model(state, Seq::empty()) == (Fed { next: state, outcome: Ok((Seq::empty(), 0)) }),
{
    if state.status is Open {
        let full = state.pending + Seq::<u8>::empty();
        assert(full == state.pending);
        assert(full.subrange(0, full.len() as int) == full);
    }
}

/// Bytes that complete no event yield no fragment and use up nothing: an
/// open decoder keeps them behind those it already held, for the next feed
/// to see before its own.
pub proof fn law_partial_events_are_kept(state: DecoderModel, bytes: Seq<u8>)
    requires
        state.status is Open,
        next_separator(state.pending + bytes, 0) + 2 > (state.pending + bytes).len(),
    ensures
        feed_model(state, bytes) == (Fed {
            next: DecoderModel { pending: state.pending + bytes, status: DecoderStatus::Open },
            outcome: Ok((Seq::empty(), 0)),
        }),
{
    let full = state.pending + bytes;
    assert(full.subrange(0, full.len() as int) == full);
}

/// The end marker ends the scan: the event that carries it yields no
/// fragment, and nothing that follows it is read.
pub proof fn law_end_marker_stops_the_scan(buf: Seq<u8>, pos: int, more: Seq<u8>)
    requires
        0 <= pos <= next_separator(buf, pos),
        next_separator(buf, pos) + 2 <= buf.len(),
        event_of(buf.subrange(pos, next_separator(buf, pos))) is Done,
    ensures
        scan_from(buf, pos) == Ok::<Scan, StreamFault>(
            Scan {
                deltas: Seq::empty(),
                consumed: next_separator(buf, pos) + 2,
                terminated: true,
            },
        ),
        scan_from(buf + more, pos) == scan_from(buf, pos),
{
    lemma_scan_extended(buf, more, pos);
}

/// A decoder that has met the end marker, or a fault, ignores what it is
/// fed.
pub proof fn law_closed_decoder_ignores_input(state: DecoderModel, bytes: Seq<u8>)
    requires
        !(state.status is Open),
    ensures
        feed_model(state, bytes) == (Fed { next: state, outcome: Ok((Seq::empty(), 0)) }),
{
}

/// An event that fails ends the scan with its fault, whatever follows it.
pub proof fn law_failed_event_aborts(buf: Seq<u8>, pos: int, fault: StreamFault)
    requires
        0 <= pos <= next_separator(buf, pos),
        next_separator(buf, pos) + 2 <= buf.len(),
        event_of(buf.subrange(pos, next_separator(buf, pos))) == Event::Failed(fault),
    ensures
        scan_from(buf, pos) == Err::<Scan, StreamFault>(fault),
{
}

/// A payload that is an error document and no completion fails with the
/// message of the document, and the report of that fault is the message.
pub proof fn law_error_document_is_reported(payload: Seq<u8>, doc: JsonValue, message: Seq<char>)
    requires
        completion_text(doc) is None,
        error_message(doc) == Some(message),
    ensures
        payload_outcome(payload, Some(doc)) == Err::<Option<Seq<char>>, StreamFault>(
            StreamFault::Provider(message),
        ),
        fault_text(StreamFault::Provider(message)) == message,
{
}

} // verus!
