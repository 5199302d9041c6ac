//! Requests to a store or an interpreter, answered with status, media
//! type and body, as a server in front of the engine hands them out.
use crate::cache::BinCache;
use crate::commands::CommandExecutor;
use crate::error::ErrorView;
use crate::interpreter::{
    Environment, PlanInterpreter, evaluates_to, fetched_view, may_fetch, record_of, store_answer,
    to_record,
};
use crate::metadata::Metadata;
use crate::parse::{parse_key, parse_key_result};
use crate::query::{Key, Position, ResourceNameView, name_texts};
use crate::state::{State, StateView};
use crate::store::{Store, StoreEntryView, StoreError, StoreErrorView, under};
use crate::text::chars_of;
use crate::value::{
    DefaultValueSerializer, ValueInterface, serialization_failure, serialized, text_bytes,
};
use vstd::prelude::*;
use vstd::string::StringExecFns;

verus! {

/// Whether a request was carried out.
#[derive(Debug, Clone, Copy, PartialEq, Eq, Structural)]
pub enum StatusCode {
    Success,
    Error,
}

/// The answer to a request that is carried out for its effect: whether it
/// was carried out, a message, and what it has to show.
#[derive(Debug)]
pub struct ServiceStatus<T> {
    pub status: StatusCode,
    pub message: String,
    pub result: T,
}

impl<T> ServiceStatus<T> {
    /// The answer to a request that was carried out.
    pub fn ok(message: &str, result: T) -> (s: Self)
        ensures
            s.status == StatusCode::Success,
            s.message@ == message@,
            s.result == result,
    {
        ServiceStatus { status: StatusCode::Success, message: message.to_owned(), result }
    }

    /// The answer to a request that failed.
    pub fn error(message: &str, result: T) -> (s: Self)
        ensures
            s.status == StatusCode::Error,
            s.message@ == message@,
            s.result == result,
    {
        ServiceStatus { status: StatusCode::Error, message: message.to_owned(), result }
    }

    pub fn is_ok(&self) -> (r: bool)
        ensures
            r == (self.status == StatusCode::Success),
    {
        match self.status {
            StatusCode::Success => true,
            StatusCode::Error => false,
        }
    }
}

/// The answer to a request for data: the status as a number, the media
/// type of the body, and the body.
#[derive(Debug)]
pub struct Response {
    pub status: u16,
    pub content_type: String,
    pub body: Vec<u8>,
}

pub struct ResponseView {
    pub status: u16,
    pub content_type: Seq<char>,
    pub body: Seq<u8>,
}

impl View for Response {
    type V = ResponseView;

    open spec fn view(&self) -> ResponseView {
        ResponseView { status: self.status, content_type: self.content_type@, body: self.body@ }
    }
}

/// The answer that hands out `body`.
pub open spec fn found(body: Seq<u8>, content_type: Seq<char>) -> ResponseView {
    ResponseView { status: 200, content_type, body }
}

/// The answer to a request that failed: the message as plain text.
pub open spec fn failure(status: u16, message: Seq<char>) -> ResponseView {
    ResponseView {
        status,
        content_type: "text/plain"@,
        body: vstd::utf8::encode_utf8(message),
    }
}

/// The status for an error of a store: 404 where nothing stands under the
/// key, else 500.
pub open spec fn store_failure_status(e: StoreErrorView) -> u16 {
    match e {
        StoreErrorView::KeyNotFound(_) => 404,
        _ => 500,
    }
}

pub open spec fn store_failure_message(text: Seq<char>) -> Seq<char> {
    "Error reading store: "@ + text
}

/// The answer to a request for what a store holds, given what the store
/// said: the data with the media type of its metadata, or the error.
pub open spec fn store_response(outcome: Result<StoreEntryView, StoreErrorView>) -> ResponseView {
    match outcome {
        Ok(entry) => found(entry.data, entry.metadata.media_type()),
        Err(e) => failure(store_failure_status(e), store_failure_message(e.text())),
    }
}

/// Whether `response` may be the answer to a request for what a store
/// with the contents `contents` holds under `key`: the answer that goes
/// with what the store may say.
pub open spec fn answers_for_key(
    contents: Map<Seq<Seq<char>>, StoreEntryView>,
    reliable: bool,
    key: Seq<ResourceNameView>,
    response: ResponseView,
) -> bool {
    exists|answer: Result<StoreEntryView, StoreErrorView>|
        #[trigger] may_fetch(contents, reliable, key, answer) && response == store_response(answer)
}

/// The key that a request for the page under `key` is answered from: the
/// index page of `key` where `key` is a directory.
pub open spec fn page_key(contents: Map<Seq<Seq<char>>, StoreEntryView>, key: Seq<ResourceNameView>)
    -> Seq<ResourceNameView> {
    if holds_under(contents, key) {
        key.push(ResourceNameView { name: index_name(), position: Position::spec_unknown() })
    } else {
        key
    }
}

/// The answer of a reliable store to a request for the data under the key
/// that `text` is the text of. A text that is no key is answered with 500.
pub open spec fn store_get_response(
    contents: Map<Seq<Seq<char>>, StoreEntryView>,
    text: Seq<char>,
) -> ResponseView {
    match parse_key_result(text) {
        Ok(key) => store_response(store_answer(contents, key)),
        Err(e) => failure(500, store_failure_message(e.text())),
    }
}

/// Whether some key of `contents` lies under `key`.
pub open spec fn holds_under(
    contents: Map<Seq<Seq<char>>, StoreEntryView>,
    key: Seq<ResourceNameView>,
) -> bool {
    exists|k: Seq<Seq<char>>| #[trigger] contents.contains_key(k) && under(name_texts(key), k)
}

pub open spec fn index_name() -> Seq<char> {
    "index.html"@
}

/// The text of the key that a request for the page `text` is for: a text
/// that ends in `/` stands for the index page of that directory.
pub open spec fn page_text(text: Seq<char>) -> Seq<char> {
    if text.len() > 0 && text.last() == '/' {
        text + index_name()
    } else {
        text
    }
}

/// The answer of a reliable store to a request for the page `text`: as
/// for the data under the key, but a directory is answered with its index
/// page.
pub open spec fn page_response(contents: Map<Seq<Seq<char>>, StoreEntryView>, text: Seq<char>)
    -> ResponseView {
    match parse_key_result(page_text(text)) {
        Ok(key) => store_response(store_answer(contents, page_key(contents, key))),
        Err(e) => failure(500, store_failure_message(e.text())),
    }
}

/// The answer that hands out the outcome of an evaluation: the bytes of
/// the value in the format that goes with its kind, with the media type of
/// the metadata. A failed evaluation is answered with 500 and its
/// message, and so is a value that has no bytes.
pub open spec fn state_response(state: StateView) -> ResponseView {
    if record_of(state.metadata).is_error {
        failure(500, record_of(state.metadata).message)
    } else {
        match serialized(state.data, state.data.default_extension()) {
            Some(bytes) => found(bytes, state.metadata.media_type()),
            None => failure(
                500,
                serialization_failure(state.data, state.data.default_extension()).text(),
            ),
        }
    }
}

fn fail(status: u16, message: &str) -> (r: Response)
    ensures
        r@ == failure(status, message@),
{
    Response {
        status,
        content_type: String::from_str("text/plain"),
        body: text_bytes(message),
    }
}

/// Answers a request for what a store holds, given what the store said.
pub fn answer_from_store(outcome: Result<(Vec<u8>, Metadata), StoreError>) -> (r: Response)
    ensures
        r@ == store_response(fetched_view(outcome)),
{
    match outcome {
        Ok((data, metadata)) => Response {
            status: 200,
            content_type: metadata.get_media_type(),
            body: data,
        },
        Err(e) => {
            let status: u16 = match &e {
                StoreError::KeyNotFound(_) => 404,
                _ => 500,
            };
            let message = String::from_str("Error reading store: ").concat(
                e.to_string().as_str(),
            );
            fail(status, message.as_str())
        },
    }
}

fn answer_no_key(e: &crate::error::Error) -> (r: Response)
    ensures
        r@ == failure(500, store_failure_message(e@.text())),
{
    let message = String::from_str("Error reading store: ").concat(e.to_string().as_str());
    fail(500, message.as_str())
}

/// Answers a request for the data under the key that `query` is the text
/// of: with what the store says of the key, and with 500 where the text is
/// no key.
pub fn store_get<S: Store>(store: &S, query: &str) -> (r: Response)
    requires
        store.inv(),
    ensures
        match parse_key_result(query@) {
            Ok(key) => answers_for_key(store.contents(), store.reliable(), key, r@),
            Err(e) => r@ == failure(500, store_failure_message(e.text())),
        },
        store.reliable() ==> r@ == store_get_response(store.contents(), query@),
{
    match parse_key(query) {
        Ok(key) => {
            let outcome = store.get(&key);
            assert(may_fetch(store.contents(), store.reliable(), key@, fetched_view(outcome)));
            answer_from_store(outcome)
        },
        Err(e) => answer_no_key(&e),
    }
}

/// Answers a request for the page `query` of the pages that a store
/// holds.
pub fn web_store_get<S: Store>(store: &S, query: &str) -> (r: Response)
    requires
        store.inv(),
    ensures
        match parse_key_result(page_text(query@)) {
            Ok(key) => answers_for_key(
                store.contents(),
                store.reliable(),
                page_key(store.contents(), key),
                r@,
            ),
            Err(e) => r@ == failure(500, store_failure_message(e.text())),
        },
        store.reliable() ==> r@ == page_response(store.contents(), query@),
{
    let text = chars_of(query);
    let path = if text.len() > 0 && text[text.len() - 1] == '/' {
        String::from_str(query).concat("index.html")
    } else {
        String::from_str(query)
    };
    match parse_key(path.as_str()) {
        Ok(key) => {
            let page = if store.is_dir(&key) {
                key.join("index.html")
            } else {
                key
            };
            let outcome = store.get(&page);
            assert(may_fetch(store.contents(), store.reliable(), page@, fetched_view(outcome)));
            answer_from_store(outcome)
        },
        Err(e) => answer_no_key(&e),
    }
}

/// Answers with the outcome of an evaluation.
pub fn answer_from_state(state: &State) -> (r: Response)
    ensures
        r@ == state_response(state@),
{
    let record = to_record(&state.metadata);
    if record.is_error {
        return fail(500, record.message.as_str());
    }
    let format = state.data.default_extension();
    match state.data.as_bytes(format.as_str()) {
        Ok(body) => Response { status: 200, content_type: state.metadata.get_media_type(), body },
        Err(e) => {
            let message = e.to_string();
            fail(500, message.as_str())
        },
    }
}

/// Evaluates the query that `query` is the text of and answers with the
/// outcome.
pub fn evaluate_query<I: Environment, CE: CommandExecutor<I>, S: Store, C: BinCache>(
    interpreter: &mut PlanInterpreter<I, CE, S, C>,
    query: &str,
) -> (r: Response)
    requires
        old(interpreter).inv(),
    ensures
        final(interpreter).inv(),
        final(interpreter).registry() == old(interpreter).registry(),
        final(interpreter).executor() == old(interpreter).executor(),
        final(interpreter).resources() == old(interpreter).resources(),
        final(interpreter).reliable() == old(interpreter).reliable(),
        exists|state: StateView| #[trigger]
            evaluates_to(
                query@,
                old(interpreter).registry(),
                old(interpreter).executor(),
                old(interpreter).resources(),
                old(interpreter).reliable(),
                old(interpreter).cached(),
                old(interpreter).cache_keeps(),
                state,
                final(interpreter).cached(),
            ) && r@ == state_response(state),
{
    let state = interpreter.evaluate(query);
    answer_from_state(&state)
}

} // verus!
