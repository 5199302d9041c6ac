//! The interpreter: it carries out the steps of a plan, one after another,
//! on a value and the record that is kept about it.
use crate::cache::{BinCache, CacheEntryView};
use crate::command_metadata::{CommandMetadataRegistry, CommandMetadataView};
use crate::commands::{CommandArguments, CommandArgumentsView, CommandExecutor, outcome_view};
use crate::error::{Error, ErrorType, ErrorView, plain_error};
use crate::metadata::{
    LogLevel, Metadata, MetadataRecord, MetadataRecordView, MetadataView, Status,
};
use crate::parse::{parse_query, parse_result};
use crate::plan::{
    Parameter, ParameterView, Plan, PlanView, ResolvedParameters, ResolvedParametersView, Step,
    StepView, make_plan, parameter_values_view, planned, steps_view,
};
use crate::query::{
    Key, Position, Query, QueryView, ResourceNameView, encode_key, encode_query, extension_of,
    name_texts,
};
use crate::state::{State, StateView};
use crate::store::{Store, StoreError, StoreErrorView, StoreEntryView};
use crate::text::same_text;
use crate::value::{
    DefaultValueSerializer, Value, ValueInterface, ValueView, deserialized, readable_format,
};
use std::sync::Arc;
use vstd::prelude::*;
use vstd::string::StringExecFns;

verus! {

/// What evaluates the queries of link parameters. It shares registry,
/// store and cache with the evaluation that asks, and begins afresh
/// otherwise.
pub trait Environment: Sized {
    /// Whether `outcome` may be what the environment gives when it is
    /// asked to evaluate `query`. An environment may give anything unless
    /// it says otherwise.
    open spec fn answers(&self, query: QueryView, outcome: Result<StateView, ErrorView>) -> bool {
        true
    }

    fn evaluate(&mut self, query: &Query) -> (r: Result<State, Error>)
        ensures
            old(self).answers(query@, evaluated_view(r)),
    ;
}

/// What an environment gave, as contracts see it.
pub open spec fn evaluated_view(r: Result<State, Error>) -> Result<StateView, ErrorView> {
    match r {
        Ok(state) => Ok(state@),
        Err(e) => Err(e@),
    }
}

pub open spec fn no_environment_error() -> ErrorView {
    plain_error(ErrorType::NotSupported, "evaluate not implemented"@)
}

impl Environment for crate::commands::NoInjection {
    /// Links cannot be evaluated without an environment.
    open spec fn answers(&self, query: QueryView, outcome: Result<StateView, ErrorView>) -> bool {
        outcome == Err::<StateView, ErrorView>(no_environment_error())
    }

    fn evaluate(&mut self, query: &Query) -> (r: Result<State, Error>) {
        Err(Error::not_supported(String::from_str("evaluate not implemented")))
    }
}

// ---------------------------------------------------------------------------
// What the steps make of value and record
// ---------------------------------------------------------------------------
/// The format in which the resource under `key` is read: the extension of
/// its last name, or `b` where it has none.
pub open spec fn resource_format(key: Seq<ResourceNameView>) -> Seq<char> {
    if key.len() == 0 {
        "b"@
    } else {
        match extension_of(key.last().name) {
            Some(e) => e,
            None => "b"@,
        }
    }
}

/// The format in which a resource is read whose metadata names the type
/// `type_identifier`: text as `txt` and bytes as `b`, whatever the key
/// says; with any other type, the format of the key.
pub open spec fn chosen_format(type_identifier: Seq<char>, key: Seq<ResourceNameView>) -> Seq<
    char,
> {
    if type_identifier == "text"@ {
        "txt"@
    } else if type_identifier == "bytes"@ {
        "b"@
    } else {
        resource_format(key)
    }
}

/// The value that the bytes of the resource under `key` are, where its
/// metadata names the type `type_identifier`: what they are in the chosen
/// format where values are read in that format; the bytes themselves in
/// any other format.
pub open spec fn resource_value(
    bytes: Seq<u8>,
    type_identifier: Seq<char>,
    key: Seq<ResourceNameView>,
) -> Option<ValueView> {
    if readable_format(chosen_format(type_identifier, key)) {
        deserialized(bytes, chosen_format(type_identifier, key))
    } else {
        Some(ValueView::Bytes(bytes))
    }
}

/// The record that metadata of a store or cache comes down to: the record
/// itself, or of legacy metadata its query and media type.
pub open spec fn record_of(metadata: MetadataView) -> MetadataRecordView {
    match metadata {
        MetadataView::MetadataRecord(m) => m,
        MetadataView::LegacyMetadata(v) => MetadataRecordView {
            query: match crate::metadata::text_field(v, "query"@) {
                Some(text) => match parse_result(text) {
                    Ok(q) => q,
                    Err(_) => QueryView { segments: Seq::empty(), absolute: false },
                },
                None => QueryView { segments: Seq::empty(), absolute: false },
            },
            media_type: metadata.media_type(),
            ..MetadataRecordView::empty()
        },
    }
}

/// The name of a status.
pub open spec fn status_text(status: Status) -> Seq<char> {
    match status {
        Status::Unset => "none"@,
        Status::Submitted => "submitted"@,
        Status::EvaluatingParent => "evaluating parent"@,
        Status::Evaluation => "evaluation"@,
        Status::EvaluatingDependencies => "evaluating dependencies"@,
        Status::Error => "error"@,
        Status::Recipe => "recipe"@,
        Status::Ready => "ready"@,
        Status::Expired => "expired"@,
        Status::External => "external"@,
        Status::SideEffect => "side-effect"@,
    }
}

/// A record as a value: an object of its query, status, type identifier,
/// message, error mark and media type.
#[verifier::opaque]
pub open spec fn record_object(m: MetadataRecordView) -> ValueView {
    ValueView::Object(
        seq![
            ("query"@, ValueView::Text(encode_query(m.query))),
            ("status"@, ValueView::Text(status_text(m.status))),
            ("type_identifier"@, ValueView::Text(m.type_identifier)),
            ("message"@, ValueView::Text(m.message)),
            ("is_error"@, ValueView::Bool(m.is_error)),
            ("media_type"@, ValueView::Text(m.media_type)),
        ],
    )
}

/// `parameters` with `value` for the argument at `index`.
pub open spec fn spliced(parameters: Seq<ParameterView>, index: nat, value: ValueView) -> Seq<
    ParameterView,
> {
    if index < parameters.len() {
        parameters.update(
            index as int,
            ParameterView { value, position: parameters[index as int].position },
        )
    } else {
        parameters
    }
}

/// `parameters` with the first `n` of `values` in the places that the
/// first `n` of `links` name, one after the other.
pub open spec fn with_links(
    parameters: Seq<ParameterView>,
    links: Seq<(nat, QueryView)>,
    values: Seq<ValueView>,
    n: nat,
) -> Seq<ParameterView>
    decreases n,
{
    if n == 0 || n > links.len() || n > values.len() {
        parameters
    } else {
        spliced(
            with_links(parameters, links, values, (n - 1) as nat),
            links[n - 1].0,
            values[n - 1],
        )
    }
}

/// What the first `n` values make of the parameters does not depend on
/// the values that follow them.
pub proof fn lemma_with_links_more(
    parameters: Seq<ParameterView>,
    links: Seq<(nat, QueryView)>,
    values: Seq<ValueView>,
    value: ValueView,
    n: nat,
)
    requires
        n <= values.len(),
    ensures
        with_links(parameters, links, values.push(value), n) == with_links(
            parameters,
            links,
            values,
            n,
        ),
    decreases n,
{
    if n > 0 && n <= links.len() {
        lemma_with_links_more(parameters, links, values, value, (n - 1) as nat);
        assert(values.push(value)[n - 1] == values[n - 1]);
    }
}

/// What the interpreter holds: the value, the record, and whether a step
/// has failed.
pub struct Progress {
    pub data: ValueView,
    pub metadata: MetadataRecordView,
    pub failed: bool,
}

impl Progress {
    /// Where the evaluation of `query` begins: no value yet, and a record
    /// that holds the query and nothing else.
    pub open spec fn begun(query: QueryView) -> Progress {
        Progress {
            data: ValueView::Empty,
            metadata: MetadataRecordView { query, ..MetadataRecordView::empty() },
            failed: false,
        }
    }

    /// The progress after a failure: the error is logged, which marks the
    /// record as failed, and nothing more is done.
    pub open spec fn fail(self, message: Seq<char>) -> Progress {
        Progress {
            data: self.data,
            metadata: self.metadata.logged(LogLevel::Error, message),
            failed: true,
        }
    }

    /// The progress after a resource was fetched.
    pub open spec fn fetched(
        self,
        key: Seq<ResourceNameView>,
        outcome: Result<StoreEntryView, StoreErrorView>,
    ) -> Progress {
        match outcome {
            Ok(entry) => match resource_value(
                entry.data,
                record_of(entry.metadata).type_identifier,
                key,
            ) {
                Some(value) => Progress {
                    data: value,
                    metadata: record_of(entry.metadata),
                    failed: false,
                },
                None => self.fail(
                    crate::value::deserialization_failure(
                        chosen_format(record_of(entry.metadata).type_identifier, key),
                    ).text(),
                ),
            },
            Err(e) => self.fail(e.text()),
        }
    }

    /// The progress after the metadata of a resource was fetched.
    pub open spec fn fetched_metadata(self, outcome: Result<MetadataView, StoreErrorView>)
        -> Progress {
        match outcome {
            Ok(metadata) => Progress {
                data: record_object(record_of(metadata)),
                metadata: record_of(metadata),
                failed: false,
            },
            Err(e) => self.fail(e.text()),
        }
    }

    /// The progress after an action: its value with its type identifier in
    /// the record, or its failure.
    pub open spec fn acted(self, outcome: Result<ValueView, ErrorView>) -> Progress {
        match outcome {
            Ok(value) => Progress {
                data: value,
                metadata: MetadataRecordView {
                    type_identifier: value.identifier(),
                    ..self.metadata
                },
                failed: false,
            },
            Err(e) => self.fail(e.text()),
        }
    }

    /// The progress after a step that calls on nothing outside.
    pub open spec fn noted(self, step: StepView) -> Progress {
        match step {
            StepView::Filename(name) => Progress {
                metadata: self.metadata.named(name.name),
                ..self
            },
            StepView::Info(message) => Progress {
                metadata: self.metadata.logged(LogLevel::Info, message),
                ..self
            },
            StepView::Warning(message) => Progress {
                metadata: self.metadata.logged(LogLevel::Warning, message),
                ..self
            },
            StepView::Error(message) => self.fail(message),
            _ => self,
        }
    }

    /// The progress after a step: at the end where the step was the last
    /// of the plan.
    pub open spec fn settled(self, last: bool) -> Progress {
        if last {
            self.finished()
        } else {
            self
        }
    }

    /// The progress at the end: the record is marked as ready unless a
    /// step has failed.
    pub open spec fn finished(self) -> Progress {
        if self.failed {
            self
        } else {
            Progress {
                metadata: MetadataRecordView { status: Status::Ready, ..self.metadata },
                ..self
            }
        }
    }

    /// What holds of the record at any time: after a failure it is marked
    /// as failed and the last line of its log is the error.
    pub open spec fn sound(self) -> bool {
        self.failed ==> self.metadata.is_error && self.metadata.status == Status::Error
            && self.metadata.log.len() > 0 && self.metadata.log.last().level == LogLevel::Error
    }
}

// ---------------------------------------------------------------------------
// Value and record in the making
// ---------------------------------------------------------------------------
/// The value and the record of an evaluation that is under way.
#[derive(Debug)]
pub struct Evaluation {
    pub data: Value,
    pub metadata: MetadataRecord,
    pub failed: bool,
}

impl View for Evaluation {
    type V = Progress;

    open spec fn view(&self) -> Progress {
        Progress { data: self.data@, metadata: self.metadata@, failed: self.failed }
    }
}

/// What a store answered, as contracts see it.
pub open spec fn fetched_view(outcome: Result<(Vec<u8>, Metadata), StoreError>) -> Result<
    StoreEntryView,
    StoreErrorView,
> {
    match outcome {
        Ok((data, metadata)) => Ok(StoreEntryView { data: data@, metadata: metadata@ }),
        Err(e) => Err(e@),
    }
}

pub open spec fn fetched_metadata_view(outcome: Result<Metadata, StoreError>) -> Result<
    MetadataView,
    StoreErrorView,
> {
    match outcome {
        Ok(metadata) => Ok(metadata@),
        Err(e) => Err(e@),
    }
}

/// The format in which the resource under `key` is read.
pub fn format_of(key: &Key) -> (format: String)
    ensures
        format@ == resource_format(key@),
{
    match key.filename() {
        Some(name) => match crate::query::file_extension(name.name.as_str()) {
            Some(e) => e,
            None => String::from_str("b"),
        },
        None => String::from_str("b"),
    }
}

fn is_readable(format: &str) -> (r: bool)
    ensures
        r == readable_format(format@),
{
    same_text(format, "txt") || same_text(format, "html") || same_text(format, "b")
}

/// The value that the bytes of the resource under `key` are, where its
/// metadata names the type `type_identifier`.
pub fn value_of_resource(bytes: &Vec<u8>, type_identifier: &str, key: &Key) -> (r: Result<
    Value,
    Error,
>)
    ensures
        match r {
            Ok(v) => resource_value(bytes@, type_identifier@, key@) == Some(v@),
            Err(e) => resource_value(bytes@, type_identifier@, key@) is None && e@
                == crate::value::deserialization_failure(chosen_format(type_identifier@, key@)),
        },
{
    let format = if same_text(type_identifier, "text") {
        String::from_str("txt")
    } else if same_text(type_identifier, "bytes") {
        String::from_str("b")
    } else {
        format_of(key)
    };
    if is_readable(format.as_str()) {
        Value::deserialize_from_bytes(bytes, type_identifier, format.as_str())
    } else {
        let copy = bytes.clone();
        assert(copy@ =~= bytes@);
        Ok(Value::Bytes(copy))
    }
}

/// The record that metadata of a store or cache comes down to.
pub fn to_record(metadata: &Metadata) -> (r: MetadataRecord)
    ensures
        r@ == record_of(metadata@),
{
    match metadata {
        Metadata::MetadataRecord(m) => m.clone(),
        Metadata::LegacyMetadata(v) => {
            let mut record = MetadataRecord::new();
            match v.get("query") {
                Some(Value::Text(text)) => match parse_query(text.as_str()) {
                    Ok(q) => {
                        record.with_query(q);
                    },
                    Err(_) => {},
                },
                _ => {},
            }
            record.with_media_type(metadata.get_media_type());
            record
        },
    }
}

fn status_name(status: Status) -> (s: String)
    ensures
        s@ == status_text(status),
{
    match status {
        Status::Unset => String::from_str("none"),
        Status::Submitted => String::from_str("submitted"),
        Status::EvaluatingParent => String::from_str("evaluating parent"),
        Status::Evaluation => String::from_str("evaluation"),
        Status::EvaluatingDependencies => String::from_str("evaluating dependencies"),
        Status::Error => String::from_str("error"),
        Status::Recipe => String::from_str("recipe"),
        Status::Ready => String::from_str("ready"),
        Status::Expired => String::from_str("expired"),
        Status::External => String::from_str("external"),
        Status::SideEffect => String::from_str("side-effect"),
    }
}

/// A record as a value.
pub fn record_as_value(m: &MetadataRecord) -> (v: Value)
    ensures
        v@ == record_object(m@),
{
    let mut entries: Vec<(String, Value)> = Vec::new();
    entries.push((String::from_str("query"), Value::Text(m.query.encode())));
    entries.push((String::from_str("status"), Value::Text(status_name(m.status))));
    entries.push((String::from_str("type_identifier"), Value::Text(m.type_identifier.clone())));
    entries.push((String::from_str("message"), Value::Text(m.message.clone())));
    entries.push((String::from_str("is_error"), Value::Bool(m.is_error)));
    entries.push((String::from_str("media_type"), Value::Text(m.media_type.clone())));
    proof {
        reveal(record_object);
        let shown = crate::value::entries_view(entries@);
        let wanted = record_object(m@)->Object_0;
        assert(shown.len() == 6);
        assert(shown[0] == wanted[0]);
        assert(shown[1] == wanted[1]);
        assert(shown[2] == wanted[2]);
        assert(shown[3] == wanted[3]);
        assert(shown[4] == wanted[4]);
        assert(shown[5] == wanted[5]);
        assert(shown =~= wanted);
    }
    Value::Object(entries)
}

/// Puts `value` in the place of the argument at `index`.
pub fn splice(parameters: &mut ResolvedParameters, index: usize, value: Value)
    ensures
        final(parameters)@ == (ResolvedParametersView {
            parameters: spliced(old(parameters)@.parameters, index as nat, value@),
            links: old(parameters)@.links,
        }),
{
    if index < parameters.parameters.len() {
        let ghost before = parameter_values_view(parameters.parameters@);
        let position = parameters.parameters[index].position;
        parameters.parameters.set(index, Parameter { value, position });
        assert(parameter_values_view(parameters.parameters@) =~= before.update(
            index as int,
            ParameterView { value: value@, position },
        ));
    }
}

impl Evaluation {
    /// The evaluation that has done nothing yet.
    pub fn new() -> (e: Evaluation)
        ensures
            e@ == (Progress {
                data: ValueView::Empty,
                metadata: MetadataRecordView::empty(),
                failed: false,
            }),
            e@.sound(),
    {
        Evaluation { data: Value::Empty, metadata: MetadataRecord::new(), failed: false }
    }

    /// Records a failure.
    pub fn fail(&mut self, message: &str)
        ensures
            final(self)@ == old(self)@.fail(message@),
            final(self)@.sound(),
    {
        self.metadata.error(message);
        self.failed = true;
    }

    /// Takes in what the store answered when asked for the resource under
    /// `key`.
    pub fn fetched(&mut self, key: &Key, outcome: Result<(Vec<u8>, Metadata), StoreError>)
        ensures
            final(self)@ == old(self)@.fetched(key@, fetched_view(outcome)),
            old(self)@.sound() ==> final(self)@.sound(),
    {
        match outcome {
            Ok((data, metadata)) => {
                let record = to_record(&metadata);
                match value_of_resource(&data, record.type_identifier.as_str(), key) {
                    Ok(value) => {
                        self.data = value;
                        self.metadata = record;
                        self.failed = false;
                    },
                    Err(e) => {
                        let text = e.to_string();
                        self.fail(text.as_str());
                    },
                }
            },
            Err(e) => {
                let text = e.to_string();
                self.fail(text.as_str());
            },
        }
    }

    /// Takes in what the store answered when asked for the metadata of a
    /// resource.
    pub fn fetched_metadata(&mut self, outcome: Result<Metadata, StoreError>)
        ensures
            final(self)@ == old(self)@.fetched_metadata(fetched_metadata_view(outcome)),
            old(self)@.sound() ==> final(self)@.sound(),
    {
        match outcome {
            Ok(metadata) => {
                let record = to_record(&metadata);
                self.data = record_as_value(&record);
                self.metadata = record;
                self.failed = false;
            },
            Err(e) => {
                let text = e.to_string();
                self.fail(text.as_str());
            },
        }
    }

    /// Takes in the outcome of an action.
    pub fn acted(&mut self, outcome: Result<Value, Error>)
        ensures
            final(self)@ == old(self)@.acted(outcome_view(outcome)),
            old(self)@.sound() ==> final(self)@.sound(),
    {
        match outcome {
            Ok(value) => {
                self.metadata.with_type_identifier(value.identifier());
                self.data = value;
                self.failed = false;
            },
            Err(e) => {
                let text = e.to_string();
                self.fail(text.as_str());
            },
        }
    }

    /// Carries out a step that calls on nothing outside: a filename or a
    /// line for the log. Any other step changes nothing here.
    pub fn noted(&mut self, step: &Step)
        ensures
            final(self)@ == old(self)@.noted(step@),
            !old(self)@.failed ==> final(self)@.sound(),
    {
        match step {
            Step::Filename(name) => {
                self.metadata.with_filename(name.name.clone());
            },
            Step::Info(message) => {
                self.metadata.info(message.as_str());
            },
            Step::Warning(message) => {
                self.metadata.warning(message.as_str());
            },
            Step::Error(message) => {
                self.fail(message.as_str());
            },
            _ => {},
        }
    }

    /// Ends the evaluation: the record is ready unless a step has failed.
    pub fn finish(&mut self)
        ensures
            final(self)@ == old(self)@.finished(),
            old(self)@.sound() ==> final(self)@.sound(),
    {
        if !self.failed {
            self.metadata.with_status(Status::Ready);
        }
    }

    /// The value with its record, as a state.
    pub fn state(&self) -> (s: State)
        ensures
            s@ == (StateView {
                data: self@.data,
                metadata: MetadataView::MetadataRecord(self@.metadata),
            }),
    {
        State {
            data: Arc::new(self.data.clone()),
            metadata: Arc::new(Metadata::MetadataRecord(self.metadata.clone())),
        }
    }
}

// ---------------------------------------------------------------------------
// The interpreter
// ---------------------------------------------------------------------------
/// What a store with the contents `contents` answers when asked for `key`.
pub open spec fn store_answer(
    contents: Map<Seq<Seq<char>>, StoreEntryView>,
    key: Seq<ResourceNameView>,
) -> Result<StoreEntryView, StoreErrorView> {
    if contents.contains_key(name_texts(key)) {
        Ok(contents[name_texts(key)])
    } else {
        Err(StoreErrorView::KeyNotFound(encode_key(key)))
    }
}

/// What a store with the contents `contents` answers when asked for the
/// metadata under `key`.
pub open spec fn store_metadata_answer(
    contents: Map<Seq<Seq<char>>, StoreEntryView>,
    key: Seq<ResourceNameView>,
) -> Result<MetadataView, StoreErrorView> {
    if contents.contains_key(name_texts(key)) {
        Ok(contents[name_texts(key)].metadata)
    } else {
        Err(StoreErrorView::KeyNotFound(encode_key(key)))
    }
}

/// Whether `answer` may be what a store with the contents `contents`
/// answers when asked for what stands under `key`: what it holds, or, of
/// a store that is not reliable, a failure to read the key.
pub open spec fn may_fetch(
    contents: Map<Seq<Seq<char>>, StoreEntryView>,
    reliable: bool,
    key: Seq<ResourceNameView>,
    answer: Result<StoreEntryView, StoreErrorView>,
) -> bool {
    answer == store_answer(contents, key) || (!reliable && answer is Err
        && crate::store::is_read_failure(answer->Err_0, encode_key(key)))
}

/// After data and metadata were written under a key, a reliable store
/// answers with the data when it is asked for the key, with metadata of
/// the same query and media type.
pub proof fn lemma_written_is_fetched(
    before: Map<Seq<Seq<char>>, StoreEntryView>,
    after: Map<Seq<Seq<char>>, StoreEntryView>,
    key: Seq<ResourceNameView>,
    data: Seq<u8>,
    metadata: MetadataView,
    answer: Result<StoreEntryView, StoreErrorView>,
)
    requires
        crate::store::written(before, after, name_texts(key), data, metadata),
        may_fetch(after, true, key, answer),
    ensures
        answer is Ok,
        answer->Ok_0.data == data,
        answer->Ok_0.metadata.query_text() == metadata.query_text(),
        answer->Ok_0.metadata.media_type() == metadata.media_type(),
{
    crate::store::lemma_written_is_read(before, after, name_texts(key), data, metadata);
}

/// The same of the metadata under `key`.
pub open spec fn may_fetch_metadata(
    contents: Map<Seq<Seq<char>>, StoreEntryView>,
    reliable: bool,
    key: Seq<ResourceNameView>,
    answer: Result<MetadataView, StoreErrorView>,
) -> bool {
    answer == store_metadata_answer(contents, key) || (!reliable && answer is Err
        && crate::store::is_read_failure(answer->Err_0, encode_key(key)))
}

pub open spec fn no_plan_error() -> ErrorView {
    plain_error(ErrorType::General, "No plan"@)
}

pub open spec fn no_more_steps_error() -> ErrorView {
    plain_error(ErrorType::General, "No more steps"@)
}

pub open spec fn nested_plan_message() -> Seq<char> {
    "A planned query holds no plans"@
}

/// The state that an evaluation hands out: the value and the record.
pub open spec fn state_of(p: Progress) -> StateView {
    StateView { data: p.data, metadata: MetadataView::MetadataRecord(p.metadata) }
}

/// The arguments that the executor is handed for an action with
/// `parameters` at `position`, once `values` are in the places of its
/// links: none of them taken yet.
pub open spec fn handed_arguments(
    parameters: ResolvedParametersView,
    values: Seq<ValueView>,
    position: Position,
) -> CommandArgumentsView {
    CommandArgumentsView {
        parameters: ResolvedParametersView {
            parameters: with_links(
                parameters.parameters,
                parameters.links,
                values,
                values.len(),
            ),
            links: parameters.links,
        },
        action_position: position,
        argument_number: 0,
    }
}

/// Whether the environment `injection` may answer `query` with a state
/// that holds `value`.
pub open spec fn link_answered<I: Environment>(injection: I, query: QueryView, value: ValueView)
    -> bool {
    exists|state: StateView|
        #[trigger] injection.answers(query, Ok::<StateView, ErrorView>(state)) && state.data
            == value
}

/// Whether `values` may be what the first links of `links` were evaluated
/// to, one after the other, where `injections` holds the environment as
/// it was before each evaluation: each value is held by a state that the
/// environment of that time may give for the query of the link.
pub open spec fn links_answered<I: Environment>(
    links: Seq<(nat, QueryView)>,
    values: Seq<ValueView>,
    injections: Seq<I>,
) -> bool {
    &&& values.len() <= links.len()
    &&& values.len() <= injections.len()
    &&& forall|k: int|
        0 <= k < values.len() ==> link_answered(#[trigger] injections[k], links[k].1, values[k])
}

/// Whether `outcome` may be the outcome of an action on `state`, with
/// `values` for its links, `injections` for the environment before each
/// evaluation of a link, and `injection` for the environment at the time
/// that the executor is called. The links are evaluated in their order.
/// Where one fails there are fewer values than links, the executor is not
/// called, and the outcome is the error that the environment gave for
/// the query of that link. Else the executor is called for the realm,
/// namespace and name of the action, on `state`, with the parameters of
/// the action and the values of its links in their places, and the
/// outcome is what it gives.
pub open spec fn action_outcome<I: Environment, CE: CommandExecutor<I>>(
    executor: CE,
    realm: Seq<char>,
    namespace: Seq<char>,
    name: Seq<char>,
    position: Position,
    parameters: ResolvedParametersView,
    state: StateView,
    values: Seq<ValueView>,
    injections: Seq<I>,
    injection: I,
    outcome: Result<ValueView, ErrorView>,
) -> bool {
    &&& links_answered(parameters.links, values, injections)
    &&& if values.len() < parameters.links.len() {
        &&& values.len() < injections.len()
        &&& outcome is Err
        &&& injections[values.len() as int].answers(
            parameters.links[values.len() as int].1,
            Err::<StateView, ErrorView>(outcome->Err_0),
        )
    } else {
        executor.answers(
            realm,
            namespace,
            name,
            state,
            handed_arguments(parameters, values, position),
            injection,
            outcome,
        )
    }
}

/// What an action may make of `before`: what its outcome says, where the
/// outcome is one that the action may have on the state so far.
#[verifier::opaque]
pub open spec fn action_may<I: Environment, CE: CommandExecutor<I>>(
    executor: CE,
    realm: Seq<char>,
    namespace: Seq<char>,
    name: Seq<char>,
    position: Position,
    parameters: ResolvedParametersView,
    before: Progress,
    after: Progress,
) -> bool {
    exists|
        values: Seq<ValueView>,
        injections: Seq<I>,
        injection: I,
        outcome: Result<ValueView, ErrorView>,
    |
        #[trigger] action_outcome(
            executor,
            realm,
            namespace,
            name,
            position,
            parameters,
            state_of(before),
            values,
            injections,
            injection,
            outcome,
        ) && after == before.acted(outcome)
}

/// What a resource step may make of `before`: what an answer of the
/// store says.
#[verifier::opaque]
pub open spec fn fetch_may(
    resources: Map<Seq<Seq<char>>, StoreEntryView>,
    reliable: bool,
    key: Seq<ResourceNameView>,
    before: Progress,
    after: Progress,
) -> bool {
    exists|answer: Result<StoreEntryView, StoreErrorView>|
        #[trigger] may_fetch(resources, reliable, key, answer) && after == before.fetched(
            key,
            answer,
        )
}

/// What a step for the metadata of a resource may make of `before`: what
/// an answer of the store says.
#[verifier::opaque]
pub open spec fn fetch_metadata_may(
    resources: Map<Seq<Seq<char>>, StoreEntryView>,
    reliable: bool,
    key: Seq<ResourceNameView>,
    before: Progress,
    after: Progress,
) -> bool {
    exists|answer: Result<MetadataView, StoreErrorView>|
        #[trigger] may_fetch_metadata(resources, reliable, key, answer) && after
            == before.fetched_metadata(answer)
}

/// What a step that is no plan of its own may make of `before`. What a
/// resource step makes of it is for the store to say and what a note makes
/// of it is fixed; an action makes of it what the executor gives for it.
/// A plan or a query in the place of such a step is a failure.
#[verifier::opaque]
pub open spec fn simple_may<I: Environment, CE: CommandExecutor<I>>(
    step: StepView,
    executor: CE,
    resources: Map<Seq<Seq<char>>, StoreEntryView>,
    reliable: bool,
    before: Progress,
    after: Progress,
) -> bool {
    match step {
        StepView::GetResource(key) => fetch_may(resources, reliable, key, before, after),
        StepView::GetResourceMetadata(key) => fetch_metadata_may(
            resources,
            reliable,
            key,
            before,
            after,
        ),
        StepView::Action { realm, ns, action_name, position, parameters } => action_may(
            executor,
            realm,
            ns,
            action_name,
            position,
            parameters,
            before,
            after,
        ),
        StepView::Plan(_) => after == before.fail(nested_plan_message()),
        StepView::Evaluate(_) => after == before.fail(nested_plan_message()),
        _ => after == before.noted(step),
    }
}

/// A resource step makes of a state what the answer of the store says.
pub proof fn lemma_fetch_step<I: Environment, CE: CommandExecutor<I>>(
    executor: CE,
    resources: Map<Seq<Seq<char>>, StoreEntryView>,
    reliable: bool,
    key: Seq<ResourceNameView>,
    answer: Result<StoreEntryView, StoreErrorView>,
    before: Progress,
    after: Progress,
)
    requires
        may_fetch(resources, reliable, key, answer),
        after == before.fetched(key, answer),
    ensures
        simple_may(StepView::GetResource(key), executor, resources, reliable, before, after),
{
    reveal(simple_may);
    reveal(fetch_may);
}

/// A step for the metadata of a resource makes of a state what the answer
/// of the store says.
pub proof fn lemma_fetch_metadata_step<I: Environment, CE: CommandExecutor<I>>(
    executor: CE,
    resources: Map<Seq<Seq<char>>, StoreEntryView>,
    reliable: bool,
    key: Seq<ResourceNameView>,
    answer: Result<MetadataView, StoreErrorView>,
    before: Progress,
    after: Progress,
)
    requires
        may_fetch_metadata(resources, reliable, key, answer),
        after == before.fetched_metadata(answer),
    ensures
        simple_may(
            StepView::GetResourceMetadata(key),
            executor,
            resources,
            reliable,
            before,
            after,
        ),
{
    reveal(simple_may);
    reveal(fetch_metadata_may);
}

/// An action makes of a state what the executor gives for it.
pub proof fn lemma_action_step<I: Environment, CE: CommandExecutor<I>>(
    executor: CE,
    resources: Map<Seq<Seq<char>>, StoreEntryView>,
    reliable: bool,
    step: StepView,
    before: Progress,
    after: Progress,
)
    requires
        step is Action,
        action_may(
            executor,
            step->realm,
            step->ns,
            step->action_name,
            step->position,
            step->parameters,
            before,
            after,
        ),
    ensures
        simple_may(step, executor, resources, reliable, before, after),
{
    reveal(simple_may);
}

/// A note makes of a state what it says, and a plan or a query in the
/// place of a step that is no plan of its own is a failure.
pub proof fn lemma_note_step<I: Environment, CE: CommandExecutor<I>>(
    executor: CE,
    resources: Map<Seq<Seq<char>>, StoreEntryView>,
    reliable: bool,
    step: StepView,
    before: Progress,
    after: Progress,
)
    requires
        !(step is GetResource),
        !(step is GetResourceMetadata),
        !(step is Action),
        after == if step is Plan || step is Evaluate {
            before.fail(nested_plan_message())
        } else {
            before.noted(step)
        },
    ensures
        simple_may(step, executor, resources, reliable, before, after),
{
    reveal(simple_may);
}

/// Whether `trace` is a course through the steps of a planned query: it
/// begins before the first step, each step makes the next state of the
/// state before it, and it ends after the last step or with the first
/// failure.
#[verifier::opaque]
pub open spec fn is_flat_course<I: Environment, CE: CommandExecutor<I>>(
    steps: Seq<StepView>,
    executor: CE,
    resources: Map<Seq<Seq<char>>, StoreEntryView>,
    reliable: bool,
    trace: Seq<Progress>,
) -> bool {
    &&& 0 < trace.len() <= steps.len() + 1
    &&& forall|j: int|
        0 <= j < trace.len() - 1 ==> !trace[j].failed && simple_may(
            #[trigger] steps[j],
            executor,
            resources,
            reliable,
            trace[j],
            trace[j + 1],
        )
    &&& trace.len() == steps.len() + 1 || trace.last().failed
}

/// Whether the steps of a planned query may lead from `before` to
/// `after`: whether there is a course through them from the one to the
/// other.
#[verifier::opaque]
pub open spec fn flat_runs_to<I: Environment, CE: CommandExecutor<I>>(
    steps: Seq<StepView>,
    executor: CE,
    resources: Map<Seq<Seq<char>>, StoreEntryView>,
    reliable: bool,
    before: Progress,
    after: Progress,
) -> bool {
    exists|trace: Seq<Progress>| #[trigger]
        is_flat_course(steps, executor, resources, reliable, trace) && trace[0] == before
            && trace.last() == after
}

/// What a query within a plan may make of `before`: what the steps of its
/// plan lead to, and a failure where it has no plan.
#[verifier::opaque]
pub open spec fn query_may<I: Environment, CE: CommandExecutor<I>>(
    query: QueryView,
    registry: Seq<CommandMetadataView>,
    executor: CE,
    resources: Map<Seq<Seq<char>>, StoreEntryView>,
    reliable: bool,
    before: Progress,
    after: Progress,
) -> bool {
    match planned(query, registry) {
        Ok(plan) => flat_runs_to(plan.steps, executor, resources, reliable, before, after),
        Err(e) => after == before.fail(e.text()),
    }
}

/// What a step may make of `before`: the steps of a plan within the plan
/// are carried out in its place; a query within the plan is planned and
/// its steps are carried out in its place, and where it cannot be planned
/// that is a failure.
#[verifier::opaque]
pub open spec fn step_may<I: Environment, CE: CommandExecutor<I>>(
    step: StepView,
    registry: Seq<CommandMetadataView>,
    executor: CE,
    resources: Map<Seq<Seq<char>>, StoreEntryView>,
    reliable: bool,
    before: Progress,
    after: Progress,
) -> bool
    decreases step, 0int,
{
    match step {
        StepView::Plan(plan) => runs_to(
            plan.steps,
            registry,
            executor,
            resources,
            reliable,
            before,
            after,
        ),
        StepView::Evaluate(query) => query_may(
            query,
            registry,
            executor,
            resources,
            reliable,
            before,
            after,
        ),
        _ => simple_may(step, executor, resources, reliable, before, after),
    }
}

/// Whether `trace` is a course through `steps`: it begins before the first
/// step, each step makes the next state of the state before it, and it
/// ends after the last step or with the first failure.
#[verifier::opaque]
pub open spec fn is_course<I: Environment, CE: CommandExecutor<I>>(
    steps: Seq<StepView>,
    registry: Seq<CommandMetadataView>,
    executor: CE,
    resources: Map<Seq<Seq<char>>, StoreEntryView>,
    reliable: bool,
    trace: Seq<Progress>,
) -> bool
    decreases steps, 1int,
{
    if 0 < trace.len() <= steps.len() + 1 {
        &&& forall|j: int|
            0 <= j < trace.len() - 1 ==> !trace[j].failed && step_may(
                #[trigger] steps[j],
                registry,
                executor,
                resources,
                reliable,
                trace[j],
                trace[j + 1],
            )
        &&& trace.len() == steps.len() + 1 || trace.last().failed
    } else {
        false
    }
}

/// Whether `steps` may lead from `before` to `after`: whether there is a
/// course through them from the one to the other.
#[verifier::opaque]
pub open spec fn runs_to<I: Environment, CE: CommandExecutor<I>>(
    steps: Seq<StepView>,
    registry: Seq<CommandMetadataView>,
    executor: CE,
    resources: Map<Seq<Seq<char>>, StoreEntryView>,
    reliable: bool,
    before: Progress,
    after: Progress,
) -> bool
    decreases steps, 2int,
{
    exists|trace: Seq<Progress>|
        is_course(steps, registry, executor, resources, reliable, trace)
            && #[trigger] trace[0] == before
            && trace.last() == after
}

/// Before any step there is the course that holds the one state.
pub proof fn lemma_course_first<I: Environment, CE: CommandExecutor<I>>(
    registry: Seq<CommandMetadataView>,
    executor: CE,
    resources: Map<Seq<Seq<char>>, StoreEntryView>,
    reliable: bool,
    first: Progress,
)
    ensures
        is_course(Seq::empty(), registry, executor, resources, reliable, seq![first]),
{
    reveal(is_course);
}

/// A course through all of some steps, which has not failed, goes on by
/// what one more step makes of its last state.
pub proof fn lemma_course_next<I: Environment, CE: CommandExecutor<I>>(
    steps: Seq<StepView>,
    registry: Seq<CommandMetadataView>,
    executor: CE,
    resources: Map<Seq<Seq<char>>, StoreEntryView>,
    reliable: bool,
    trace: Seq<Progress>,
    step: StepView,
    after: Progress,
)
    requires
        is_course(steps, registry, executor, resources, reliable, trace),
        trace.len() == steps.len() + 1,
        !trace.last().failed,
        step_may(step, registry, executor, resources, reliable, trace.last(), after),
    ensures
        is_course(steps.push(step), registry, executor, resources, reliable, trace.push(after)),
{
    reveal(step_may);
    reveal(is_course);
    let more = steps.push(step);
    let longer = trace.push(after);
    assert forall|j: int| 0 <= j < longer.len() - 1 implies !longer[j].failed && step_may(
        #[trigger] more[j],
        registry,
        executor,
        resources,
        reliable,
        longer[j],
        longer[j + 1],
    ) by {
        if j < steps.len() {
            assert(more[j] == steps[j]);
            assert(longer[j] == trace[j]);
            assert(longer[j + 1] == trace[j + 1]);
            assert(step_may(
                steps[j],
                registry,
                executor,
                resources,
                reliable,
                trace[j],
                trace[j + 1],
            ));
        } else {
            assert(more[j] == step);
            assert(longer[j] == trace.last());
            assert(longer[j + 1] == after);
        }
    }
    assert(longer.len() == more.len() + 1);
    assert(is_course(more, registry, executor, resources, reliable, longer));
}

/// A course through the first steps that has failed is a course through
/// all of them.
pub proof fn lemma_course_cut<I: Environment, CE: CommandExecutor<I>>(
    steps: Seq<StepView>,
    registry: Seq<CommandMetadataView>,
    executor: CE,
    resources: Map<Seq<Seq<char>>, StoreEntryView>,
    reliable: bool,
    trace: Seq<Progress>,
    done: int,
)
    requires
        0 <= done <= steps.len(),
        is_course(steps.take(done), registry, executor, resources, reliable, trace),
        done == steps.len() || trace.last().failed,
    ensures
        is_course(steps, registry, executor, resources, reliable, trace),
{
    reveal(is_course);
    let first = steps.take(done);
    assert(0 < trace.len() <= first.len() + 1);
    assert forall|j: int| 0 <= j < trace.len() - 1 implies first[j] == #[trigger] steps[j] by {}
    assert(is_course(steps, registry, executor, resources, reliable, trace));
}

/// Steps lead from the first state of a course through them to its last.
pub proof fn lemma_course_runs<I: Environment, CE: CommandExecutor<I>>(
    steps: Seq<StepView>,
    registry: Seq<CommandMetadataView>,
    executor: CE,
    resources: Map<Seq<Seq<char>>, StoreEntryView>,
    reliable: bool,
    trace: Seq<Progress>,
)
    requires
        is_course(steps, registry, executor, resources, reliable, trace),
    ensures
        runs_to(steps, registry, executor, resources, reliable, trace[0], trace.last()),
{
    reveal(is_course);
    reveal(runs_to);
    assert(is_course(steps, registry, executor, resources, reliable, trace));
    assert(runs_to(steps, registry, executor, resources, reliable, trace[0], trace.last()));
}

/// Before any step of a planned query there is the course that holds the
/// one state.
pub proof fn lemma_flat_course_first<I: Environment, CE: CommandExecutor<I>>(
    executor: CE,
    resources: Map<Seq<Seq<char>>, StoreEntryView>,
    reliable: bool,
    first: Progress,
)
    ensures
        is_flat_course(Seq::empty(), executor, resources, reliable, seq![first]),
{
    reveal(is_flat_course);
}

/// A course through all of the steps of a planned query, which has not
/// failed, goes on by what one more step makes of its last state.
pub proof fn lemma_flat_course_next<I: Environment, CE: CommandExecutor<I>>(
    steps: Seq<StepView>,
    executor: CE,
    resources: Map<Seq<Seq<char>>, StoreEntryView>,
    reliable: bool,
    trace: Seq<Progress>,
    step: StepView,
    after: Progress,
)
    requires
        is_flat_course(steps, executor, resources, reliable, trace),
        trace.len() == steps.len() + 1,
        !trace.last().failed,
        simple_may(step, executor, resources, reliable, trace.last(), after),
    ensures
        is_flat_course(steps.push(step), executor, resources, reliable, trace.push(after)),
{
    reveal(is_flat_course);
    let more = steps.push(step);
    let longer = trace.push(after);
    assert forall|j: int| 0 <= j < longer.len() - 1 implies !longer[j].failed && simple_may(
        #[trigger] more[j],
        executor,
        resources,
        reliable,
        longer[j],
        longer[j + 1],
    ) by {
        if j < steps.len() {
            assert(more[j] == steps[j]);
            assert(longer[j] == trace[j]);
            assert(longer[j + 1] == trace[j + 1]);
            assert(simple_may(steps[j], executor, resources, reliable, trace[j], trace[j + 1]));
        } else {
            assert(more[j] == step);
            assert(longer[j] == trace.last());
            assert(longer[j + 1] == after);
        }
    }
}

/// A course through the first steps of a planned query that has failed is
/// a course through all of them, and the steps lead from its first state
/// to its last.
pub proof fn lemma_flat_course_runs<I: Environment, CE: CommandExecutor<I>>(
    steps: Seq<StepView>,
    executor: CE,
    resources: Map<Seq<Seq<char>>, StoreEntryView>,
    reliable: bool,
    trace: Seq<Progress>,
    done: int,
)
    requires
        0 <= done <= steps.len(),
        is_flat_course(steps.take(done), executor, resources, reliable, trace),
        done == steps.len() || trace.last().failed,
    ensures
        flat_runs_to(steps, executor, resources, reliable, trace[0], trace.last()),
{
    reveal(is_flat_course);
    reveal(flat_runs_to);
    let first = steps.take(done);
    assert forall|j: int| 0 <= j < trace.len() - 1 implies !trace[j].failed && simple_may(
        #[trigger] steps[j],
        executor,
        resources,
        reliable,
        trace[j],
        trace[j + 1],
    ) by {
        assert(first[j] == steps[j]);
        assert(simple_may(first[j], executor, resources, reliable, trace[j], trace[j + 1]));
    }
    assert(is_flat_course(steps, executor, resources, reliable, trace));
}

/// What a step that is neither a plan nor a query may make of a state is
/// what it may make of it within a planned query.
pub proof fn lemma_simple_step<I: Environment, CE: CommandExecutor<I>>(
    step: StepView,
    registry: Seq<CommandMetadataView>,
    executor: CE,
    resources: Map<Seq<Seq<char>>, StoreEntryView>,
    reliable: bool,
    before: Progress,
    after: Progress,
)
    requires
        !(step is Plan),
        !(step is Evaluate),
    ensures
        step_may(step, registry, executor, resources, reliable, before, after) == simple_may(
            step,
            executor,
            resources,
            reliable,
            before,
            after,
        ),
{
    reveal(step_may);
}

/// A plan within a plan may make of a state what its steps lead to.
pub proof fn lemma_plan_step<I: Environment, CE: CommandExecutor<I>>(
    plan: PlanView,
    registry: Seq<CommandMetadataView>,
    executor: CE,
    resources: Map<Seq<Seq<char>>, StoreEntryView>,
    reliable: bool,
    before: Progress,
    after: Progress,
)
    ensures
        step_may(StepView::Plan(plan), registry, executor, resources, reliable, before, after)
            == runs_to(
            plan.steps,
            registry,
            executor,
            resources,
            reliable,
            before,
            after,
        ),
{
    reveal(step_may);
    reveal(runs_to);
}

/// A query within a plan may make of a state what the steps of its plan
/// lead to, and a failure where it has no plan.
pub proof fn lemma_query_step<I: Environment, CE: CommandExecutor<I>>(
    query: QueryView,
    registry: Seq<CommandMetadataView>,
    executor: CE,
    resources: Map<Seq<Seq<char>>, StoreEntryView>,
    reliable: bool,
    before: Progress,
    after: Progress,
)
    ensures
        step_may(StepView::Evaluate(query), registry, executor, resources, reliable, before, after)
            == match planned(
            query,
            registry,
        ) {
            Ok(plan) => flat_runs_to(plan.steps, executor, resources, reliable, before, after),
            Err(e) => after == before.fail(e.text()),
        },
{
    reveal(step_may);
    reveal(query_may);
}

/// Carries out plans: it holds the plan and the place in it, the value and
/// the record in the making, and what the steps call on.
pub struct PlanInterpreter<I, CE, S, C> {
    plan: Option<Plan>,
    command_metadata_registry: CommandMetadataRegistry,
    command_executor: CE,
    injection: I,
    store: S,
    cache: C,
    step_number: usize,
    evaluation: Evaluation,
}

impl<I: Environment, CE: CommandExecutor<I>, S: Store, C: BinCache> PlanInterpreter<I, CE, S, C> {
    /// What must hold of the interpreter between calls.
    pub closed spec fn inv(&self) -> bool {
        &&& self.command_executor.ready()
        &&& self.store.inv()
        &&& self.cache.inv()
        &&& self.evaluation@.sound()
    }

    /// What carries out the actions.
    pub closed spec fn executor(&self) -> CE {
        self.command_executor
    }

    /// The environment that the commands are handed and that evaluates
    /// the links.
    pub closed spec fn injection(&self) -> I {
        self.injection
    }

    /// Whether the store never fails to read for a reason of its own.
    pub closed spec fn reliable(&self) -> bool {
        self.store.reliable()
    }

    /// The value and the record in the making.
    pub closed spec fn progress(&self) -> Progress {
        self.evaluation@
    }

    /// The plan that is carried out.
    pub closed spec fn plan(&self) -> Option<PlanView> {
        match self.plan {
            Some(p) => Some(p@),
            None => None,
        }
    }

    /// The number of steps of the plan that were carried out.
    pub closed spec fn step_number(&self) -> nat {
        self.step_number as nat
    }

    /// What the store holds.
    pub closed spec fn resources(&self) -> Map<Seq<Seq<char>>, StoreEntryView> {
        self.store.contents()
    }

    /// What the cache holds.
    pub closed spec fn cached(&self) -> Map<Seq<char>, CacheEntryView> {
        self.cache.contents()
    }

    /// What is known of the commands.
    pub closed spec fn registry(&self) -> Seq<CommandMetadataView> {
        self.command_metadata_registry@
    }

    pub fn new(cmr: CommandMetadataRegistry, injection: I, ce: CE, store: S, cache: C) -> (r: Self)
        requires
            ce.ready(),
            store.inv(),
            cache.inv(),
        ensures
            r.inv(),
            r.plan() is None,
            r.step_number() == 0,
            r.registry() == cmr@,
            r.executor() == ce,
            r.injection() == injection,
            r.resources() == store.contents(),
            r.reliable() == store.reliable(),
            r.cached() == cache.contents(),
            r.cache_keeps() == cache.supported(),
            r.progress() == (Progress {
                data: ValueView::Empty,
                metadata: MetadataRecordView::empty(),
                failed: false,
            }),
    {
        PlanInterpreter {
            plan: None,
            command_metadata_registry: cmr,
            command_executor: ce,
            injection,
            store,
            cache,
            step_number: 0,
            evaluation: Evaluation::new(),
        }
    }

    /// Takes up `plan` from its first step, with an empty value and a
    /// record that holds the query of the plan and nothing else.
    pub fn with_plan(&mut self, plan: Plan)
        requires
            old(self).inv(),
        ensures
            final(self).inv(),
            final(self).plan() == Some(plan@),
            final(self).step_number() == 0,
            final(self).registry() == old(self).registry(),
            final(self).executor() == old(self).executor(),
            final(self).injection() == old(self).injection(),
            final(self).resources() == old(self).resources(),
            final(self).reliable() == old(self).reliable(),
            final(self).cached() == old(self).cached(),
            final(self).cache_keeps() == old(self).cache_keeps(),
            final(self).progress() == (Progress {
                data: ValueView::Empty,
                metadata: MetadataRecordView { query: plan@.query, ..MetadataRecordView::empty() },
                failed: false,
            }),
    {
        let mut evaluation = Evaluation::new();
        evaluation.metadata.with_query(plan.query.clone());
        self.evaluation = evaluation;
        self.plan = Some(plan);
        self.step_number = 0;
    }

    /// Plans the query that `query` is the text of, and takes up the plan.
    /// Where the text is no query or the query cannot be planned, the
    /// interpreter stays as it is.
    pub fn with_query(&mut self, query: &str) -> (r: Result<(), Error>)
        requires
            old(self).inv(),
        ensures
            final(self).inv(),
            final(self).registry() == old(self).registry(),
            final(self).executor() == old(self).executor(),
            final(self).injection() == old(self).injection(),
            final(self).resources() == old(self).resources(),
            final(self).reliable() == old(self).reliable(),
            final(self).cached() == old(self).cached(),
            final(self).cache_keeps() == old(self).cache_keeps(),
            match parse_result(query@) {
                Ok(q) => match planned(q, old(self).registry()) {
                    Ok(plan) => r is Ok && final(self).plan() == Some(plan)
                        && final(self).step_number() == 0 && final(self).progress() == (Progress {
                        data: ValueView::Empty,
                        metadata: MetadataRecordView { query: q, ..MetadataRecordView::empty() },
                        failed: false,
                    }),
                    Err(e) => r is Err && r->Err_0@ == e && final(self).plan() == old(self).plan()
                        && final(self).progress() == old(self).progress()
                            && final(self).step_number() == old(self).step_number(),
                },
                Err(e) => r is Err && r->Err_0@ == e && final(self).plan() == old(self).plan()
                    && final(self).progress() == old(self).progress()
                        && final(self).step_number() == old(self).step_number(),
            },
    {
        let q = match parse_query(query) {
            Ok(q) => q,
            Err(e) => {
                return Err(e);
            },
        };
        let plan = match make_plan(&q, &self.command_metadata_registry) {
            Ok(plan) => plan,
            Err(e) => {
                return Err(e);
            },
        };
        self.with_plan(plan);
        Ok(())
    }

    /// The value with its record so far, as a state.
    pub fn state(&self) -> (s: State)
        ensures
            s@ == (StateView {
                data: self.progress().data,
                metadata: MetadataView::MetadataRecord(self.progress().metadata),
            }),
    {
        self.evaluation.state()
    }

    /// Breaks the evaluation off before its next step: the reason is
    /// logged as an error, and no further step is carried out.
    pub fn cancel(&mut self, reason: &str)
        requires
            old(self).inv(),
        ensures
            final(self).inv(),
            final(self).progress() == old(self).progress().fail(reason@),
            final(self).plan() == old(self).plan(),
            final(self).step_number() == old(self).step_number(),
            final(self).registry() == old(self).registry(),
            final(self).executor() == old(self).executor(),
            final(self).injection() == old(self).injection(),
            final(self).resources() == old(self).resources(),
            final(self).reliable() == old(self).reliable(),
            final(self).cached() == old(self).cached(),
            final(self).cache_keeps() == old(self).cache_keeps(),
    {
        self.evaluation.fail(reason);
    }

    /// Whether a step has failed.
    pub fn has_failed(&self) -> (r: bool)
        ensures
            r == self.progress().failed,
    {
        self.evaluation.failed
    }

    /// Evaluates the links of `parameters` in the order of their
    /// declaration and puts each result in its place. The first link that
    /// fails ends it: the values of the links before it are in their
    /// places then, and its error comes back. With the result come, for
    /// the proofs, the values that the links gave and the environment as
    /// it was before each evaluation.
    fn resolve_links(&mut self, parameters: &mut ResolvedParameters) -> (r: (
        Result<(), Error>,
        Ghost<Seq<ValueView>>,
        Ghost<Seq<I>>,
    ))
        requires
            old(self).inv(),
        ensures
            final(self).inv(),
            final(self).progress() == old(self).progress(),
            final(self).plan() == old(self).plan(),
            final(self).step_number() == old(self).step_number(),
            final(self).registry() == old(self).registry(),
            final(self).executor() == old(self).executor(),
            final(self).resources() == old(self).resources(),
            final(self).reliable() == old(self).reliable(),
            final(self).cached() == old(self).cached(),
            final(self).cache_keeps() == old(self).cache_keeps(),
            final(parameters)@.links == old(parameters)@.links,
            final(parameters)@.parameters == with_links(
                old(parameters)@.parameters,
                old(parameters)@.links,
                r.1@,
                r.1@.len(),
            ),
            links_answered(old(parameters)@.links, r.1@, r.2@),
            r.2@.len() > 0 ==> r.2@[0] == old(self).injection(),
            match r.0 {
                Ok(()) => r.1@.len() == old(parameters)@.links.len(),
                Err(e) => r.1@.len() < old(parameters)@.links.len() && r.1@.len() < r.2@.len()
                    && r.2@[r.1@.len() as int].answers(
                    old(parameters)@.links[r.1@.len() as int].1,
                    Err::<StateView, ErrorView>(e@),
                ),
            },
            old(parameters)@.links.len() == 0 ==> r.0 is Ok
                && final(parameters)@ == old(parameters)@
                && final(self).injection() == old(self).injection(),
    {
        let ghost before = parameters@.parameters;
        let ghost links = parameters@.links;
        let ghost mut values: Seq<ValueView> = Seq::empty();
        let ghost mut injections: Seq<I> = Seq::empty();
        let mut i: usize = 0;
        while i < parameters.links.len()
            invariant
                self.inv(),
                self.progress() == old(self).progress(),
                self.plan() == old(self).plan(),
                self.step_number() == old(self).step_number(),
                self.registry() == old(self).registry(),
                self.executor() == old(self).executor(),
                self.resources() == old(self).resources(),
                self.reliable() == old(self).reliable(),
                self.cached() == old(self).cached(),
                self.cache_keeps() == old(self).cache_keeps(),
                before == old(parameters)@.parameters,
                links == old(parameters)@.links,
                parameters@.links == links,
                parameters.links.len() == links.len(),
                i <= parameters.links.len(),
                values.len() == i,
                injections.len() == i,
                i == 0 ==> self.injection() == old(self).injection(),
                i > 0 ==> injections[0] == old(self).injection(),
                parameters@.parameters == with_links(before, links, values, i as nat),
                links_answered(links, values, injections),
                links.len() == 0 ==> parameters@ == old(parameters)@,
            decreases parameters.links.len() - i,
        {
            let index = parameters.links[i].0;
            let query = parameters.links[i].1.clone();
            assert(links[i as int] == (index as nat, query@)) by {
                assert(parameters@.links[i as int] == (
                    parameters.links@[i as int].0 as nat,
                    parameters.links@[i as int].1@,
                ));
            }
            let ghost asked = self.injection;
            match self.injection.evaluate(&query) {
                Ok(state) => {
                    let value = (*state.data).clone();
                    proof {
                        assert(asked.answers(query@, Ok::<StateView, ErrorView>(state@))
                            && state@.data == value@);
                        assert(link_answered(asked, links[i as int].1, value@));
                        lemma_with_links_more(before, links, values, value@, i as nat);
                        let more = values.push(value@);
                        let longer = injections.push(asked);
                        assert forall|k: int| 0 <= k < more.len() implies link_answered(
                            #[trigger] longer[k],
                            links[k].1,
                            more[k],
                        ) by {
                            if k < values.len() {
                                assert(longer[k] == injections[k]);
                                assert(more[k] == values[k]);
                            }
                        }
                        values = more;
                        injections = longer;
                    }
                    splice(parameters, index, value);
                },
                Err(e) => {
                    proof {
                        let longer = injections.push(asked);
                        assert forall|k: int| 0 <= k < values.len() implies link_answered(
                            #[trigger] longer[k],
                            links[k].1,
                            values[k],
                        ) by {
                            assert(longer[k] == injections[k]);
                        }
                        injections = longer;
                    }
                    return (Err(e), Ghost(values), Ghost(injections));
                },
            }
            i += 1;
        }
        (Ok(()), Ghost(values), Ghost(injections))
    }

    /// Carries out an action: its links are evaluated, the command is
    /// called on the state so far, and the outcome is taken in.
    fn act(
        &mut self,
        realm: &str,
        ns: &str,
        action_name: &str,
        position: &Position,
        parameters: &ResolvedParameters,
    )
        requires
            old(self).inv(),
        ensures
            final(self).inv(),
            action_may(
                old(self).executor(),
                realm@,
                ns@,
                action_name@,
                *position,
                parameters@,
                old(self).progress(),
                final(self).progress(),
            ),
            final(self).plan() == old(self).plan(),
            final(self).step_number() == old(self).step_number(),
            final(self).registry() == old(self).registry(),
            final(self).executor() == old(self).executor(),
            final(self).resources() == old(self).resources(),
            final(self).reliable() == old(self).reliable(),
            final(self).cached() == old(self).cached(),
            final(self).cache_keeps() == old(self).cache_keeps(),
    {
        let mut resolved = parameters.clone();
        let (links_done, Ghost(values), Ghost(injections)) = self.resolve_links(&mut resolved);
        let ghost handed = self.injection;
        let outcome = match links_done {
            Ok(()) => {
                let mut arguments = CommandArguments::new(resolved);
                arguments.action_position = *position;
                assert(arguments@ == handed_arguments(parameters@, values, *position));
                let input_state = self.evaluation.state();
                self.command_executor.execute(
                    realm,
                    ns,
                    action_name,
                    &input_state,
                    &mut arguments,
                    &mut self.injection,
                )
            },
            Err(e) => Err(e),
        };
        let ghost shown = outcome_view(outcome);
        self.evaluation.acted(outcome);
        assert(action_outcome(
            old(self).executor(),
            realm@,
            ns@,
            action_name@,
            *position,
            parameters@,
            state_of(old(self).progress()),
            values,
            injections,
            handed,
            shown,
        ));
        assert(self.progress() == old(self).progress().acted(shown));
        proof {
            reveal(action_may);
        }
    }

    /// Carries out a step that is no plan of its own.
    fn run_simple(&mut self, step: &Step)
        requires
            old(self).inv(),
            !old(self).progress().failed,
        ensures
            final(self).inv(),
            final(self).plan() == old(self).plan(),
            final(self).step_number() == old(self).step_number(),
            final(self).registry() == old(self).registry(),
            final(self).executor() == old(self).executor(),
            final(self).resources() == old(self).resources(),
            final(self).reliable() == old(self).reliable(),
            final(self).cached() == old(self).cached(),
            final(self).cache_keeps() == old(self).cache_keeps(),
            simple_may(
                step@,
                old(self).executor(),
                old(self).resources(),
                old(self).reliable(),
                old(self).progress(),
                final(self).progress(),
            ),
    {
        let ghost executor = self.executor();
        let ghost resources = self.resources();
        let ghost reliable = self.reliable();
        let ghost before = self.progress();
        match step {
            Step::GetResource(key) => {
                let outcome = self.store.get(key);
                let ghost answer = fetched_view(outcome);
                self.evaluation.fetched(key, outcome);
                proof {
                    assert(may_fetch(resources, reliable, key@, answer));
                    lemma_fetch_step(
                        executor,
                        resources,
                        reliable,
                        key@,
                        answer,
                        before,
                        self.progress(),
                    );
                }
            },
            Step::GetResourceMetadata(key) => {
                let outcome = self.store.get_metadata(key);
                let ghost answer = fetched_metadata_view(outcome);
                self.evaluation.fetched_metadata(outcome);
                proof {
                    assert(may_fetch_metadata(resources, reliable, key@, answer));
                    lemma_fetch_metadata_step(
                        executor,
                        resources,
                        reliable,
                        key@,
                        answer,
                        before,
                        self.progress(),
                    );
                }
            },
            Step::Action { realm, ns, action_name, position, parameters } => {
                self.act(realm.as_str(), ns.as_str(), action_name.as_str(), position, parameters);
                proof {
                    lemma_action_step(
                        executor,
                        resources,
                        reliable,
                        step@,
                        before,
                        self.progress(),
                    );
                }
            },
            Step::Plan(_) => {
                self.evaluation.fail("A planned query holds no plans");
                proof {
                    lemma_note_step(executor, resources, reliable, step@, before, self.progress());
                }
            },
            Step::Evaluate(_) => {
                self.evaluation.fail("A planned query holds no plans");
                proof {
                    lemma_note_step(executor, resources, reliable, step@, before, self.progress());
                }
            },
            _ => {
                self.evaluation.noted(step);
                proof {
                    lemma_note_step(executor, resources, reliable, step@, before, self.progress());
                }
            },
        }
    }

    /// Carries out the steps of a planned query, up to the first that
    /// fails.
    fn run_flat(&mut self, steps: &Vec<Step>)
        requires
            old(self).inv(),
        ensures
            final(self).inv(),
            final(self).plan() == old(self).plan(),
            final(self).step_number() == old(self).step_number(),
            final(self).registry() == old(self).registry(),
            final(self).executor() == old(self).executor(),
            final(self).resources() == old(self).resources(),
            final(self).reliable() == old(self).reliable(),
            final(self).cached() == old(self).cached(),
            final(self).cache_keeps() == old(self).cache_keeps(),
            flat_runs_to(
                steps_view(steps@),
                old(self).executor(),
                old(self).resources(),
                old(self).reliable(),
                old(self).progress(),
                final(self).progress(),
            ),
    {
        let ghost all = steps_view(steps@);
        let ghost executor = self.executor();
        let ghost resources = self.resources();
        let ghost reliable = self.reliable();
        let ghost mut trace: Seq<Progress> = seq![self.progress()];
        proof {
            lemma_flat_course_first(executor, resources, reliable, self.progress());
            assert(all.take(0) =~= Seq::empty());
        }
        let mut i: usize = 0;
        while i < steps.len() && !self.evaluation.failed
            invariant
                i <= steps.len(),
                self.inv(),
                self.plan() == old(self).plan(),
                self.step_number() == old(self).step_number(),
                self.registry() == old(self).registry(),
                self.executor() == old(self).executor(),
                self.resources() == old(self).resources(),
                self.reliable() == old(self).reliable(),
                self.cached() == old(self).cached(),
                self.cache_keeps() == old(self).cache_keeps(),
                all == steps_view(steps@),
                executor == old(self).executor(),
                resources == old(self).resources(),
                reliable == old(self).reliable(),
                trace.len() == i + 1,
                trace[0] == old(self).progress(),
                trace.last() == self.progress(),
                is_flat_course(all.take(i as int), executor, resources, reliable, trace),
            decreases steps.len() - i,
        {
            assert(all[i as int] == steps@[i as int]@);
            self.run_simple(&steps[i]);
            proof {
                lemma_flat_course_next(
                    all.take(i as int),
                    executor,
                    resources,
                    reliable,
                    trace,
                    all[i as int],
                    self.progress(),
                );
                assert(all.take(i as int).push(all[i as int]) =~= all.take(i + 1));
                trace = trace.push(self.progress());
            }
            i += 1;
        }
        proof {
            lemma_flat_course_runs(all, executor, resources, reliable, trace, i as int);
        }
    }

    /// Carries out one step, whatever it is.
    fn run_step(&mut self, step: &Step)
        requires
            old(self).inv(),
            !old(self).progress().failed,
        ensures
            final(self).inv(),
            final(self).plan() == old(self).plan(),
            final(self).step_number() == old(self).step_number(),
            final(self).registry() == old(self).registry(),
            final(self).executor() == old(self).executor(),
            final(self).resources() == old(self).resources(),
            final(self).reliable() == old(self).reliable(),
            final(self).cached() == old(self).cached(),
            final(self).cache_keeps() == old(self).cache_keeps(),
            step_may(
                step@,
                old(self).registry(),
                old(self).executor(),
                old(self).resources(),
                old(self).reliable(),
                old(self).progress(),
                final(self).progress(),
            ),
        decreases step,
    {
        let ghost registry = self.registry();
        let ghost executor = self.executor();
        let ghost resources = self.resources();
        let ghost reliable = self.reliable();
        let ghost before = self.progress();
        match step {
            Step::Plan(sub) => {
                assert(step@ == StepView::Plan(sub@));
                let _ = self.run_steps(&sub.steps);
                proof {
                    lemma_plan_step(
                        sub@,
                        registry,
                        executor,
                        resources,
                        reliable,
                        before,
                        self.progress(),
                    );
                }
            },
            Step::Evaluate(query) => {
                assert(step@ == StepView::Evaluate(query@));
                match make_plan(query, &self.command_metadata_registry) {
                    Ok(plan) => {
                        self.run_flat(&plan.steps);
                    },
                    Err(e) => {
                        let text = e.to_string();
                        self.evaluation.fail(text.as_str());
                    },
                }
                proof {
                    lemma_query_step(
                        query@,
                        registry,
                        executor,
                        resources,
                        reliable,
                        before,
                        self.progress(),
                    );
                }
            },
            simple => {
                assert(!(simple@ is Plan) && !(simple@ is Evaluate));
                self.run_simple(simple);
                proof {
                    lemma_simple_step(
                        step@,
                        registry,
                        executor,
                        resources,
                        reliable,
                        before,
                        self.progress(),
                    );
                }
            },
        }
    }

    /// Carries out `steps` in order, up to the first that fails, and says
    /// how many were carried out.
    fn run_steps(&mut self, steps: &Vec<Step>) -> (done: usize)
        requires
            old(self).inv(),
        ensures
            final(self).inv(),
            final(self).plan() == old(self).plan(),
            final(self).step_number() == old(self).step_number(),
            final(self).registry() == old(self).registry(),
            final(self).executor() == old(self).executor(),
            final(self).resources() == old(self).resources(),
            final(self).reliable() == old(self).reliable(),
            final(self).cached() == old(self).cached(),
            final(self).cache_keeps() == old(self).cache_keeps(),
            done <= steps.len(),
            final(self).progress().failed || done == steps.len(),
            runs_to(
                steps_view(steps@),
                old(self).registry(),
                old(self).executor(),
                old(self).resources(),
                old(self).reliable(),
                old(self).progress(),
                final(self).progress(),
            ),
        decreases steps,
    {
        let ghost all = steps_view(steps@);
        let ghost registry = self.registry();
        let ghost executor = self.executor();
        let ghost resources = self.resources();
        let ghost reliable = self.reliable();
        let ghost mut trace: Seq<Progress> = seq![self.progress()];
        proof {
            lemma_course_first(registry, executor, resources, reliable, self.progress());
            assert(all.take(0) =~= Seq::empty());
        }
        let mut i: usize = 0;
        while i < steps.len() && !self.evaluation.failed
            invariant
                i <= steps.len(),
                self.inv(),
                self.plan() == old(self).plan(),
                self.step_number() == old(self).step_number(),
                self.registry() == old(self).registry(),
                self.executor() == old(self).executor(),
                self.resources() == old(self).resources(),
                self.reliable() == old(self).reliable(),
                self.cached() == old(self).cached(),
                self.cache_keeps() == old(self).cache_keeps(),
                all == steps_view(steps@),
                registry == old(self).registry(),
                executor == old(self).executor(),
                resources == old(self).resources(),
                reliable == old(self).reliable(),
                trace.len() == i + 1,
                trace[0] == old(self).progress(),
                trace.last() == self.progress(),
                is_course(all.take(i as int), registry, executor, resources, reliable, trace),
            decreases steps.len() - i,
        {
            assert(all[i as int] == steps@[i as int]@);
            self.run_step(&steps[i]);
            proof {
                lemma_course_next(
                    all.take(i as int),
                    registry,
                    executor,
                    resources,
                    reliable,
                    trace,
                    all[i as int],
                    self.progress(),
                );
                assert(all.take(i as int).push(all[i as int]) =~= all.take(i + 1));
                trace = trace.push(self.progress());
            }
            i += 1;
        }
        proof {
            lemma_course_cut(all, registry, executor, resources, reliable, trace, i as int);
            lemma_course_runs(all, registry, executor, resources, reliable, trace);
        }
        i
    }
}

// ---------------------------------------------------------------------------
// Evaluation
// ---------------------------------------------------------------------------
/// The format in which a value with the record `m` is kept in a cache:
/// text as `txt`, bytes as `b`. Values of other kinds are not kept.
pub open spec fn cache_format(m: MetadataRecordView) -> Option<Seq<char>> {
    if m.type_identifier == "text"@ {
        Some("txt"@)
    } else if m.type_identifier == "bytes"@ {
        Some("b"@)
    } else {
        None
    }
}

/// The state that a cache holds for the key `key`, where it holds the
/// bytes of a value that can be read back.
pub open spec fn cached_state(contents: Map<Seq<char>, CacheEntryView>, key: Seq<char>) -> Option<
    StateView,
> {
    if contents.contains_key(key) && contents[key].binary is Some {
        match cache_format(record_of(contents[key].metadata)) {
            Some(format) => match deserialized(contents[key].binary->0, format) {
                Some(value) => Some(StateView { data: value, metadata: contents[key].metadata }),
                None => None,
            },
            None => None,
        }
    } else {
        None
    }
}

/// What is kept in a cache of the outcome `p` of an evaluation: the bytes
/// of the value with the record, where nothing has failed and the value is
/// of a kind that is kept.
pub open spec fn cache_entry(p: Progress) -> Option<CacheEntryView> {
    if p.failed {
        None
    } else {
        match cache_format(p.metadata) {
            Some(format) => match crate::value::serialized(p.data, format) {
                Some(bytes) => Some(
                    CacheEntryView {
                        metadata: MetadataView::MetadataRecord(p.metadata),
                        binary: Some(bytes),
                    },
                ),
                None => None,
            },
            None => None,
        }
    }
}

fn format_for_cache(m: &MetadataRecord) -> (r: Option<String>)
    ensures
        match r {
            Some(f) => cache_format(m@) == Some(f@),
            None => cache_format(m@) is None,
        },
{
    if same_text(m.type_identifier.as_str(), "text") {
        Some(String::from_str("txt"))
    } else if same_text(m.type_identifier.as_str(), "bytes") {
        Some(String::from_str("b"))
    } else {
        None
    }
}

/// What a cache holds after the outcome `p` of an evaluation was handed
/// to it: the outcome under its query, where the cache keeps what it is
/// given and the outcome is of a kind that is kept.
pub open spec fn kept(contents: Map<Seq<char>, CacheEntryView>, keeps: bool, p: Progress) -> Map<
    Seq<char>,
    CacheEntryView,
> {
    if keeps {
        match (
            cache_entry(p),
            crate::cache::cache_key(MetadataView::MetadataRecord(p.metadata)),
        ) {
            (Some(entry), Ok(key)) => contents.insert(key, entry),
            _ => contents,
        }
    } else {
        contents
    }
}

/// Whether the evaluation of the text `text` may give `state` and leave
/// `cached_after` in the cache. A text that is no query gives a failed
/// state. Where the cache holds a value for the query that can be read
/// back, that is the state. Else the query is planned: a query without a
/// plan gives a failed state, and the steps of the plan lead from the
/// state that holds the query alone to the one that is handed out, and
/// handed to the cache.
pub open spec fn evaluates_to<I: Environment, CE: CommandExecutor<I>>(
    text: Seq<char>,
    registry: Seq<CommandMetadataView>,
    executor: CE,
    resources: Map<Seq<Seq<char>>, StoreEntryView>,
    reliable: bool,
    cached: Map<Seq<char>, CacheEntryView>,
    keeps: bool,
    state: StateView,
    cached_after: Map<Seq<char>, CacheEntryView>,
) -> bool {
    match parse_result(text) {
        Err(e) => state == state_of(
            Progress::begun(QueryView { segments: Seq::empty(), absolute: false }).fail(e.text()),
        ) && cached_after == cached,
        Ok(q) => match cached_state(cached, encode_query(q)) {
            Some(held) => state == held && cached_after == cached,
            None => match planned(q, registry) {
                Err(e) => state == state_of(Progress::begun(q).fail(e.text())) && cached_after
                    == cached,
                Ok(plan) => exists|reached: Progress| #[trigger]
                    runs_to(
                        plan.steps,
                        registry,
                        executor,
                        resources,
                        reliable,
                        Progress::begun(q),
                        reached,
                    )
                        && state
                        == state_of(reached.finished()) && cached_after == kept(
                        cached,
                        keeps,
                        reached.finished(),
                    ),
            },
        },
    }
}

/// The steps of a plan that are left after `done` of them.
pub open spec fn steps_left(plan: Option<PlanView>, done: nat) -> Seq<StepView> {
    match plan {
        Some(plan) => plan.rest(done),
        None => Seq::empty(),
    }
}

pub open spec fn failed_error(p: Progress) -> ErrorView {
    plain_error(ErrorType::General, p.metadata.message)
}

impl<I: Environment, CE: CommandExecutor<I>, S: Store, C: BinCache> PlanInterpreter<I, CE, S, C> {
    /// Carries out the next step of the plan. There must be a plan with a
    /// step left, and no step must have failed; else nothing is done. A
    /// step that fails is recorded, and its message comes back as the
    /// error. An action is carried out by the executor, on the state so
    /// far and with the parameters of the step. Once the last step of the
    /// plan has succeeded, the outcome is marked as ready.
    pub fn step(&mut self) -> (r: Result<(), Error>)
        requires
            old(self).inv(),
        ensures
            final(self).inv(),
            final(self).plan() == old(self).plan(),
            final(self).registry() == old(self).registry(),
            final(self).executor() == old(self).executor(),
            final(self).resources() == old(self).resources(),
            final(self).reliable() == old(self).reliable(),
            final(self).cached() == old(self).cached(),
            final(self).cache_keeps() == old(self).cache_keeps(),
            match old(self).plan() {
                None => r is Err && r->Err_0@ == no_plan_error()
                    && final(self).progress() == old(self).progress()
                    && final(self).step_number() == old(self).step_number()
                    && final(self).injection() == old(self).injection(),
                Some(plan) => if old(self).progress().failed {
                    r is Err && r->Err_0@ == failed_error(old(self).progress())
                        && final(self).progress() == old(self).progress()
                        && final(self).step_number() == old(self).step_number()
                        && final(self).injection() == old(self).injection()
                } else if old(self).step_number() >= plan.steps.len() {
                    r is Err && r->Err_0@ == no_more_steps_error()
                        && final(self).progress() == old(self).progress()
                        && final(self).step_number() == old(self).step_number()
                        && final(self).injection() == old(self).injection()
                } else {
                    &&& final(self).step_number() == old(self).step_number() + 1
                    &&& r is Err <==> final(self).progress().failed
                    &&& r is Err ==> r->Err_0@ == failed_error(final(self).progress())
                    &&& exists|reached: Progress| #[trigger]
                        step_may(
                            plan.steps[old(self).step_number() as int],
                            old(self).registry(),
                            old(self).executor(),
                            old(self).resources(),
                            old(self).reliable(),
                            old(self).progress(),
                            reached,
                        ) && final(self).progress() == reached.settled(
                            old(self).step_number() + 1 == plan.steps.len(),
                        )
                    &&& r is Ok && old(self).step_number() + 1 == plan.steps.len()
                        ==> final(self).progress().metadata.status == Status::Ready
                },
            },
    {
        let (step, last) = match &self.plan {
            None => {
                return Err(Error::general_error(String::from_str("No plan")));
            },
            Some(plan) => {
                if self.evaluation.failed {
                    return Err(Error::general_error(self.evaluation.metadata.message.clone()));
                }
                if self.step_number >= plan.steps.len() {
                    return Err(Error::general_error(String::from_str("No more steps")));
                }
                assert(plan@.steps[self.step_number as int]
                    == plan.steps@[self.step_number as int]@);
                (plan.steps[self.step_number].clone(), self.step_number + 1 == plan.steps.len())
            },
        };
        self.run_step(&step);
        let ghost reached = self.progress();
        self.step_number += 1;
        if last {
            self.evaluation.finish();
        }
        assert(self.progress() == reached.settled(last));
        if self.evaluation.failed {
            Err(Error::general_error(self.evaluation.metadata.message.clone()))
        } else {
            Ok(())
        }
    }

    /// Carries out the steps of the plan that are left, up to the first
    /// that fails, and ends the evaluation. The state that comes back is
    /// what those steps lead to; it is ready where no step has failed, else
    /// it is marked as failed and the last line of its log is the error.
    pub fn run(&mut self) -> (state: State)
        requires
            old(self).inv(),
        ensures
            final(self).inv(),
            final(self).plan() == old(self).plan(),
            final(self).registry() == old(self).registry(),
            final(self).executor() == old(self).executor(),
            final(self).resources() == old(self).resources(),
            final(self).reliable() == old(self).reliable(),
            final(self).cached() == old(self).cached(),
            final(self).cache_keeps() == old(self).cache_keeps(),
            state@ == (StateView {
                data: final(self).progress().data,
                metadata: MetadataView::MetadataRecord(final(self).progress().metadata),
            }),
            exists|reached: Progress| #[trigger]
                runs_to(
                    steps_left(old(self).plan(), old(self).step_number()),
                    old(self).registry(),
                    old(self).executor(),
                    old(self).resources(),
                    old(self).reliable(),
                    old(self).progress(),
                    reached,
                ) && final(self).progress() == reached.finished(),
            old(self).step_number() <= final(self).step_number(),
            final(self).progress().failed
                || final(self).step_number() == old(self).step_number() + steps_left(
                old(self).plan(),
                old(self).step_number(),
            ).len(),
            final(self).progress().failed || final(self).progress().metadata.status
                == Status::Ready,
            final(self).progress().failed ==> final(self).progress().metadata.is_error
                && final(self).progress().metadata.log.len() > 0
                && final(self).progress().metadata.log.last().level
                == LogLevel::Error,
    {
        let rest: Vec<Step> = match &self.plan {
            Some(plan) => plan.steps_from(self.step_number),
            None => Vec::new(),
        };
        let ghost left = steps_left(self.plan(), self.step_number());
        assert(steps_view(rest@) =~= left);
        assert(rest.len() == left.len());
        assert(self.step_number + left.len() <= usize::MAX) by {
            match self.plan {
                Some(plan) => {
                    assert(plan@.steps.len() == plan.steps.len());
                },
                None => {},
            }
        }
        let done = self.run_steps(&rest);
        let ghost reached = self.progress();
        self.step_number += done;
        self.evaluation.finish();
        assert(self.progress() == reached.finished());
        self.evaluation.state()
    }

    /// Evaluates the query that `query` is the text of. Where the cache
    /// holds a value for the query that can be read back, that value comes
    /// back and nothing is carried out. Else the query is planned and the
    /// plan is run, and the outcome is kept in the cache where it is of a
    /// kind that is kept. A text that is no query, and a query that cannot
    /// be planned, give a state that is marked as failed. Where a plan was
    /// run, the interpreter holds the plan and the outcome, which is ready
    /// where no step has failed; else it is marked as failed and the last
    /// line of its log is the error.
    pub fn evaluate(&mut self, query: &str) -> (state: State)
        requires
            old(self).inv(),
        ensures
            final(self).inv(),
            final(self).registry() == old(self).registry(),
            final(self).executor() == old(self).executor(),
            final(self).resources() == old(self).resources(),
            final(self).reliable() == old(self).reliable(),
            evaluates_to(
                query@,
                old(self).registry(),
                old(self).executor(),
                old(self).resources(),
                old(self).reliable(),
                old(self).cached(),
                old(self).cache_keeps(),
                state@,
                final(self).cached(),
            ),
            match parse_result(query@) {
                Ok(q) => match cached_state(old(self).cached(), encode_query(q)) {
                    Some(_) => final(self).progress() == old(self).progress() && final(self).plan()
                        == old(self).plan() && final(self).injection() == old(self).injection(),
                    None => match planned(q, old(self).registry()) {
                        Ok(plan) => {
                            &&& final(self).plan() == Some(plan)
                            &&& state@ == state_of(final(self).progress())
                            &&& final(self).progress().failed
                                || final(self).progress().metadata.status == Status::Ready
                            &&& final(self).progress().failed
                                ==> final(self).progress().metadata.is_error
                                && final(self).progress().metadata.log.len() > 0
                                && final(self).progress().metadata.log.last().level
                                == LogLevel::Error
                        },
                        Err(_) => final(self).progress() == old(self).progress()
                            && final(self).plan() == old(self).plan() && final(self).injection()
                            == old(self).injection(),
                    },
                },
                Err(_) => final(self).progress() == old(self).progress() && final(self).plan()
                    == old(self).plan() && final(self).injection() == old(self).injection(),
            },
    {
        let q = match parse_query(query) {
            Ok(q) => q,
            Err(e) => {
                let mut failed = Evaluation::new();
                assert(failed@ == Progress::begun(
                    QueryView { segments: Seq::empty(), absolute: false },
                ));
                let text = e.to_string();
                failed.fail(text.as_str());
                return failed.state();
            },
        };
        match self.lookup(&q) {
            Some(state) => {
                return state;
            },
            None => {},
        }
        let plan = match make_plan(&q, &self.command_metadata_registry) {
            Ok(plan) => plan,
            Err(e) => {
                let mut failed = Evaluation::new();
                failed.metadata.with_query(q);
                assert(failed@ == Progress::begun(q@));
                let text = e.to_string();
                failed.fail(text.as_str());
                return failed.state();
            },
        };
        self.with_plan(plan);
        let ghost registry = self.registry();
        let ghost executor = self.executor();
        let ghost resources = self.resources();
        let ghost reliable = self.reliable();
        let ghost before = self.progress();
        let ghost steps = self.plan()->0.steps;
        assert(steps_left(self.plan(), 0) =~= steps);
        let state = self.run();
        let ghost reached = choose|reached: Progress| #[trigger]
            runs_to(steps, registry, executor, resources, reliable, before, reached)
                && self.progress()
                == reached.finished();
        self.keep();
        assert(planned(q@, old(self).registry())->Ok_0.steps == steps);
        assert(runs_to(steps, registry, executor, resources, reliable, before, reached)
            && state@ == state_of(
            reached.finished(),
        ));
        state
    }

    /// Whether the cache keeps what it is given.
    pub closed spec fn cache_keeps(&self) -> bool {
        self.cache.supported()
    }

    /// The state that the cache holds for `query`.
    fn lookup(&self, query: &Query) -> (r: Option<State>)
        requires
            self.inv(),
        ensures
            match r {
                Some(state) => cached_state(self.cached(), encode_query(query@)) == Some(state@),
                None => cached_state(self.cached(), encode_query(query@)) is None,
            },
    {
        let bytes = match self.cache.get_binary(query) {
            Some(bytes) => bytes,
            None => {
                return None;
            },
        };
        let metadata = match self.cache.get_metadata(query) {
            Some(metadata) => metadata,
            None => {
                return None;
            },
        };
        let record = to_record(&metadata);
        let format = match format_for_cache(&record) {
            Some(format) => format,
            None => {
                return None;
            },
        };
        match Value::deserialize_from_bytes(&bytes, "", format.as_str()) {
            Ok(value) => Some(State { data: Arc::new(value), metadata }),
            Err(_) => None,
        }
    }

    /// Keeps the outcome of the evaluation in the cache.
    fn keep(&mut self)
        requires
            old(self).inv(),
        ensures
            final(self).inv(),
            final(self).plan() == old(self).plan(),
            final(self).step_number() == old(self).step_number(),
            final(self).progress() == old(self).progress(),
            final(self).registry() == old(self).registry(),
            final(self).executor() == old(self).executor(),
            final(self).injection() == old(self).injection(),
            final(self).resources() == old(self).resources(),
            final(self).reliable() == old(self).reliable(),
            final(self).cache_keeps() == old(self).cache_keeps(),
            !old(self).cache_keeps() ==> final(self).cached() == old(self).cached(),
            old(self).cache_keeps() ==> final(self).cached() == match (
                cache_entry(old(self).progress()),
                crate::cache::cache_key(
                    MetadataView::MetadataRecord(old(self).progress().metadata),
                ),
            ) {
                (Some(entry), Ok(key)) => old(self).cached().insert(key, entry),
                _ => old(self).cached(),
            },
    {
        if self.evaluation.failed {
            return ;
        }
        let format = match format_for_cache(&self.evaluation.metadata) {
            Some(format) => format,
            None => {
                return ;
            },
        };
        let bytes = match self.evaluation.data.as_bytes(format.as_str()) {
            Ok(bytes) => bytes,
            Err(_) => {
                return ;
            },
        };
        let metadata = Metadata::MetadataRecord(self.evaluation.metadata.clone());
        let _ = self.cache.set_binary(&bytes, &metadata);
    }
}

} // verus!
