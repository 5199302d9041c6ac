//! What is recorded about a value: its log, the query that made it, its
//! status, filename and media type.
use crate::error::{Error, ErrorType, plain_error};
use crate::parse::{parse_query, parse_result};
use crate::query::{Query, QueryView, encode_query, extension_of};
use crate::text::same_text;
use crate::value::{Value, ValueView, entries_with};
use vstd::prelude::*;
use vstd::string::StringExecFns;

verus! {

/// How far the evaluation of a query has come.
#[derive(Debug, Clone, Copy, PartialEq, Eq, Structural)]
pub enum Status {
    /// Nothing is known yet.
    Unset,
    Submitted,
    EvaluatingParent,
    Evaluation,
    EvaluatingDependencies,
    Error,
    Recipe,
    Ready,
    Expired,
    External,
    SideEffect,
}

impl Default for Status {
    fn default() -> (s: Status)
        ensures
            s == Status::Unset,
    {
        Status::Unset
    }
}

#[derive(Debug, Clone, Copy, PartialEq, Eq, Structural)]
pub enum LogLevel {
    Debug,
    Info,
    Warning,
    Error,
}

/// One line of the log. The engine leaves the timestamp empty; the host
/// that has a clock fills it in.
#[derive(Debug)]
pub struct LogEntry {
    pub level: LogLevel,
    pub message: String,
    pub timestamp: String,
}

pub struct LogEntryView {
    pub level: LogLevel,
    pub message: Seq<char>,
    pub timestamp: Seq<char>,
}

impl View for LogEntry {
    type V = LogEntryView;

    open spec fn view(&self) -> LogEntryView {
        LogEntryView { level: self.level, message: self.message@, timestamp: self.timestamp@ }
    }
}

impl Clone for LogEntry {
    fn clone(&self) -> (r: LogEntry)
        ensures
            r@ == self@,
    {
        LogEntry {
            level: self.level,
            message: self.message.clone(),
            timestamp: self.timestamp.clone(),
        }
    }
}

impl LogEntry {
    pub fn new(level: LogLevel, message: String) -> (e: LogEntry)
        ensures
            e@ == (LogEntryView { level, message: message@, timestamp: Seq::empty() }),
    {
        LogEntry { level, message, timestamp: String::new() }
    }

    pub fn with_timestamp(self, timestamp: String) -> (e: LogEntry)
        ensures
            e@ == (LogEntryView { timestamp: timestamp@, ..self@ }),
    {
        LogEntry { level: self.level, message: self.message, timestamp }
    }
}

pub open spec fn log_view(log: Seq<LogEntry>) -> Seq<LogEntryView> {
    Seq::new(log.len(), |i: int| log[i]@)
}

fn clone_log(log: &Vec<LogEntry>) -> (r: Vec<LogEntry>)
    ensures
        log_view(r@) == log_view(log@),
{
    let mut out: Vec<LogEntry> = Vec::new();
    let mut i: usize = 0;
    while i < log.len()
        invariant
            i <= log.len(),
            out.len() == i,
            forall|j: int| 0 <= j < i ==> out@[j]@ == log@[j]@,
        decreases log.len() - i,
    {
        out.push(log[i].clone());
        i += 1;
    }
    assert(log_view(out@) =~= log_view(log@));
    out
}

/// The media type that goes with a file extension, for the extensions
/// that the engine knows.
pub open spec fn media_type_of(extension: Seq<char>) -> Option<Seq<char>> {
    if extension == "txt"@ {
        Some("text/plain"@)
    } else if extension == "html"@ || extension == "htm"@ {
        Some("text/html"@)
    } else if extension == "json"@ {
        Some("application/json"@)
    } else if extension == "csv"@ {
        Some("text/csv"@)
    } else if extension == "tsv"@ {
        Some("text/tab-separated-values"@)
    } else if extension == "xml"@ {
        Some("application/xml"@)
    } else if extension == "yaml"@ || extension == "yml"@ {
        Some("application/yaml"@)
    } else if extension == "md"@ {
        Some("text/markdown"@)
    } else if extension == "js"@ {
        Some("text/javascript"@)
    } else if extension == "css"@ {
        Some("text/css"@)
    } else if extension == "png"@ {
        Some("image/png"@)
    } else if extension == "jpg"@ || extension == "jpeg"@ {
        Some("image/jpeg"@)
    } else if extension == "gif"@ {
        Some("image/gif"@)
    } else if extension == "svg"@ {
        Some("image/svg+xml"@)
    } else if extension == "pdf"@ {
        Some("application/pdf"@)
    } else if extension == "b"@ {
        Some("application/octet-stream"@)
    } else {
        None
    }
}

/// The media type that goes with a file extension, where it is known.
pub fn media_type_for_extension(extension: &str) -> (r: Option<String>)
    ensures
        match r {
            Some(m) => media_type_of(extension@) == Some(m@),
            None => media_type_of(extension@) is None,
        },
{
    if same_text(extension, "txt") {
        Some(String::from_str("text/plain"))
    } else if same_text(extension, "html") || same_text(extension, "htm") {
        Some(String::from_str("text/html"))
    } else if same_text(extension, "json") {
        Some(String::from_str("application/json"))
    } else if same_text(extension, "csv") {
        Some(String::from_str("text/csv"))
    } else if same_text(extension, "tsv") {
        Some(String::from_str("text/tab-separated-values"))
    } else if same_text(extension, "xml") {
        Some(String::from_str("application/xml"))
    } else if same_text(extension, "yaml") || same_text(extension, "yml") {
        Some(String::from_str("application/yaml"))
    } else if same_text(extension, "md") {
        Some(String::from_str("text/markdown"))
    } else if same_text(extension, "js") {
        Some(String::from_str("text/javascript"))
    } else if same_text(extension, "css") {
        Some(String::from_str("text/css"))
    } else if same_text(extension, "png") {
        Some(String::from_str("image/png"))
    } else if same_text(extension, "jpg") || same_text(extension, "jpeg") {
        Some(String::from_str("image/jpeg"))
    } else if same_text(extension, "gif") {
        Some(String::from_str("image/gif"))
    } else if same_text(extension, "svg") {
        Some(String::from_str("image/svg+xml"))
    } else if same_text(extension, "pdf") {
        Some(String::from_str("application/pdf"))
    } else if same_text(extension, "b") {
        Some(String::from_str("application/octet-stream"))
    } else {
        None
    }
}

/// The record that the engine keeps about a value.
#[derive(Debug)]
pub struct MetadataRecord {
    pub log: Vec<LogEntry>,
    pub query: Query,
    pub status: Status,
    pub type_identifier: String,
    pub message: String,
    pub is_error: bool,
    pub media_type: String,
    pub filename: Option<String>,
}

pub struct MetadataRecordView {
    pub log: Seq<LogEntryView>,
    pub query: QueryView,
    pub status: Status,
    pub type_identifier: Seq<char>,
    pub message: Seq<char>,
    pub is_error: bool,
    pub media_type: Seq<char>,
    pub filename: Option<Seq<char>>,
}

impl View for MetadataRecord {
    type V = MetadataRecordView;

    open spec fn view(&self) -> MetadataRecordView {
        MetadataRecordView {
            log: log_view(self.log@),
            query: self.query@,
            status: self.status,
            type_identifier: self.type_identifier@,
            message: self.message@,
            is_error: self.is_error,
            media_type: self.media_type@,
            filename: match self.filename {
                Some(f) => Some(f@),
                None => None,
            },
        }
    }
}

impl MetadataRecordView {
    /// The record of a request that nothing has happened to yet.
    pub open spec fn empty() -> MetadataRecordView {
        MetadataRecordView {
            log: Seq::empty(),
            query: QueryView { segments: Seq::empty(), absolute: false },
            status: Status::Unset,
            type_identifier: Seq::empty(),
            message: Seq::empty(),
            is_error: false,
            media_type: Seq::empty(),
            filename: None,
        }
    }

    /// The record after one more line of the log. An error also marks the
    /// record as failed, sets its status and becomes its message.
    pub open spec fn logged(self, level: LogLevel, message: Seq<char>) -> MetadataRecordView {
        let log = self.log.push(LogEntryView { level, message, timestamp: Seq::empty() });
        if level == LogLevel::Error {
            MetadataRecordView {
                log,
                is_error: true,
                status: Status::Error,
                message,
                ..self
            }
        } else {
            MetadataRecordView { log, ..self }
        }
    }

    /// The record under a new filename: the media type follows the
    /// extension of the filename where the engine knows the extension.
    pub open spec fn named(self, filename: Seq<char>) -> MetadataRecordView {
        let known = match extension_of(filename) {
            Some(extension) => media_type_of(extension),
            None => None,
        };
        MetadataRecordView {
            filename: Some(filename),
            media_type: match known {
                Some(media_type) => media_type,
                None => self.media_type,
            },
            ..self
        }
    }

    /// The key under which a cache keeps the value.
    pub open spec fn cache_key(self) -> Seq<char> {
        encode_query(self.query)
    }
}

impl Clone for MetadataRecord {
    fn clone(&self) -> (r: MetadataRecord)
        ensures
            r@ == self@,
    {
        MetadataRecord {
            log: clone_log(&self.log),
            query: self.query.clone(),
            status: self.status,
            type_identifier: self.type_identifier.clone(),
            message: self.message.clone(),
            is_error: self.is_error,
            media_type: self.media_type.clone(),
            filename: match &self.filename {
                Some(f) => Some(f.clone()),
                None => None,
            },
        }
    }
}

impl MetadataRecord {
    /// The record of a request that nothing has happened to yet.
    pub fn new() -> (m: MetadataRecord)
        ensures
            m@ == MetadataRecordView::empty(),
    {
        let m = MetadataRecord {
            log: Vec::new(),
            query: Query::new(),
            status: Status::Unset,
            type_identifier: String::new(),
            message: String::new(),
            is_error: false,
            media_type: String::new(),
            filename: None,
        };
        assert(m@.log =~= Seq::empty());
        m
    }

    /// Sets the query that the value comes from.
    pub fn with_query(&mut self, query: Query) -> (r: &mut Self)
        ensures
            r@ == (MetadataRecordView { query: query@, ..old(self)@ }),
            *final(self) == *final(r),
    {
        self.query = query;
        self
    }

    pub fn with_status(&mut self, status: Status) -> (r: &mut Self)
        ensures
            r@ == (MetadataRecordView { status, ..old(self)@ }),
            *final(self) == *final(r),
    {
        self.status = status;
        self
    }

    pub fn with_type_identifier(&mut self, type_identifier: String) -> (r: &mut Self)
        ensures
            r@ == (MetadataRecordView {
                type_identifier: type_identifier@,
                ..old(self)@
            }),
            *final(self) == *final(r),
    {
        self.type_identifier = type_identifier;
        self
    }

    pub fn with_media_type(&mut self, media_type: String) -> (r: &mut Self)
        ensures
            r@ == (MetadataRecordView { media_type: media_type@, ..old(self)@ }),
            *final(self) == *final(r),
    {
        self.media_type = media_type;
        self
    }

    /// Sets the filename, and the media type where the extension of the
    /// filename is one that the engine knows.
    pub fn with_filename(&mut self, filename: String) -> (r: &mut Self)
        ensures
            r@ == old(self)@.named(filename@),
            *final(self) == *final(r),
    {
        let extension = crate::query::file_extension(filename.as_str());
        let known = match extension {
            Some(e) => media_type_for_extension(e.as_str()),
            None => None,
        };
        match known {
            Some(media_type) => {
                self.media_type = media_type;
            },
            None => {},
        }
        self.filename = Some(filename);
        self
    }

    fn log(&mut self, level: LogLevel, message: &str)
        ensures
            final(self)@ == old(self)@.logged(level, message@),
    {
        let ghost before = log_view(self.log@);
        self.log.push(LogEntry::new(level, message.to_owned()));
        assert(log_view(self.log@) =~= before.push(
            LogEntryView { level, message: message@, timestamp: Seq::empty() },
        ));
        match level {
            LogLevel::Error => {
                self.is_error = true;
                self.status = Status::Error;
                self.message = message.to_owned();
            },
            _ => {},
        }
    }

    pub fn debug(&mut self, message: &str) -> (r: &mut Self)
        ensures
            r@ == old(self)@.logged(LogLevel::Debug, message@),
            *final(self) == *final(r),
    {
        self.log(LogLevel::Debug, message);
        self
    }

    pub fn info(&mut self, message: &str) -> (r: &mut Self)
        ensures
            r@ == old(self)@.logged(LogLevel::Info, message@),
            *final(self) == *final(r),
    {
        self.log(LogLevel::Info, message);
        self
    }

    pub fn warning(&mut self, message: &str) -> (r: &mut Self)
        ensures
            r@ == old(self)@.logged(LogLevel::Warning, message@),
            *final(self) == *final(r),
    {
        self.log(LogLevel::Warning, message);
        self
    }

    /// Appends an error to the log and marks the record as failed.
    pub fn error(&mut self, message: &str) -> (r: &mut Self)
        ensures
            r@ == old(self)@.logged(LogLevel::Error, message@),
            *final(self) == *final(r),
    {
        self.log(LogLevel::Error, message);
        self
    }

    /// The key under which a cache keeps the value: the text of the query.
    pub fn cache_key(&self) -> (key: String)
        ensures
            key@ == self@.cache_key(),
    {
        self.query.encode()
    }
}

impl Default for MetadataRecord {
    fn default() -> (m: MetadataRecord)
        ensures
            m@ == MetadataRecordView::empty(),
    {
        MetadataRecord::new()
    }
}

// ---------------------------------------------------------------------------
// Metadata as stores and caches hold it
// ---------------------------------------------------------------------------
/// Metadata is either the record of the engine, or a JSON value of
/// unknown make, of which the engine reads the query and the media type.
#[derive(Debug)]
pub enum Metadata {
    LegacyMetadata(Value),
    MetadataRecord(MetadataRecord),
}

pub enum MetadataView {
    LegacyMetadata(ValueView),
    MetadataRecord(MetadataRecordView),
}

impl View for Metadata {
    type V = MetadataView;

    open spec fn view(&self) -> MetadataView {
        match self {
            Metadata::LegacyMetadata(v) => MetadataView::LegacyMetadata(v@),
            Metadata::MetadataRecord(m) => MetadataView::MetadataRecord(m@),
        }
    }
}

impl Clone for Metadata {
    fn clone(&self) -> (r: Metadata)
        ensures
            r@ == self@,
    {
        match self {
            Metadata::LegacyMetadata(v) => Metadata::LegacyMetadata(v.clone()),
            Metadata::MetadataRecord(m) => Metadata::MetadataRecord(m.clone()),
        }
    }
}

/// The media type of data of which nothing is known.
pub open spec fn unknown_media_type() -> Seq<char> {
    "application/octet-stream"@
}

/// The text under `key` of an object, where there is text under it.
pub open spec fn text_field(v: ValueView, key: Seq<char>) -> Option<Seq<char>> {
    match v.get(key) {
        Some(ValueView::Text(t)) => Some(t),
        _ => None,
    }
}

pub open spec fn query_not_found() -> crate::error::ErrorView {
    plain_error(ErrorType::General, "Query not found"@)
}

pub open spec fn query_not_found_unsupported() -> crate::error::ErrorView {
    plain_error(ErrorType::General, "Query not found in unsupported legacy metadata"@)
}

impl MetadataView {
    /// The media type: that of the record; of a legacy object what stands
    /// under `mimetype` or else under `media_type`; else that of unknown
    /// data.
    pub open spec fn media_type(self) -> Seq<char> {
        match self {
            MetadataView::MetadataRecord(m) => m.media_type,
            MetadataView::LegacyMetadata(v) => match text_field(v, "mimetype"@) {
                Some(t) => t,
                None => match text_field(v, "media_type"@) {
                    Some(t) => t,
                    None => unknown_media_type(),
                },
            },
        }
    }

    /// The text of the query: the encoded query of a record, and what
    /// stands under `query` in a legacy object.
    pub open spec fn query_text(self) -> Option<Seq<char>> {
        match self {
            MetadataView::MetadataRecord(m) => Some(encode_query(m.query)),
            MetadataView::LegacyMetadata(v) => text_field(v, "query"@),
        }
    }

    /// Whether a query can be set: legacy metadata must be an object or
    /// nothing at all.
    pub open spec fn takes_query(self) -> bool {
        match self {
            MetadataView::MetadataRecord(_) => true,
            MetadataView::LegacyMetadata(v) => v is Object || v is Empty,
        }
    }

    /// The metadata with its query set. A legacy object gets the text of
    /// the query under `query`; empty legacy metadata becomes a record.
    pub open spec fn with_query(self, query: QueryView) -> MetadataView {
        match self {
            MetadataView::MetadataRecord(m) => MetadataView::MetadataRecord(
                MetadataRecordView { query, ..m },
            ),
            MetadataView::LegacyMetadata(ValueView::Object(entries)) => {
                MetadataView::LegacyMetadata(
                    ValueView::Object(
                        entries_with(entries, "query"@, ValueView::Text(encode_query(query))),
                    ),
                )
            },
            _ => MetadataView::MetadataRecord(
                MetadataRecordView { query, ..MetadataRecordView::empty() },
            ),
        }
    }
}

impl Metadata {
    /// An empty record.
    pub fn new() -> (m: Metadata)
        ensures
            m@ == MetadataView::MetadataRecord(MetadataRecordView::empty()),
    {
        Metadata::MetadataRecord(MetadataRecord::new())
    }

    /// Sets the query.
    pub fn with_query(self, query: Query) -> (m: Metadata)
        requires
            self@.takes_query(),
        ensures
            m@ == self@.with_query(query@),
    {
        match self {
            Metadata::MetadataRecord(mut record) => {
                record.with_query(query);
                Metadata::MetadataRecord(record)
            },
            Metadata::LegacyMetadata(Value::Object(entries)) => {
                let text = query.encode();
                Metadata::LegacyMetadata(
                    Value::Object(Value::with_entry(entries, "query", Value::Text(text))),
                )
            },
            Metadata::LegacyMetadata(_) => {
                let mut record = MetadataRecord::new();
                record.with_query(query);
                Metadata::MetadataRecord(record)
            },
        }
    }

    /// What was decoded from stored metadata: the record where the strict
    /// reading gave one, else the JSON value of the permissive reading,
    /// else nothing.
    pub fn from_decoded(strict: Option<MetadataRecord>, permissive: Option<Value>) -> (r: Option<
        Metadata,
    >)
        ensures
            match r {
                Some(m) => match strict {
                    Some(record) => m@ == MetadataView::MetadataRecord(record@),
                    None => permissive is Some && m@ == MetadataView::LegacyMetadata(
                        permissive->0@,
                    ),
                },
                None => strict is None && permissive is None,
            },
    {
        match strict {
            Some(record) => Some(Metadata::MetadataRecord(record)),
            None => match permissive {
                Some(value) => Some(Metadata::LegacyMetadata(value)),
                None => None,
            },
        }
    }

    pub fn get_media_type(&self) -> (s: String)
        ensures
            s@ == self@.media_type(),
    {
        match self {
            Metadata::MetadataRecord(m) => m.media_type.clone(),
            Metadata::LegacyMetadata(v) => {
                match v.get("mimetype") {
                    Some(Value::Text(t)) => {
                        return t.clone();
                    },
                    _ => {},
                }
                match v.get("media_type") {
                    Some(Value::Text(t)) => t.clone(),
                    _ => String::from_str("application/octet-stream"),
                }
            },
        }
    }

    /// The query that the metadata names.
    pub fn query(&self) -> (r: Result<Query, Error>)
        ensures
            match self@ {
                MetadataView::MetadataRecord(m) => r is Ok && r->Ok_0@ == m.query,
                MetadataView::LegacyMetadata(v) => match text_field(v, "query"@) {
                    Some(text) => match r {
                        Ok(q) => parse_result(text) == Ok::<QueryView, crate::error::ErrorView>(q@),
                        Err(e) => parse_result(text) == Err::<QueryView, crate::error::ErrorView>(
                            e@,
                        ),
                    },
                    None => r is Err && r->Err_0@ == if v is Object {
                        query_not_found()
                    } else {
                        query_not_found_unsupported()
                    },
                },
            },
    {
        match self {
            Metadata::MetadataRecord(m) => Ok(m.query.clone()),
            Metadata::LegacyMetadata(v) => {
                match v.get("query") {
                    Some(Value::Text(text)) => {
                        return parse_query(text.as_str());
                    },
                    _ => {},
                }
                match v {
                    Value::Object(_) => Err(
                        Error::general_error(String::from_str("Query not found")),
                    ),
                    _ => Err(
                        Error::general_error(
                            String::from_str("Query not found in unsupported legacy metadata"),
                        ),
                    ),
                }
            },
        }
    }

    /// The text of the query that the metadata names: the key under which a
    /// cache keeps the value.
    pub fn query_text(&self) -> (r: Option<String>)
        ensures
            match r {
                Some(text) => self@.query_text() == Some(text@),
                None => self@.query_text() is None,
            },
    {
        match self {
            Metadata::MetadataRecord(m) => Some(m.query.encode()),
            Metadata::LegacyMetadata(v) => match v.get("query") {
                Some(Value::Text(text)) => Some(text.clone()),
                _ => None,
            },
        }
    }
}

impl From<MetadataRecord> for Metadata {
    fn from(m: MetadataRecord) -> (r: Metadata) {
        Metadata::MetadataRecord(m)
    }
}

impl vstd::std_specs::convert::FromSpecImpl<MetadataRecord> for Metadata {
    open spec fn obeys_from_spec() -> bool {
        true
    }

    open spec fn from_spec(m: MetadataRecord) -> Metadata {
        Metadata::MetadataRecord(m)
    }
}

} // verus!
