//! The state of an evaluation: a value and what is recorded about it.
use crate::error::Error;
use crate::metadata::{Metadata, MetadataRecord, MetadataRecordView, MetadataView};
use crate::parse::{parse_query, parse_result};
use crate::value::{Value, ValueView};
use std::sync::Arc;
use vstd::prelude::*;
use vstd::string::StringExecFns;

verus! {

/// A value with its metadata. Both are shared and never change; a new
/// state is made in place of a changed one.
#[derive(Debug)]
pub struct State {
    pub data: Arc<Value>,
    pub metadata: Arc<Metadata>,
}

pub struct StateView {
    pub data: ValueView,
    pub metadata: MetadataView,
}

impl View for State {
    type V = StateView;

    open spec fn view(&self) -> StateView {
        StateView { data: (*self.data)@, metadata: (*self.metadata)@ }
    }
}

impl StateView {
    /// The state that holds nothing.
    pub open spec fn empty() -> StateView {
        StateView {
            data: ValueView::Empty,
            metadata: MetadataView::MetadataRecord(MetadataRecordView::empty()),
        }
    }
}

impl Clone for State {
    fn clone(&self) -> (r: State)
        ensures
            r@ == self@,
    {
        State { data: Arc::new((*self.data).clone()), metadata: Arc::new((*self.metadata).clone()) }
    }
}

impl State {
    /// The state that holds nothing.
    pub fn new() -> (s: State)
        ensures
            s@ == StateView::empty(),
    {
        State { data: Arc::new(Value::Empty), metadata: Arc::new(Metadata::new()) }
    }

    /// The empty state of the query that `query` is the text of.
    pub fn from_query(query: &str) -> (r: Result<State, Error>)
        ensures
            match r {
                Ok(s) => parse_result(query@) is Ok && s@ == (StateView {
                    data: ValueView::Empty,
                    metadata: MetadataView::MetadataRecord(
                        MetadataRecordView {
                            query: parse_result(query@)->Ok_0,
                            ..MetadataRecordView::empty()
                        },
                    ),
                }),
                Err(e) => parse_result(query@) == Err::<
                    crate::query::QueryView,
                    crate::error::ErrorView,
                >(e@),
            },
    {
        match parse_query(query) {
            Ok(q) => {
                let mut record = MetadataRecord::new();
                record.with_query(q);
                Ok(
                    State {
                        data: Arc::new(Value::Empty),
                        metadata: Arc::new(Metadata::MetadataRecord(record)),
                    },
                )
            },
            Err(e) => Err(e),
        }
    }

    /// The state with the same value and the metadata `metadata`.
    pub fn with_metadata(&self, metadata: Metadata) -> (s: State)
        ensures
            s@ == (StateView { data: self@.data, metadata: metadata@ }),
    {
        State { data: Arc::new((*self.data).clone()), metadata: Arc::new(metadata) }
    }

    /// The state with the same metadata and the value `value`.
    pub fn with_data(&self, value: Value) -> (s: State)
        ensures
            s@ == (StateView { data: value@, metadata: self@.metadata }),
    {
        State { data: Arc::new(value), metadata: Arc::new((*self.metadata).clone()) }
    }

    /// The state whose value is the text `text`. A record gets the type
    /// identifier of text.
    pub fn with_string(&self, text: &str) -> (s: State)
        ensures
            s@ == (StateView {
                data: ValueView::Text(text@),
                metadata: match self@.metadata {
                    MetadataView::MetadataRecord(m) => MetadataView::MetadataRecord(
                        MetadataRecordView { type_identifier: "text"@, ..m },
                    ),
                    legacy => legacy,
                },
            }),
    {
        let metadata = match &*self.metadata {
            Metadata::MetadataRecord(m) => {
                let mut record = m.clone();
                record.with_type_identifier(String::from_str("text"));
                Metadata::MetadataRecord(record)
            },
            Metadata::LegacyMetadata(v) => Metadata::LegacyMetadata(v.clone()),
        };
        State { data: Arc::new(Value::Text(text.to_owned())), metadata: Arc::new(metadata) }
    }

    /// The key under which a cache keeps the state: the text of its query.
    pub fn cache_key(&self) -> (key: Option<String>)
        ensures
            match key {
                Some(text) => self@.metadata.query_text() == Some(text@),
                None => self@.metadata.query_text() is None,
            },
    {
        (*self.metadata).query_text()
    }

    /// Whether the state holds no value.
    pub fn is_empty(&self) -> (r: bool)
        ensures
            r == (self@.data is Empty),
    {
        match &*self.data {
            Value::Empty => true,
            _ => false,
        }
    }
}

impl Default for State {
    fn default() -> (s: State)
        ensures
            s@ == StateView::empty(),
    {
        State::new()
    }
}

} // verus!
