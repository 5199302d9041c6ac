//! What stands around an evaluation: the record of the request, which a
//! command logs to and names the result in, and the store and commands
//! of the host.
use crate::command_metadata::{CommandKeyView, CommandMetadataRegistry, CommandMetadataView};
use crate::commands::{Command, CommandRegistry};
use crate::error::{Error, ErrorView};
use crate::interpreter::{Environment, no_environment_error};
use crate::metadata::{LogLevel, MetadataRecord, MetadataRecordView};
use crate::query::{Query, QueryView};
use crate::state::{State, StateView};
use crate::store::{NoStore, Store};
use vstd::prelude::*;
use vstd::string::StringExecFns;

verus! {

/// The record of one request.
#[derive(Debug)]
pub struct Context {
    metadata: MetadataRecord,
}

impl View for Context {
    type V = MetadataRecordView;

    closed spec fn view(&self) -> MetadataRecordView {
        self.metadata@
    }
}

impl Context {
    /// A context with an empty record.
    pub fn new() -> (c: Context)
        ensures
            c@ == MetadataRecordView::empty(),
    {
        Context { metadata: MetadataRecord::new() }
    }

    /// The record as it stands.
    pub fn get_metadata(&self) -> (m: MetadataRecord)
        ensures
            m@ == self@,
    {
        self.metadata.clone()
    }

    /// Names the result; the media type follows the extension where it is
    /// known.
    pub fn set_filename(&mut self, filename: String)
        ensures
            final(self)@ == old(self)@.named(filename@),
    {
        self.metadata.with_filename(filename);
    }

    pub fn debug(&mut self, message: &str)
        ensures
            final(self)@ == old(self)@.logged(LogLevel::Debug, message@),
    {
        self.metadata.debug(message);
    }

    pub fn info(&mut self, message: &str)
        ensures
            final(self)@ == old(self)@.logged(LogLevel::Info, message@),
    {
        self.metadata.info(message);
    }

    pub fn warning(&mut self, message: &str)
        ensures
            final(self)@ == old(self)@.logged(LogLevel::Warning, message@),
    {
        self.metadata.warning(message);
    }

    /// Logs an error, which marks the record as failed.
    pub fn error(&mut self, message: &str)
        ensures
            final(self)@ == old(self)@.logged(LogLevel::Error, message@),
    {
        self.metadata.error(message);
    }

    /// Begins afresh with an empty record.
    pub fn reset(&mut self)
        ensures
            final(self)@ == MetadataRecordView::empty(),
    {
        self.metadata = MetadataRecord::new();
    }
}

impl Clone for Context {
    fn clone(&self) -> (c: Context)
        ensures
            c@ == self@,
    {
        Context { metadata: self.metadata.clone() }
    }
}

/// The record of one request together with the store that the request
/// reads from.
pub struct ActionContext<S> {
    metadata: MetadataRecord,
    store: S,
}

impl<S: Store> ActionContext<S> {
    /// The record of the request.
    pub closed spec fn record(&self) -> MetadataRecordView {
        self.metadata@
    }

    /// The store of the request.
    pub closed spec fn store(&self) -> S {
        self.store
    }

    pub fn new(metadata: MetadataRecord, store: S) -> (c: Self)
        ensures
            c.record() == metadata@,
            c.store() == store,
    {
        ActionContext { metadata, store }
    }

    pub fn get_metadata(&self) -> (m: MetadataRecord)
        ensures
            m@ == self.record(),
    {
        self.metadata.clone()
    }

    pub fn get_store(&self) -> (s: &S)
        ensures
            *s == self.store(),
    {
        &self.store
    }

    pub fn set_filename(&mut self, filename: String)
        ensures
            final(self).record() == old(self).record().named(filename@),
            final(self).store() == old(self).store(),
    {
        self.metadata.with_filename(filename);
    }

    pub fn debug(&mut self, message: &str)
        ensures
            final(self).record() == old(self).record().logged(LogLevel::Debug, message@),
            final(self).store() == old(self).store(),
    {
        self.metadata.debug(message);
    }

    pub fn info(&mut self, message: &str)
        ensures
            final(self).record() == old(self).record().logged(LogLevel::Info, message@),
            final(self).store() == old(self).store(),
    {
        self.metadata.info(message);
    }

    pub fn warning(&mut self, message: &str)
        ensures
            final(self).record() == old(self).record().logged(LogLevel::Warning, message@),
            final(self).store() == old(self).store(),
    {
        self.metadata.warning(message);
    }

    pub fn error(&mut self, message: &str)
        ensures
            final(self).record() == old(self).record().logged(LogLevel::Error, message@),
            final(self).store() == old(self).store(),
    {
        self.metadata.error(message);
    }

    pub fn reset(&mut self)
        ensures
            final(self).record() == MetadataRecordView::empty(),
            final(self).store() == old(self).store(),
    {
        self.metadata = MetadataRecord::new();
    }
}

/// The store and the commands of a host in one place. `I` is what the
/// commands are handed when they are carried out.
pub struct SimpleEnvironment<S, I, C> {
    store: S,
    command_registry: CommandRegistry<I, C>,
}

impl<I, C: Command<I>> SimpleEnvironment<NoStore, I, C> {
    /// An environment without a store and without commands.
    pub fn new() -> (e: Self)
        ensures
            e.executor().inv(),
            e.executor().keys() == Seq::<CommandKeyView>::empty(),
            e.executor().metadata() == Seq::<CommandMetadataView>::empty(),
    {
        SimpleEnvironment { store: NoStore, command_registry: CommandRegistry::new() }
    }
}

impl<S: Store, I, C: Command<I>> SimpleEnvironment<S, I, C> {
    /// The commands of the environment.
    pub closed spec fn executor(&self) -> CommandRegistry<I, C> {
        self.command_registry
    }

    /// The store of the environment.
    pub closed spec fn store(&self) -> S {
        self.store
    }

    /// The environment with `store` in the place of its store.
    pub fn with_store<T: Store>(self, store: T) -> (e: SimpleEnvironment<T, I, C>)
        ensures
            e.store() == store,
            e.executor() == self.executor(),
    {
        SimpleEnvironment { store, command_registry: self.command_registry }
    }

    /// What is known about the commands.
    pub fn get_command_metadata_registry(&self) -> (r: &CommandMetadataRegistry)
        ensures
            r@ == self.executor().metadata(),
    {
        self.command_registry.metadata_registry()
    }

    /// The commands.
    pub fn get_command_executor(&self) -> (r: &CommandRegistry<I, C>)
        ensures
            *r == self.executor(),
    {
        &self.command_registry
    }

    /// The commands, to register more.
    pub fn get_mut_command_executor(&mut self) -> (r: &mut CommandRegistry<I, C>)
        ensures
            *r == old(self).executor(),
            final(self).executor() == *final(r),
            final(self).store() == old(self).store(),
    {
        &mut self.command_registry
    }

    /// The store.
    pub fn get_store(&self) -> (r: &S)
        ensures
            *r == self.store(),
    {
        &self.store
    }
}

impl<S: Store, I, C: Command<I>> Environment for SimpleEnvironment<S, I, C> {
    /// The environment evaluates no queries of its own.
    open spec fn answers(&self, query: QueryView, outcome: Result<StateView, ErrorView>) -> bool {
        outcome == Err::<StateView, ErrorView>(no_environment_error())
    }

    fn evaluate(&mut self, query: &Query) -> (r: Result<State, Error>)
        ensures
            *final(self) == *old(self),
    {
        Err(Error::not_supported(String::from_str("evaluate not implemented")))
    }
}

} // verus!
