//! The errors of the engine: a kind, a message, and where known the place
//! in the query text and the query itself.
use crate::query::{ActionRequest, Position, Query, encode_query};
use crate::text::{decimal, decimal_string, join, join_strings, texts};
use vstd::prelude::*;
use vstd::string::StringExecFns;

verus! {

#[derive(Debug, Clone, Copy, PartialEq, Eq, Structural)]
pub enum ErrorType {
    ArgumentMissing,
    ActionNotRegistered,
    CommandAlreadyRegistered,
    ParseError,
    ParameterError,
    TooManyParameters,
    ConversionError,
    SerializationError,
    General,
    CacheNotSupported,
    NotSupported,
}

#[derive(Debug)]
pub struct Error {
    pub error_type: ErrorType,
    pub message: String,
    pub position: Position,
    pub query: Option<String>,
}

/// An error as contracts see it.
pub struct ErrorView {
    pub error_type: ErrorType,
    pub message: Seq<char>,
    pub position: Position,
    pub query: Option<Seq<char>>,
}

impl View for Error {
    type V = ErrorView;

    open spec fn view(&self) -> ErrorView {
        ErrorView {
            error_type: self.error_type,
            message: self.message@,
            position: self.position,
            query: match self.query {
                Some(q) => Some(q@),
                None => None,
            },
        }
    }
}

/// An error of the given kind and message, at an unknown place.
pub open spec fn plain_error(error_type: ErrorType, message: Seq<char>) -> ErrorView {
    ErrorView { error_type, message, position: Position::spec_unknown(), query: None }
}

/// An error of the given kind and message at `position`.
pub open spec fn error_at(error_type: ErrorType, message: Seq<char>, position: Position)
    -> ErrorView {
    ErrorView { error_type, message, position, query: None }
}

/// Each text between single quotes.
pub open spec fn quoted(names: Seq<Seq<char>>) -> Seq<Seq<char>> {
    Seq::new(names.len(), |i: int| seq!['\''] + names[i] + seq!['\''])
}

pub open spec fn action_not_registered_message(name: Seq<char>, namespaces: Seq<Seq<char>>) -> Seq<
    char,
> {
    "Action '"@ + name + "' not registered in namespaces "@ + join(quoted(namespaces), ", "@)
}

pub open spec fn missing_argument_message(i: nat, name: Seq<char>) -> Seq<char> {
    "Missing argument #"@ + decimal(i) + ":"@ + name
}

pub open spec fn conversion_message(what: Seq<char>, to: Seq<char>) -> Seq<char> {
    "Can't convert '"@ + what + "' to "@ + to
}

pub open spec fn key_parse_message(key: Seq<char>, err: Seq<char>) -> Seq<char> {
    "Can't parse key '"@ + key + "': "@ + err
}

pub open spec fn query_parse_message(query: Seq<char>, err: Seq<char>) -> Seq<char> {
    "Can't parse query '"@ + query + "': "@ + err
}

impl ErrorView {
    /// What the error shows: the message, and the place where it is known.
    pub open spec fn text(self) -> Seq<char> {
        if self.position.line == 0 {
            self.message
        } else {
            self.message + " at "@ + self.position.text()
        }
    }
}

impl Error {
    pub fn new(error_type: ErrorType, message: String) -> (e: Error)
        ensures
            e@ == plain_error(error_type, message@),
    {
        Error { error_type, message, position: Position::unknown(), query: None }
    }

    pub fn with_position(self, position: &Position) -> (e: Error)
        ensures
            e@ == (ErrorView { position: *position, ..self@ }),
    {
        Error {
            error_type: self.error_type,
            message: self.message,
            position: *position,
            query: self.query,
        }
    }

    pub fn with_query(self, query: &Query) -> (e: Error)
        ensures
            e@ == (ErrorView { query: Some(encode_query(query@)), ..self@ }),
    {
        Error {
            error_type: self.error_type,
            message: self.message,
            position: self.position,
            query: Some(query.encode()),
        }
    }

    pub fn cache_not_supported() -> (e: Error)
        ensures
            e@ == plain_error(ErrorType::CacheNotSupported, "Cache not supported"@),
    {
        Error::new(ErrorType::CacheNotSupported, String::from_str("Cache not supported"))
    }

    pub fn not_supported(message: String) -> (e: Error)
        ensures
            e@ == plain_error(ErrorType::NotSupported, message@),
    {
        Error::new(ErrorType::NotSupported, message)
    }

    pub fn action_not_registered(action: &ActionRequest, namespaces: &Vec<String>) -> (e: Error)
        ensures
            e@ == error_at(
                ErrorType::ActionNotRegistered,
                action_not_registered_message(action@.name, texts(namespaces@)),
                action@.position,
            ),
    {
        let mut shown: Vec<String> = Vec::new();
        let mut i: usize = 0;
        while i < namespaces.len()
            invariant
                i <= namespaces.len(),
                shown.len() == i,
                forall|j: int|
                    0 <= j < i ==> shown@[j]@ == seq!['\''] + namespaces@[j]@ + seq!['\''],
            decreases namespaces.len() - i,
        {
            let mut q = String::new();
            q.push('\'');
            q.append(namespaces[i].as_str());
            q.push('\'');
            assert(q@ =~= seq!['\''] + namespaces@[i as int]@ + seq!['\'']);
            shown.push(q);
            i += 1;
        }
        assert(texts(shown@) =~= quoted(texts(namespaces@)));
        let list = join_strings(&shown, ", ");
        let message = String::from_str("Action '").concat(action.name.as_str()).concat(
            "' not registered in namespaces ",
        ).concat(list.as_str());
        Error {
            error_type: ErrorType::ActionNotRegistered,
            message,
            position: action.position,
            query: None,
        }
    }

    pub fn missing_argument(i: usize, name: &str, position: &Position) -> (e: Error)
        ensures
            e@ == error_at(
                ErrorType::ArgumentMissing,
                missing_argument_message(i as nat, name@),
                *position,
            ),
    {
        let number = decimal_string(i as u64);
        let message = String::from_str("Missing argument #").concat(number.as_str()).concat(
            ":",
        ).concat(name);
        Error { error_type: ErrorType::ArgumentMissing, message, position: *position, query: None }
    }

    pub fn conversion_error(what: &str, to: &str) -> (e: Error)
        ensures
            e@ == plain_error(ErrorType::ConversionError, conversion_message(what@, to@)),
    {
        let message = String::from_str("Can't convert '").concat(what).concat("' to ").concat(to);
        Error::new(ErrorType::ConversionError, message)
    }

    pub fn conversion_error_at_position(what: &str, to: &str, position: &Position) -> (e: Error)
        ensures
            e@ == error_at(ErrorType::ConversionError, conversion_message(what@, to@), *position),
    {
        Error::conversion_error(what, to).with_position(position)
    }

    pub fn key_parse_error(key: &str, err: &str, position: &Position) -> (e: Error)
        ensures
            e@ == error_at(ErrorType::ParseError, key_parse_message(key@, err@), *position),
    {
        let message = String::from_str("Can't parse key '").concat(key).concat("': ").concat(err);
        Error { error_type: ErrorType::ParseError, message, position: *position, query: None }
    }

    pub fn query_parse_error(query: &str, err: &str, position: &Position) -> (e: Error)
        ensures
            e@ == error_at(ErrorType::ParseError, query_parse_message(query@, err@), *position),
    {
        let message = String::from_str("Can't parse query '").concat(query).concat("': ").concat(
            err,
        );
        Error { error_type: ErrorType::ParseError, message, position: *position, query: None }
    }

    pub fn general_error(message: String) -> (e: Error)
        ensures
            e@ == plain_error(ErrorType::General, message@),
    {
        Error::new(ErrorType::General, message)
    }

    /// The message, followed by the place where that is known.
    pub fn to_string(&self) -> (s: String)
        ensures
            s@ == self@.text(),
    {
        if self.position.is_unknown() {
            self.message.clone()
        } else {
            let place = self.position.to_string();
            self.message.clone().concat(" at ").concat(place.as_str())
        }
    }
}

impl Clone for Error {
    fn clone(&self) -> (e: Error)
        ensures
            e@ == self@,
    {
        Error {
            error_type: self.error_type,
            message: self.message.clone(),
            position: self.position,
            query: match &self.query {
                Some(q) => Some(q.clone()),
                None => None,
            },
        }
    }
}

} // verus!
