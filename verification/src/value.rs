//! The values that flow through a pipeline.
use crate::error::{Error, ErrorType, conversion_message, plain_error};
use crate::text::{decimal, decimal_string, join, join_strings, same_text, texts};
use vstd::prelude::*;
use vstd::string::StringExecFns;

verus! {

/// A value of the engine. `Extension` carries a value of a kind that the
/// host defines, as its identifier and its bytes.
#[derive(Debug)]
pub enum Value {
    /// No value at all.
    Empty,
    Bool(bool),
    I32(i32),
    I64(i64),
    Text(String),
    Array(Vec<Value>),
    Object(Vec<(String, Value)>),
    Bytes(Vec<u8>),
    Extension(String, Vec<u8>),
}

pub enum ValueView {
    Empty,
    Bool(bool),
    I32(i32),
    I64(i64),
    Text(Seq<char>),
    Array(Seq<ValueView>),
    Object(Seq<(Seq<char>, ValueView)>),
    Bytes(Seq<u8>),
    Extension(Seq<char>, Seq<u8>),
}

pub open spec fn value_view(v: Value) -> ValueView
    decreases v,
{
    match v {
        Value::Empty => ValueView::Empty,
        Value::Bool(b) => ValueView::Bool(b),
        Value::I32(n) => ValueView::I32(n),
        Value::I64(n) => ValueView::I64(n),
        Value::Text(t) => ValueView::Text(t@),
        Value::Array(items) => ValueView::Array(values_view(items@)),
        Value::Object(entries) => ValueView::Object(entries_view(entries@)),
        Value::Bytes(b) => ValueView::Bytes(b@),
        Value::Extension(identifier, b) => ValueView::Extension(identifier@, b@),
    }
}

pub open spec fn values_view(items: Seq<Value>) -> Seq<ValueView>
    decreases items,
{
    Seq::new(
        items.len(),
        |i: int|
            if 0 <= i < items.len() {
                value_view(items[i])
            } else {
                arbitrary()
            },
    )
}

pub open spec fn entries_view(entries: Seq<(String, Value)>) -> Seq<(Seq<char>, ValueView)>
    decreases entries,
{
    Seq::new(
        entries.len(),
        |i: int|
            if 0 <= i < entries.len() {
                (entries[i].0@, value_view(entries[i].1))
            } else {
                arbitrary()
            },
    )
}

impl View for Value {
    type V = ValueView;

    open spec fn view(&self) -> ValueView {
        value_view(*self)
    }
}

fn clone_value(v: &Value) -> (r: Value)
    ensures
        r@ == v@,
    decreases v,
{
    match v {
        Value::Empty => Value::Empty,
        Value::Bool(b) => Value::Bool(*b),
        Value::I32(n) => Value::I32(*n),
        Value::I64(n) => Value::I64(*n),
        Value::Text(t) => Value::Text(t.clone()),
        Value::Array(items) => Value::Array(clone_values(items)),
        Value::Object(entries) => Value::Object(clone_entries(entries)),
        Value::Bytes(b) => {
            let c = b.clone();
            assert(c@ =~= b@);
            Value::Bytes(c)
        },
        Value::Extension(identifier, b) => {
            let c = b.clone();
            assert(c@ =~= b@);
            Value::Extension(identifier.clone(), c)
        },
    }
}

fn clone_values(items: &Vec<Value>) -> (out: Vec<Value>)
    ensures
        values_view(out@) == values_view(items@),
    decreases items,
{
    let mut out: Vec<Value> = Vec::new();
    let mut i: usize = 0;
    while i < items.len()
        invariant
            i <= items.len(),
            out.len() == i,
            forall|j: int| 0 <= j < i ==> out@[j]@ == items@[j]@,
        decreases items.len() - i,
    {
        out.push(clone_value(&items[i]));
        i += 1;
    }
    assert(values_view(out@) =~= values_view(items@));
    out
}

fn clone_entries(entries: &Vec<(String, Value)>) -> (out: Vec<(String, Value)>)
    ensures
        entries_view(out@) == entries_view(entries@),
    decreases entries,
{
    let mut out: Vec<(String, Value)> = Vec::new();
    let mut i: usize = 0;
    while i < entries.len()
        invariant
            i <= entries.len(),
            out.len() == i,
            forall|j: int|
                0 <= j < i ==> out@[j].0@ == entries@[j].0@ && out@[j].1@ == entries@[j].1@,
        decreases entries.len() - i,
    {
        let entry = &entries[i];
        out.push((entry.0.clone(), clone_value(&entry.1)));
        i += 1;
    }
    assert(entries_view(out@) =~= entries_view(entries@));
    out
}

impl Clone for Value {
    fn clone(&self) -> (r: Value)
        ensures
            r@ == self@,
    {
        clone_value(self)
    }
}

// ---------------------------------------------------------------------------
// Numbers as text
// ---------------------------------------------------------------------------
/// `n` in decimal notation, with `-` before a negative number.
pub open spec fn signed_decimal(n: int) -> Seq<char> {
    if n < 0 {
        seq!['-'] + decimal((-n) as nat)
    } else {
        decimal(n as nat)
    }
}

/// Writes `n` in decimal notation.
pub fn signed_decimal_string(n: i64) -> (s: String)
    ensures
        s@ == signed_decimal(n as int),
{
    if n < 0 {
        let magnitude: u64 = ((-(n + 1)) as u64) + 1;
        let digits = decimal_string(magnitude);
        let mut out = String::new();
        out.push('-');
        out.append(digits.as_str());
        assert(out@ =~= seq!['-'] + digits@);
        out
    } else {
        decimal_string(n as u64)
    }
}

// ---------------------------------------------------------------------------
// What a value is called
// ---------------------------------------------------------------------------
impl ValueView {
    /// The tag of the value's kind that all platforms share.
    pub open spec fn identifier(self) -> Seq<char> {
        match self {
            ValueView::Text(_) => "text"@,
            ValueView::Object(_) => "dictionary"@,
            ValueView::Bytes(_) => "bytes"@,
            ValueView::Extension(identifier, _) => identifier,
            _ => "generic"@,
        }
    }

    /// The name of the value's type; finer than the identifier.
    pub open spec fn type_label(self) -> Seq<char> {
        match self {
            ValueView::Empty => "none"@,
            ValueView::Bool(_) => "bool"@,
            ValueView::I32(_) => "i32"@,
            ValueView::I64(_) => "i64"@,
            ValueView::Text(_) => "text"@,
            ValueView::Array(_) => "array"@,
            ValueView::Object(_) => "object"@,
            ValueView::Bytes(_) => "bytes"@,
            ValueView::Extension(identifier, _) => identifier,
        }
    }

    /// The extension of the file format that the value is stored in where
    /// nothing else is asked for.
    pub open spec fn default_extension(self) -> Seq<char> {
        match self {
            ValueView::Text(_) => "txt"@,
            ValueView::Bytes(_) => "b"@,
            ValueView::Extension(_, _) => "b"@,
            _ => "json"@,
        }
    }

    pub open spec fn default_filename(self) -> Seq<char> {
        match self {
            ValueView::Text(_) => "text.txt"@,
            ValueView::Bytes(_) => "binary.b"@,
            ValueView::Extension(_, _) => "binary.b"@,
            _ => "data.json"@,
        }
    }

    pub open spec fn default_media_type(self) -> Seq<char> {
        match self {
            ValueView::Text(_) => "text/plain"@,
            ValueView::Bytes(_) => "application/octet-stream"@,
            ValueView::Extension(_, _) => "application/octet-stream"@,
            _ => "application/json"@,
        }
    }
}

/// The text that bytes are read as when what is no UTF-8 among them is
/// replaced.
pub uninterp spec fn utf8_lossy(bytes: Seq<u8>) -> Seq<char>;

/// `String::from_utf8_lossy`: the text that the bytes encode, with the
/// replacement character for what is no UTF-8. The contract names the
/// result, and says that bytes that are UTF-8 throughout give the text
/// that they encode.
#[verifier::external_body]
fn lossy_text(bytes: &Vec<u8>) -> (s: String)
    ensures
        s@ == utf8_lossy(bytes@),
        vstd::utf8::valid_utf8(bytes@) ==> s@ == vstd::utf8::decode_utf8(bytes@),
{
    String::from_utf8_lossy(bytes).into_owned()
}

/// `String::from_utf8`: the text that the bytes encode, where they are
/// UTF-8.
#[verifier::external_body]
fn utf8_text(bytes: Vec<u8>) -> (r: Option<String>)
    ensures
        match r {
            Some(s) => vstd::utf8::valid_utf8(bytes@) && s@ == vstd::utf8::decode_utf8(bytes@),
            None => !vstd::utf8::valid_utf8(bytes@),
        },
{
    String::from_utf8(bytes).ok()
}

/// The operations that the engine asks of a value.
pub trait ValueInterface: Sized {
    /// The empty value.
    fn none() -> Self;

    /// The value that is the text `txt`.
    fn new(txt: &str) -> Self;

    fn is_none(&self) -> bool;

    fn identifier(&self) -> String;

    fn type_label(&self) -> String;

    fn default_extension(&self) -> String;

    fn default_filename(&self) -> String;

    fn default_media_type(&self) -> String;

    fn try_into_string(&self) -> Result<String, Error>;

    fn try_into_i32(&self) -> Result<i32, Error>;

    fn try_into_i64(&self) -> Result<i64, Error>;

    fn try_into_bool(&self) -> Result<bool, Error>;

    fn from_string(txt: String) -> Self;

    fn from_i32(n: i32) -> Self;

    fn from_i64(n: i64) -> Self;

    fn from_bool(b: bool) -> Self;

    fn from_bytes(b: Vec<u8>) -> Self;
}

impl ValueView {
    /// The value as text: text itself, an integer in decimal notation,
    /// bytes as the text they encode.
    pub open spec fn as_text(self) -> Option<Seq<char>> {
        match self {
            ValueView::I32(n) => Some(signed_decimal(n as int)),
            ValueView::I64(n) => Some(signed_decimal(n as int)),
            ValueView::Text(t) => Some(t),
            ValueView::Bytes(b) => Some(utf8_lossy(b)),
            _ => None,
        }
    }

    pub open spec fn as_i32(self) -> Option<i32> {
        match self {
            ValueView::I32(n) => Some(n),
            ValueView::I64(n) => if i32::MIN <= n <= i32::MAX {
                Some(n as i32)
            } else {
                None
            },
            _ => None,
        }
    }

    pub open spec fn as_i64(self) -> Option<i64> {
        match self {
            ValueView::I32(n) => Some(n as i64),
            ValueView::I64(n) => Some(n),
            _ => None,
        }
    }

    pub open spec fn as_bool(self) -> Option<bool> {
        match self {
            ValueView::Bool(b) => Some(b),
            ValueView::I32(n) => Some(n != 0),
            ValueView::I64(n) => Some(n != 0),
            _ => None,
        }
    }
}

/// The error of a value that cannot be read as `to`.
pub open spec fn conversion_failure(v: ValueView, to: Seq<char>) -> crate::error::ErrorView {
    plain_error(ErrorType::ConversionError, conversion_message(v.identifier(), to))
}

impl Value {
    fn conversion_error(&self, to: &str) -> (e: Error)
        ensures
            e@ == conversion_failure(self@, to@),
    {
        let identifier = self.identifier();
        Error::conversion_error(identifier.as_str(), to)
    }
}

impl ValueInterface for Value {
    fn none() -> (v: Value)
        ensures
            v@ == ValueView::Empty,
    {
        Value::Empty
    }

    fn new(txt: &str) -> (v: Value)
        ensures
            v@ == ValueView::Text(txt@),
    {
        Value::Text(txt.to_owned())
    }

    fn is_none(&self) -> (r: bool)
        ensures
            r == (self@ is Empty),
    {
        match self {
            Value::Empty => true,
            _ => false,
        }
    }

    fn identifier(&self) -> (s: String)
        ensures
            s@ == self@.identifier(),
    {
        match self {
            Value::Text(_) => String::from_str("text"),
            Value::Object(_) => String::from_str("dictionary"),
            Value::Bytes(_) => String::from_str("bytes"),
            Value::Extension(identifier, _) => identifier.clone(),
            _ => String::from_str("generic"),
        }
    }

    fn type_label(&self) -> (s: String)
        ensures
            s@ == self@.type_label(),
    {
        match self {
            Value::Empty => String::from_str("none"),
            Value::Bool(_) => String::from_str("bool"),
            Value::I32(_) => String::from_str("i32"),
            Value::I64(_) => String::from_str("i64"),
            Value::Text(_) => String::from_str("text"),
            Value::Array(_) => String::from_str("array"),
            Value::Object(_) => String::from_str("object"),
            Value::Bytes(_) => String::from_str("bytes"),
            Value::Extension(identifier, _) => identifier.clone(),
        }
    }

    fn default_extension(&self) -> (s: String)
        ensures
            s@ == self@.default_extension(),
    {
        match self {
            Value::Text(_) => String::from_str("txt"),
            Value::Bytes(_) => String::from_str("b"),
            Value::Extension(_, _) => String::from_str("b"),
            _ => String::from_str("json"),
        }
    }

    fn default_filename(&self) -> (s: String)
        ensures
            s@ == self@.default_filename(),
    {
        match self {
            Value::Text(_) => String::from_str("text.txt"),
            Value::Bytes(_) => String::from_str("binary.b"),
            Value::Extension(_, _) => String::from_str("binary.b"),
            _ => String::from_str("data.json"),
        }
    }

    fn default_media_type(&self) -> (s: String)
        ensures
            s@ == self@.default_media_type(),
    {
        match self {
            Value::Text(_) => String::from_str("text/plain"),
            Value::Bytes(_) => String::from_str("application/octet-stream"),
            Value::Extension(_, _) => String::from_str("application/octet-stream"),
            _ => String::from_str("application/json"),
        }
    }

    fn try_into_string(&self) -> (r: Result<String, Error>)
        ensures
            match r {
                Ok(s) => self@.as_text() == Some(s@),
                Err(e) => self@.as_text() is None && e@ == conversion_failure(self@, "string"@),
            },
            self@ is Bytes && vstd::utf8::valid_utf8(self@->Bytes_0) ==> r is Ok && r->Ok_0@
                == vstd::utf8::decode_utf8(self@->Bytes_0),
    {
        match self {
            Value::I32(n) => Ok(signed_decimal_string(*n as i64)),
            Value::I64(n) => Ok(signed_decimal_string(*n)),
            Value::Text(t) => Ok(t.clone()),
            Value::Bytes(b) => Ok(lossy_text(b)),
            _ => Err(self.conversion_error("string")),
        }
    }

    fn try_into_i32(&self) -> (r: Result<i32, Error>)
        ensures
            match r {
                Ok(n) => self@.as_i32() == Some(n),
                Err(e) => self@.as_i32() is None && e@ == conversion_failure(self@, "i32"@),
            },
    {
        match self {
            Value::I32(n) => Ok(*n),
            Value::I64(n) => {
                if *n >= -2147483648 && *n <= 2147483647 {
                    Ok(*n as i32)
                } else {
                    Err(self.conversion_error("i32"))
                }
            },
            _ => Err(self.conversion_error("i32")),
        }
    }

    fn try_into_i64(&self) -> (r: Result<i64, Error>)
        ensures
            match r {
                Ok(n) => self@.as_i64() == Some(n),
                Err(e) => self@.as_i64() is None && e@ == conversion_failure(self@, "i64"@),
            },
    {
        match self {
            Value::I32(n) => Ok(*n as i64),
            Value::I64(n) => Ok(*n),
            _ => Err(self.conversion_error("i64")),
        }
    }

    fn try_into_bool(&self) -> (r: Result<bool, Error>)
        ensures
            match r {
                Ok(b) => self@.as_bool() == Some(b),
                Err(e) => self@.as_bool() is None && e@ == conversion_failure(self@, "bool"@),
            },
    {
        match self {
            Value::Bool(b) => Ok(*b),
            Value::I32(n) => Ok(*n != 0),
            Value::I64(n) => Ok(*n != 0),
            _ => Err(self.conversion_error("bool")),
        }
    }

    fn from_string(txt: String) -> (v: Value)
        ensures
            v@ == ValueView::Text(txt@),
    {
        Value::Text(txt)
    }

    fn from_i32(n: i32) -> (v: Value)
        ensures
            v@ == ValueView::I32(n),
    {
        Value::I32(n)
    }

    fn from_i64(n: i64) -> (v: Value)
        ensures
            v@ == ValueView::I64(n),
    {
        Value::I64(n)
    }

    fn from_bool(b: bool) -> (v: Value)
        ensures
            v@ == ValueView::Bool(b),
    {
        Value::Bool(b)
    }

    fn from_bytes(b: Vec<u8>) -> (v: Value)
        ensures
            v@ == ValueView::Bytes(b@),
    {
        Value::Bytes(b)
    }
}

// ---------------------------------------------------------------------------
// Values as bytes
// ---------------------------------------------------------------------------
/// The digit of `n` in hexadecimal notation, in lower case.
pub open spec fn hex_digit(n: nat) -> char {
    if n < 16 {
        seq![
            '0',
            '1',
            '2',
            '3',
            '4',
            '5',
            '6',
            '7',
            '8',
            '9',
            'a',
            'b',
            'c',
            'd',
            'e',
            'f',
        ][n as int]
    } else {
        '0'
    }
}

/// A character as it stands in a JSON string: the quote and the backslash
/// after a backslash; the control characters below the space by their
/// letter where they have one, else by their number in four hexadecimal
/// digits; any other character as it is.
pub open spec fn json_escaped(c: char) -> Seq<char> {
    if c == '"' {
        seq!['\\', '"']
    } else if c == '\\' {
        seq!['\\', '\\']
    } else if c == '\u{8}' {
        seq!['\\', 'b']
    } else if c == '\t' {
        seq!['\\', 't']
    } else if c == '\n' {
        seq!['\\', 'n']
    } else if c == '\u{c}' {
        seq!['\\', 'f']
    } else if c == '\r' {
        seq!['\\', 'r']
    } else if (c as nat) < 32 {
        seq!['\\', 'u', '0', '0', hex_digit((c as nat) / 16), hex_digit((c as nat) % 16)]
    } else {
        seq![c]
    }
}

/// A text as a JSON string: its characters as they stand in a JSON
/// string, between double quotes.
pub open spec fn json_quoted(text: Seq<char>) -> Seq<char> {
    seq!['"'] + text.map_values(|c: char| json_escaped(c)).flatten() + seq!['"']
}

/// `serde_json::to_string` on a string: the string as a JSON string. It
/// writes a quote, each character by its table of escapes, and a quote;
/// the contract restates that table.
#[verifier::external_body]
fn json_quote(text: &str) -> (s: String)
    ensures
        s@ == json_quoted(text@),
{
    match serde_json::to_string(text) {
        Ok(s) => s,
        Err(_) => String::new(),
    }
}

/// Whether JSON can show the value: no part of it is an extension value.
pub open spec fn json_ready(v: ValueView) -> bool
    decreases v,
{
    match v {
        ValueView::Array(items) => json_ready_items(items),
        ValueView::Object(entries) => json_ready_entries(entries),
        ValueView::Extension(_, _) => false,
        _ => true,
    }
}

pub open spec fn json_ready_items(items: Seq<ValueView>) -> bool
    decreases items,
{
    forall|i: int| 0 <= i < items.len() ==> json_ready(#[trigger] items[i])
}

pub open spec fn json_ready_entries(entries: Seq<(Seq<char>, ValueView)>) -> bool
    decreases entries,
{
    forall|i: int| 0 <= i < entries.len() ==> json_ready((#[trigger] entries[i]).1)
}

/// The value in JSON, without any white space. Bytes are an array of
/// numbers, and the members of an object stand in the order of its
/// entries.
pub open spec fn json_text(v: ValueView) -> Seq<char>
    decreases v,
{
    match v {
        ValueView::Empty => "null"@,
        ValueView::Bool(b) => if b {
            "true"@
        } else {
            "false"@
        },
        ValueView::I32(n) => signed_decimal(n as int),
        ValueView::I64(n) => signed_decimal(n as int),
        ValueView::Text(t) => json_quoted(t),
        ValueView::Array(items) => seq!['['] + join(json_items(items), seq![',']) + seq![']'],
        ValueView::Object(entries) => seq!['{'] + join(json_members(entries), seq![','])
            + seq!['}'],
        ValueView::Bytes(b) => seq!['['] + join(json_numbers(b), seq![',']) + seq![']'],
        ValueView::Extension(_, _) => Seq::empty(),
    }
}

pub open spec fn json_items(items: Seq<ValueView>) -> Seq<Seq<char>>
    decreases items,
{
    Seq::new(
        items.len(),
        |i: int|
            if 0 <= i < items.len() {
                json_text(items[i])
            } else {
                arbitrary()
            },
    )
}

pub open spec fn json_members(entries: Seq<(Seq<char>, ValueView)>) -> Seq<Seq<char>>
    decreases entries,
{
    Seq::new(
        entries.len(),
        |i: int|
            if 0 <= i < entries.len() {
                json_quoted(entries[i].0) + seq![':'] + json_text(entries[i].1)
            } else {
                arbitrary()
            },
    )
}

pub open spec fn json_numbers(bytes: Seq<u8>) -> Seq<Seq<char>> {
    Seq::new(bytes.len(), |i: int| decimal(bytes[i] as nat))
}

fn bracketed(open: char, parts: &Vec<String>, close: char) -> (s: String)
    ensures
        s@ == seq![open] + join(texts(parts@), seq![',']) + seq![close],
{
    proof {
        reveal_strlit(",");
        assert(","@ =~= seq![',']);
    }
    let inner = join_strings(parts, ",");
    let mut out = String::new();
    out.push(open);
    out.append(inner.as_str());
    out.push(close);
    assert(out@ =~= seq![open] + inner@ + seq![close]);
    out
}

fn write_json(v: &Value) -> (r: Option<String>)
    ensures
        match r {
            Some(s) => json_ready(v@) && s@ == json_text(v@),
            None => !json_ready(v@),
        },
    decreases v,
{
    match v {
        Value::Empty => Some(String::from_str("null")),
        Value::Bool(b) => Some(
            if *b {
                String::from_str("true")
            } else {
                String::from_str("false")
            },
        ),
        Value::I32(n) => Some(signed_decimal_string(*n as i64)),
        Value::I64(n) => Some(signed_decimal_string(*n)),
        Value::Text(t) => Some(json_quote(t.as_str())),
        Value::Array(items) => match write_json_items(items) {
            Some(parts) => Some(bracketed('[', &parts, ']')),
            None => None,
        },
        Value::Object(entries) => match write_json_members(entries) {
            Some(parts) => Some(bracketed('{', &parts, '}')),
            None => None,
        },
        Value::Bytes(b) => {
            let mut parts: Vec<String> = Vec::new();
            let mut i: usize = 0;
            while i < b.len()
                invariant
                    i <= b.len(),
                    parts.len() == i,
                    forall|j: int| 0 <= j < i ==> parts@[j]@ == decimal(b@[j] as nat),
                decreases b.len() - i,
            {
                parts.push(decimal_string(b[i] as u64));
                i += 1;
            }
            assert(texts(parts@) =~= json_numbers(b@));
            Some(bracketed('[', &parts, ']'))
        },
        Value::Extension(_, _) => None,
    }
}

fn write_json_items(items: &Vec<Value>) -> (r: Option<Vec<String>>)
    ensures
        match r {
            Some(parts) => json_ready(ValueView::Array(values_view(items@))) && texts(parts@)
                == json_items(values_view(items@)),
            None => !json_ready(ValueView::Array(values_view(items@))),
        },
    decreases items,
{
    let ghost all = values_view(items@);
    let mut parts: Vec<String> = Vec::new();
    let mut i: usize = 0;
    while i < items.len()
        invariant
            i <= items.len(),
            parts.len() == i,
            all == values_view(items@),
            forall|j: int| 0 <= j < i ==> json_ready(#[trigger] all[j]),
            forall|j: int| 0 <= j < i ==> (#[trigger] parts@[j])@ == json_text(all[j]),
        decreases items.len() - i,
    {
        assert(all[i as int] == items@[i as int]@);
        match write_json(&items[i]) {
            Some(s) => {
                parts.push(s);
            },
            None => {
                assert(!json_ready(all[i as int]));
                assert(0 <= i < all.len());
                assert(!json_ready(ValueView::Array(all))) by {
                    if json_ready(ValueView::Array(all)) {
                        assert(json_ready(all[i as int]));
                    }
                }
                return None;
            },
        }
        i += 1;
    }
    assert(texts(parts@) =~= json_items(all));
    Some(parts)
}

fn write_json_members(entries: &Vec<(String, Value)>) -> (r: Option<Vec<String>>)
    ensures
        match r {
            Some(parts) => json_ready(ValueView::Object(entries_view(entries@))) && texts(parts@)
                == json_members(entries_view(entries@)),
            None => !json_ready(ValueView::Object(entries_view(entries@))),
        },
    decreases entries,
{
    let ghost all = entries_view(entries@);
    let mut parts: Vec<String> = Vec::new();
    let mut i: usize = 0;
    while i < entries.len()
        invariant
            i <= entries.len(),
            parts.len() == i,
            all == entries_view(entries@),
            forall|j: int| 0 <= j < i ==> json_ready((#[trigger] all[j]).1),
            forall|j: int|
                0 <= j < i ==> (#[trigger] parts@[j])@ == json_quoted(all[j].0) + seq![':']
                    + json_text(all[j].1),
        decreases entries.len() - i,
    {
        let entry = &entries[i];
        assert(all[i as int] == (entry.0@, entry.1@));
        match write_json(&entry.1) {
            Some(s) => {
                let mut member = json_quote(entry.0.as_str());
                member.push(':');
                member.append(s.as_str());
                assert(member@ =~= json_quoted(entry.0@) + seq![':'] + s@);
                parts.push(member);
            },
            None => {
                assert(!json_ready(all[i as int].1));
                assert(0 <= i < all.len());
                assert(!json_ready(ValueView::Object(all))) by {
                    if json_ready(ValueView::Object(all)) {
                        assert(json_ready(all[i as int].1));
                    }
                }
                return None;
            },
        }
        i += 1;
    }
    assert(texts(parts@) =~= json_members(all));
    Some(parts)
}

/// The bytes of a value in a format. `json` shows every value without an
/// extension value in it; `txt` and `html` show the empty value, booleans,
/// integers and text; `b` shows bytes as they are. There are no other
/// formats.
pub open spec fn serialized(v: ValueView, format: Seq<char>) -> Option<Seq<u8>> {
    if format == "json"@ {
        if json_ready(v) {
            Some(vstd::utf8::encode_utf8(json_text(v)))
        } else {
            None
        }
    } else if format == "txt"@ || format == "html"@ {
        match v {
            ValueView::Empty => Some(vstd::utf8::encode_utf8("none"@)),
            ValueView::Bool(b) => Some(
                vstd::utf8::encode_utf8(
                    if b {
                        "true"@
                    } else {
                        "false"@
                    },
                ),
            ),
            ValueView::I32(n) => Some(vstd::utf8::encode_utf8(signed_decimal(n as int))),
            ValueView::I64(n) => Some(vstd::utf8::encode_utf8(signed_decimal(n as int))),
            ValueView::Text(t) => Some(vstd::utf8::encode_utf8(t)),
            _ => None,
        }
    } else if format == "b"@ {
        match v {
            ValueView::Bytes(b) => Some(b),
            _ => None,
        }
    } else {
        None
    }
}

/// Whether `format` is one of the formats that values are written in.
pub open spec fn known_format(format: Seq<char>) -> bool {
    format == "json"@ || format == "txt"@ || format == "html"@ || format == "b"@
}

pub open spec fn unsupported_format_message(format: Seq<char>) -> Seq<char> {
    "Unsupported format "@ + format
}

pub open spec fn unsupported_value_message(format: Seq<char>, type_label: Seq<char>) -> Seq<char> {
    "Serialization to "@ + format + " not supported by "@ + type_label
}

/// The error for a value that has no bytes in `format`.
pub open spec fn serialization_failure(v: ValueView, format: Seq<char>) -> crate::error::ErrorView {
    if known_format(format) {
        plain_error(
            ErrorType::SerializationError,
            unsupported_value_message(format, v.type_label()),
        )
    } else {
        plain_error(ErrorType::SerializationError, unsupported_format_message(format))
    }
}

/// The value that bytes in a format are. `txt` and `html` are text in
/// UTF-8; `b` is the bytes themselves.
pub open spec fn deserialized(bytes: Seq<u8>, format: Seq<char>) -> Option<ValueView> {
    if format == "txt"@ || format == "html"@ {
        if vstd::utf8::valid_utf8(bytes) {
            Some(ValueView::Text(vstd::utf8::decode_utf8(bytes)))
        } else {
            None
        }
    } else if format == "b"@ {
        Some(ValueView::Bytes(bytes))
    } else {
        None
    }
}

/// Whether `format` is one of the formats that values are read from here.
pub open spec fn readable_format(format: Seq<char>) -> bool {
    format == "txt"@ || format == "html"@ || format == "b"@
}

pub open spec fn malformed_message(format: Seq<char>) -> Seq<char> {
    "Malformed data in format "@ + format
}

/// The error for bytes that are no value in `format`.
pub open spec fn deserialization_failure(format: Seq<char>) -> crate::error::ErrorView {
    if readable_format(format) {
        plain_error(ErrorType::SerializationError, malformed_message(format))
    } else {
        plain_error(ErrorType::SerializationError, unsupported_format_message(format))
    }
}

/// The bytes of a text in UTF-8.
pub fn text_bytes(s: &str) -> (b: Vec<u8>)
    ensures
        b@ == vstd::utf8::encode_utf8(s@),
{
    vstd::string::StrSliceExecFns::as_bytes_vec(s)
}

/// How values are written to bytes and read from them.
pub trait DefaultValueSerializer: Sized {
    fn as_bytes(&self, format: &str) -> Result<Vec<u8>, Error>;

    fn deserialize_from_bytes(b: &Vec<u8>, type_identifier: &str, format: &str) -> Result<
        Self,
        Error,
    >;
}

impl DefaultValueSerializer for Value {
    fn as_bytes(&self, format: &str) -> (r: Result<Vec<u8>, Error>)
        ensures
            match r {
                Ok(b) => serialized(self@, format@) == Some(b@),
                Err(e) => serialized(self@, format@) is None && e@ == serialization_failure(
                    self@,
                    format@,
                ),
            },
    {
        let written: Option<Vec<u8>> = if same_text(format, "json") {
            match write_json(self) {
                Some(s) => Some(text_bytes(s.as_str())),
                None => None,
            }
        } else if same_text(format, "txt") || same_text(format, "html") {
            match self {
                Value::Empty => Some(text_bytes("none")),
                Value::Bool(b) => Some(
                    if *b {
                        text_bytes("true")
                    } else {
                        text_bytes("false")
                    },
                ),
                Value::I32(n) => Some(text_bytes(signed_decimal_string(*n as i64).as_str())),
                Value::I64(n) => Some(text_bytes(signed_decimal_string(*n).as_str())),
                Value::Text(t) => Some(text_bytes(t.as_str())),
                _ => None,
            }
        } else if same_text(format, "b") {
            match self {
                Value::Bytes(b) => {
                    let c = b.clone();
                    assert(c@ =~= b@);
                    Some(c)
                },
                _ => None,
            }
        } else {
            let message = String::from_str("Unsupported format ").concat(format);
            return Err(Error::new(ErrorType::SerializationError, message));
        };
        match written {
            Some(b) => Ok(b),
            None => {
                let label = self.type_label();
                let message = String::from_str("Serialization to ").concat(format).concat(
                    " not supported by ",
                ).concat(label.as_str());
                Err(Error::new(ErrorType::SerializationError, message))
            },
        }
    }

    fn deserialize_from_bytes(b: &Vec<u8>, type_identifier: &str, format: &str) -> (r: Result<
        Value,
        Error,
    >)
        ensures
            match r {
                Ok(v) => deserialized(b@, format@) == Some(v@),
                Err(e) => deserialized(b@, format@) is None && e@ == deserialization_failure(
                    format@,
                ),
            },
    {
        if same_text(format, "txt") || same_text(format, "html") {
            let c = b.clone();
            assert(c@ =~= b@);
            match utf8_text(c) {
                Some(s) => Ok(Value::Text(s)),
                None => {
                    let message = String::from_str("Malformed data in format ").concat(format);
                    Err(Error::new(ErrorType::SerializationError, message))
                },
            }
        } else if same_text(format, "b") {
            let c = b.clone();
            assert(c@ =~= b@);
            Ok(Value::Bytes(c))
        } else {
            let message = String::from_str("Unsupported format ").concat(format);
            Err(Error::new(ErrorType::SerializationError, message))
        }
    }
}

// ---------------------------------------------------------------------------
// Objects
// ---------------------------------------------------------------------------
/// The place of the first entry of `entries` under `key`.
pub open spec fn entry_index(entries: Seq<(Seq<char>, ValueView)>, key: Seq<char>) -> Option<int>
    decreases entries.len(),
{
    if entries.len() == 0 {
        None
    } else if entries[0].0 == key {
        Some(0)
    } else {
        match entry_index(entries.drop_first(), key) {
            Some(i) => Some(i + 1),
            None => None,
        }
    }
}

/// `entries` with `value` under `key`: in the place of the first entry
/// under `key`, or at the end where there is none.
pub open spec fn entries_with(
    entries: Seq<(Seq<char>, ValueView)>,
    key: Seq<char>,
    value: ValueView,
) -> Seq<(Seq<char>, ValueView)> {
    match entry_index(entries, key) {
        Some(i) => entries.update(i, (key, value)),
        None => entries.push((key, value)),
    }
}

/// The index of a key among the entries is that of the first entry with
/// the key, and there is none only where no entry has the key.
pub proof fn lemma_entry_index(entries: Seq<(Seq<char>, ValueView)>, key: Seq<char>)
    ensures
        match entry_index(entries, key) {
            Some(i) => 0 <= i < entries.len() && entries[i].0 == key && forall|j: int|
                0 <= j < i ==> (#[trigger] entries[j]).0 != key,
            None => forall|j: int| 0 <= j < entries.len() ==> (#[trigger] entries[j]).0 != key,
        },
    decreases entries.len(),
{
    if entries.len() > 0 && entries[0].0 != key {
        let rest = entries.drop_first();
        lemma_entry_index(rest, key);
        match entry_index(rest, key) {
            Some(i) => {
                assert forall|j: int| 0 <= j < i + 1 implies (#[trigger] entries[j]).0 != key by {
                    if j > 0 {
                        assert(rest[j - 1] == entries[j]);
                    }
                }
            },
            None => {
                assert forall|j: int| 0 <= j < entries.len() implies (#[trigger] entries[j]).0
                    != key by {
                    if j > 0 {
                        assert(rest[j - 1] == entries[j]);
                    }
                }
            },
        }
    }
}

/// The first entry at or after `from` whose key is `key`.
fn find_entry(entries: &Vec<(String, Value)>, key: &str) -> (r: Option<usize>)
    ensures
        match r {
            Some(i) => entry_index(entries_view(entries@), key@) == Some(i as int) && i
                < entries.len(),
            None => entry_index(entries_view(entries@), key@) is None,
        },
{
    let ghost all = entries_view(entries@);
    let mut i: usize = 0;
    while i < entries.len()
        invariant
            i <= entries.len(),
            all == entries_view(entries@),
            forall|j: int| 0 <= j < i ==> (#[trigger] all[j]).0 != key@,
        decreases entries.len() - i,
    {
        assert(all[i as int].0 == entries@[i as int].0@);
        if same_text(entries[i].0.as_str(), key) {
            proof {
                lemma_entry_index(all, key@);
            }
            return Some(i);
        }
        i += 1;
    }
    proof {
        lemma_entry_index(all, key@);
    }
    None
}

impl ValueView {
    /// The value under `key` of an object.
    pub open spec fn get(self, key: Seq<char>) -> Option<ValueView> {
        match self {
            ValueView::Object(entries) => match entry_index(entries, key) {
                Some(i) => Some(entries[i].1),
                None => None,
            },
            _ => None,
        }
    }
}

impl Value {
    /// The value under `key`, where `self` is an object that has one.
    pub fn get(&self, key: &str) -> (r: Option<&Value>)
        ensures
            match r {
                Some(v) => self@.get(key@) == Some(v@),
                None => self@.get(key@) is None,
            },
    {
        match self {
            Value::Object(entries) => match find_entry(entries, key) {
                Some(i) => {
                    assert(entries_view(entries@)[i as int].1 == entries@[i as int].1@);
                    Some(&entries[i].1)
                },
                None => None,
            },
            _ => None,
        }
    }

    /// The object `entries` with `value` under `key`.
    pub fn with_entry(entries: Vec<(String, Value)>, key: &str, value: Value) -> (r: Vec<
        (String, Value),
    >)
        ensures
            entries_view(r@) == entries_with(entries_view(entries@), key@, value@),
    {
        let ghost before = entries_view(entries@);
        let mut entries = entries;
        match find_entry(&entries, key) {
            Some(i) => {
                entries.set(i, (key.to_owned(), value));
                assert(entries_view(entries@) =~= before.update(i as int, (key@, value@)));
            },
            None => {
                entries.push((key.to_owned(), value));
                assert(entries_view(entries@) =~= before.push((key@, value@)));
            },
        }
        entries
    }
}

// ---------------------------------------------------------------------------
// Values from the types of the host
// ---------------------------------------------------------------------------
impl From<String> for Value {
    fn from(v: String) -> (r: Value) {
        Value::Text(v)
    }
}

impl vstd::std_specs::convert::FromSpecImpl<String> for Value {
    open spec fn obeys_from_spec() -> bool {
        true
    }

    open spec fn from_spec(v: String) -> Value {
        Value::Text(v)
    }
}

impl From<i32> for Value {
    fn from(v: i32) -> (r: Value) {
        Value::I32(v)
    }
}

impl vstd::std_specs::convert::FromSpecImpl<i32> for Value {
    open spec fn obeys_from_spec() -> bool {
        true
    }

    open spec fn from_spec(v: i32) -> Value {
        Value::I32(v)
    }
}

impl From<i64> for Value {
    fn from(v: i64) -> (r: Value) {
        Value::I64(v)
    }
}

impl vstd::std_specs::convert::FromSpecImpl<i64> for Value {
    open spec fn obeys_from_spec() -> bool {
        true
    }

    open spec fn from_spec(v: i64) -> Value {
        Value::I64(v)
    }
}

impl From<bool> for Value {
    fn from(v: bool) -> (r: Value) {
        Value::Bool(v)
    }
}

impl vstd::std_specs::convert::FromSpecImpl<bool> for Value {
    open spec fn obeys_from_spec() -> bool {
        true
    }

    open spec fn from_spec(v: bool) -> Value {
        Value::Bool(v)
    }
}

impl From<()> for Value {
    fn from(v: ()) -> (r: Value) {
        Value::Empty
    }
}

impl vstd::std_specs::convert::FromSpecImpl<()> for Value {
    open spec fn obeys_from_spec() -> bool {
        true
    }

    open spec fn from_spec(v: ()) -> Value {
        Value::Empty
    }
}

impl From<Vec<u8>> for Value {
    fn from(v: Vec<u8>) -> (r: Value) {
        Value::Bytes(v)
    }
}

impl vstd::std_specs::convert::FromSpecImpl<Vec<u8>> for Value {
    open spec fn obeys_from_spec() -> bool {
        true
    }

    open spec fn from_spec(v: Vec<u8>) -> Value {
        Value::Bytes(v)
    }
}

} // verus!
