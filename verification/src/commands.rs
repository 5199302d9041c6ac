//! Commands: the functions of the host that carry out actions.
use crate::command_metadata::{
    CommandKey, CommandKeyView, CommandMetadata, CommandMetadataRegistry, CommandMetadataView,
    option_command_view,
};
use crate::error::{
    Error, ErrorType, ErrorView, action_not_registered_message, conversion_message, error_at,
    missing_argument_message,
};
use crate::plan::{Parameter, ParameterView, ResolvedParameters, ResolvedParametersView};
use crate::query::Position;
use crate::state::{State, StateView};
use crate::text::{decimal, decimal_string};
use crate::value::{Value, ValueInterface, ValueView};
use std::marker::PhantomData;
use vstd::prelude::*;
use vstd::string::StringExecFns;

verus! {

/// The environment of a command that has nothing to offer.
#[derive(Debug, Clone, Copy)]
pub struct NoInjection;

/// The arguments of one call of a command: the resolved parameters, and a
/// cursor over them that moves on as the command takes them.
#[derive(Debug)]
pub struct CommandArguments {
    pub parameters: ResolvedParameters,
    pub action_position: Position,
    pub argument_number: usize,
}

pub struct CommandArgumentsView {
    pub parameters: ResolvedParametersView,
    pub action_position: Position,
    pub argument_number: nat,
}

impl View for CommandArguments {
    type V = CommandArgumentsView;

    open spec fn view(&self) -> CommandArgumentsView {
        CommandArgumentsView {
            parameters: self.parameters@,
            action_position: self.action_position,
            argument_number: self.argument_number as nat,
        }
    }
}

impl CommandArgumentsView {
    /// The number of parameters.
    pub open spec fn len(self) -> nat {
        self.parameters.parameters.len()
    }

    /// The number of parameters that were not taken.
    pub open spec fn excess(self) -> int {
        self.len() - self.argument_number
    }

    /// Where the next parameter stands in the query; where the action
    /// stands once all parameters are taken.
    pub open spec fn parameter_position(self) -> Position {
        if self.argument_number < self.len() {
            self.parameters.parameters[self.argument_number as int].position
        } else {
            self.action_position
        }
    }

    /// The error of a command that is given no parameter where it needs
    /// one.
    pub open spec fn missing(self) -> ErrorView {
        error_at(
            ErrorType::ArgumentMissing,
            missing_argument_message(self.argument_number, "?"@),
            self.action_position,
        )
    }

    /// The arguments after one more was taken.
    pub open spec fn advanced(self) -> CommandArgumentsView {
        CommandArgumentsView { argument_number: self.argument_number + 1, ..self }
    }
}

impl CommandArguments {
    pub fn new(parameters: ResolvedParameters) -> (a: CommandArguments)
        ensures
            a@ == (CommandArgumentsView {
                parameters: parameters@,
                action_position: Position::spec_unknown(),
                argument_number: 0,
            }),
    {
        CommandArguments { parameters, action_position: Position::unknown(), argument_number: 0 }
    }

    pub fn has_no_parameters(&self) -> (r: bool)
        ensures
            r == (self@.len() == 0),
    {
        self.parameters.parameters.len() == 0
    }

    pub fn len(&self) -> (n: usize)
        ensures
            n == self@.len(),
    {
        self.parameters.parameters.len()
    }

    /// The next parameter; the cursor moves past it.
    pub fn get_parameter(&mut self) -> (r: Result<Parameter, Error>)
        ensures
            match r {
                Ok(p) => old(self)@.argument_number < old(self)@.len()
                    && p@ == old(self)@.parameters.parameters[old(self)@.argument_number as int]
                    && final(self)@ == old(self)@.advanced(),
                Err(e) => old(self)@.argument_number >= old(self)@.len()
                    && e@ == old(self)@.missing() && final(self)@ == old(self)@,
            },
    {
        if self.argument_number < self.parameters.parameters.len() {
            let p = self.parameters.parameters[self.argument_number].clone();
            self.argument_number += 1;
            Ok(p)
        } else {
            Err(Error::missing_argument(self.argument_number, "?", &self.action_position))
        }
    }

    /// Whether every parameter was taken.
    pub fn all_parameters_used(&self) -> (r: bool)
        ensures
            r == (self@.argument_number == self@.len()),
    {
        self.argument_number == self.parameters.parameters.len()
    }

    /// The number of parameters that were not taken.
    pub fn excess_parameters(&self) -> (n: usize)
        ensures
            n == if self@.excess() > 0 {
                self@.excess()
            } else {
                0
            },
    {
        if self.argument_number < self.parameters.parameters.len() {
            self.parameters.parameters.len() - self.argument_number
        } else {
            0
        }
    }

    pub fn parameter_position(&self) -> (p: Position)
        ensures
            p == self@.parameter_position(),
    {
        if self.argument_number < self.parameters.parameters.len() {
            self.parameters.parameters[self.argument_number].position
        } else {
            self.action_position
        }
    }
}

// ---------------------------------------------------------------------------
// From parameters to the types of the host
// ---------------------------------------------------------------------------
/// A type of the host that a parameter can be read as.
pub trait FromParameter<T> {
    /// Whether the parameter can be read as the type.
    spec fn accepts(param: ParameterView) -> bool;

    /// Whether `value` is what the parameter is read as. A type says
    /// nothing of it unless it says otherwise.
    open spec fn reads(param: ParameterView, value: T) -> bool {
        true
    }

    fn from_parameter(param: &Parameter) -> (r: Result<T, Error>)
        ensures
            r is Ok <==> Self::accepts(param@),
            r is Ok ==> Self::reads(param@, r->Ok_0),
    ;
}

/// The error of a parameter that cannot be read as `to`.
pub open spec fn parameter_conversion_error(param: ParameterView, to: Seq<char>) -> ErrorView {
    error_at(
        ErrorType::ConversionError,
        conversion_message(param.value.identifier(), to),
        param.position,
    )
}

fn conversion_error(param: &Parameter, to: &str) -> (e: Error)
    ensures
        e@ == parameter_conversion_error(param@, to@),
{
    let identifier = param.value.identifier();
    Error::conversion_error_at_position(identifier.as_str(), to, &param.position)
}

impl FromParameter<String> for String {
    open spec fn accepts(param: ParameterView) -> bool {
        param.value.as_text() is Some
    }

    open spec fn reads(param: ParameterView, value: String) -> bool {
        param.value.as_text() == Some(value@)
    }

    fn from_parameter(param: &Parameter) -> (r: Result<String, Error>)
        ensures
            match r {
                Ok(s) => param@.value.as_text() == Some(s@),
                Err(e) => param@.value.as_text() is None && e@ == parameter_conversion_error(
                    param@,
                    "string"@,
                ),
            },
    {
        match param.value.try_into_string() {
            Ok(s) => Ok(s),
            Err(_) => Err(conversion_error(param, "string")),
        }
    }
}

impl FromParameter<Value> for Value {
    open spec fn accepts(param: ParameterView) -> bool {
        true
    }

    open spec fn reads(param: ParameterView, value: Value) -> bool {
        value@ == param.value
    }

    fn from_parameter(param: &Parameter) -> (r: Result<Value, Error>)
        ensures
            r is Ok && r->Ok_0@ == param@.value,
    {
        Ok(param.value.clone())
    }
}

impl FromParameter<bool> for bool {
    open spec fn accepts(param: ParameterView) -> bool {
        match param.value {
            ValueView::Text(t) => crate::command_metadata::boolean_of(t) is Some,
            v => v.as_bool() is Some,
        }
    }

    open spec fn reads(param: ParameterView, value: bool) -> bool {
        match param.value {
            ValueView::Text(t) => crate::command_metadata::boolean_of(t) == Some(value),
            v => v.as_bool() == Some(value),
        }
    }

    fn from_parameter(param: &Parameter) -> (r: Result<bool, Error>)
        ensures
            match r {
                Ok(b) => match param@.value {
                    ValueView::Text(t) => crate::command_metadata::boolean_of(t) == Some(b),
                    v => v.as_bool() == Some(b),
                },
                Err(e) => e@ == parameter_conversion_error(param@, "bool"@),
            },
    {
        match &param.value {
            Value::Text(t) => match crate::command_metadata::read_boolean(t.as_str()) {
                Some(b) => Ok(b),
                None => Err(conversion_error(param, "bool")),
            },
            v => match v.try_into_bool() {
                Ok(b) => Ok(b),
                Err(_) => Err(conversion_error(param, "bool")),
            },
        }
    }
}

/// The number that the digits `s[from..to]` stand for.
pub open spec fn digits_value(s: Seq<char>, from: int, to: int) -> nat
    decreases to - from,
{
    if to <= from {
        0
    } else {
        digits_value(s, from, to - 1) * 10 + (s[to - 1] as nat - '0' as nat) as nat
    }
}

/// The integer that `s` is written as, where `s` has the form of one.
pub open spec fn integer_of(s: Seq<char>) -> int {
    let start = crate::command_metadata::after_sign(s, 0);
    if s.len() > 0 && s[0] == '-' {
        -(digits_value(s, start, s.len() as int) as int)
    } else {
        digits_value(s, start, s.len() as int) as int
    }
}

/// The integer that `text` is written as, where it has the form of an
/// integer and fits.
pub fn read_integer(text: &str) -> (r: Option<i64>)
    ensures
        match r {
            Some(n) => crate::command_metadata::is_integer_form(text@) && n == integer_of(text@),
            None => !crate::command_metadata::is_integer_form(text@) || integer_of(text@)
                < i64::MIN || integer_of(text@) > i64::MAX,
        },
{
    if !crate::command_metadata::has_integer_form(text) {
        return None;
    }
    let v = crate::text::chars_of(text);
    let negative = v.len() > 0 && v[0] == '-';
    let start: usize = if v.len() > 0 && (v[0] == '-' || v[0] == '+') {
        1
    } else {
        0
    };
    proof {
        lemma_digits_run(v@, start as int, v.len() as int);
    }
    // the magnitude is built up to one more than the largest positive
    // number, which is the magnitude of the smallest negative one
    let limit: u64 = 9223372036854775808;
    let mut magnitude: u64 = 0;
    let mut i: usize = start;
    while i < v.len()
        invariant
            start <= i <= v.len(),
            v@ == text@,
            start == crate::command_metadata::after_sign(v@, 0),
            crate::command_metadata::is_integer_form(text@),
            magnitude == digits_value(v@, start as int, i as int),
            magnitude <= limit,
            limit == 9223372036854775808,
            forall|j: int| start <= j < v.len() ==> crate::command_metadata::is_digit(v@[j]),
        decreases v.len() - i,
    {
        let d = (v[i] as u64) - ('0' as u64);
        assert(d <= 9);
        if magnitude > (limit - d) / 10 {
            proof {
                lemma_digits_grow(v@, start as int, i + 1, v.len() as int);
                assert(v@[i as int] as nat - '0' as nat == d);
                assert(digits_value(v@, start as int, i + 1) == magnitude * 10 + d);
                assert(magnitude * 10 + d > limit);
                assert(digits_value(v@, start as int, v.len() as int) > limit);
                assert(start == crate::command_metadata::after_sign(v@, 0));
            }
            return None;
        }
        magnitude = magnitude * 10 + d;
        i += 1;
    }
    if negative {
        if magnitude == limit {
            Some(i64::MIN)
        } else {
            Some(-(magnitude as i64))
        }
    } else if magnitude == limit {
        None
    } else {
        Some(magnitude as i64)
    }
}

/// Where the run of digits from `from` on ends at `to`, all of
/// `s[from..to]` are digits.
pub proof fn lemma_digits_run(s: Seq<char>, from: int, to: int)
    requires
        0 <= from <= to <= s.len(),
        crate::command_metadata::digits_end(s, from) == to,
    ensures
        forall|j: int| from <= j < to ==> crate::command_metadata::is_digit(s[j]),
    decreases to - from,
{
    if from < to {
        if crate::command_metadata::is_digit(s[from]) {
            lemma_digits_end_bound(s, from + 1);
            lemma_digits_run(s, from + 1, to);
        }
    }
}

/// A run of digits ends within the text, at or after its start.
pub proof fn lemma_digits_end_bound(s: Seq<char>, i: int)
    requires
        0 <= i <= s.len(),
    ensures
        i <= crate::command_metadata::digits_end(s, i) <= s.len(),
    decreases s.len() - i,
{
    if i < s.len() && crate::command_metadata::is_digit(s[i]) {
        lemma_digits_end_bound(s, i + 1);
    }
}

/// More digits do not make a number smaller.
pub proof fn lemma_digits_grow(s: Seq<char>, from: int, mid: int, to: int)
    requires
        from <= mid <= to,
    ensures
        digits_value(s, from, mid) <= digits_value(s, from, to),
    decreases to - mid,
{
    if mid < to {
        lemma_digits_grow(s, from, mid, to - 1);
    }
}

impl FromParameter<i64> for i64 {
    open spec fn accepts(param: ParameterView) -> bool {
        match param.value {
            ValueView::Text(t) => crate::command_metadata::is_integer_form(t) && i64::MIN
                <= integer_of(t) <= i64::MAX,
            v => v.as_i64() is Some,
        }
    }

    open spec fn reads(param: ParameterView, value: i64) -> bool {
        match param.value {
            ValueView::Text(t) => value == integer_of(t),
            v => v.as_i64() == Some(value),
        }
    }

    fn from_parameter(param: &Parameter) -> (r: Result<i64, Error>)
        ensures
            match r {
                Ok(n) => match param@.value {
                    ValueView::Text(t) => n == integer_of(t),
                    v => v.as_i64() == Some(n),
                },
                Err(e) => e@ == parameter_conversion_error(param@, "i64"@),
            },
    {
        match &param.value {
            Value::Text(t) => match read_integer(t.as_str()) {
                Some(n) => Ok(n),
                None => Err(conversion_error(param, "i64")),
            },
            v => match v.try_into_i64() {
                Ok(n) => Ok(n),
                Err(_) => Err(conversion_error(param, "i64")),
            },
        }
    }
}

impl FromParameter<i32> for i32 {
    open spec fn accepts(param: ParameterView) -> bool {
        match param.value {
            ValueView::Text(t) => crate::command_metadata::is_integer_form(t) && i32::MIN
                <= integer_of(t) <= i32::MAX,
            v => v.as_i32() is Some,
        }
    }

    open spec fn reads(param: ParameterView, value: i32) -> bool {
        match param.value {
            ValueView::Text(t) => value == integer_of(t),
            v => v.as_i32() == Some(value),
        }
    }

    fn from_parameter(param: &Parameter) -> (r: Result<i32, Error>)
        ensures
            match r {
                Ok(n) => match param@.value {
                    ValueView::Text(t) => n == integer_of(t),
                    v => v.as_i32() == Some(n),
                },
                Err(e) => e@ == parameter_conversion_error(param@, "i32"@),
            },
    {
        match &param.value {
            Value::Text(t) => match read_integer(t.as_str()) {
                Some(n) => {
                    if n >= -2147483648 && n <= 2147483647 {
                        Ok(n as i32)
                    } else {
                        Err(conversion_error(param, "i32"))
                    }
                },
                None => Err(conversion_error(param, "i32")),
            },
            v => match v.try_into_i32() {
                Ok(n) => Ok(n),
                Err(_) => Err(conversion_error(param, "i32")),
            },
        }
    }
}

// ---------------------------------------------------------------------------
// Commands
// ---------------------------------------------------------------------------
/// A type of the host that a command takes as an argument: read from the
/// next parameter, or handed in by the environment.
pub trait FromCommandArguments<T, Injection> {
    /// Whether the argument comes from the environment and takes no
    /// parameter.
    spec fn injected() -> bool;

    /// Whether the argument can be had from these arguments and this
    /// environment.
    spec fn available(args: CommandArgumentsView, injection: Injection) -> bool;

    /// Whether `value` is the argument that these arguments and this
    /// environment give. A type says nothing of it unless it says
    /// otherwise.
    open spec fn gives(args: CommandArgumentsView, injection: Injection, value: T) -> bool {
        true
    }

    /// The argument. One that is read from a parameter moves the cursor
    /// past the parameter, whether or not the parameter can be read as the
    /// type; one that comes from the environment leaves the cursor alone.
    fn from_arguments(args: &mut CommandArguments, injection: &mut Injection) -> (r: Result<
        T,
        Error,
    >)
        ensures
            r is Ok <==> Self::available(old(args)@, *old(injection)),
            r is Ok ==> Self::gives(old(args)@, *old(injection), r->Ok_0),
            final(args)@ == if Self::injected() || old(args)@.argument_number >= old(args)@.len() {
                old(args)@
            } else {
                old(args)@.advanced()
            },
            !Self::injected() && old(args)@.argument_number >= old(args)@.len() ==> r is Err
                && r->Err_0@ == old(args)@.missing(),
    ;

    fn is_injected() -> (r: bool)
        ensures
            r == Self::injected(),
    ;
}

impl<I, T: FromParameter<T>> FromCommandArguments<T, I> for T {
    open spec fn injected() -> bool {
        false
    }

    open spec fn available(args: CommandArgumentsView, injection: I) -> bool {
        args.argument_number < args.len() && T::accepts(
            args.parameters.parameters[args.argument_number as int],
        )
    }

    /// The argument is what the next parameter is read as.
    open spec fn gives(args: CommandArgumentsView, injection: I, value: T) -> bool {
        args.argument_number < args.len() && T::reads(
            args.parameters.parameters[args.argument_number as int],
            value,
        )
    }

    fn from_arguments(args: &mut CommandArguments, injection: &mut I) -> (r: Result<T, Error>) {
        match args.get_parameter() {
            Ok(p) => T::from_parameter(&p),
            Err(e) => Err(e),
        }
    }

    fn is_injected() -> (r: bool) {
        false
    }
}

impl CommandArguments {
    /// The next argument of the command, as the type `T` of the host.
    pub fn get<T: FromCommandArguments<T, I>, I>(&mut self, injection: &mut I) -> (r: Result<
        T,
        Error,
    >)
        ensures
            r is Ok <==> T::available(old(self)@, *old(injection)),
            r is Ok ==> T::gives(old(self)@, *old(injection), r->Ok_0),
            final(self)@ == if T::injected() || old(self)@.argument_number >= old(self)@.len() {
                old(self)@
            } else {
                old(self)@.advanced()
            },
            !T::injected() && old(self)@.argument_number >= old(self)@.len() ==> r is Err
                && r->Err_0@ == old(self)@.missing(),
    {
        T::from_arguments(self, injection)
    }
}

/// What a command or an executor gave, as contracts see it.
pub open spec fn outcome_view(outcome: Result<Value, Error>) -> Result<ValueView, ErrorView> {
    match outcome {
        Ok(v) => Ok(v@),
        Err(e) => Err(e@),
    }
}

/// A function of the host that carries out an action.
pub trait Command<Injection> {
    /// Whether the command may be called. A command may be called at any
    /// time unless it says otherwise.
    open spec fn ready(&self) -> bool {
        true
    }

    /// Whether `outcome` may be what the command gives for `state`, the
    /// arguments `before` and the environment `injection`, leaving the
    /// arguments as `after`. A command may give anything unless it says
    /// otherwise.
    open spec fn answers(
        &self,
        state: StateView,
        before: CommandArgumentsView,
        injection: Injection,
        after: CommandArgumentsView,
        outcome: Result<ValueView, ErrorView>,
    ) -> bool {
        true
    }

    fn execute(&self, state: &State, arguments: &mut CommandArguments, injection: &mut Injection)
        -> (r: Result<Value, Error>)
        requires
            self.ready(),
        ensures
            self.answers(
                state@,
                old(arguments)@,
                *old(injection),
                final(arguments)@,
                outcome_view(r),
            ),
    ;

    /// What the command says of itself, as contracts see it. A command
    /// says nothing of itself unless it says otherwise.
    open spec fn described(&self) -> Option<CommandMetadataView> {
        None
    }

    /// What the command says of itself; the registry may change it.
    fn command_metadata(&self) -> (r: Option<CommandMetadata>)
        ensures
            option_command_view(r) == self.described(),
    ;
}

/// What a command is registered with: what it says of itself, under the
/// realm, namespace and name of the key; else what the key alone says.
pub open spec fn registered_metadata(described: Option<CommandMetadataView>, key: CommandKeyView)
    -> CommandMetadataView {
    match described {
        Some(m) => m.under(key),
        None => CommandMetadataView::from_key(key),
    }
}

pub open spec fn none_expected_message(given: nat) -> Seq<char> {
    "Too many parameters ("@ + decimal(given) + ") - none expected"@
}

pub open spec fn no_parameters_expected_message(given: nat, excess: nat) -> Seq<char> {
    "Too many parameters: "@ + decimal(given) + " - no parameters expected, "@ + decimal(excess)
        + " excess parameters found"@
}

pub open spec fn excess_message(given: nat, excess: nat) -> Seq<char> {
    "Too many parameters: "@ + decimal(given) + "; "@ + decimal(excess)
        + " excess parameters found"@
}

/// A function of the host that takes nothing.
pub struct Command0<R, F> {
    f: F,
    result: PhantomData<R>,
}

impl<R, F: Fn() -> R> Command0<R, F> {
    pub closed spec fn function(&self) -> F {
        self.f
    }

    pub fn new(f: F) -> (c: Self)
        ensures
            c.function() == f,
    {
        Command0 { f, result: PhantomData }
    }

    /// The command is ready, whatever the environment, where its function
    /// may be called.
    pub proof fn lemma_ready<Injection>(&self) where Value: From<R>
        requires
            self.function().requires(()),
        ensures
            Command::<Injection>::ready(self),
    {
    }
}

impl<R, F: Fn() -> R, Injection> Command<Injection> for Command0<R, F> where Value: From<R> {
    open spec fn ready(&self) -> bool {
        self.function().requires(())
    }

    /// Without parameters the outcome is what the function gives, as a
    /// value; with parameters there are too many.
    open spec fn answers(
        &self,
        state: StateView,
        before: CommandArgumentsView,
        injection: Injection,
        after: CommandArgumentsView,
        outcome: Result<ValueView, ErrorView>,
    ) -> bool {
        &&& after == before
        &&& match outcome {
            Ok(v) => before.len() == 0 && exists|result: R, value: Value|
                self.function().ensures((), result) && #[trigger] call_ensures(
                    Value::from,
                    (result,),
                    value,
                ) && value@ == v,
            Err(e) => before.len() > 0 && e == error_at(
                ErrorType::TooManyParameters,
                none_expected_message(before.len()),
                before.action_position,
            ),
        }
    }

    /// Calls the function where the action gives no parameters.
    fn execute(&self, state: &State, arguments: &mut CommandArguments, injection: &mut Injection)
        -> (r: Result<Value, Error>)
        ensures
            final(arguments)@ == old(arguments)@,
            match r {
                Ok(v) => old(arguments)@.len() == 0 && exists|result: R|
                    self.function().ensures((), result) && #[trigger] call_ensures(
                        Value::from,
                        (result,),
                        v,
                    ),
                Err(e) => old(arguments)@.len() > 0 && e@ == error_at(
                    ErrorType::TooManyParameters,
                    none_expected_message(old(arguments)@.len()),
                    old(arguments)@.action_position,
                ),
            },
    {
        if arguments.has_no_parameters() {
            let result = (self.f)();
            Ok(Value::from(result))
        } else {
            let given = decimal_string(arguments.len() as u64);
            let message = String::from_str("Too many parameters (").concat(given.as_str()).concat(
                ") - none expected",
            );
            Err(
                Error::new(ErrorType::TooManyParameters, message).with_position(
                    &arguments.action_position,
                ),
            )
        }
    }

    fn command_metadata(&self) -> Option<CommandMetadata> {
        None
    }
}

/// A function of the host that takes the state.
pub struct Command1<R, F> {
    f: F,
    result: PhantomData<R>,
}

impl<R, F: Fn(&State) -> R> Command1<R, F> {
    pub closed spec fn function(&self) -> F {
        self.f
    }

    pub fn new(f: F) -> (c: Self)
        ensures
            c.function() == f,
    {
        Command1 { f, result: PhantomData }
    }

    /// The command is ready, whatever the environment, where its function
    /// may be called on every state.
    pub proof fn lemma_ready<Injection>(&self) where Value: From<R>
        requires
            forall|state: &State| self.function().requires((state,)),
        ensures
            Command::<Injection>::ready(self),
    {
    }
}

fn too_many(arguments: &CommandArguments, middle: &str) -> (e: Error)
    ensures
        e@ == error_at(
            ErrorType::TooManyParameters,
            "Too many parameters: "@ + decimal(arguments@.len()) + middle@ + decimal(
                if arguments@.excess() > 0 {
                    arguments@.excess() as nat
                } else {
                    0
                },
            ) + " excess parameters found"@,
            arguments@.parameter_position(),
        ),
{
    let given = decimal_string(arguments.len() as u64);
    let excess = decimal_string(arguments.excess_parameters() as u64);
    let message = String::from_str("Too many parameters: ").concat(given.as_str()).concat(
        middle,
    ).concat(excess.as_str()).concat(" excess parameters found");
    Error::new(ErrorType::TooManyParameters, message).with_position(
        &arguments.parameter_position(),
    )
}

impl<R, F: Fn(&State) -> R, Injection> Command<Injection> for Command1<R, F> where
    Value: From<R>,
 {
    open spec fn ready(&self) -> bool {
        forall|state: &State| self.function().requires((state,))
    }

    /// Where no parameter is left over the outcome is what the function
    /// gives for the state, as a value; else there are too many
    /// parameters.
    open spec fn answers(
        &self,
        state: StateView,
        before: CommandArgumentsView,
        injection: Injection,
        after: CommandArgumentsView,
        outcome: Result<ValueView, ErrorView>,
    ) -> bool {
        &&& after == before
        &&& match outcome {
            Ok(v) => before.argument_number == before.len() && exists|
                given: &State,
                result: R,
                value: Value,
            |
                #![trigger
                    self.function().ensures((given,), result),
                    call_ensures(Value::from, (result,), value)
                ]
                given@ == state && self.function().ensures((given,), result) && call_ensures(
                    Value::from,
                    (result,),
                    value,
                ) && value@ == v,
            Err(e) => before.argument_number != before.len() && e == error_at(
                ErrorType::TooManyParameters,
                no_parameters_expected_message(
                    before.len(),
                    if before.excess() > 0 {
                        before.excess() as nat
                    } else {
                        0
                    },
                ),
                before.parameter_position(),
            ),
        }
    }

    /// Calls the function on the state where no parameter is left over.
    fn execute(&self, state: &State, arguments: &mut CommandArguments, injection: &mut Injection)
        -> (r: Result<Value, Error>)
        ensures
            final(arguments)@ == old(arguments)@,
            match r {
                Ok(v) => old(arguments)@.argument_number == old(arguments)@.len() && exists|
                    result: R,
                |
                    self.function().ensures((state,), result) && #[trigger] call_ensures(
                        Value::from,
                        (result,),
                        v,
                    ),
                Err(e) => old(arguments)@.argument_number != old(arguments)@.len() && e@
                    == error_at(
                    ErrorType::TooManyParameters,
                    no_parameters_expected_message(
                        old(arguments)@.len(),
                        if old(arguments)@.excess() > 0 {
                            old(arguments)@.excess() as nat
                        } else {
                            0
                        },
                    ),
                    old(arguments)@.parameter_position(),
                ),
            },
    {
        if !arguments.all_parameters_used() {
            let e = too_many(arguments, " - no parameters expected, ");
            assert(e@.message =~= no_parameters_expected_message(
                arguments@.len(),
                if arguments@.excess() > 0 {
                    arguments@.excess() as nat
                } else {
                    0
                },
            ));
            Err(e)
        } else {
            assert(self.function().requires((state,)));
            let result = (self.f)(state);
            Ok(Value::from(result))
        }
    }

    fn command_metadata(&self) -> Option<CommandMetadata> {
        None
    }
}

/// A function of the host that takes the state and one argument.
pub struct Command2<T, R, F> {
    f: F,
    argument: PhantomData<T>,
    result: PhantomData<R>,
}

impl<T, R, F: Fn(&State, T) -> R> Command2<T, R, F> {
    pub closed spec fn function(&self) -> F {
        self.f
    }

    pub fn new(f: F) -> (c: Self)
        ensures
            c.function() == f,
    {
        Command2 { f, argument: PhantomData, result: PhantomData }
    }

    /// The command is ready, in an environment that gives its argument,
    /// where its function may be called on every state and argument.
    pub proof fn lemma_ready<Injection>(&self) where
        Value: From<R>,
        T: FromCommandArguments<T, Injection>,
        requires
            forall|state: &State, argument: T| self.function().requires((state, argument)),
        ensures
            Command::<Injection>::ready(self),
    {
    }
}

impl<T: FromCommandArguments<T, Injection>, R, F: Fn(&State, T) -> R, Injection> Command<
    Injection,
> for Command2<T, R, F> where Value: From<R> {
    open spec fn ready(&self) -> bool {
        forall|state: &State, argument: T| self.function().requires((state, argument))
    }

    /// The argument is taken first. Where it can be had and no parameter
    /// is left over, the outcome is what the function gives for the state
    /// and the argument, as a value. Where it cannot be had, the error is
    /// that of taking it; where a parameter is left over, there are too
    /// many parameters.
    open spec fn answers(
        &self,
        state: StateView,
        before: CommandArgumentsView,
        injection: Injection,
        after: CommandArgumentsView,
        outcome: Result<ValueView, ErrorView>,
    ) -> bool {
        &&& after == if T::injected() || before.argument_number >= before.len() {
            before
        } else {
            before.advanced()
        }
        &&& outcome is Ok <==> T::available(before, injection) && after.argument_number
            == after.len()
        &&& outcome is Ok ==> exists|given: &State, argument: T, result: R, value: Value|
            #![trigger
                self.function().ensures((given, argument), result),
                call_ensures(Value::from, (result,), value)
            ]
            given@ == state && T::gives(before, injection, argument) && self.function().ensures(
                (given, argument),
                result,
            ) && call_ensures(Value::from, (result,), value) && value@ == outcome->Ok_0
        &&& T::available(before, injection) && after.argument_number != after.len()
            ==> outcome == Err::<ValueView, ErrorView>(
            error_at(
                ErrorType::TooManyParameters,
                excess_message(
                    after.len(),
                    if after.excess() > 0 {
                        after.excess() as nat
                    } else {
                        0
                    },
                ),
                after.parameter_position(),
            ),
        )
        &&& !T::injected() && before.argument_number >= before.len() ==> outcome == Err::<
            ValueView,
            ErrorView,
        >(before.missing())
    }

    /// Takes the argument, and calls the function on the state and the
    /// argument where no parameter is left over. Where the argument cannot
    /// be had, the error is that of taking it; where a parameter is left
    /// over, there are too many parameters.
    fn execute(&self, state: &State, arguments: &mut CommandArguments, injection: &mut Injection)
        -> (r: Result<Value, Error>)
        ensures
            final(arguments)@ == if T::injected()
                || old(arguments)@.argument_number >= old(arguments)@.len() {
                old(arguments)@
            } else {
                old(arguments)@.advanced()
            },
            r is Ok <==> T::available(old(arguments)@, *old(injection))
                && final(arguments)@.argument_number == final(arguments)@.len(),
            r is Ok ==> exists|argument: T, result: R|
                #![trigger self.function().ensures((state, argument), result)]
                T::gives(old(arguments)@, *old(injection), argument) && self.function().ensures(
                    (state, argument),
                    result,
                ) && call_ensures(Value::from, (result,), r->Ok_0),
            T::available(old(arguments)@, *old(injection)) && final(arguments)@.argument_number
                != final(arguments)@.len() ==> r is Err && r->Err_0@ == error_at(
                ErrorType::TooManyParameters,
                excess_message(
                    final(arguments)@.len(),
                    if final(arguments)@.excess() > 0 {
                        final(arguments)@.excess() as nat
                    } else {
                        0
                    },
                ),
                final(arguments)@.parameter_position(),
            ),
            !T::injected() && old(arguments)@.argument_number >= old(arguments)@.len() ==> r is Err
                && r->Err_0@ == old(arguments)@.missing(),
    {
        let argument: T = match arguments.get(injection) {
            Ok(a) => a,
            Err(e) => {
                return Err(e);
            },
        };
        if !arguments.all_parameters_used() {
            let e = too_many(arguments, "; ");
            assert(e@.message =~= excess_message(
                arguments@.len(),
                if arguments@.excess() > 0 {
                    arguments@.excess() as nat
                } else {
                    0
                },
            ));
            Err(e)
        } else {
            assert(self.function().requires((state, argument)));
            let result = (self.f)(state, argument);
            let v = Value::from(result);
            assert(T::gives(old(arguments)@, *old(injection), argument)
                && self.function().ensures((state, argument), result) && call_ensures(
                Value::from,
                (result,),
                v,
            ));
            Ok(v)
        }
    }

    fn command_metadata(&self) -> Option<CommandMetadata> {
        None
    }
}

/// A command of one of three kinds, so that commands of several shapes
/// fit in one registry: one that takes nothing, one that takes the state,
/// and one that takes the state and an argument. A kind may itself be a
/// command of three kinds.
pub enum AnyCommand<C0, C1, C2> {
    Zero(C0),
    One(C1),
    Two(C2),
}

impl<Injection, C0: Command<Injection>, C1: Command<Injection>, C2: Command<Injection>> Command<
    Injection,
> for AnyCommand<C0, C1, C2> {
    open spec fn ready(&self) -> bool {
        match self {
            AnyCommand::Zero(c) => c.ready(),
            AnyCommand::One(c) => c.ready(),
            AnyCommand::Two(c) => c.ready(),
        }
    }

    /// The outcome is that of the command that is held.
    open spec fn answers(
        &self,
        state: StateView,
        before: CommandArgumentsView,
        injection: Injection,
        after: CommandArgumentsView,
        outcome: Result<ValueView, ErrorView>,
    ) -> bool {
        match self {
            AnyCommand::Zero(c) => c.answers(state, before, injection, after, outcome),
            AnyCommand::One(c) => c.answers(state, before, injection, after, outcome),
            AnyCommand::Two(c) => c.answers(state, before, injection, after, outcome),
        }
    }

    open spec fn described(&self) -> Option<CommandMetadataView> {
        match self {
            AnyCommand::Zero(c) => c.described(),
            AnyCommand::One(c) => c.described(),
            AnyCommand::Two(c) => c.described(),
        }
    }

    fn execute(&self, state: &State, arguments: &mut CommandArguments, injection: &mut Injection)
        -> (r: Result<Value, Error>) {
        match self {
            AnyCommand::Zero(c) => c.execute(state, arguments, injection),
            AnyCommand::One(c) => c.execute(state, arguments, injection),
            AnyCommand::Two(c) => c.execute(state, arguments, injection),
        }
    }

    fn command_metadata(&self) -> (r: Option<CommandMetadata>) {
        match self {
            AnyCommand::Zero(c) => c.command_metadata(),
            AnyCommand::One(c) => c.command_metadata(),
            AnyCommand::Two(c) => c.command_metadata(),
        }
    }
}

// ---------------------------------------------------------------------------
// Executors
// ---------------------------------------------------------------------------
/// What carries out the actions of a plan.
pub trait CommandExecutor<Injection> {
    /// Whether the executor may be called. An executor may be called at
    /// any time unless it says otherwise.
    open spec fn ready(&self) -> bool {
        true
    }

    /// Whether `outcome` may be what the executor gives for the command
    /// of this realm, namespace and name, called on `state` with
    /// `arguments` in the environment `injection`. An executor may give
    /// anything unless it says otherwise.
    open spec fn answers(
        &self,
        realm: Seq<char>,
        namespace: Seq<char>,
        name: Seq<char>,
        state: StateView,
        arguments: CommandArgumentsView,
        injection: Injection,
        outcome: Result<ValueView, ErrorView>,
    ) -> bool {
        true
    }

    fn execute(
        &self,
        realm: &str,
        namespace: &str,
        command_name: &str,
        state: &State,
        arguments: &mut CommandArguments,
        injection: &mut Injection,
    ) -> (r: Result<Value, Error>)
        requires
            self.ready(),
        ensures
            self.answers(
                realm@,
                namespace@,
                command_name@,
                state@,
                old(arguments)@,
                *old(injection),
                outcome_view(r),
            ),
    ;
}

pub open spec fn keys_view(keys: Seq<CommandKey>) -> Seq<CommandKeyView> {
    Seq::new(keys.len(), |i: int| keys[i]@)
}

/// The error of an action for which no command is registered.
pub open spec fn no_executor_error(namespace: Seq<char>, name: Seq<char>, position: Position)
    -> ErrorView {
    error_at(
        ErrorType::ActionNotRegistered,
        action_not_registered_message(name, seq![namespace]),
        position,
    )
}

pub open spec fn already_registered_error(name: Seq<char>) -> ErrorView {
    crate::error::plain_error(
        ErrorType::CommandAlreadyRegistered,
        "Command '"@ + name + "' is already registered"@,
    )
}

/// The commands of the host by realm, namespace and name, with what is
/// known about them.
pub struct CommandRegistry<I, C> {
    keys: Vec<CommandKey>,
    executors: Vec<C>,
    pub command_metadata_registry: CommandMetadataRegistry,
    injection: PhantomData<I>,
}

impl<I, C: Command<I>> CommandRegistry<I, C> {
    /// The keys of the registered commands, in the order of registration.
    pub closed spec fn keys(&self) -> Seq<CommandKeyView> {
        keys_view(self.keys@)
    }

    /// The registered commands, in the order of registration.
    pub closed spec fn commands(&self) -> Seq<C> {
        self.executors@
    }

    /// What is known about the registered commands.
    pub closed spec fn metadata(&self) -> Seq<crate::command_metadata::CommandMetadataView> {
        self.command_metadata_registry@
    }

    /// Whether the registry is whole: a command for each key, each ready,
    /// and no key twice.
    pub open spec fn inv(&self) -> bool {
        &&& self.keys().len() == self.commands().len()
        &&& self.keys().no_duplicates()
        &&& forall|i: int| 0 <= i < self.commands().len()
            ==> (#[trigger] self.commands()[i]).ready()
    }

    /// The registry without commands.
    pub fn new() -> (r: Self)
        ensures
            r.inv(),
            r.keys() == Seq::<CommandKeyView>::empty(),
            r.commands() == Seq::<C>::empty(),
            r.metadata() == Seq::<crate::command_metadata::CommandMetadataView>::empty(),
    {
        let r = CommandRegistry {
            keys: Vec::new(),
            executors: Vec::new(),
            command_metadata_registry: CommandMetadataRegistry::new(),
            injection: PhantomData,
        };
        assert(r.keys() =~= Seq::<CommandKeyView>::empty());
        assert(r.commands() =~= Seq::<C>::empty());
        r
    }

    /// What is known about the registered commands.
    pub fn metadata_registry(&self) -> (r: &CommandMetadataRegistry)
        ensures
            r@ == self.metadata(),
    {
        &self.command_metadata_registry
    }

    fn find(&self, realm: &str, namespace: &str, name: &str) -> (r: Option<usize>)
        ensures
            match r {
                Some(i) => i < self.keys.len() && self.keys()[i as int] == (CommandKeyView {
                    realm: realm@,
                    namespace: namespace@,
                    name: name@,
                }),
                None => !self.keys().contains(
                    CommandKeyView { realm: realm@, namespace: namespace@, name: name@ },
                ),
            },
    {
        let mut i: usize = 0;
        while i < self.keys.len()
            invariant
                i <= self.keys.len(),
                forall|j: int|
                    0 <= j < i ==> (#[trigger] self.keys()[j]) != (CommandKeyView {
                        realm: realm@,
                        namespace: namespace@,
                        name: name@,
                    }),
            decreases self.keys.len() - i,
        {
            let key = &self.keys[i];
            assert(self.keys()[i as int] == key@);
            if crate::text::same_text(key.realm.as_str(), realm) && crate::text::same_text(
                key.namespace.as_str(),
                namespace,
            ) && crate::text::same_text(key.name.as_str(), name) {
                return Some(i);
            }
            i += 1;
        }
        None
    }

    /// Registers `f` under `key`. The registry of metadata gets what the
    /// command says of itself, under the realm, namespace and name of the
    /// key; else what the key alone says. The metadata is handed back to be
    /// completed. A key cannot be registered twice.
    pub fn register_command(&mut self, key: CommandKey, f: C) -> (r: Result<
        &mut CommandMetadata,
        Error,
    >)
        requires
            old(self).inv(),
            f.ready(),
        ensures
            match r {
                Ok(metadata) => !old(self).keys().contains(key@) && metadata@
                    == registered_metadata(f.described(), key@)
                    && final(self).inv() && final(self).keys() == old(self).keys().push(key@)
                    && final(self).commands() == old(self).commands().push(f)
                        && final(self).metadata() == old(self).metadata().push(
                    final(metadata)@,
                ),
                Err(e) => old(self).keys().contains(key@) && e@ == already_registered_error(
                    key@.name,
                ) && *final(self) == *old(self),
            },
    {
        match self.find(key.realm.as_str(), key.namespace.as_str(), key.name.as_str()) {
            Some(_) => {
                let message = String::from_str("Command '").concat(key.name.as_str()).concat(
                    "' is already registered",
                );
                return Err(Error::new(ErrorType::CommandAlreadyRegistered, message));
            },
            None => {},
        }
        let mut metadata = match f.command_metadata() {
            Some(m) => m,
            None => CommandMetadata::from_key(&key),
        };
        metadata.with_realm(key.realm.as_str());
        metadata.with_namespace(key.namespace.as_str());
        metadata.with_name(key.name.as_str());
        let ghost keys = keys_view(self.keys@);
        let ghost commands = self.command_metadata_registry@;
        self.keys.push(key);
        self.executors.push(f);
        self.command_metadata_registry.commands.push(metadata);
        proof {
            assert(keys_view(self.keys@) =~= keys.push(key@));
            assert(keys_view(self.keys@).no_duplicates()) by {
                assert forall|a: int, b: int|
                    0 <= a < keys.len() + 1 && 0 <= b < keys.len() + 1 && a
                        != b implies keys_view(self.keys@)[a] != keys_view(self.keys@)[b] by {
                    if a < keys.len() && b < keys.len() {
                        assert(keys[a] != keys[b]);
                    } else if a < keys.len() {
                        assert(keys.contains(keys[a]));
                    } else {
                        assert(keys.contains(keys[b]));
                    }
                }
            }
        }
        let n = self.command_metadata_registry.commands.len();
        let last = &mut self.command_metadata_registry.commands[n - 1];
        Ok(last)
    }
}

impl<I, C: Command<I>> CommandExecutor<I> for CommandRegistry<I, C> {
    open spec fn ready(&self) -> bool {
        self.inv()
    }

    /// The outcome is that of the command registered under the realm,
    /// namespace and name; without such a command the action is not
    /// registered.
    open spec fn answers(
        &self,
        realm: Seq<char>,
        namespace: Seq<char>,
        name: Seq<char>,
        state: StateView,
        arguments: CommandArgumentsView,
        injection: I,
        outcome: Result<ValueView, ErrorView>,
    ) -> bool {
        if self.keys().contains(CommandKeyView { realm, namespace, name }) {
            exists|i: int, after: CommandArgumentsView|
                0 <= i < self.keys().len() && i < self.commands().len() && self.keys()[i] == (
                CommandKeyView { realm, namespace, name }) && #[trigger] self.commands()[i].answers(
                    state,
                    arguments,
                    injection,
                    after,
                    outcome,
                )
        } else {
            outcome == Err::<ValueView, ErrorView>(
                no_executor_error(namespace, name, arguments.action_position),
            )
        }
    }

    /// Calls the command registered under the realm, namespace and name.
    /// Without such a command the action is not registered; else the
    /// outcome is that of the command.
    fn execute(
        &self,
        realm: &str,
        namespace: &str,
        command_name: &str,
        state: &State,
        arguments: &mut CommandArguments,
        injection: &mut I,
    ) -> (r: Result<Value, Error>)
        ensures
            !self.keys().contains(
                CommandKeyView { realm: realm@, namespace: namespace@, name: command_name@ },
            ) ==> final(arguments)@ == old(arguments)@,
            self.keys().contains(
                CommandKeyView { realm: realm@, namespace: namespace@, name: command_name@ },
            ) ==> exists|i: int|
                0 <= i < self.keys().len() && i < self.commands().len() && self.keys()[i] == (
                CommandKeyView { realm: realm@, namespace: namespace@, name: command_name@ })
                    && #[trigger] self.commands()[i].answers(
                    state@,
                    old(arguments)@,
                    *old(injection),
                    final(arguments)@,
                    outcome_view(r),
                ),
    {
        match self.find(realm, namespace, command_name) {
            Some(i) => {
                let r = self.executors[i].execute(state, arguments, injection);
                assert(self.commands()[i as int].answers(
                    state@,
                    old(arguments)@,
                    *old(injection),
                    arguments@,
                    outcome_view(r),
                ));
                r
            },
            None => {
                let mut searched: Vec<String> = Vec::new();
                searched.push(namespace.to_owned());
                assert(crate::text::texts(searched@) =~= seq![namespace@]);
                let action = crate::query::ActionRequest::new(
                    command_name.to_owned(),
                ).with_position(arguments.action_position);
                Err(Error::action_not_registered(&action, &searched))
            },
        }
    }
}

} // verus!
