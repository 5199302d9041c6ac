//! What is known about commands: their names, arguments and defaults.
use crate::query::{Query, QueryView};
use crate::text::{chars_of, same_text, texts};
use crate::value::{Value, ValueView};
use vstd::prelude::*;
use vstd::string::StringExecFns;

verus! {

/// Something that was found wrong with a command registry: a warning, or
/// an error where `is_error` is set. The command is named by realm,
/// namespace and name.
#[derive(Debug)]
pub struct CommandRegistryIssue {
    pub realm: String,
    pub namespace: String,
    pub name: String,
    pub is_error: bool,
    pub message: String,
}

pub struct CommandRegistryIssueView {
    pub realm: Seq<char>,
    pub namespace: Seq<char>,
    pub name: Seq<char>,
    pub is_error: bool,
    pub message: Seq<char>,
}

impl View for CommandRegistryIssue {
    type V = CommandRegistryIssueView;

    open spec fn view(&self) -> CommandRegistryIssueView {
        CommandRegistryIssueView {
            realm: self.realm@,
            namespace: self.namespace@,
            name: self.name@,
            is_error: self.is_error,
            message: self.message@,
        }
    }
}

impl CommandRegistryIssue {
    pub fn new(realm: &str, namespace: &str, name: &str, is_error: bool, message: String) -> (r:
        CommandRegistryIssue)
        ensures
            r@ == (CommandRegistryIssueView {
                realm: realm@,
                namespace: namespace@,
                name: name@,
                is_error,
                message: message@,
            }),
    {
        CommandRegistryIssue {
            realm: realm.to_owned(),
            namespace: namespace.to_owned(),
            name: name.to_owned(),
            is_error,
            message,
        }
    }

    pub fn warning(realm: &str, namespace: &str, name: &str, message: String) -> (r:
        CommandRegistryIssue)
        ensures
            r@ == (CommandRegistryIssueView {
                realm: realm@,
                namespace: namespace@,
                name: name@,
                is_error: false,
                message: message@,
            }),
    {
        CommandRegistryIssue::new(realm, namespace, name, false, message)
    }

    pub fn error(realm: &str, namespace: &str, name: &str, message: String) -> (r:
        CommandRegistryIssue)
        ensures
            r@ == (CommandRegistryIssueView {
                realm: realm@,
                namespace: namespace@,
                name: name@,
                is_error: true,
                message: message@,
            }),
    {
        CommandRegistryIssue::new(realm, namespace, name, true, message)
    }
}

/// One of the names that an enum argument takes, and the value it stands
/// for.
#[derive(Debug)]
pub struct EnumArgumentAlternative {
    pub name: String,
    pub value: Value,
}

pub struct EnumArgumentAlternativeView {
    pub name: Seq<char>,
    pub value: ValueView,
}

impl View for EnumArgumentAlternative {
    type V = EnumArgumentAlternativeView;

    open spec fn view(&self) -> EnumArgumentAlternativeView {
        EnumArgumentAlternativeView { name: self.name@, value: self.value@ }
    }
}

impl Clone for EnumArgumentAlternative {
    fn clone(&self) -> (r: EnumArgumentAlternative)
        ensures
            r@ == self@,
    {
        EnumArgumentAlternative { name: self.name.clone(), value: self.value.clone() }
    }
}

#[derive(Debug, Clone, Copy, PartialEq, Eq, Structural)]
pub enum EnumArgumentType {
    String,
    Integer,
    IntegerOption,
    Float,
    FloatOption,
    Boolean,
}

#[derive(Debug)]
pub struct EnumArgument {
    pub name: String,
    pub values: Vec<EnumArgumentAlternative>,
    pub others_allowed: bool,
    pub value_type: EnumArgumentType,
}

pub struct EnumArgumentView {
    pub name: Seq<char>,
    pub values: Seq<EnumArgumentAlternativeView>,
    pub others_allowed: bool,
    pub value_type: EnumArgumentType,
}

pub open spec fn alternatives_view(values: Seq<EnumArgumentAlternative>) -> Seq<
    EnumArgumentAlternativeView,
> {
    Seq::new(values.len(), |i: int| values[i]@)
}

impl View for EnumArgument {
    type V = EnumArgumentView;

    open spec fn view(&self) -> EnumArgumentView {
        EnumArgumentView {
            name: self.name@,
            values: alternatives_view(self.values@),
            others_allowed: self.others_allowed,
            value_type: self.value_type,
        }
    }
}

/// The value of the first of `values` whose name is `name`.
pub open spec fn alternative_value(values: Seq<EnumArgumentAlternativeView>, name: Seq<char>)
    -> Option<ValueView>
    decreases values.len(),
{
    if values.len() == 0 {
        None
    } else if values[0].name == name {
        Some(values[0].value)
    } else {
        alternative_value(values.drop_first(), name)
    }
}

impl EnumArgumentView {
    /// The value that `name` stands for: that of the first alternative of
    /// that name; the name itself where there is none and other names are
    /// allowed.
    pub open spec fn name_to_value(self, name: Seq<char>) -> Option<ValueView> {
        match alternative_value(self.values, name) {
            Some(v) => Some(v),
            None => if self.others_allowed {
                Some(ValueView::Text(name))
            } else {
                None
            },
        }
    }
}

impl Clone for EnumArgument {
    fn clone(&self) -> (r: EnumArgument)
        ensures
            r@ == self@,
    {
        let mut values: Vec<EnumArgumentAlternative> = Vec::new();
        let mut i: usize = 0;
        while i < self.values.len()
            invariant
                i <= self.values.len(),
                values.len() == i,
                forall|j: int| 0 <= j < i ==> values@[j]@ == self.values@[j]@,
            decreases self.values.len() - i,
        {
            values.push(self.values[i].clone());
            i += 1;
        }
        assert(alternatives_view(values@) =~= alternatives_view(self.values@));
        EnumArgument {
            name: self.name.clone(),
            values,
            others_allowed: self.others_allowed,
            value_type: self.value_type,
        }
    }
}

impl EnumArgument {
    /// An enum of strings without alternatives that allows no other names.
    pub fn new(name: &str) -> (e: EnumArgument)
        ensures
            e@ == (EnumArgumentView {
                name: name@,
                values: Seq::empty(),
                others_allowed: false,
                value_type: EnumArgumentType::String,
            }),
    {
        let e = EnumArgument {
            name: name.to_owned(),
            values: Vec::new(),
            others_allowed: false,
            value_type: EnumArgumentType::String,
        };
        assert(e@.values =~= Seq::empty());
        e
    }

    /// Adds an alternative after those that are there.
    pub fn with_value(&mut self, name: &str, value: Value) -> (r: &mut Self)
        ensures
            r@ == (EnumArgumentView {
                values: old(self)@.values.push(
                    EnumArgumentAlternativeView { name: name@, value: value@ },
                ),
                ..old(self)@
            }),
            *final(self) == *final(r),
    {
        let ghost before = alternatives_view(self.values@);
        self.values.push(EnumArgumentAlternative { name: name.to_owned(), value });
        assert(alternatives_view(self.values@) =~= before.push(
            EnumArgumentAlternativeView { name: name@, value: value@ },
        ));
        self
    }

    pub fn with_value_type(&mut self, value_type: EnumArgumentType) -> (r: &mut Self)
        ensures
            r@ == (EnumArgumentView { value_type, ..old(self)@ }),
            *final(self) == *final(r),
    {
        self.value_type = value_type;
        self
    }

    pub fn with_others_allowed(&mut self) -> (r: &mut Self)
        ensures
            r@ == (EnumArgumentView { others_allowed: true, ..old(self)@ }),
            *final(self) == *final(r),
    {
        self.others_allowed = true;
        self
    }

    /// The value that `name` stands for.
    pub fn name_to_value(&self, name: String) -> (r: Option<Value>)
        ensures
            match r {
                Some(v) => self@.name_to_value(name@) == Some(v@),
                None => self@.name_to_value(name@) is None,
            },
    {
        let ghost all = alternatives_view(self.values@);
        let mut i: usize = 0;
        assert(all.skip(0) =~= all);
        while i < self.values.len()
            invariant
                i <= self.values.len(),
                all == alternatives_view(self.values@),
                alternative_value(all, name@) == alternative_value(all.skip(i as int), name@),
            decreases self.values.len() - i,
        {
            assert(all.skip(i as int)[0] == self.values@[i as int]@);
            if same_text(self.values[i].name.as_str(), name.as_str()) {
                return Some(self.values[i].value.clone());
            }
            assert(all.skip(i as int).drop_first() =~= all.skip(i + 1));
            i += 1;
        }
        assert(all.skip(i as int).len() == 0);
        if self.others_allowed {
            Some(Value::Text(name))
        } else {
            None
        }
    }
}

/// The type that a parameter is read as.
#[derive(Debug)]
pub enum ArgumentType {
    String,
    Integer,
    IntegerOption,
    Float,
    FloatOption,
    Boolean,
    Enum(EnumArgument),
    Any,
    /// No type was given.
    Unspecified,
}

pub enum ArgumentTypeView {
    String,
    Integer,
    IntegerOption,
    Float,
    FloatOption,
    Boolean,
    Enum(EnumArgumentView),
    Any,
    Unspecified,
}

impl View for ArgumentType {
    type V = ArgumentTypeView;

    open spec fn view(&self) -> ArgumentTypeView {
        match self {
            ArgumentType::String => ArgumentTypeView::String,
            ArgumentType::Integer => ArgumentTypeView::Integer,
            ArgumentType::IntegerOption => ArgumentTypeView::IntegerOption,
            ArgumentType::Float => ArgumentTypeView::Float,
            ArgumentType::FloatOption => ArgumentTypeView::FloatOption,
            ArgumentType::Boolean => ArgumentTypeView::Boolean,
            ArgumentType::Enum(e) => ArgumentTypeView::Enum(e@),
            ArgumentType::Any => ArgumentTypeView::Any,
            ArgumentType::Unspecified => ArgumentTypeView::Unspecified,
        }
    }
}

impl Clone for ArgumentType {
    fn clone(&self) -> (r: ArgumentType)
        ensures
            r@ == self@,
    {
        match self {
            ArgumentType::String => ArgumentType::String,
            ArgumentType::Integer => ArgumentType::Integer,
            ArgumentType::IntegerOption => ArgumentType::IntegerOption,
            ArgumentType::Float => ArgumentType::Float,
            ArgumentType::FloatOption => ArgumentType::FloatOption,
            ArgumentType::Boolean => ArgumentType::Boolean,
            ArgumentType::Enum(e) => ArgumentType::Enum(e.clone()),
            ArgumentType::Any => ArgumentType::Any,
            ArgumentType::Unspecified => ArgumentType::Unspecified,
        }
    }
}

impl ArgumentType {
    /// Whether an empty parameter stands for "no value".
    pub fn is_option(&self) -> (r: bool)
        ensures
            r == (self@ is IntegerOption || self@ is FloatOption),
    {
        match self {
            ArgumentType::IntegerOption => true,
            ArgumentType::FloatOption => true,
            _ => false,
        }
    }
}

impl Default for ArgumentType {
    fn default() -> (r: ArgumentType)
        ensures
            r@ == ArgumentTypeView::Any,
    {
        ArgumentType::Any
    }
}

/// How a user interface asks for the argument.
#[derive(Debug, Clone, Copy, PartialEq, Eq, Structural)]
pub enum ArgumentGUIInfo {
    TextField(usize),
    TextArea(usize, usize),
    IntegerField,
    FloatField,
    Checkbox,
    EnumSelector,
    /// The argument is not asked for.
    Hidden,
}

impl Default for ArgumentGUIInfo {
    fn default() -> (r: ArgumentGUIInfo)
        ensures
            r == ArgumentGUIInfo::TextField(20),
    {
        ArgumentGUIInfo::TextField(20)
    }
}

/// What an argument is where the action gives no parameter for it.
#[derive(Debug)]
pub enum DefaultValue {
    Value(Value),
    Query(Query),
    NoDefault,
}

pub enum DefaultValueView {
    Value(ValueView),
    Query(QueryView),
    NoDefault,
}

impl View for DefaultValue {
    type V = DefaultValueView;

    open spec fn view(&self) -> DefaultValueView {
        match self {
            DefaultValue::Value(v) => DefaultValueView::Value(v@),
            DefaultValue::Query(q) => DefaultValueView::Query(q@),
            DefaultValue::NoDefault => DefaultValueView::NoDefault,
        }
    }
}

impl Clone for DefaultValue {
    fn clone(&self) -> (r: DefaultValue)
        ensures
            r@ == self@,
    {
        match self {
            DefaultValue::Value(v) => DefaultValue::Value(v.clone()),
            DefaultValue::Query(q) => DefaultValue::Query(q.clone()),
            DefaultValue::NoDefault => DefaultValue::NoDefault,
        }
    }
}

impl DefaultValue {
    pub fn new() -> (r: DefaultValue)
        ensures
            r@ == DefaultValueView::NoDefault,
    {
        DefaultValue::NoDefault
    }

    /// The default that is the empty value.
    pub fn null() -> (r: DefaultValue)
        ensures
            r@ == DefaultValueView::Value(ValueView::Empty),
    {
        DefaultValue::Value(Value::Empty)
    }

    pub fn is_null(&self) -> (r: bool)
        ensures
            r == (self@ == DefaultValueView::Value(ValueView::Empty)),
    {
        match self {
            DefaultValue::Value(Value::Empty) => true,
            _ => false,
        }
    }

    pub fn from_value(value: Value) -> (r: DefaultValue)
        ensures
            r@ == DefaultValueView::Value(value@),
    {
        DefaultValue::Value(value)
    }

    pub fn from_query(query: Query) -> (r: DefaultValue)
        ensures
            r@ == DefaultValueView::Query(query@),
    {
        DefaultValue::Query(query)
    }

    pub fn from_string(value: &str) -> (r: DefaultValue)
        ensures
            r@ == DefaultValueView::Value(ValueView::Text(value@)),
    {
        DefaultValue::Value(Value::Text(value.to_owned()))
    }

    pub fn from_integer(value: i64) -> (r: DefaultValue)
        ensures
            r@ == DefaultValueView::Value(ValueView::I64(value)),
    {
        DefaultValue::Value(Value::I64(value))
    }
}

impl Default for DefaultValue {
    fn default() -> (r: DefaultValue)
        ensures
            r@ == DefaultValueView::NoDefault,
    {
        DefaultValue::NoDefault
    }
}

/// One argument of a command.
#[derive(Debug)]
pub struct ArgumentInfo {
    pub name: String,
    pub label: String,
    pub default: DefaultValue,
    pub argument_type: ArgumentType,
    pub multiple: bool,
    pub gui_info: ArgumentGUIInfo,
}

pub struct ArgumentInfoView {
    pub name: Seq<char>,
    pub label: Seq<char>,
    pub default: DefaultValueView,
    pub argument_type: ArgumentTypeView,
    pub multiple: bool,
    pub gui_info: ArgumentGUIInfo,
}

impl View for ArgumentInfo {
    type V = ArgumentInfoView;

    open spec fn view(&self) -> ArgumentInfoView {
        ArgumentInfoView {
            name: self.name@,
            label: self.label@,
            default: self.default@,
            argument_type: self.argument_type@,
            multiple: self.multiple,
            gui_info: self.gui_info,
        }
    }
}

impl Clone for ArgumentInfo {
    fn clone(&self) -> (r: ArgumentInfo)
        ensures
            r@ == self@,
    {
        ArgumentInfo {
            name: self.name.clone(),
            label: self.label.clone(),
            default: self.default.clone(),
            argument_type: self.argument_type.clone(),
            multiple: self.multiple,
            gui_info: self.gui_info,
        }
    }
}

/// `name` with a space for each `_`.
pub open spec fn label_of(name: Seq<char>) -> Seq<char> {
    Seq::new(
        name.len(),
        |i: int|
            if name[i] == '_' {
                ' '
            } else {
                name[i]
            },
    )
}

fn label_for(name: &str) -> (label: String)
    ensures
        label@ == label_of(name@),
{
    let chars = chars_of(name);
    let mut out = String::new();
    let mut i: usize = 0;
    while i < chars.len()
        invariant
            i <= chars.len(),
            chars@ == name@,
            out@ == label_of(name@).take(i as int),
        decreases chars.len() - i,
    {
        let c = chars[i];
        out.push(
            if c == '_' {
                ' '
            } else {
                c
            },
        );
        i += 1;
        assert(out@ =~= label_of(name@).take(i as int));
    }
    assert(label_of(name@).take(i as int) =~= label_of(name@));
    out
}

impl ArgumentInfoView {
    /// The argument called `name` of the given type, default and user
    /// interface, labelled by its name.
    pub open spec fn of(
        name: Seq<char>,
        argument_type: ArgumentTypeView,
        default: DefaultValueView,
        gui_info: ArgumentGUIInfo,
    ) -> ArgumentInfoView {
        ArgumentInfoView {
            name,
            label: label_of(name),
            default,
            argument_type,
            multiple: false,
            gui_info,
        }
    }
}

impl ArgumentInfo {
    fn of(name: &str, argument_type: ArgumentType, default: DefaultValue, gui_info: ArgumentGUIInfo)
        -> (a: ArgumentInfo)
        ensures
            a@ == ArgumentInfoView::of(name@, argument_type@, default@, gui_info),
    {
        ArgumentInfo {
            name: name.to_owned(),
            label: label_for(name),
            default,
            argument_type,
            multiple: false,
            gui_info,
        }
    }

    /// An argument of any type.
    pub fn any_argument(name: &str) -> (a: ArgumentInfo)
        ensures
            a@ == ArgumentInfoView::of(
                name@,
                ArgumentTypeView::Any,
                DefaultValueView::NoDefault,
                ArgumentGUIInfo::TextField(40),
            ),
    {
        ArgumentInfo::of(
            name,
            ArgumentType::Any,
            DefaultValue::NoDefault,
            ArgumentGUIInfo::TextField(40),
        )
    }

    /// An argument of any type.
    pub fn argument(name: &str) -> (a: ArgumentInfo)
        ensures
            a@ == ArgumentInfoView::of(
                name@,
                ArgumentTypeView::Any,
                DefaultValueView::NoDefault,
                ArgumentGUIInfo::TextField(40),
            ),
    {
        ArgumentInfo::any_argument(name)
    }

    pub fn string_argument(name: &str) -> (a: ArgumentInfo)
        ensures
            a@ == ArgumentInfoView::of(
                name@,
                ArgumentTypeView::String,
                DefaultValueView::NoDefault,
                ArgumentGUIInfo::TextField(40),
            ),
    {
        ArgumentInfo::of(
            name,
            ArgumentType::String,
            DefaultValue::NoDefault,
            ArgumentGUIInfo::TextField(40),
        )
    }

    /// An integer argument; as an option it defaults to the empty value.
    pub fn integer_argument(name: &str, option: bool) -> (a: ArgumentInfo)
        ensures
            a@ == if option {
                ArgumentInfoView::of(
                    name@,
                    ArgumentTypeView::IntegerOption,
                    DefaultValueView::Value(ValueView::Empty),
                    ArgumentGUIInfo::IntegerField,
                )
            } else {
                ArgumentInfoView::of(
                    name@,
                    ArgumentTypeView::Integer,
                    DefaultValueView::NoDefault,
                    ArgumentGUIInfo::IntegerField,
                )
            },
    {
        if option {
            ArgumentInfo::of(
                name,
                ArgumentType::IntegerOption,
                DefaultValue::null(),
                ArgumentGUIInfo::IntegerField,
            )
        } else {
            ArgumentInfo::of(
                name,
                ArgumentType::Integer,
                DefaultValue::NoDefault,
                ArgumentGUIInfo::IntegerField,
            )
        }
    }

    /// An argument that is a number with a fraction; as an option it
    /// defaults to the empty value.
    pub fn float_argument(name: &str, option: bool) -> (a: ArgumentInfo)
        ensures
            a@ == if option {
                ArgumentInfoView::of(
                    name@,
                    ArgumentTypeView::FloatOption,
                    DefaultValueView::Value(ValueView::Empty),
                    ArgumentGUIInfo::FloatField,
                )
            } else {
                ArgumentInfoView::of(
                    name@,
                    ArgumentTypeView::Float,
                    DefaultValueView::NoDefault,
                    ArgumentGUIInfo::FloatField,
                )
            },
    {
        if option {
            ArgumentInfo::of(
                name,
                ArgumentType::FloatOption,
                DefaultValue::null(),
                ArgumentGUIInfo::FloatField,
            )
        } else {
            ArgumentInfo::of(
                name,
                ArgumentType::Float,
                DefaultValue::NoDefault,
                ArgumentGUIInfo::FloatField,
            )
        }
    }

    pub fn boolean_argument(name: &str) -> (a: ArgumentInfo)
        ensures
            a@ == ArgumentInfoView::of(
                name@,
                ArgumentTypeView::Boolean,
                DefaultValueView::NoDefault,
                ArgumentGUIInfo::Checkbox,
            ),
    {
        ArgumentInfo::of(
            name,
            ArgumentType::Boolean,
            DefaultValue::NoDefault,
            ArgumentGUIInfo::Checkbox,
        )
    }

    /// An argument that takes one of the names of `spec`.
    pub fn enum_argument(name: &str, spec: EnumArgument) -> (a: ArgumentInfo)
        ensures
            a@ == ArgumentInfoView::of(
                name@,
                ArgumentTypeView::Enum(spec@),
                DefaultValueView::NoDefault,
                ArgumentGUIInfo::EnumSelector,
            ),
    {
        ArgumentInfo::of(
            name,
            ArgumentType::Enum(spec),
            DefaultValue::NoDefault,
            ArgumentGUIInfo::EnumSelector,
        )
    }

    pub fn with_default_none(&mut self) -> (r: &mut Self)
        ensures
            r@ == (ArgumentInfoView {
                default: DefaultValueView::Value(ValueView::Empty),
                ..old(self)@
            }),
            *final(self) == *final(r),
    {
        self.default = DefaultValue::null();
        self
    }

    pub fn with_default(&mut self, value: &str) -> (r: &mut Self)
        ensures
            r@ == (ArgumentInfoView {
                default: DefaultValueView::Value(ValueView::Text(value@)),
                ..old(self)@
            }),
            *final(self) == *final(r),
    {
        self.default = DefaultValue::from_string(value);
        self
    }

    /// Sets the default to a query that is evaluated for the value.
    pub fn with_default_query(&mut self, query: Query) -> (r: &mut Self)
        ensures
            r@ == (ArgumentInfoView { default: DefaultValueView::Query(query@), ..old(self)@ }),
            *final(self) == *final(r),
    {
        self.default = DefaultValue::from_query(query);
        self
    }

    pub fn true_by_default(&mut self) -> (r: &mut Self)
        ensures
            r@ == (ArgumentInfoView {
                default: DefaultValueView::Value(ValueView::Bool(true)),
                ..old(self)@
            }),
            *final(self) == *final(r),
    {
        self.default = DefaultValue::from_value(Value::Bool(true));
        self
    }

    pub fn false_by_default(&mut self) -> (r: &mut Self)
        ensures
            r@ == (ArgumentInfoView {
                default: DefaultValueView::Value(ValueView::Bool(false)),
                ..old(self)@
            }),
            *final(self) == *final(r),
    {
        self.default = DefaultValue::from_value(Value::Bool(false));
        self
    }

    pub fn with_label(&mut self, label: &str) -> (r: &mut Self)
        ensures
            r@ == (ArgumentInfoView { label: label@, ..old(self)@ }),
            *final(self) == *final(r),
    {
        self.label = label.to_owned();
        self
    }
}

impl Default for ArgumentInfo {
    fn default() -> (a: ArgumentInfo)
        ensures
            a@ == (ArgumentInfoView {
                name: Seq::empty(),
                label: Seq::empty(),
                default: DefaultValueView::NoDefault,
                argument_type: ArgumentTypeView::Any,
                multiple: false,
                gui_info: ArgumentGUIInfo::TextField(20),
            }),
    {
        ArgumentInfo {
            name: String::new(),
            label: String::new(),
            default: DefaultValue::NoDefault,
            argument_type: ArgumentType::Any,
            multiple: false,
            gui_info: ArgumentGUIInfo::TextField(20),
        }
    }
}

// ---------------------------------------------------------------------------
// The forms of parameters
// ---------------------------------------------------------------------------
pub open spec fn is_digit(c: char) -> bool {
    '0' <= c && c <= '9'
}

/// Where the run of digits that begins at `i` ends.
pub open spec fn digits_end(s: Seq<char>, i: int) -> int
    decreases s.len() - i,
{
    if 0 <= i < s.len() && is_digit(s[i]) {
        digits_end(s, i + 1)
    } else {
        i
    }
}

/// The place after a sign at `i`, or `i` where there is none.
pub open spec fn after_sign(s: Seq<char>, i: int) -> int {
    if 0 <= i < s.len() && (s[i] == '-' || s[i] == '+') {
        i + 1
    } else {
        i
    }
}

/// An integer: an optional sign and digits, at least one.
pub open spec fn is_integer_form(s: Seq<char>) -> bool {
    let start = after_sign(s, 0);
    digits_end(s, start) > start && digits_end(s, start) == s.len()
}

/// A number with a fraction: an optional sign and digits, then optionally
/// a `.` and digits, then optionally `e` or `E`, an optional sign and
/// digits. There is a digit before the `.` and in the exponent.
pub open spec fn is_float_form(s: Seq<char>) -> bool {
    let start = after_sign(s, 0);
    let whole = digits_end(s, start);
    let fraction = if whole < s.len() && s[whole] == '.' {
        digits_end(s, whole + 1)
    } else {
        whole
    };
    let exponent_start = after_sign(s, fraction + 1);
    whole > start && if fraction < s.len() && (s[fraction] == 'e' || s[fraction] == 'E') {
        digits_end(s, exponent_start) > exponent_start && digits_end(s, exponent_start)
            == s.len()
    } else {
        fraction == s.len()
    }
}

/// What a boolean is written as.
pub open spec fn boolean_of(s: Seq<char>) -> Option<bool> {
    if s == "true"@ || s == "t"@ || s == "yes"@ || s == "y"@ || s == "1"@ {
        Some(true)
    } else if s == "false"@ || s == "f"@ || s == "no"@ || s == "n"@ || s == "0"@ {
        Some(false)
    } else {
        None
    }
}

fn skip_sign(v: &Vec<char>, i: usize) -> (j: usize)
    requires
        i <= v.len(),
    ensures
        j == after_sign(v@, i as int),
        i <= j <= v.len(),
{
    if i < v.len() && (v[i] == '-' || v[i] == '+') {
        i + 1
    } else {
        i
    }
}

fn skip_digits(v: &Vec<char>, i: usize) -> (j: usize)
    requires
        i <= v.len(),
    ensures
        j == digits_end(v@, i as int),
        i <= j <= v.len(),
{
    let mut j: usize = i;
    while j < v.len() && v[j] >= '0' && v[j] <= '9'
        invariant
            i <= j <= v.len(),
            digits_end(v@, i as int) == digits_end(v@, j as int),
        decreases v.len() - j,
    {
        j += 1;
    }
    j
}

/// Whether `text` is written as an integer.
pub fn has_integer_form(text: &str) -> (r: bool)
    ensures
        r == is_integer_form(text@),
{
    let v = chars_of(text);
    let start = skip_sign(&v, 0);
    let end = skip_digits(&v, start);
    end > start && end == v.len()
}

/// Whether `text` is written as a number with a fraction.
pub fn has_float_form(text: &str) -> (r: bool)
    ensures
        r == is_float_form(text@),
{
    let v = chars_of(text);
    let start = skip_sign(&v, 0);
    let whole = skip_digits(&v, start);
    let fraction = if whole < v.len() && v[whole] == '.' {
        skip_digits(&v, whole + 1)
    } else {
        whole
    };
    if whole <= start {
        return false;
    }
    if fraction < v.len() && (v[fraction] == 'e' || v[fraction] == 'E') {
        let exponent_start = skip_sign(&v, fraction + 1);
        let end = skip_digits(&v, exponent_start);
        end > exponent_start && end == v.len()
    } else {
        fraction == v.len()
    }
}

/// The boolean that `text` is written as.
pub fn read_boolean(text: &str) -> (r: Option<bool>)
    ensures
        r == boolean_of(text@),
{
    if same_text(text, "true") || same_text(text, "t") || same_text(text, "yes") || same_text(
        text,
        "y",
    ) || same_text(text, "1") {
        Some(true)
    } else if same_text(text, "false") || same_text(text, "f") || same_text(text, "no")
        || same_text(text, "n") || same_text(text, "0") {
        Some(false)
    } else {
        None
    }
}

impl ArgumentTypeView {
    /// Whether the type takes a parameter of the text `text`.
    pub open spec fn takes_text(self, text: Seq<char>) -> bool {
        match self {
            ArgumentTypeView::String => true,
            ArgumentTypeView::Integer => is_integer_form(text),
            ArgumentTypeView::IntegerOption => text.len() == 0 || is_integer_form(text),
            ArgumentTypeView::Float => is_float_form(text),
            ArgumentTypeView::FloatOption => text.len() == 0 || is_float_form(text),
            ArgumentTypeView::Boolean => boolean_of(text) is Some,
            ArgumentTypeView::Enum(e) => e.name_to_value(text) is Some,
            ArgumentTypeView::Any => true,
            ArgumentTypeView::Unspecified => false,
        }
    }

    /// The value of a parameter of the text `text`: nothing for an empty
    /// optional parameter, what the name stands for with an enum, else the
    /// text.
    pub open spec fn value_of_text(self, text: Seq<char>) -> ValueView {
        match self {
            ArgumentTypeView::IntegerOption => if text.len() == 0 {
                ValueView::Empty
            } else {
                ValueView::Text(text)
            },
            ArgumentTypeView::FloatOption => if text.len() == 0 {
                ValueView::Empty
            } else {
                ValueView::Text(text)
            },
            ArgumentTypeView::Enum(e) => match e.name_to_value(text) {
                Some(v) => v,
                None => ValueView::Text(text),
            },
            _ => ValueView::Text(text),
        }
    }

    /// The name of the type in messages.
    pub open spec fn label(self) -> Seq<char> {
        match self {
            ArgumentTypeView::String => "string"@,
            ArgumentTypeView::Integer => "int"@,
            ArgumentTypeView::IntegerOption => "int_opt"@,
            ArgumentTypeView::Float => "float"@,
            ArgumentTypeView::FloatOption => "float_opt"@,
            ArgumentTypeView::Boolean => "bool"@,
            ArgumentTypeView::Enum(e) => e.name,
            ArgumentTypeView::Any => "any"@,
            ArgumentTypeView::Unspecified => "none"@,
        }
    }
}

impl ArgumentType {
    /// The value of a parameter of the text `text`, where the type takes
    /// the text.
    pub fn read_text(&self, text: &str) -> (r: Option<Value>)
        ensures
            match r {
                Some(v) => self@.takes_text(text@) && v@ == self@.value_of_text(text@),
                None => !self@.takes_text(text@),
            },
    {
        match self {
            ArgumentType::String => Some(Value::Text(text.to_owned())),
            ArgumentType::Integer => {
                if has_integer_form(text) {
                    Some(Value::Text(text.to_owned()))
                } else {
                    None
                }
            },
            ArgumentType::IntegerOption => {
                if text.is_empty() {
                    Some(Value::Empty)
                } else if has_integer_form(text) {
                    Some(Value::Text(text.to_owned()))
                } else {
                    None
                }
            },
            ArgumentType::Float => {
                if has_float_form(text) {
                    Some(Value::Text(text.to_owned()))
                } else {
                    None
                }
            },
            ArgumentType::FloatOption => {
                if text.is_empty() {
                    Some(Value::Empty)
                } else if has_float_form(text) {
                    Some(Value::Text(text.to_owned()))
                } else {
                    None
                }
            },
            ArgumentType::Boolean => {
                if read_boolean(text).is_some() {
                    Some(Value::Text(text.to_owned()))
                } else {
                    None
                }
            },
            ArgumentType::Enum(e) => e.name_to_value(text.to_owned()),
            ArgumentType::Any => Some(Value::Text(text.to_owned())),
            ArgumentType::Unspecified => None,
        }
    }

    /// The name of the type in messages.
    pub fn label(&self) -> (s: String)
        ensures
            s@ == self@.label(),
    {
        match self {
            ArgumentType::String => String::from_str("string"),
            ArgumentType::Integer => String::from_str("int"),
            ArgumentType::IntegerOption => String::from_str("int_opt"),
            ArgumentType::Float => String::from_str("float"),
            ArgumentType::FloatOption => String::from_str("float_opt"),
            ArgumentType::Boolean => String::from_str("bool"),
            ArgumentType::Enum(e) => e.name.clone(),
            ArgumentType::Any => String::from_str("any"),
            ArgumentType::Unspecified => String::from_str("none"),
        }
    }
}

// ---------------------------------------------------------------------------
// Commands
// ---------------------------------------------------------------------------
pub open spec fn arguments_view(arguments: Seq<ArgumentInfo>) -> Seq<ArgumentInfoView> {
    Seq::new(arguments.len(), |i: int| arguments[i]@)
}

fn clone_arguments(arguments: &Vec<ArgumentInfo>) -> (r: Vec<ArgumentInfo>)
    ensures
        arguments_view(r@) == arguments_view(arguments@),
{
    let mut out: Vec<ArgumentInfo> = Vec::new();
    let mut i: usize = 0;
    while i < arguments.len()
        invariant
            i <= arguments.len(),
            out.len() == i,
            forall|j: int| 0 <= j < i ==> out@[j]@ == arguments@[j]@,
        decreases arguments.len() - i,
    {
        out.push(arguments[i].clone());
        i += 1;
    }
    assert(arguments_view(out@) =~= arguments_view(arguments@));
    out
}

/// What names a command: realm, namespace and name.
#[derive(Debug)]
pub struct CommandKey {
    pub realm: String,
    pub namespace: String,
    pub name: String,
}

pub struct CommandKeyView {
    pub realm: Seq<char>,
    pub namespace: Seq<char>,
    pub name: Seq<char>,
}

impl View for CommandKey {
    type V = CommandKeyView;

    open spec fn view(&self) -> CommandKeyView {
        CommandKeyView { realm: self.realm@, namespace: self.namespace@, name: self.name@ }
    }
}

impl Clone for CommandKey {
    fn clone(&self) -> (r: CommandKey)
        ensures
            r@ == self@,
    {
        CommandKey {
            realm: self.realm.clone(),
            namespace: self.namespace.clone(),
            name: self.name.clone(),
        }
    }
}

impl CommandKey {
    pub fn new(realm: &str, namespace: &str, name: &str) -> (k: CommandKey)
        ensures
            k@ == (CommandKeyView { realm: realm@, namespace: namespace@, name: name@ }),
    {
        CommandKey {
            realm: realm.to_owned(),
            namespace: namespace.to_owned(),
            name: name.to_owned(),
        }
    }

    /// The key of the command `name` in the empty namespace of the default
    /// realm.
    pub fn from_name(name: &str) -> (k: CommandKey)
        ensures
            k@ == (CommandKeyView { realm: Seq::empty(), namespace: Seq::empty(), name: name@ }),
    {
        CommandKey { realm: String::new(), namespace: String::new(), name: name.to_owned() }
    }

    pub fn same(&self, other: &CommandKey) -> (r: bool)
        ensures
            r == (self@ == other@),
    {
        self.realm == other.realm && self.namespace == other.namespace && self.name == other.name
    }
}

#[derive(Debug)]
pub struct CommandMetadata {
    pub realm: String,
    pub namespace: String,
    pub name: String,
    pub module: String,
    pub doc: String,
    pub state_argument: ArgumentInfo,
    pub arguments: Vec<ArgumentInfo>,
}

pub struct CommandMetadataView {
    pub realm: Seq<char>,
    pub namespace: Seq<char>,
    pub name: Seq<char>,
    pub module: Seq<char>,
    pub doc: Seq<char>,
    pub state_argument: ArgumentInfoView,
    pub arguments: Seq<ArgumentInfoView>,
}

impl View for CommandMetadata {
    type V = CommandMetadataView;

    open spec fn view(&self) -> CommandMetadataView {
        CommandMetadataView {
            realm: self.realm@,
            namespace: self.namespace@,
            name: self.name@,
            module: self.module@,
            doc: self.doc@,
            state_argument: self.state_argument@,
            arguments: arguments_view(self.arguments@),
        }
    }
}

impl CommandMetadataView {
    pub open spec fn key(self) -> CommandKeyView {
        CommandKeyView { realm: self.realm, namespace: self.namespace, name: self.name }
    }

    /// The command that `key` names, with a state of any type and no
    /// arguments.
    pub open spec fn from_key(key: CommandKeyView) -> CommandMetadataView {
        CommandMetadataView {
            realm: key.realm,
            namespace: key.namespace,
            name: key.name,
            module: Seq::empty(),
            doc: Seq::empty(),
            state_argument: ArgumentInfoView::of(
                "state"@,
                ArgumentTypeView::Any,
                DefaultValueView::NoDefault,
                ArgumentGUIInfo::TextField(40),
            ),
            arguments: Seq::empty(),
        }
    }

    /// The same under the realm, namespace and name of `key`.
    pub open spec fn under(self, key: CommandKeyView) -> CommandMetadataView {
        CommandMetadataView {
            realm: key.realm,
            namespace: key.namespace,
            name: key.name,
            ..self
        }
    }

    /// Whether the command is the one that `realm`, `namespace` and `name`
    /// name.
    pub open spec fn is(self, realm: Seq<char>, namespace: Seq<char>, name: Seq<char>) -> bool {
        self.realm == realm && self.namespace == namespace && self.name == name
    }
}

impl Clone for CommandMetadata {
    fn clone(&self) -> (r: CommandMetadata)
        ensures
            r@ == self@,
    {
        CommandMetadata {
            realm: self.realm.clone(),
            namespace: self.namespace.clone(),
            name: self.name.clone(),
            module: self.module.clone(),
            doc: self.doc.clone(),
            state_argument: self.state_argument.clone(),
            arguments: clone_arguments(&self.arguments),
        }
    }
}

/// Whether a default of the value `value` goes with the type.
pub open spec fn default_fits(argument_type: ArgumentTypeView, value: ValueView) -> bool {
    match argument_type {
        ArgumentTypeView::String => value is Text,
        ArgumentTypeView::Integer => value is I32 || value is I64 || (value is Text
            && is_integer_form(value->Text_0)),
        ArgumentTypeView::IntegerOption => value is Empty || value is I32 || value is I64 || (value
             is Text && (value->Text_0.len() == 0 || is_integer_form(value->Text_0))),
        ArgumentTypeView::Float => value is I32 || value is I64 || value is Extension || (value
             is Text && is_float_form(value->Text_0)),
        ArgumentTypeView::FloatOption => value is Empty || value is I32 || value is I64 || value
             is Extension || (value is Text && (value->Text_0.len() == 0 || is_float_form(
            value->Text_0,
        ))),
        ArgumentTypeView::Boolean => value is Bool || (value is Text && boolean_of(value->Text_0)
             is Some),
        ArgumentTypeView::Enum(e) => value is Text && e.name_to_value(value->Text_0) is Some,
        ArgumentTypeView::Any => true,
        ArgumentTypeView::Unspecified => true,
    }
}

pub open spec fn no_type_message(argument: Seq<char>) -> Seq<char> {
    "Argument '"@ + argument + "' has no type"@
}

pub open spec fn default_conflict_message(argument: Seq<char>) -> Seq<char> {
    "Default of argument '"@ + argument + "' does not fit its type"@
}

pub open spec fn duplicate_message() -> Seq<char> {
    "Command is registered more than once"@
}

impl ArgumentInfoView {
    /// Whether the argument has a default value that does not go with its
    /// type.
    pub open spec fn has_conflicting_default(self) -> bool {
        self.default is Value && !default_fits(self.argument_type, self.default->Value_0)
    }

    /// What is wrong with the argument of the command that `key` names: an
    /// error where it has no type, a warning where its default does not go
    /// with its type.
    pub open spec fn issues(self, key: CommandKeyView) -> Seq<CommandRegistryIssueView> {
        let untyped = if self.argument_type is Unspecified {
            seq![
                CommandRegistryIssueView {
                    realm: key.realm,
                    namespace: key.namespace,
                    name: key.name,
                    is_error: true,
                    message: no_type_message(self.name),
                },
            ]
        } else {
            Seq::empty()
        };
        let conflicting = if self.has_conflicting_default() {
            seq![
                CommandRegistryIssueView {
                    realm: key.realm,
                    namespace: key.namespace,
                    name: key.name,
                    is_error: false,
                    message: default_conflict_message(self.name),
                },
            ]
        } else {
            Seq::empty()
        };
        untyped + conflicting
    }
}

/// The issues of the first `n` of `arguments`, in order.
pub open spec fn arguments_issues(arguments: Seq<ArgumentInfoView>, key: CommandKeyView, n: int)
    -> Seq<CommandRegistryIssueView>
    decreases n,
{
    if n <= 0 {
        Seq::empty()
    } else {
        arguments_issues(arguments, key, n - 1) + arguments[n - 1].issues(key)
    }
}

impl CommandMetadataView {
    /// What is wrong with the arguments of the command.
    pub open spec fn issues(self) -> Seq<CommandRegistryIssueView> {
        arguments_issues(self.arguments, self.key(), self.arguments.len() as int)
    }
}

pub open spec fn issues_view(issues: Seq<CommandRegistryIssue>) -> Seq<CommandRegistryIssueView> {
    Seq::new(issues.len(), |i: int| issues[i]@)
}

/// Whether a default of the value `value` goes with the type.
pub fn value_fits(argument_type: &ArgumentType, value: &Value) -> (r: bool)
    ensures
        r == default_fits(argument_type@, value@),
{
    match argument_type {
        ArgumentType::String => match value {
            Value::Text(_) => true,
            _ => false,
        },
        ArgumentType::Integer => match value {
            Value::I32(_) => true,
            Value::I64(_) => true,
            Value::Text(t) => has_integer_form(t.as_str()),
            _ => false,
        },
        ArgumentType::IntegerOption => match value {
            Value::Empty => true,
            Value::I32(_) => true,
            Value::I64(_) => true,
            Value::Text(t) => t.as_str().is_empty() || has_integer_form(t.as_str()),
            _ => false,
        },
        ArgumentType::Float => match value {
            Value::I32(_) => true,
            Value::I64(_) => true,
            Value::Extension(_, _) => true,
            Value::Text(t) => has_float_form(t.as_str()),
            _ => false,
        },
        ArgumentType::FloatOption => match value {
            Value::Empty => true,
            Value::I32(_) => true,
            Value::I64(_) => true,
            Value::Extension(_, _) => true,
            Value::Text(t) => t.as_str().is_empty() || has_float_form(t.as_str()),
            _ => false,
        },
        ArgumentType::Boolean => match value {
            Value::Bool(_) => true,
            Value::Text(t) => read_boolean(t.as_str()).is_some(),
            _ => false,
        },
        ArgumentType::Enum(e) => match value {
            Value::Text(t) => e.name_to_value(t.clone()).is_some(),
            _ => false,
        },
        ArgumentType::Any => true,
        ArgumentType::Unspecified => true,
    }
}

impl ArgumentInfo {
    fn check(&self, realm: &str, namespace: &str, name: &str, issues: &mut Vec<
        CommandRegistryIssue,
    >)
        ensures
            issues_view(final(issues)@) == issues_view(old(issues)@) + self@.issues(
                CommandKeyView { realm: realm@, namespace: namespace@, name: name@ },
            ),
    {
        let ghost before = issues_view(issues@);
        let ghost key = CommandKeyView { realm: realm@, namespace: namespace@, name: name@ };
        match &self.argument_type {
            ArgumentType::Unspecified => {
                let message = String::from_str("Argument '").concat(self.name.as_str()).concat(
                    "' has no type",
                );
                issues.push(CommandRegistryIssue::error(realm, namespace, name, message));
            },
            _ => {},
        }
        let ghost middle = issues_view(issues@);
        let conflicting = match &self.default {
            DefaultValue::Value(v) => !value_fits(&self.argument_type, v),
            _ => false,
        };
        if conflicting {
            let message = String::from_str("Default of argument '").concat(
                self.name.as_str(),
            ).concat("' does not fit its type");
            issues.push(CommandRegistryIssue::warning(realm, namespace, name, message));
        }
        assert(issues_view(issues@) =~= before + self@.issues(key));
    }
}

impl CommandMetadata {
    /// The command `name` in the root namespace of the default realm: it
    /// takes a state of any type and no arguments.
    pub fn new(name: &str) -> (c: CommandMetadata)
        ensures
            c@ == (CommandMetadataView {
                realm: Seq::empty(),
                namespace: "root"@,
                name: name@,
                module: Seq::empty(),
                doc: Seq::empty(),
                state_argument: ArgumentInfoView::of(
                    "state"@,
                    ArgumentTypeView::Any,
                    DefaultValueView::NoDefault,
                    ArgumentGUIInfo::TextField(40),
                ),
                arguments: Seq::empty(),
            }),
    {
        let c = CommandMetadata {
            realm: String::new(),
            namespace: String::from_str("root"),
            name: name.to_owned(),
            module: String::new(),
            doc: String::new(),
            state_argument: ArgumentInfo::any_argument("state"),
            arguments: Vec::new(),
        };
        assert(c@.arguments =~= Seq::empty());
        c
    }

    /// The command that `key` names, with a state of any type and no
    /// arguments.
    pub fn from_key(key: &CommandKey) -> (c: CommandMetadata)
        ensures
            c@ == (CommandMetadataView {
                realm: key@.realm,
                namespace: key@.namespace,
                name: key@.name,
                module: Seq::empty(),
                doc: Seq::empty(),
                state_argument: ArgumentInfoView::of(
                    "state"@,
                    ArgumentTypeView::Any,
                    DefaultValueView::NoDefault,
                    ArgumentGUIInfo::TextField(40),
                ),
                arguments: Seq::empty(),
            }),
    {
        let c = CommandMetadata {
            realm: key.realm.clone(),
            namespace: key.namespace.clone(),
            name: key.name.clone(),
            module: String::new(),
            doc: String::new(),
            state_argument: ArgumentInfo::any_argument("state"),
            arguments: Vec::new(),
        };
        assert(c@.arguments =~= Seq::empty());
        c
    }

    pub fn key(&self) -> (k: CommandKey)
        ensures
            k@ == self@.key(),
    {
        CommandKey {
            realm: self.realm.clone(),
            namespace: self.namespace.clone(),
            name: self.name.clone(),
        }
    }

    /// What is wrong with the arguments of the command.
    pub fn check(&self) -> (issues: Vec<CommandRegistryIssue>)
        ensures
            issues_view(issues@) == self@.issues(),
    {
        let mut issues: Vec<CommandRegistryIssue> = Vec::new();
        let mut i: usize = 0;
        assert(issues_view(issues@) =~= Seq::empty());
        while i < self.arguments.len()
            invariant
                i <= self.arguments.len(),
                issues_view(issues@) == arguments_issues(self@.arguments, self@.key(), i as int),
            decreases self.arguments.len() - i,
        {
            self.arguments[i].check(
                self.realm.as_str(),
                self.namespace.as_str(),
                self.name.as_str(),
                &mut issues,
            );
            i += 1;
        }
        issues
    }

    pub fn with_state_argument(&mut self, state_argument: ArgumentInfo) -> (r: &mut Self)
        ensures
            r@ == (CommandMetadataView { state_argument: state_argument@, ..old(self)@ }),
            *final(self) == *final(r),
    {
        self.state_argument = state_argument;
        self
    }

    /// Adds an argument after those that are there.
    pub fn with_argument(&mut self, argument: ArgumentInfo) -> (r: &mut Self)
        ensures
            r@ == (CommandMetadataView {
                arguments: old(self)@.arguments.push(argument@),
                ..old(self)@
            }),
            *final(self) == *final(r),
    {
        let ghost before = arguments_view(self.arguments@);
        self.arguments.push(argument);
        assert(arguments_view(self.arguments@) =~= before.push(argument@));
        self
    }

    pub fn with_doc(&mut self, doc: &str) -> (r: &mut Self)
        ensures
            r@ == (CommandMetadataView { doc: doc@, ..old(self)@ }),
            *final(self) == *final(r),
    {
        self.doc = doc.to_owned();
        self
    }

    pub fn with_realm(&mut self, realm: &str) -> (r: &mut Self)
        ensures
            r@ == (CommandMetadataView { realm: realm@, ..old(self)@ }),
            *final(self) == *final(r),
    {
        self.realm = realm.to_owned();
        self
    }

    pub fn with_namespace(&mut self, namespace: &str) -> (r: &mut Self)
        ensures
            r@ == (CommandMetadataView { namespace: namespace@, ..old(self)@ }),
            *final(self) == *final(r),
    {
        self.namespace = namespace.to_owned();
        self
    }

    pub fn with_name(&mut self, name: &str) -> (r: &mut Self)
        ensures
            r@ == (CommandMetadataView { name: name@, ..old(self)@ }),
            *final(self) == *final(r),
    {
        self.name = name.to_owned();
        self
    }

    pub fn with_module(&mut self, module: &str) -> (r: &mut Self)
        ensures
            r@ == (CommandMetadataView { module: module@, ..old(self)@ }),
            *final(self) == *final(r),
    {
        self.module = module.to_owned();
        self
    }
}

// ---------------------------------------------------------------------------
// The registry
// ---------------------------------------------------------------------------
/// The commands that the engine knows of, in the order of registration.
#[derive(Debug)]
pub struct CommandMetadataRegistry {
    pub commands: Vec<CommandMetadata>,
}

pub open spec fn commands_view(commands: Seq<CommandMetadata>) -> Seq<CommandMetadataView> {
    Seq::new(commands.len(), |i: int| commands[i]@)
}

impl View for CommandMetadataRegistry {
    type V = Seq<CommandMetadataView>;

    open spec fn view(&self) -> Seq<CommandMetadataView> {
        commands_view(self.commands@)
    }
}

/// The place of the first of the first `n` commands that `realm`,
/// `namespace` and `name` name.
pub open spec fn find_command_index(
    commands: Seq<CommandMetadataView>,
    realm: Seq<char>,
    namespace: Seq<char>,
    name: Seq<char>,
    n: int,
) -> Option<int>
    decreases n,
{
    if n <= 0 {
        None
    } else {
        match find_command_index(commands, realm, namespace, name, n - 1) {
            Some(i) => Some(i),
            None => if commands[n - 1].is(realm, namespace, name) {
                Some(n - 1)
            } else {
                None
            },
        }
    }
}

/// The first command that `realm`, `namespace` and `name` name.
pub open spec fn find_command(
    commands: Seq<CommandMetadataView>,
    realm: Seq<char>,
    namespace: Seq<char>,
    name: Seq<char>,
) -> Option<CommandMetadataView> {
    match find_command_index(commands, realm, namespace, name, commands.len() as int) {
        Some(i) => Some(commands[i]),
        None => None,
    }
}

/// The command `name` of `realm` in the first of `namespaces[from..]` that
/// has one.
pub open spec fn find_command_in_namespaces(
    commands: Seq<CommandMetadataView>,
    realm: Seq<char>,
    namespaces: Seq<Seq<char>>,
    name: Seq<char>,
    from: int,
) -> Option<CommandMetadataView>
    decreases namespaces.len() - from,
{
    if from < 0 || from >= namespaces.len() {
        None
    } else {
        match find_command(commands, realm, namespaces[from], name) {
            Some(c) => Some(c),
            None => find_command_in_namespaces(commands, realm, namespaces, name, from + 1),
        }
    }
}

/// Whether one of the first `n` commands has the key `key`.
pub open spec fn registered_before(commands: Seq<CommandMetadataView>, key: CommandKeyView, n: int)
    -> bool {
    find_command_index(commands, key.realm, key.namespace, key.name, n) is Some
}

/// What is wrong with the first `n` commands: for each in turn, an error
/// where a command before it has its key, then the issues of its
/// arguments.
pub open spec fn registry_issues(commands: Seq<CommandMetadataView>, n: int) -> Seq<
    CommandRegistryIssueView,
>
    decreases n,
{
    if n <= 0 {
        Seq::empty()
    } else {
        let command = commands[n - 1];
        let duplicate = if registered_before(commands, command.key(), n - 1) {
            seq![
                CommandRegistryIssueView {
                    realm: command.realm,
                    namespace: command.namespace,
                    name: command.name,
                    is_error: true,
                    message: duplicate_message(),
                },
            ]
        } else {
            Seq::empty()
        };
        registry_issues(commands, n - 1) + duplicate + command.issues()
    }
}

pub open spec fn option_command_view(o: Option<CommandMetadata>) -> Option<CommandMetadataView> {
    match o {
        Some(c) => Some(c@),
        None => None,
    }
}

impl Clone for CommandMetadataRegistry {
    fn clone(&self) -> (r: CommandMetadataRegistry)
        ensures
            r@ == self@,
    {
        let mut commands: Vec<CommandMetadata> = Vec::new();
        let mut i: usize = 0;
        while i < self.commands.len()
            invariant
                i <= self.commands.len(),
                commands.len() == i,
                forall|j: int| 0 <= j < i ==> commands@[j]@ == self.commands@[j]@,
            decreases self.commands.len() - i,
        {
            commands.push(self.commands[i].clone());
            i += 1;
        }
        assert(commands_view(commands@) =~= commands_view(self.commands@));
        CommandMetadataRegistry { commands }
    }
}

impl CommandMetadataRegistry {
    pub fn new() -> (r: CommandMetadataRegistry)
        ensures
            r@ == Seq::<CommandMetadataView>::empty(),
    {
        let r = CommandMetadataRegistry { commands: Vec::new() };
        assert(r@ =~= Seq::<CommandMetadataView>::empty());
        r
    }

    /// Registers a command after those that are there.
    pub fn add_command(&mut self, command: &CommandMetadata) -> (r: &mut Self)
        ensures
            r@ == old(self)@.push(command@),
            *final(self) == *final(r),
    {
        let ghost before = commands_view(self.commands@);
        self.commands.push(command.clone());
        assert(commands_view(self.commands@) =~= before.push(command@));
        self
    }

    fn index_of(&self, realm: &str, namespace: &str, name: &str, n: usize) -> (r: Option<usize>)
        requires
            n <= self.commands.len(),
        ensures
            match r {
                Some(i) => find_command_index(self@, realm@, namespace@, name@, n as int) == Some(
                    i as int,
                ) && i < n,
                None => find_command_index(self@, realm@, namespace@, name@, n as int) is None,
            },
    {
        let mut i: usize = 0;
        while i < n
            invariant
                i <= n <= self.commands.len(),
                find_command_index(self@, realm@, namespace@, name@, i as int) is None,
            decreases n - i,
        {
            let command = &self.commands[i];
            assert(self@[i as int] == command@);
            if same_text(command.realm.as_str(), realm) && same_text(
                command.namespace.as_str(),
                namespace,
            ) && same_text(command.name.as_str(), name) {
                proof {
                    lemma_found_stays(self@, realm@, namespace@, name@, i + 1, n as int);
                }
                return Some(i);
            }
            i += 1;
        }
        None
    }

    /// The first command registered under `realm`, `namespace` and `name`.
    pub fn find_command(&self, realm: &str, namespace: &str, name: &str) -> (r: Option<
        CommandMetadata,
    >)
        ensures
            option_command_view(r) == find_command(self@, realm@, namespace@, name@),
    {
        match self.index_of(realm, namespace, name, self.commands.len()) {
            Some(i) => Some(self.commands[i].clone()),
            None => None,
        }
    }

    /// The command `name` of `realm` in the first of `namespaces` that has
    /// one.
    pub fn find_command_in_namespaces(&self, realm: &str, namespaces: &Vec<String>, name: &str)
        -> (r: Option<CommandMetadata>)
        ensures
            option_command_view(r) == find_command_in_namespaces(
                self@,
                realm@,
                texts(namespaces@),
                name@,
                0,
            ),
    {
        let mut i: usize = 0;
        while i < namespaces.len()
            invariant
                i <= namespaces.len(),
                find_command_in_namespaces(self@, realm@, texts(namespaces@), name@, 0)
                    == find_command_in_namespaces(
                    self@,
                    realm@,
                    texts(namespaces@),
                    name@,
                    i as int,
                ),
            decreases namespaces.len() - i,
        {
            assert(texts(namespaces@)[i as int] == namespaces@[i as int]@);
            match self.find_command(realm, namespaces[i].as_str(), name) {
                Some(command) => {
                    return Some(command);
                },
                None => {},
            }
            i += 1;
        }
        None
    }

    /// The first command registered under `key`, to be changed in place.
    pub fn get_mut(&mut self, key: &CommandKey) -> (r: Option<&mut CommandMetadata>)
        ensures
            match r {
                Some(command) => {
                    let i = find_command_index(
                        old(self)@,
                        key@.realm,
                        key@.namespace,
                        key@.name,
                        old(self)@.len() as int,
                    );
                    &&& i is Some
                    &&& command@ == old(self)@[i->0]
                    &&& final(self)@ == old(self)@.update(i->0, final(command)@)
                },
                None => find_command(old(self)@, key@.realm, key@.namespace, key@.name) is None
                    && final(self)@ == old(self)@,
            },
    {
        match self.index_of(
            key.realm.as_str(),
            key.namespace.as_str(),
            key.name.as_str(),
            self.commands.len(),
        ) {
            Some(i) => {
                let command = &mut self.commands[i];
                Some(command)
            },
            None => None,
        }
    }

    /// What is wrong with the registry: commands registered more than
    /// once, arguments without a type, defaults that do not go with the
    /// type of their argument.
    pub fn check(&self) -> (issues: Vec<CommandRegistryIssue>)
        ensures
            issues_view(issues@) == registry_issues(self@, self@.len() as int),
    {
        let mut issues: Vec<CommandRegistryIssue> = Vec::new();
        let mut i: usize = 0;
        assert(issues_view(issues@) =~= Seq::empty());
        while i < self.commands.len()
            invariant
                i <= self.commands.len(),
                issues_view(issues@) == registry_issues(self@, i as int),
            decreases self.commands.len() - i,
        {
            let command = &self.commands[i];
            assert(self@[i as int] == command@);
            let ghost before = issues_view(issues@);
            if self.index_of(
                command.realm.as_str(),
                command.namespace.as_str(),
                command.name.as_str(),
                i,
            ).is_some() {
                let issue = CommandRegistryIssue::error(
                    command.realm.as_str(),
                    command.namespace.as_str(),
                    command.name.as_str(),
                    String::from_str("Command is registered more than once"),
                );
                let ghost shown = issue@;
                issues.push(issue);
                assert(issues_view(issues@) =~= before + seq![shown]);
            } else {
                assert(issues_view(issues@) =~= before + Seq::empty());
            }
            let ghost middle = issues_view(issues@);
            let mut found = command.check();
            let ghost more = issues_view(found@);
            issues.append(&mut found);
            assert(issues_view(issues@) =~= middle + more);
            i += 1;
        }
        issues
    }
}

/// A command that is found among the first `n` is found among the first
/// `m` for every larger `m`, and is the same.
pub proof fn lemma_found_stays(
    commands: Seq<CommandMetadataView>,
    realm: Seq<char>,
    namespace: Seq<char>,
    name: Seq<char>,
    n: int,
    m: int,
)
    requires
        0 <= n <= m,
        find_command_index(commands, realm, namespace, name, n) is Some,
    ensures
        find_command_index(commands, realm, namespace, name, m) == find_command_index(
            commands,
            realm,
            namespace,
            name,
            n,
        ),
    decreases m - n,
{
    if n < m {
        lemma_found_stays(commands, realm, namespace, name, n, m - 1);
    }
}

} // verus!
