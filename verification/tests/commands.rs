use liquers::command_metadata::{
    ArgumentGUIInfo, ArgumentInfo, ArgumentType, CommandKey, CommandMetadata,
    CommandMetadataRegistry, CommandRegistryIssue, DefaultValue, EnumArgument, EnumArgumentType,
};
use liquers::commands::{
    Command, Command0, Command2, CommandArguments, CommandArgumentsView, CommandExecutor,
    CommandRegistry, FromCommandArguments, FromParameter, NoInjection,
};
use liquers::error::{Error, ErrorType};
use liquers::interpreter::{Environment, PlanInterpreter};
use liquers::cache::NoBinCache;
use liquers::parse::parse_query;
use liquers::plan::{make_plan, Parameter, PlanBuilder, ResolvedParameters, Step};
use liquers::query::{Position, Query};
use liquers::state::State;
use liquers::store::NoStore;
use liquers::value::{Value, ValueInterface};
use std::cell::RefCell;
use std::rc::Rc;

#[test]
fn commands_first_test() {
    let p = Parameter { value: Value::new("Hello"), ..Parameter::default() };
    let s: String = String::from_parameter(&p).unwrap();
    assert_eq!(s, "Hello");
}

struct TestExecutor;

impl CommandExecutor<NoInjection> for TestExecutor {
    fn execute(
        &self,
        realm: &str,
        namespace: &str,
        command_name: &str,
        state: &State,
        arguments: &mut CommandArguments,
        injection: &mut NoInjection,
    ) -> Result<Value, Error> {
        assert_eq!(realm, "");
        assert_eq!(namespace, "");
        assert_eq!(command_name, "test");
        assert!(state.data.is_none());
        Command0::new(|| -> String { "Hello".into() }).execute(state, arguments, injection)
    }
}

#[test]
fn test_command_executor() {
    let mut ca = CommandArguments::new(ResolvedParameters::new());
    let state = State::new();
    let s = TestExecutor.execute("", "", "test", &state, &mut ca, &mut NoInjection).unwrap();
    assert_eq!(s.try_into_string().unwrap(), "Hello");
}

#[derive(Clone)]
struct InjectedVariable(String);

struct InjectionTest {
    variable: InjectedVariable,
}

impl Environment for InjectionTest {
    fn evaluate(&mut self, _query: &Query) -> Result<State, Error> {
        Err(Error::not_supported("evaluate not implemented".to_string()))
    }
}

impl FromCommandArguments<InjectedVariable, InjectionTest> for InjectedVariable {
    fn injected() -> bool {
        true
    }

    fn available(_args: CommandArgumentsView, _injection: InjectionTest) -> bool {
        true
    }

    fn from_arguments(
        _args: &mut CommandArguments,
        injection: &mut InjectionTest,
    ) -> Result<InjectedVariable, Error> {
        Ok(injection.variable.to_owned())
    }

    fn is_injected() -> bool {
        true
    }
}

#[test]
fn test_interpreter_with_value_injection() {
    let mut cr = CommandRegistry::new();
    cr.register_command(
        CommandKey::from_name("injected"),
        Command2::new(|_state: &State, what: InjectedVariable| format!("Hello {}", what.0)),
    )
    .unwrap()
    .with_state_argument(ArgumentInfo::string_argument("nothing"));
    let cmr = cr.command_metadata_registry.clone();
    let mut pi = PlanInterpreter::new(
        cmr,
        InjectionTest { variable: InjectedVariable("injected string".to_string()) },
        cr,
        NoStore,
        NoBinCache,
    );
    pi.with_query("injected").unwrap();
    pi.step().unwrap();
    assert_eq!(pi.state().data.try_into_string().unwrap(), "Hello injected string");
}

struct MutableInjectionTest {
    variable: Rc<RefCell<InjectedVariable>>,
}

impl Environment for MutableInjectionTest {
    fn evaluate(&mut self, _query: &Query) -> Result<State, Error> {
        Err(Error::not_supported("evaluate not implemented".to_string()))
    }
}

/// The shared variable as a type of this file, so that it can be given the
/// trait.
struct Shared(Rc<RefCell<InjectedVariable>>);

impl FromCommandArguments<Shared, MutableInjectionTest> for Shared {
    fn injected() -> bool {
        true
    }

    fn available(_args: CommandArgumentsView, _injection: MutableInjectionTest) -> bool {
        true
    }

    fn from_arguments(
        _args: &mut CommandArguments,
        injection: &mut MutableInjectionTest,
    ) -> Result<Shared, Error> {
        Ok(Shared(injection.variable.clone()))
    }

    fn is_injected() -> bool {
        true
    }
}

#[test]
fn test_interpreter_with_mutable_injection() {
    let mut cr = CommandRegistry::new();
    cr.register_command(
        CommandKey::from_name("injected"),
        Command2::new(|_state: &State, what: Shared| {
            let res = format!("Hello {}", what.0.borrow().0);
            what.0.borrow_mut().0 = "changed".to_owned();
            res
        }),
    )
    .unwrap()
    .with_state_argument(ArgumentInfo::string_argument("nothing"));
    let cmr = cr.command_metadata_registry.clone();
    let variable = Rc::new(RefCell::new(InjectedVariable("injected string".to_string())));
    let injection = MutableInjectionTest { variable: variable.clone() };
    let mut pi = PlanInterpreter::new(cmr, injection, cr, NoStore, NoBinCache);
    pi.with_query("injected").unwrap();
    pi.step().unwrap();
    assert_eq!(pi.state().data.try_into_string().unwrap(), "Hello injected string");
    assert_eq!(variable.borrow().0, "changed");
}

#[test]
fn plan_first_test() {
    let mut cr = CommandMetadataRegistry::new();
    cr.add_command(CommandMetadata::new("a").with_argument(ArgumentInfo::any_argument("a")));
    let plan = PlanBuilder::new(parse_query("a-1").unwrap(), &cr).build().unwrap();
    assert_eq!(plan.steps.len(), 1);
    match &plan.steps[0] {
        Step::Action { realm, ns, action_name, position, parameters } => {
            assert_eq!(realm, "");
            assert_eq!(ns, "root");
            assert_eq!(action_name, "a");
            assert_eq!(position.offset, 0);
            assert_eq!(parameters.parameters.len(), 1);
            assert_eq!(parameters.parameters[0].value.try_into_string().unwrap(), "1");
            assert_eq!(parameters.parameters[0].position.offset, 2);
            assert!(parameters.links.is_empty());
        }
        _ => panic!("action expected"),
    }
    assert_eq!(plan.query.encode(), "a-1");
}

fn registry() -> CommandMetadataRegistry {
    let mut cr = CommandMetadataRegistry::new();
    cr.add_command(&CommandMetadata::new("hello"));
    cr.add_command(
        CommandMetadata::new("greet").with_argument(ArgumentInfo::string_argument("who")),
    );
    let mut up = ArgumentInfo::boolean_argument("up");
    up.true_by_default();
    let mut from = ArgumentInfo::any_argument("from");
    from.with_default_query(parse_query("hello").unwrap());
    cr.add_command(
        CommandMetadata::new("count")
            .with_namespace("math")
            .with_argument(ArgumentInfo::integer_argument("n", false))
            .with_argument(ArgumentInfo::integer_argument("step", true))
            .with_argument(up)
            .with_argument(from),
    );
    cr.add_command(
        CommandMetadata::new("ratio")
            .with_realm("r")
            .with_argument(ArgumentInfo::float_argument("x", false)),
    );
    cr
}

fn steps(query: &str) -> Vec<String> {
    let plan = make_plan(&parse_query(query).unwrap(), &registry()).unwrap();
    plan.steps
        .iter()
        .map(|s| match s {
            Step::GetResource(k) => format!("get {}", k.encode()),
            Step::GetResourceMetadata(k) => format!("meta {}", k.encode()),
            Step::Action { realm, ns, action_name, parameters, .. } => format!(
                "{}:{}:{}({}){}",
                realm,
                ns,
                action_name,
                parameters
                    .parameters
                    .iter()
                    .map(|p| match &p.value {
                        Value::Empty => "-".to_string(),
                        Value::Bool(b) => b.to_string(),
                        v => v.try_into_string().unwrap_or("?".to_string()),
                    })
                    .collect::<Vec<String>>()
                    .join(","),
                parameters
                    .links
                    .iter()
                    .map(|(i, q)| format!(" {}<-{}", i, q.encode()))
                    .collect::<Vec<String>>()
                    .join("")
            ),
            Step::Filename(n) => format!("file {}", n.name),
            Step::Warning(m) => format!("warning {}", m),
            Step::Info(m) => format!("info {}", m),
            Step::Error(m) => format!("error {}", m),
            Step::Evaluate(q) => format!("evaluate {}", q.encode()),
            Step::Plan(_) => "plan".to_string(),
        })
        .collect()
}

#[test]
fn planning() {
    assert_eq!(steps(""), Vec::<String>::new());
    assert_eq!(steps("ns-math"), Vec::<String>::new());
    assert_eq!(steps("hello"), vec![":root:hello()"]);
    assert_eq!(
        steps("hello/greet-world/out.txt"),
        vec![":root:hello()", ":root:greet(world)", "file out.txt"]
    );
    assert_eq!(
        steps("hello/ns-math/count-10"),
        vec![":root:hello()", ":math:count(10,-,true,-) 3<-hello"]
    );
    assert_eq!(
        steps("ns-other-math/count-10--false-~X~hello/greet-x~E"),
        vec![":math:count(10,-,false,-) 3<-hello/greet-x"]
    );
    assert_eq!(steps("-R/a/b.txt"), vec!["get a/b.txt"]);
    assert_eq!(steps("-R-meta/a/b.txt"), vec!["meta a/b.txt"]);
    assert_eq!(
        steps("-R-meta-x/a"),
        vec![
            "warning Resource segment '-R-meta-x...' parameters after meta at position 9 ignored",
            "meta a"
        ]
    );
    assert_eq!(
        steps("-R-x/a"),
        vec!["warning Resource segment '-R-x...' parameters at position 4 ignored", "get a"]
    );
    assert_eq!(
        steps("-R/data/input.csv/-/hello/greet-y"),
        vec!["get data/input.csv", ":root:hello()", ":root:greet(y)"]
    );
    assert_eq!(steps("a/b/-r/ratio-1.5e3"), vec!["get a/b", "r:root:ratio(1.5e3)"]);
    assert_eq!(steps("hello/greet-~X~hello~E"), vec![":root:hello()", ":root:greet(-) 0<-hello"]);
}

fn planning_error(query: &str) -> Error {
    make_plan(&parse_query(query).unwrap(), &registry()).unwrap_err()
}

#[test]
fn planning_errors() {
    let e = planning_error("hello/nothing");
    assert_eq!(e.error_type, ErrorType::ActionNotRegistered);
    assert_eq!(e.position.offset, 6);
    let e = planning_error("count-1");
    assert_eq!(e.error_type, ErrorType::ActionNotRegistered);
    assert_eq!(e.message, "Action 'count' not registered in namespaces '', 'root'");
    let e = planning_error("ns-math/count");
    assert_eq!(e.error_type, ErrorType::ArgumentMissing);
    assert_eq!(e.message, "Missing argument #0:n");
    assert_eq!(e.position.offset, 8);
    let e = planning_error("ns-math/count-x");
    assert_eq!(e.error_type, ErrorType::ConversionError);
    assert_eq!(e.message, "Can't convert 'x' to int");
    assert_eq!(e.position.offset, 14);
    let e = planning_error("ns-math/count-1-2-maybe");
    assert_eq!(e.error_type, ErrorType::ConversionError);
    assert_eq!(e.message, "Can't convert 'maybe' to bool");
    let e = planning_error("ns-~X~hello~E/hello");
    assert_eq!(e.error_type, ErrorType::NotSupported);
    assert_eq!(e.message, "Only string parameters are supported in ns");
    let e = planning_error("ratio-1");
    assert_eq!(e.error_type, ErrorType::ActionNotRegistered);
    assert!(make_plan(&parse_query("-r/ratio-1.").unwrap(), &registry()).is_ok());
    assert!(make_plan(&parse_query("-r/ratio-~1.5E~_3").unwrap(), &registry()).is_ok());
    let e = planning_error("-r/ratio-.5");
    assert_eq!(e.error_type, ErrorType::ConversionError);
    let e = planning_error("-r/ratio-x");
    assert_eq!(e.error_type, ErrorType::ConversionError);
    assert_eq!(e.message, "Can't convert 'x' to float");
}

#[test]
fn planning_is_deterministic() {
    let q = parse_query("hello/ns-math/count-10/out.txt").unwrap();
    let a = make_plan(&q, &registry()).unwrap();
    let b = make_plan(&q, &registry()).unwrap();
    assert_eq!(format!("{:?}", a), format!("{:?}", b));
}

#[test]
fn enum_names() {
    let mut e = EnumArgument::new("choice");
    e.with_value("a", Value::I32(1)).with_value("b", Value::I32(2)).with_value("a", Value::I32(3));
    assert_eq!(e.name_to_value("a".to_string()).unwrap().try_into_i32().unwrap(), 1);
    assert_eq!(e.name_to_value("b".to_string()).unwrap().try_into_i32().unwrap(), 2);
    assert!(e.name_to_value("c".to_string()).is_none());
    e.with_others_allowed().with_value_type(EnumArgumentType::Integer);
    assert_eq!(e.name_to_value("c".to_string()).unwrap().try_into_string().unwrap(), "c");
    assert!(e.others_allowed);
    assert_eq!(e.value_type, EnumArgumentType::Integer);
}

#[test]
fn argument_builders() {
    let a = ArgumentInfo::any_argument("first_name");
    assert_eq!(a.name, "first_name");
    assert_eq!(a.label, "first name");
    assert!(matches!(a.argument_type, ArgumentType::Any));
    assert!(matches!(a.default, DefaultValue::NoDefault));
    assert_eq!(a.gui_info, ArgumentGUIInfo::TextField(40));
    assert!(!a.multiple);
    let a = ArgumentInfo::integer_argument("n", true);
    assert!(matches!(a.argument_type, ArgumentType::IntegerOption));
    assert!(a.default.is_null());
    assert!(a.argument_type.is_option());
    assert_eq!(a.gui_info, ArgumentGUIInfo::IntegerField);
    let a = ArgumentInfo::float_argument("x", false);
    assert!(matches!(a.argument_type, ArgumentType::Float));
    assert!(!a.argument_type.is_option());
    let mut a = ArgumentInfo::boolean_argument("b");
    a.false_by_default().with_label("B");
    assert_eq!(a.label, "B");
    assert!(matches!(a.default, DefaultValue::Value(Value::Bool(false))));
    a.with_default("x").with_default_none();
    assert!(a.default.is_null());
    assert!(matches!(ArgumentType::default(), ArgumentType::Any));
    assert_eq!(ArgumentGUIInfo::default(), ArgumentGUIInfo::TextField(20));
    assert!(matches!(DefaultValue::from_integer(3), DefaultValue::Value(Value::I64(3))));
}

#[test]
fn registry_lookup() {
    let cr = registry();
    assert_eq!(cr.find_command("", "root", "hello").unwrap().name, "hello");
    assert!(cr.find_command("", "", "hello").is_none());
    assert!(cr.find_command("r", "root", "hello").is_none());
    let found = cr
        .find_command_in_namespaces("", &vec!["x".to_string(), "math".to_string()], "count")
        .unwrap();
    assert_eq!(found.namespace, "math");
    assert!(cr.find_command_in_namespaces("", &vec![], "hello").is_none());
    let mut cr = cr;
    cr.add_command(CommandMetadata::new("hello").with_doc("second").with_module("m"));
    assert_eq!(cr.find_command("", "root", "hello").unwrap().doc, "");
    cr.get_mut(&CommandKey::new("", "root", "hello")).unwrap().with_doc("changed");
    assert_eq!(cr.find_command("", "root", "hello").unwrap().doc, "changed");
    assert!(cr.get_mut(&CommandKey::new("", "root", "missing")).is_none());
}

fn shown(issues: Vec<CommandRegistryIssue>) -> Vec<String> {
    issues
        .iter()
        .map(|i| {
            format!(
                "{} {}/{}/{}: {}",
                if i.is_error { "error" } else { "warning" },
                i.realm,
                i.namespace,
                i.name,
                i.message
            )
        })
        .collect()
}

#[test]
fn registry_check() {
    assert!(registry().check().is_empty());
    let mut cr = registry();
    let mut untyped = ArgumentInfo::any_argument("u");
    untyped.argument_type = ArgumentType::Unspecified;
    let mut conflicting = ArgumentInfo::integer_argument("n", false);
    conflicting.with_default("many");
    cr.add_command(
        CommandMetadata::new("hello")
            .with_realm("x")
            .with_argument(untyped)
            .with_argument(conflicting),
    );
    cr.add_command(&CommandMetadata::new("hello"));
    assert_eq!(
        shown(cr.check()),
        vec![
            "error x/root/hello: Argument 'u' has no type",
            "warning x/root/hello: Default of argument 'n' does not fit its type",
            "error /root/hello: Command is registered more than once",
        ]
    );
    let issue = CommandRegistryIssue::warning("r", "ns", "n", "m".to_string());
    assert_eq!(
        (issue.realm.as_str(), issue.namespace.as_str(), issue.name.as_str()),
        ("r", "ns", "n")
    );
    assert!(!issue.is_error);
    assert!(CommandRegistryIssue::error("r", "ns", "n", "m".to_string()).is_error);
    assert!(CommandRegistryIssue::new("r", "ns", "n", true, "m".to_string()).is_error);
}

#[test]
fn parameters_from_text() {
    let p = |text: &str| Parameter { value: Value::new(text), position: Position::new(3, 1, 4) };
    assert_eq!(i64::from_parameter(&p("-9223372036854775808")).unwrap(), i64::MIN);
    assert_eq!(i64::from_parameter(&p("9223372036854775807")).unwrap(), i64::MAX);
    assert_eq!(i64::from_parameter(&p("+42")).unwrap(), 42);
    assert!(i64::from_parameter(&p("9223372036854775808")).is_err());
    assert!(i64::from_parameter(&p("-9223372036854775809")).is_err());
    assert!(i64::from_parameter(&p("99999999999999999999999")).is_err());
    assert!(i64::from_parameter(&p("")).is_err());
    assert!(i64::from_parameter(&p("-")).is_err());
    assert!(i64::from_parameter(&p("1x")).is_err());
    assert_eq!(i32::from_parameter(&p("-2147483648")).unwrap(), i32::MIN);
    assert_eq!(
        i32::from_parameter(&p("2147483648")).unwrap_err().to_string(),
        "Can't convert 'text' to i32 at position 4"
    );
    assert_eq!(bool::from_parameter(&p("yes")).unwrap(), true);
    assert_eq!(bool::from_parameter(&p("0")).unwrap(), false);
    assert!(bool::from_parameter(&p("Yes")).is_err());
    let n = Parameter { value: Value::I64(7), position: Position::unknown() };
    assert_eq!(i32::from_parameter(&n).unwrap(), 7);
    assert_eq!(String::from_parameter(&n).unwrap(), "7");
    assert_eq!(bool::from_parameter(&n).unwrap(), true);
    assert_eq!(Value::from_parameter(&n).unwrap().try_into_i64().unwrap(), 7);
}

#[test]
fn planning_defaults() {
    let mut cr = CommandMetadataRegistry::new();
    cr.add_command(&CommandMetadata::new("hello"));
    let mut many = ArgumentInfo::integer_argument("n", false);
    many.with_default("7");
    cr.add_command(CommandMetadata::new("seven").with_argument(many));
    let mut wrong = ArgumentInfo::integer_argument("n", false);
    wrong.with_default("many");
    cr.add_command(CommandMetadata::new("wrong").with_argument(wrong));
    let mut odd = ArgumentInfo::string_argument("s");
    odd.true_by_default();
    cr.add_command(CommandMetadata::new("odd").with_argument(odd));

    let plan = make_plan(&parse_query("seven").unwrap(), &cr).unwrap();
    match &plan.steps[0] {
        Step::Action { parameters, .. } => {
            assert_eq!(parameters.parameters.len(), 1);
            assert_eq!(parameters.parameters[0].value.try_into_string().unwrap(), "7");
            assert_eq!(parameters.parameters[0].position.offset, 0);
        }
        _ => panic!("action expected"),
    }
    let plan = make_plan(&parse_query("seven-8").unwrap(), &cr).unwrap();
    match &plan.steps[0] {
        Step::Action { parameters, .. } => {
            assert_eq!(parameters.parameters[0].value.try_into_string().unwrap(), "8");
            assert_eq!(parameters.parameters[0].position.offset, 6);
        }
        _ => panic!("action expected"),
    }
    let e = make_plan(&parse_query("hello/wrong").unwrap(), &cr).unwrap_err();
    assert_eq!(e.error_type, ErrorType::ConversionError);
    assert_eq!(e.message, "Can't convert 'many' to int");
    assert_eq!(e.position.offset, 6);
    let e = make_plan(&parse_query("odd").unwrap(), &cr).unwrap_err();
    assert_eq!(e.error_type, ErrorType::ConversionError);
    assert_eq!(e.message, "Can't convert 'bool' to string");
    let plan = make_plan(&parse_query("odd-x").unwrap(), &cr).unwrap();
    match &plan.steps[0] {
        Step::Action { parameters, .. } => {
            assert_eq!(parameters.parameters[0].value.try_into_string().unwrap(), "x");
        }
        _ => panic!("action expected"),
    }
}

#[test]
fn steps_that_are_left() {
    let plan = make_plan(&parse_query("hello/greet-world/out.txt").unwrap(), &registry()).unwrap();
    assert_eq!(plan.steps.len(), 3);
    assert_eq!(plan.steps_from(0).len(), 3);
    let rest = plan.steps_from(2);
    assert_eq!(rest.len(), 1);
    assert!(matches!(&rest[0], Step::Filename(n) if n.name == "out.txt"));
    assert!(plan.steps_from(3).is_empty());
    assert!(plan.steps_from(7).is_empty());
}

/// An environment that answers every query with the text of the query in
/// capitals, but for the query `bad`, which it refuses.
struct Answers {
    asked: Vec<String>,
}

impl Environment for Answers {
    fn evaluate(&mut self, query: &Query) -> Result<State, Error> {
        let text = query.encode();
        self.asked.push(text.clone());
        if text == "bad" {
            Err(Error::general_error("no answer".to_string()))
        } else {
            Ok(State::new().with_string(&text.to_uppercase()))
        }
    }
}

type Greeting = Command2<String, String, fn(&State, String) -> String>;

fn greeting(_state: &State, who: String) -> String {
    format!("Hello {}!", who)
}

fn answering() -> PlanInterpreter<Answers, CommandRegistry<Answers, Greeting>, NoStore, NoBinCache>
{
    let mut cr: CommandRegistry<Answers, Greeting> = CommandRegistry::new();
    cr.register_command(
        CommandKey::from_name("greet"),
        Command2::new(greeting as fn(&State, String) -> String),
    )
    .unwrap()
    .with_argument(ArgumentInfo::string_argument("who"));
    let cmr = cr.command_metadata_registry.clone();
    PlanInterpreter::new(cmr, Answers { asked: Vec::new() }, cr, NoStore, NoBinCache)
}

#[test]
fn links_are_evaluated_and_put_in_place() {
    let mut pi = answering();
    let state = pi.evaluate("greet-~X~who/is-there~E");
    assert_eq!(state.data.try_into_string().unwrap(), "Hello WHO/IS-THERE!");
    let state = pi.evaluate("greet-world");
    assert_eq!(state.data.try_into_string().unwrap(), "Hello world!");
}

#[test]
fn a_link_that_fails_ends_the_action() {
    let mut pi = answering();
    let state = pi.evaluate("greet-~X~bad~E");
    match &*state.metadata {
        liquers::metadata::Metadata::MetadataRecord(m) => {
            assert!(m.is_error);
            assert_eq!(m.message, "no answer");
        }
        _ => panic!("record expected"),
    }
}

#[test]
fn a_command_is_registered_with_what_its_key_says() {
    let mut cr: CommandRegistry<NoInjection, Command0<String, fn() -> String>> =
        CommandRegistry::new();
    fn hello() -> String {
        "Hello".to_string()
    }
    let metadata = cr
        .register_command(
            CommandKey::new("r", "n", "hello"),
            Command0::new(hello as fn() -> String),
        )
        .unwrap();
    assert_eq!(
        (metadata.realm.as_str(), metadata.namespace.as_str(), metadata.name.as_str()),
        ("r", "n", "hello")
    );
    assert!(metadata.arguments.is_empty());
    assert_eq!(metadata.state_argument.name, "state");
    assert!(matches!(metadata.state_argument.default, DefaultValue::NoDefault));
    assert_eq!((metadata.doc.as_str(), metadata.module.as_str()), ("", ""));
    assert_eq!(cr.command_metadata_registry.commands.len(), 1);
}
