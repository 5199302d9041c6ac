use liquers::cache::{BinCache, MemoryBinCache, NoBinCache};
use liquers::command_metadata::{
    ArgumentInfo, CommandKey, CommandMetadata, CommandMetadataRegistry, EnumArgument,
};
use liquers::commands::{
    Command, Command0, Command1, Command2, CommandArguments, CommandExecutor, CommandRegistry,
    NoInjection,
};
use liquers::error::{Error, ErrorType};
use liquers::interpreter::PlanInterpreter;
use liquers::metadata::{LogLevel, Metadata, MetadataRecord, Status};
use liquers::parse::{parse_key, parse_query};
use liquers::plan::{make_plan, Parameter, Plan, ResolvedParameters, Step};
use liquers::query::Key;
use liquers::state::State;
use liquers::store::{MemoryStore, NoStore, Store};
use liquers::value::{Value, ValueInterface};
use std::cell::Cell;
use std::rc::Rc;

type Boxed = Box<dyn Fn(&State, &mut CommandArguments, &mut NoInjection) -> Result<Value, Error>>;

/// A command of any shape behind one type, so that commands of several
/// shapes fit in one registry.
struct AnyCommand(Boxed);

impl Command<NoInjection> for AnyCommand {
    fn execute(
        &self,
        state: &State,
        arguments: &mut CommandArguments,
        injection: &mut NoInjection,
    ) -> Result<Value, Error> {
        (self.0)(state, arguments, injection)
    }

    fn command_metadata(&self) -> Option<CommandMetadata> {
        None
    }
}

fn boxed<C: Command<NoInjection> + 'static>(c: C) -> AnyCommand {
    AnyCommand(Box::new(move |s, a, i| c.execute(s, a, i)))
}

fn registry() -> CommandRegistry<NoInjection, AnyCommand> {
    let mut cr: CommandRegistry<NoInjection, AnyCommand> = CommandRegistry::new();
    cr.register_command(
        CommandKey::from_name("hello"),
        boxed(Command0::new(|| "Hello".to_string())),
    )
    .unwrap();
    cr.register_command(
        CommandKey::from_name("greet"),
        boxed(Command2::new(|state: &State, who: String| -> String {
            let greeting = state.data.try_into_string().unwrap();
            format!("{} {}!", greeting, who)
        })),
    )
    .unwrap()
    .with_state_argument(ArgumentInfo::string_argument("greeting"))
    .with_argument(ArgumentInfo::string_argument("who"));
    cr
}

fn interpreter(
) -> PlanInterpreter<NoInjection, CommandRegistry<NoInjection, AnyCommand>, NoStore, NoBinCache> {
    let cr = registry();
    let cmr = cr.command_metadata_registry.clone();
    PlanInterpreter::new(cmr, NoInjection, cr, NoStore, NoBinCache)
}

#[test]
fn test_plan_interpreter() {
    let mut cr: CommandRegistry<NoInjection, AnyCommand> = CommandRegistry::new();
    cr.register_command(
        CommandKey::new("", "root", "test"),
        boxed(Command0::new(|| "Hello".to_string())),
    )
    .unwrap();
    let mut cmr = CommandMetadataRegistry::new();
    cmr.add_command(&CommandMetadata::new("test"));
    let mut pi = PlanInterpreter::new(cmr, NoInjection, cr, NoStore, NoBinCache);
    pi.with_query("test").unwrap();
    pi.step().unwrap();
    assert_eq!(pi.state().data.try_into_string().unwrap(), "Hello");
}

#[test]
fn test_hello_world_interpreter() {
    let mut pi = interpreter();
    pi.with_query("hello/greet-world").unwrap();
    pi.step().unwrap();
    assert_eq!(pi.state().data.try_into_string().unwrap(), "Hello");
    pi.step().unwrap();
    assert_eq!(pi.state().data.try_into_string().unwrap(), "Hello world!");
    assert!(pi.step().is_err());
}

#[test]
fn identity_action() {
    let mut pi = interpreter();
    let state = pi.evaluate("hello");
    assert_eq!(state.data.try_into_string().unwrap(), "Hello");
    match &*state.metadata {
        Metadata::MetadataRecord(m) => {
            assert!(!m.is_error);
            assert_eq!(m.status, Status::Ready);
            assert_eq!(m.query.encode(), "hello");
            assert_eq!(m.type_identifier, "text");
        }
        _ => panic!("record expected"),
    }
}

#[test]
fn state_and_argument() {
    let mut pi = interpreter();
    let state = pi.evaluate("hello/greet-world");
    assert_eq!(state.data.try_into_string().unwrap(), "Hello world!");
}

#[test]
fn filename_propagation() {
    let mut pi = interpreter();
    let state = pi.evaluate("hello/greet-world/out.txt");
    assert_eq!(state.data.try_into_string().unwrap(), "Hello world!");
    match &*state.metadata {
        Metadata::MetadataRecord(m) => {
            assert_eq!(m.filename, Some("out.txt".to_string()));
            assert_eq!(m.media_type, "text/plain");
            assert_eq!(m.status, Status::Ready);
        }
        _ => panic!("record expected"),
    }
}

fn pick_registry(others_allowed: bool) -> CommandRegistry<NoInjection, AnyCommand> {
    let mut cr: CommandRegistry<NoInjection, AnyCommand> = CommandRegistry::new();
    let mut choice = EnumArgument::new("choice");
    choice.with_value("a", Value::I32(1)).with_value("b", Value::I32(2));
    if others_allowed {
        choice.with_others_allowed();
    }
    cr.register_command(
        CommandKey::from_name("pick"),
        boxed(Command2::new(|_state: &State, choice: Value| -> Value { choice })),
    )
    .unwrap()
    .with_argument(ArgumentInfo::enum_argument("choice", choice));
    cr
}

#[test]
fn enum_argument() {
    let cr = pick_registry(false);
    let cmr = cr.command_metadata_registry.clone();
    let mut pi = PlanInterpreter::new(cmr, NoInjection, cr, NoStore, NoBinCache);
    let state = pi.evaluate("pick-b");
    assert_eq!(state.data.try_into_i32().unwrap(), 2);

    let cr = pick_registry(false);
    let cmr = cr.command_metadata_registry.clone();
    let e = make_plan(&parse_query("pick-c").unwrap(), &cmr).unwrap_err();
    assert_eq!(e.error_type, ErrorType::ParameterError);
    assert_eq!(e.position.offset, 5);
    let mut pi = PlanInterpreter::new(cmr, NoInjection, cr, NoStore, NoBinCache);
    let state = pi.evaluate("pick-c");
    match &*state.metadata {
        Metadata::MetadataRecord(m) => {
            assert!(m.is_error);
            assert_eq!(m.log.last().unwrap().level, LogLevel::Error);
        }
        _ => panic!("record expected"),
    }

    let cr = pick_registry(true);
    let cmr = cr.command_metadata_registry.clone();
    let mut pi = PlanInterpreter::new(cmr, NoInjection, cr, NoStore, NoBinCache);
    let state = pi.evaluate("pick-c");
    assert_eq!(state.data.try_into_string().unwrap(), "c");
}

#[test]
fn resource_and_transform() {
    let mut store = MemoryStore::new(&Key::new());
    store
        .set(
            &parse_key("data/input.csv").unwrap(),
            &"x,y\n1,2".as_bytes().to_vec(),
            &Metadata::new(),
        )
        .unwrap();
    let mut cr: CommandRegistry<NoInjection, AnyCommand> = CommandRegistry::new();
    cr.register_command(
        CommandKey::from_name("to_table"),
        boxed(Command1::new(|state: &State| -> Value {
            let text = state.data.try_into_string().unwrap();
            let rows: Vec<Value> = text
                .lines()
                .map(|line| {
                    Value::Array(line.split(',').map(|c| Value::Text(c.to_string())).collect())
                })
                .collect();
            Value::Array(rows)
        })),
    )
    .unwrap();
    cr.register_command(
        CommandKey::from_name("column"),
        boxed(Command2::new(|state: &State, name: String| -> String {
            match &*state.data {
                Value::Array(rows) => {
                    let header = match &rows[0] {
                        Value::Array(cells) => cells,
                        _ => panic!("row expected"),
                    };
                    let at = header
                        .iter()
                        .position(|c| c.try_into_string().unwrap() == name)
                        .unwrap();
                    match &rows[1] {
                        Value::Array(cells) => cells[at].try_into_string().unwrap(),
                        _ => panic!("row expected"),
                    }
                }
                _ => panic!("table expected"),
            }
        })),
    )
    .unwrap()
    .with_argument(ArgumentInfo::string_argument("name"));
    let cmr = cr.command_metadata_registry.clone();
    let mut pi = PlanInterpreter::new(cmr, NoInjection, cr, store, NoBinCache);
    let state = pi.evaluate("-R/data/input.csv/-/to_table/column-y");
    assert_eq!(state.data.try_into_string().unwrap(), "2");
}

#[test]
fn cache_hit() {
    let calls = Rc::new(Cell::new(0));
    let counted = calls.clone();
    let mut cr: CommandRegistry<NoInjection, AnyCommand> = CommandRegistry::new();
    cr.register_command(
        CommandKey::from_name("hello"),
        boxed(Command0::new(|| "Hello".to_string())),
    )
    .unwrap();
    cr.register_command(
        CommandKey::from_name("greet"),
        boxed(Command2::new(move |state: &State, who: String| -> String {
            counted.set(counted.get() + 1);
            format!("{} {}!", state.data.try_into_string().unwrap(), who)
        })),
    )
    .unwrap()
    .with_argument(ArgumentInfo::string_argument("who"));
    let cmr = cr.command_metadata_registry.clone();
    let mut pi = PlanInterpreter::new(cmr, NoInjection, cr, NoStore, MemoryBinCache::new());
    let first = pi.evaluate("hello/greet-world");
    assert_eq!(calls.get(), 1);
    let second = pi.evaluate("hello/greet-world");
    assert_eq!(calls.get(), 1);
    assert_eq!(first.data.try_into_string().unwrap(), "Hello world!");
    assert_eq!(second.data.try_into_string().unwrap(), "Hello world!");
    assert_eq!(
        liquers::value::DefaultValueSerializer::as_bytes(&*first.data, "txt").unwrap(),
        liquers::value::DefaultValueSerializer::as_bytes(&*second.data, "txt").unwrap()
    );
}

#[test]
fn failing_action_is_recorded() {
    let mut pi = interpreter();
    let state = pi.evaluate("hello/unknown");
    match &*state.metadata {
        Metadata::MetadataRecord(m) => {
            assert!(m.is_error);
            assert_eq!(m.status, Status::Error);
            assert_eq!(m.log.last().unwrap().level, LogLevel::Error);
            assert_eq!(
                m.message,
                "Action 'unknown' not registered in namespaces '', 'root' at position 7"
            );
        }
        _ => panic!("record expected"),
    }
    let state = pi.evaluate("hello/greet");
    match &*state.metadata {
        Metadata::MetadataRecord(m) => {
            assert!(m.is_error);
            assert_eq!(m.message, "Missing argument #0:who at position 7");
        }
        _ => panic!("record expected"),
    }
    let state = pi.evaluate("hello-x");
    assert_eq!(state.data.try_into_string().unwrap(), "Hello");
    let state = pi.evaluate("hello world");
    match &*state.metadata {
        Metadata::MetadataRecord(m) => {
            assert!(m.is_error);
            assert_eq!(m.log.last().unwrap().level, LogLevel::Error);
        }
        _ => panic!("record expected"),
    }
}

#[test]
fn test_execute_command() {
    let c = Command0::new(|| -> String { "Hello".into() });
    let mut ca = CommandArguments::new(ResolvedParameters::new());
    let state = State::new();
    let s: Value = c.execute(&state, &mut ca, &mut NoInjection).unwrap();
    assert_eq!(s.try_into_string().unwrap(), "Hello");
}

#[test]
fn test_command_arguments() {
    let mut rp = ResolvedParameters::new();
    rp.parameters.push(Parameter { value: Value::new("Hello"), ..Parameter::default() });
    let mut ca = CommandArguments::new(rp);
    let s: String = ca.get(&mut NoInjection).unwrap();
    assert_eq!(s, "Hello");
    assert!(ca.all_parameters_used());
    let missing: Result<String, Error> = ca.get(&mut NoInjection);
    assert_eq!(missing.unwrap_err().error_type, ErrorType::ArgumentMissing);
}

#[test]
fn test_command_registry() {
    let mut cr: CommandRegistry<NoInjection, AnyCommand> = CommandRegistry::new();
    cr.register_command(
        CommandKey::from_name("test"),
        boxed(Command0::new(|| -> String { "Hello1".into() })),
    )
    .unwrap();
    cr.register_command(
        CommandKey::from_name("test2"),
        boxed(Command0::new(|| -> String { "Hello2".into() })),
    )
    .unwrap();
    cr.register_command(
        CommandKey::from_name("stest1"),
        boxed(Command1::new(|_s: &State| -> String { "STest1".into() })),
    )
    .unwrap();
    let again = cr.register_command(
        CommandKey::from_name("test"),
        boxed(Command0::new(|| -> String { "Hello3".into() })),
    );
    assert_eq!(again.unwrap_err().error_type, ErrorType::CommandAlreadyRegistered);

    let state = State::new();
    let mut ca = CommandArguments::new(ResolvedParameters::new());
    let s = cr.execute("", "", "test", &state, &mut ca, &mut NoInjection).unwrap();
    assert_eq!(s.try_into_string().unwrap(), "Hello1");
    let mut ca = CommandArguments::new(ResolvedParameters::new());
    let s = cr.execute("", "", "test2", &state, &mut ca, &mut NoInjection).unwrap();
    assert_eq!(s.try_into_string().unwrap(), "Hello2");
    let mut ca = CommandArguments::new(ResolvedParameters::new());
    let e = cr.execute("", "", "none", &state, &mut ca, &mut NoInjection).unwrap_err();
    assert_eq!(e.error_type, ErrorType::ActionNotRegistered);
    assert_eq!(e.message, "Action 'none' not registered in namespaces ''");
}

#[test]
fn metadata_record_log() {
    let mut m = MetadataRecord::new();
    m.info("one").warning("two");
    assert!(!m.is_error);
    m.error("three");
    assert!(m.is_error);
    assert_eq!(m.status, Status::Error);
    assert_eq!(m.message, "three");
    assert_eq!(m.log.len(), 3);
    assert_eq!(m.log[0].level, LogLevel::Info);
    assert_eq!(m.log[2].level, LogLevel::Error);
    m.with_filename("a.html".to_string());
    assert_eq!(m.media_type, "text/html");
    m.with_filename("a.unknown".to_string());
    assert_eq!(m.media_type, "text/html");
    assert_eq!(m.filename, Some("a.unknown".to_string()));
}

#[test]
fn cache_keeps_and_forgets() {
    let mut cache = MemoryBinCache::new();
    let key = parse_query("-R/key").unwrap();
    assert_eq!(cache.contains(&key), false);
    cache
        .set_binary(&"hello".as_bytes().to_vec(), &Metadata::new().with_query(key.clone()))
        .unwrap();
    assert_eq!(cache.contains(&key), true);
    assert_eq!(cache.get_binary(&key), Some("hello".as_bytes().to_vec()));
    assert_eq!(cache.get_metadata(&key).unwrap().query().unwrap().encode(), "-R/key");
    let other = parse_query("other").unwrap();
    cache.set_metadata(&Metadata::new().with_query(other.clone())).unwrap();
    assert_eq!(cache.get_binary(&other), None);
    assert!(cache.contains(&other));
    let kept: Vec<String> = cache.keys().iter().map(|q| q.encode()).collect();
    assert_eq!(kept, vec!["-R/key", "other"]);
    cache.set_binary(&vec![1], &Metadata::new().with_query(other.clone())).unwrap();
    assert_eq!(cache.keys().len(), 2);
    cache.remove(&other).unwrap();
    assert_eq!(cache.keys().len(), 1);
    assert_eq!(cache.keys()[0].encode(), "-R/key");
    assert_eq!(cache.get_binary(&key), Some("hello".as_bytes().to_vec()));
    cache.remove(&key).unwrap();
    assert!(!cache.contains(&key));
    cache.set_metadata(&Metadata::new().with_query(key.clone())).unwrap();
    cache.clear();
    assert!(cache.keys().is_empty());
}

#[test]
fn cache_test_no_cache() {
    let cache: NoBinCache = NoBinCache;
    let key = parse_query("-R/key").unwrap();
    assert!(cache.get_metadata(&key).is_none());
    assert_eq!(cache.contains(&key), false);
}

#[test]
fn cache_test_memory_cache() {
    let mut cache = MemoryBinCache::new();
    let key = parse_query("-R/key").unwrap();
    assert_eq!(cache.contains(&key), false);
    cache
        .set_binary(&"hello".as_bytes().to_vec(), &Metadata::new().with_query(key.clone()))
        .unwrap();
    assert_eq!(cache.contains(&key), true);
    assert_eq!(cache.get_binary(&key).is_some(), true);
}

#[test]
fn memory_store_keeps() {
    let mut store = MemoryStore::new(&parse_key("data").unwrap());
    let key = parse_key("data/a/b.txt").unwrap();
    let mut record = MetadataRecord::new();
    record.with_query(parse_query("x/y").unwrap()).with_media_type("text/plain".to_string());
    let metadata = Metadata::MetadataRecord(record);
    assert!(store.is_supported(&key));
    assert!(!store.is_supported(&parse_key("other/a").unwrap()));
    store.set(&key, &vec![1, 2, 3], &metadata).unwrap();
    let (bytes, back) = store.get(&key).unwrap();
    assert_eq!(bytes, vec![1, 2, 3]);
    assert_eq!(back.query().unwrap().encode(), "x/y");
    assert_eq!(back.get_media_type(), "text/plain");
    assert!(store.contains(&key));
    assert!(store.is_dir(&parse_key("data/a").unwrap()));
    assert!(!store.is_dir(&key));
    store.set(&parse_key("data/a/c.txt").unwrap(), &vec![], &metadata).unwrap();
    store.set(&parse_key("data/d").unwrap(), &vec![], &metadata).unwrap();
    assert_eq!(store.listdir(&parse_key("data").unwrap()), vec!["a", "d"]);
    assert_eq!(store.listdir(&parse_key("data/a").unwrap()), vec!["b.txt", "c.txt"]);
    let children = liquers::store::listdir_keys(&store, &parse_key("data/a").unwrap());
    assert_eq!(children.len(), 2);
    assert_eq!(children[0].encode(), "data/a/b.txt");
    assert_eq!(store.keys().len(), 3);
    let refused = store.set(&parse_key("other/x").unwrap(), &vec![], &metadata).unwrap_err();
    assert_eq!(refused.to_string(), "Key other/x not supported by store data Store");
    store.remove(&key).unwrap();
    assert_eq!(store.get(&key).unwrap_err().to_string(), "Key not found: data/a/b.txt");
    assert!(store.remove(&key).is_err());
    store.set_metadata(&key, &metadata).unwrap();
    assert_eq!(store.get_bytes(&key).unwrap(), Vec::<u8>::new());
    assert_eq!(NoStore.store_name(), " Store");
}

#[test]
fn too_many_parameters() {
    let mut rp = ResolvedParameters::new();
    rp.parameters.push(Parameter {
        value: Value::new("a"),
        position: liquers::query::Position::new(6, 1, 7),
    });
    rp.parameters.push(Parameter {
        value: Value::new("b"),
        position: liquers::query::Position::new(8, 1, 9),
    });
    let state = State::new();

    let mut ca = CommandArguments::new(rp.clone());
    ca.action_position = liquers::query::Position::new(0, 1, 1);
    let e = Command0::new(|| "x".to_string())
        .execute(&state, &mut ca, &mut NoInjection)
        .unwrap_err();
    assert_eq!(e.error_type, ErrorType::TooManyParameters);
    assert_eq!(e.to_string(), "Too many parameters (2) - none expected at position 1");

    let mut ca = CommandArguments::new(rp.clone());
    let e = Command1::new(|_s: &State| "x".to_string())
        .execute(&state, &mut ca, &mut NoInjection)
        .unwrap_err();
    assert_eq!(e.error_type, ErrorType::TooManyParameters);
    assert_eq!(
        e.to_string(),
        "Too many parameters: 2 - no parameters expected, 2 excess parameters found at position 7"
    );

    let mut ca = CommandArguments::new(rp.clone());
    let e = Command2::new(|_s: &State, a: String| a)
        .execute(&state, &mut ca, &mut NoInjection)
        .unwrap_err();
    assert_eq!(e.error_type, ErrorType::TooManyParameters);
    assert_eq!(e.to_string(), "Too many parameters: 2; 1 excess parameters found at position 9");

    let mut ca = CommandArguments::new(rp);
    let e = Command2::new(|_s: &State, a: i32| a)
        .execute(&state, &mut ca, &mut NoInjection)
        .unwrap_err();
    assert_eq!(e.error_type, ErrorType::ConversionError);
    assert_eq!(e.to_string(), "Can't convert 'text' to i32 at position 7");
}

#[test]
fn cancelled_evaluation() {
    let mut pi = interpreter();
    pi.with_query("hello/greet-world").unwrap();
    pi.step().unwrap();
    pi.cancel("cancelled");
    assert!(pi.has_failed());
    let e = pi.step().unwrap_err();
    assert_eq!(e.message, "cancelled");
    let state = pi.run();
    assert_eq!(state.data.try_into_string().unwrap(), "Hello");
    match &*state.metadata {
        Metadata::MetadataRecord(m) => {
            assert!(m.is_error);
            assert_eq!(m.status, Status::Error);
            assert_eq!(m.log.last().unwrap().message, "cancelled");
        }
        _ => panic!("record expected"),
    }
}

#[test]
fn plans_within_plans() {
    let mut pi = interpreter();
    let inner = make_plan(&parse_query("hello").unwrap(), &registry().command_metadata_registry)
        .unwrap();
    let plan = Plan {
        query: parse_query("x").unwrap(),
        steps: vec![
            Step::Info("begin".to_string()),
            Step::Plan(inner),
            Step::Evaluate(parse_query("greet-there").unwrap()),
            Step::Warning("careful".to_string()),
            Step::Filename(liquers::query::ResourceName::new("r.html".to_string())),
        ],
    };
    pi.with_plan(plan);
    let state = pi.run();
    assert_eq!(state.data.try_into_string().unwrap(), "Hello there!");
    match &*state.metadata {
        Metadata::MetadataRecord(m) => {
            assert_eq!(m.status, Status::Ready);
            assert_eq!(m.log.len(), 2);
            assert_eq!(m.media_type, "text/html");
            assert_eq!(m.query.encode(), "x");
        }
        _ => panic!("record expected"),
    }
    let plan = Plan {
        query: parse_query("x").unwrap(),
        steps: vec![
            Step::Error("stop".to_string()),
            Step::Info("never".to_string()),
        ],
    };
    pi.with_plan(plan);
    let state = pi.run();
    match &*state.metadata {
        Metadata::MetadataRecord(m) => {
            assert!(m.is_error);
            assert_eq!(m.log.len(), 1);
        }
        _ => panic!("record expected"),
    }
    let plan = Plan {
        query: parse_query("x").unwrap(),
        steps: vec![Step::Evaluate(parse_query("nothing").unwrap())],
    };
    pi.with_plan(plan);
    assert!(pi.step().is_err());
    assert!(pi.has_failed());
}

#[test]
fn resource_metadata_and_missing_resources() {
    let mut store = MemoryStore::new(&Key::new());
    let mut record = MetadataRecord::new();
    record.with_query(parse_query("made/it").unwrap()).with_media_type("text/plain".to_string());
    store
        .set(&parse_key("a.txt").unwrap(), &b"text".to_vec(), &Metadata::MetadataRecord(record))
        .unwrap();
    store.set(&parse_key("b.bin").unwrap(), &vec![0xff], &Metadata::new()).unwrap();
    store.set(&parse_key("c.txt").unwrap(), &vec![0xff], &Metadata::new()).unwrap();
    let cr = registry();
    let cmr = cr.command_metadata_registry.clone();
    let mut pi = PlanInterpreter::new(cmr, NoInjection, cr, store, NoBinCache);
    let state = pi.evaluate("-R-meta/a.txt");
    assert_eq!(state.data.get("query").unwrap().try_into_string().unwrap(), "made/it");
    assert_eq!(state.data.get("media_type").unwrap().try_into_string().unwrap(), "text/plain");
    assert_eq!(state.data.get("is_error").unwrap().try_into_bool().unwrap(), false);
    let state = pi.evaluate("-R/a.txt");
    assert_eq!(state.data.try_into_string().unwrap(), "text");
    let state = pi.evaluate("-R/b.bin");
    assert!(matches!(&*state.data, Value::Bytes(b) if b == &vec![0xff]));
    let state = pi.evaluate("-R/c.txt");
    match &*state.metadata {
        Metadata::MetadataRecord(m) => {
            assert!(m.is_error);
            assert_eq!(m.message, "Malformed data in format txt");
        }
        _ => panic!("record expected"),
    }
    let state = pi.evaluate("-R/missing.txt");
    match &*state.metadata {
        Metadata::MetadataRecord(m) => {
            assert!(m.is_error);
            assert_eq!(m.message, "Key not found: missing.txt");
            assert_eq!(m.log.last().unwrap().level, LogLevel::Error);
        }
        _ => panic!("record expected"),
    }
}

#[test]
fn test_hashmap_command_executor() {
    let mut hm: CommandRegistry<NoInjection, AnyCommand> = CommandRegistry::new();
    hm.register_command(
        CommandKey::new("", "", "test"),
        boxed(Command0::new(|| -> String { "Hello1".into() })),
    )
    .unwrap();
    hm.register_command(
        CommandKey::new("", "", "test2"),
        boxed(Command0::new(|| -> String { "Hello2".into() })),
    )
    .unwrap();

    let state = State::new();
    let mut injection = NoInjection;
    let mut ca = CommandArguments::new(ResolvedParameters::new());
    let s = hm.execute("", "", "test", &state, &mut ca, &mut injection).unwrap();
    assert_eq!(s.try_into_string().unwrap(), "Hello1");
    let mut ca = CommandArguments::new(ResolvedParameters::new());
    let s = hm.execute("", "", "test2", &state, &mut ca, &mut injection).unwrap();
    assert_eq!(s.try_into_string().unwrap(), "Hello2");
}

#[test]
fn resources_are_read_as_their_metadata_says() {
    let mut store = MemoryStore::new(&Key::new());
    let mut text = MetadataRecord::new();
    text.with_type_identifier("text".to_string());
    let mut bytes = MetadataRecord::new();
    bytes.with_type_identifier("bytes".to_string());
    store
        .set(&parse_key("a.bin").unwrap(), &b"words".to_vec(), &Metadata::MetadataRecord(text))
        .unwrap();
    store
        .set(&parse_key("b.txt").unwrap(), &b"words".to_vec(), &Metadata::MetadataRecord(bytes))
        .unwrap();
    store.set(&parse_key("c.txt").unwrap(), &b"words".to_vec(), &Metadata::new()).unwrap();
    store.set(&parse_key("d.bin").unwrap(), &b"words".to_vec(), &Metadata::new()).unwrap();
    let cr = registry();
    let cmr = cr.command_metadata_registry.clone();
    let mut pi = PlanInterpreter::new(cmr, NoInjection, cr, store, NoBinCache);
    assert!(matches!(&*pi.evaluate("-R/a.bin").data, Value::Text(t) if t == "words"));
    assert!(matches!(&*pi.evaluate("-R/b.txt").data, Value::Bytes(b) if b == b"words"));
    assert!(matches!(&*pi.evaluate("-R/c.txt").data, Value::Text(t) if t == "words"));
    assert!(matches!(&*pi.evaluate("-R/d.bin").data, Value::Bytes(b) if b == b"words"));
}

/// A store that holds nothing and fails to read whatever it is asked for.
struct Broken;

impl Store for Broken {
    fn inv(&self) -> bool {
        true
    }

    fn model(&self) -> liquers::store::StoreModel {
        unreachable!("the model of a store is not computed")
    }

    fn store_name(&self) -> String {
        "broken".to_string()
    }

    fn is_supported(&self, _key: &Key) -> bool {
        true
    }

    fn get(&self, key: &Key) -> Result<(Vec<u8>, Metadata), liquers::store::StoreError> {
        Err(self.unread(key))
    }

    fn get_bytes(&self, key: &Key) -> Result<Vec<u8>, liquers::store::StoreError> {
        Err(self.unread(key))
    }

    fn get_metadata(&self, key: &Key) -> Result<Metadata, liquers::store::StoreError> {
        Err(self.unread(key))
    }

    fn set(
        &mut self,
        key: &Key,
        _data: &Vec<u8>,
        _metadata: &Metadata,
    ) -> Result<(), liquers::store::StoreError> {
        Err(self.unwritten(key))
    }

    fn set_metadata(
        &mut self,
        key: &Key,
        _metadata: &Metadata,
    ) -> Result<(), liquers::store::StoreError> {
        Err(self.unwritten(key))
    }

    fn remove(&mut self, key: &Key) -> Result<(), liquers::store::StoreError> {
        Err(self.unwritten(key))
    }

    fn makedir(&mut self, key: &Key) -> Result<(), liquers::store::StoreError> {
        Err(self.unwritten(key))
    }

    fn contains(&self, _key: &Key) -> bool {
        false
    }

    fn is_dir(&self, _key: &Key) -> bool {
        false
    }

    fn keys(&self) -> Vec<Key> {
        Vec::new()
    }

    fn listdir(&self, _key: &Key) -> Vec<String> {
        Vec::new()
    }
}

impl Broken {
    fn unread(&self, key: &Key) -> liquers::store::StoreError {
        liquers::store::StoreError::KeyReadError(
            liquers::store::Key::from_key(key),
            self.store_name(),
        )
    }

    fn unwritten(&self, key: &Key) -> liquers::store::StoreError {
        liquers::store::StoreError::KeyWriteError(
            liquers::store::Key::from_key(key),
            self.store_name(),
        )
    }
}

#[test]
fn a_store_that_fails_to_read_fails_the_step() {
    let cr = registry();
    let cmr = cr.command_metadata_registry.clone();
    let mut pi = PlanInterpreter::new(cmr, NoInjection, cr, Broken, NoBinCache);
    let state = pi.evaluate("-R/a/b.txt");
    match &*state.metadata {
        Metadata::MetadataRecord(m) => {
            assert!(m.is_error);
            assert_eq!(m.status, Status::Error);
            assert_eq!(m.message, "Error reading key a/b.txt, store broken");
        }
        _ => panic!("record expected"),
    }
    let answer = liquers::service::store_get(&Broken, "a/b.txt");
    assert_eq!(answer.status, 500);
    assert_eq!(answer.body, b"Error reading store: Error reading key a/b.txt, store broken");
}

type Hosted = liquers::commands::AnyCommand<
    Command0<String, fn() -> String>,
    Command1<String, fn(&State) -> String>,
    Command2<String, String, fn(&State, String) -> String>,
>;

fn say_hello() -> String {
    "Hello".to_string()
}

fn say_greeting(state: &State, who: String) -> String {
    format!("{} {}!", state.data.try_into_string().unwrap(), who)
}

fn shout(state: &State) -> String {
    state.data.try_into_string().unwrap().to_uppercase()
}

type HostedInterpreter =
    PlanInterpreter<NoInjection, CommandRegistry<NoInjection, Hosted>, NoStore, NoBinCache>;

fn hosted() -> HostedInterpreter {
    let mut cr: CommandRegistry<NoInjection, Hosted> = CommandRegistry::new();
    cr.register_command(
        CommandKey::from_name("hello"),
        liquers::commands::AnyCommand::Zero(Command0::new(say_hello as fn() -> String)),
    )
    .unwrap();
    cr.register_command(
        CommandKey::from_name("greet"),
        liquers::commands::AnyCommand::Two(Command2::new(
            say_greeting as fn(&State, String) -> String,
        )),
    )
    .unwrap()
    .with_argument(ArgumentInfo::string_argument("who"));
    cr.register_command(
        CommandKey::from_name("shout"),
        liquers::commands::AnyCommand::One(Command1::new(shout as fn(&State) -> String)),
    )
    .unwrap();
    let cmr = cr.command_metadata_registry.clone();
    PlanInterpreter::new(cmr, NoInjection, cr, NoStore, NoBinCache)
}

fn status_of(state: &State) -> (Status, bool) {
    match &*state.metadata {
        Metadata::MetadataRecord(m) => (m.status, m.is_error),
        _ => panic!("record expected"),
    }
}

#[test]
fn the_last_step_marks_the_outcome_ready() {
    let mut pi = hosted();
    pi.with_query("hello/greet-world/shout/out.txt").unwrap();
    pi.step().unwrap();
    assert_eq!(pi.state().data.try_into_string().unwrap(), "Hello");
    assert_eq!(status_of(&pi.state()), (Status::Unset, false));
    pi.step().unwrap();
    assert_eq!(pi.state().data.try_into_string().unwrap(), "Hello world!");
    assert_eq!(status_of(&pi.state()), (Status::Unset, false));
    pi.step().unwrap();
    assert_eq!(pi.state().data.try_into_string().unwrap(), "HELLO WORLD!");
    assert_eq!(status_of(&pi.state()), (Status::Unset, false));
    pi.step().unwrap();
    assert_eq!(pi.state().data.try_into_string().unwrap(), "HELLO WORLD!");
    assert_eq!(status_of(&pi.state()), (Status::Ready, false));
    match &*pi.state().metadata {
        Metadata::MetadataRecord(m) => {
            assert_eq!(m.filename.as_deref(), Some("out.txt"));
            assert_eq!(m.media_type, "text/plain");
        }
        _ => panic!("record expected"),
    }
    let e = pi.step().unwrap_err();
    assert_eq!(e.message, "No more steps");
    assert_eq!(status_of(&pi.state()), (Status::Ready, false));
}

#[test]
fn a_single_action_is_ready_after_its_step() {
    let mut pi = hosted();
    pi.with_query("hello").unwrap();
    pi.step().unwrap();
    assert_eq!(pi.state().data.try_into_string().unwrap(), "Hello");
    assert_eq!(status_of(&pi.state()), (Status::Ready, false));
}

#[test]
fn a_last_step_that_fails_is_not_ready() {
    let mut pi = hosted();
    pi.with_query("hello/greet").unwrap_err();
    pi.with_query("greet-~X~hello~E").unwrap();
    let e = pi.step().unwrap_err();
    assert_eq!(e.error_type, ErrorType::General);
    assert_eq!(e.message, "evaluate not implemented");
    assert_eq!(status_of(&pi.state()), (Status::Error, true));
}
