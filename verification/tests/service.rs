use liquers::cache::NoBinCache;
use liquers::command_metadata::{ArgumentInfo, CommandKey};
use liquers::commands::{Command0, Command2, CommandRegistry, NoInjection};
use liquers::interpreter::PlanInterpreter;
use liquers::metadata::{Metadata, MetadataRecord};
use liquers::parse::parse_key;
use liquers::query::Key;
use liquers::service::{
    answer_from_state, answer_from_store, evaluate_query, store_get, web_store_get,
    ServiceStatus, StatusCode,
};
use liquers::state::State;
use liquers::store::{Key as EncodedKey, MemoryStore, NoStore, Store, StoreError};

fn pages() -> MemoryStore {
    let mut store = MemoryStore::new(&Key::new());
    let mut html = MetadataRecord::new();
    html.with_media_type("text/html".to_string());
    let html = Metadata::MetadataRecord(html);
    let mut text = MetadataRecord::new();
    text.with_media_type("text/plain".to_string());
    let text = Metadata::MetadataRecord(text);
    store.set(&parse_key("web/index.html").unwrap(), &b"<p>top</p>".to_vec(), &html).unwrap();
    store.set(&parse_key("web/app/index.html").unwrap(), &b"<p>app</p>".to_vec(), &html).unwrap();
    store.set(&parse_key("web/notes.txt").unwrap(), &b"notes".to_vec(), &text).unwrap();
    store
}

#[test]
fn store_answers() {
    let store = pages();
    let r = store_get(&store, "web/notes.txt");
    assert_eq!(r.status, 200);
    assert_eq!(r.content_type, "text/plain");
    assert_eq!(r.body, b"notes".to_vec());
    let r = store_get(&store, "web/missing.txt");
    assert_eq!(r.status, 404);
    assert_eq!(r.content_type, "text/plain");
    assert_eq!(r.body, b"Error reading store: Key not found: web/missing.txt".to_vec());
    let r = store_get(&store, "web");
    assert_eq!(r.status, 404);
}

#[test]
fn store_errors_by_kind() {
    let key = EncodedKey::new("a/b");
    let r = answer_from_store(Err(StoreError::KeyNotFound(key.clone())));
    assert_eq!(r.status, 404);
    let r = answer_from_store(Err(StoreError::KeyReadError(key.clone(), "disk".to_string())));
    assert_eq!(r.status, 500);
    assert_eq!(r.body, b"Error reading store: Error reading key a/b, store disk".to_vec());
    let r = answer_from_store(Err(StoreError::KeyNotSupported(key, "disk".to_string())));
    assert_eq!(r.status, 500);
    let r = answer_from_store(Ok((vec![1, 2], Metadata::new())));
    assert_eq!(r.status, 200);
    assert_eq!(r.body, vec![1, 2]);
}

#[test]
fn pages_of_a_store() {
    let store = pages();
    let r = web_store_get(&store, "web/notes.txt");
    assert_eq!((r.status, r.body), (200, b"notes".to_vec()));
    let r = web_store_get(&store, "web/");
    assert_eq!((r.status, r.body), (200, b"<p>top</p>".to_vec()));
    assert_eq!(r.content_type, "text/html");
    let r = web_store_get(&store, "web");
    assert_eq!((r.status, r.body), (200, b"<p>top</p>".to_vec()));
    let r = web_store_get(&store, "web/app");
    assert_eq!((r.status, r.body), (200, b"<p>app</p>".to_vec()));
    let r = web_store_get(&store, "web/app/");
    assert_eq!((r.status, r.body), (200, b"<p>app</p>".to_vec()));
    let r = web_store_get(&store, "web/other/");
    assert_eq!(r.status, 404);
    let r = web_store_get(&NoStore, "web/");
    assert_eq!(r.status, 404);
}

struct Boxed(Box<dyn liquers::commands::Command<NoInjection>>);

impl liquers::commands::Command<NoInjection> for Boxed {
    fn execute(
        &self,
        state: &State,
        arguments: &mut liquers::commands::CommandArguments,
        injection: &mut NoInjection,
    ) -> Result<liquers::value::Value, liquers::error::Error> {
        self.0.execute(state, arguments, injection)
    }

    fn command_metadata(&self) -> Option<liquers::command_metadata::CommandMetadata> {
        None
    }
}

#[test]
fn evaluation_answers() {
    let mut cr: CommandRegistry<NoInjection, Boxed> = CommandRegistry::new();
    cr.register_command(
        CommandKey::from_name("hello"),
        Boxed(Box::new(Command0::new(|| "Hello".to_string()))),
    )
    .unwrap();
    cr.register_command(
        CommandKey::from_name("greet"),
        Boxed(Box::new(Command2::new(|state: &State, who: String| -> String {
            let greeting = liquers::value::ValueInterface::try_into_string(&*state.data);
            format!("{} {}!", greeting.unwrap(), who)
        }))),
    )
    .unwrap()
    .with_argument(ArgumentInfo::string_argument("who"));
    let cmr = cr.command_metadata_registry.clone();
    let mut pi = PlanInterpreter::new(cmr, NoInjection, cr, NoStore, NoBinCache);
    let r = evaluate_query(&mut pi, "hello/greet-world/greeting.html");
    assert_eq!(r.status, 200);
    assert_eq!(r.content_type, "text/html");
    assert_eq!(r.body, b"Hello world!".to_vec());
    let r = evaluate_query(&mut pi, "hello/unknown");
    assert_eq!(r.status, 500);
    assert_eq!(r.content_type, "text/plain");
    assert_eq!(
        String::from_utf8(r.body).unwrap(),
        "Action 'unknown' not registered in namespaces '', 'root' at position 7"
    );
    let r = answer_from_state(&State::new());
    assert_eq!(r.status, 200);
    assert_eq!(r.body, b"null".to_vec());
}

#[test]
fn service_status() {
    let done = ServiceStatus::ok("stored", 3);
    assert!(done.is_ok());
    assert_eq!(done.status, StatusCode::Success);
    assert_eq!((done.message.as_str(), done.result), ("stored", 3));
    let failed = ServiceStatus::error("no store", ());
    assert!(!failed.is_ok());
    assert_eq!(failed.status, StatusCode::Error);
    assert_eq!(failed.message, "no store");
}

#[test]
fn environment_holds_store_and_commands() {
    let mut env: liquers::context::SimpleEnvironment<NoStore, NoInjection, Boxed> =
        liquers::context::SimpleEnvironment::new();
    env.get_mut_command_executor()
        .register_command(
            CommandKey::from_name("hello"),
            Boxed(Box::new(Command0::new(|| "Hello".to_string()))),
        )
        .unwrap()
        .with_doc("Says hello");
    assert!(env
        .get_command_metadata_registry()
        .find_command("", "", "hello")
        .is_some());
    assert!(env.get_command_executor().metadata_registry().find_command("", "", "x").is_none());
    assert!(!env.get_store().contains(&parse_key("a").unwrap()));
    let mut env = env.with_store(pages());
    assert!(env.get_store().contains(&parse_key("web/notes.txt").unwrap()));
    assert!(env
        .get_command_metadata_registry()
        .find_command("", "", "hello")
        .is_some());
    let e = liquers::interpreter::Environment::evaluate(&mut env, &liquers::query::Query::new())
        .unwrap_err();
    assert_eq!(e.error_type, liquers::error::ErrorType::NotSupported);
}
