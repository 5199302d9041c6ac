use liquers::store::{FileStore, Key, SimpleUrlStore, StoreError};

#[test]
fn test_key() {
    let k = Key::new("test");
    assert_eq!(k.0, "test");
    assert_eq!(k.has_prefix("t"), true);
    assert_eq!(k.has_prefix("x"), false);
    assert_eq!(k.has_prefix("test"), true);
    assert_eq!(k.has_prefix("testx"), false);
    assert_eq!(k.has_prefix("testx"), false);
    assert_eq!(k.has_prefix(""), true);
}

#[test]
fn file_store_paths() {
    let s = FileStore::new("/data/store", "local");
    assert_eq!(s.key_to_path(&Key::new("a/b.txt")), "/data/store/a/b.txt");
    assert_eq!(s.key_to_path_metadata(&Key::new("a/b.txt")), "/data/store/a/b.txt.__metadata__");
    assert_eq!(s.key_to_path(&Key::new("/abs")), "/abs");
    assert_eq!(FileStore::new("", "").key_to_path(&Key::new("a")), "a");
    assert_eq!(FileStore::new("dir/", "").key_to_path(&Key::new("a")), "dir/a");
    assert_eq!(s.store_name(), "local File store in /data/store");
    assert_eq!(s.key_prefix(), "local");
}

#[test]
fn url_store_address() {
    let s = SimpleUrlStore::new("http://server/api".to_owned());
    let key = liquers::parse::parse_key("a/b.csv").unwrap();
    assert_eq!(s.key_to_url(&key), "http://server/api/a/b.csv");
}

#[test]
fn store_error_text() {
    assert_eq!(StoreError::KeyNotFound(Key::new("a/b")).to_string(), "Key not found: a/b");
    assert_eq!(
        StoreError::KeyNotSupported(Key::new("a"), "S".to_owned()).to_string(),
        "Key a not supported by store S"
    );
    assert_eq!(
        StoreError::KeyReadError(Key::new("a"), "S".to_owned()).to_string(),
        "Error reading key a, store S"
    );
    assert_eq!(
        StoreError::KeyWriteError(Key::new("a"), "S".to_owned()).to_string(),
        "Error writing key a, store S"
    );
}

use liquers::context::{ActionContext, Context};
use liquers::metadata::{LogLevel, Metadata, MetadataRecord};
use liquers::parse::parse_key;
use liquers::store::{
    listdir_keys_deep, removedir, with_fallback, with_overlay, MemoryStore, NoStore, Store,
};

fn filled(prefix: &str, keys: &[&str]) -> MemoryStore {
    let mut store = MemoryStore::new(&parse_key(prefix).unwrap());
    for key in keys {
        store.set(&parse_key(key).unwrap(), &key.as_bytes().to_vec(), &Metadata::new()).unwrap();
    }
    store
}

fn encoded(keys: Vec<liquers::query::Key>) -> Vec<String> {
    keys.iter().map(|k| k.encode()).collect()
}

#[test]
fn directories() {
    let mut store = filled("", &["a/b/c.txt", "a/d.txt", "e.txt", "a/b/f/g.txt"]);
    assert_eq!(
        encoded(listdir_keys_deep(&store, &parse_key("a").unwrap())),
        vec!["a/b/c.txt", "a/d.txt", "a/b/f/g.txt"]
    );
    assert_eq!(encoded(listdir_keys_deep(&store, &parse_key("a/b").unwrap())).len(), 2);
    assert!(listdir_keys_deep(&store, &parse_key("e.txt").unwrap()).is_empty());
    assert_eq!(listdir_keys_deep(&store, &parse_key("").unwrap()).len(), 4);
    store.makedir(&parse_key("x/y").unwrap()).unwrap();
    assert_eq!(store.keys().len(), 4);
    removedir(&mut store, &parse_key("a/b").unwrap()).unwrap();
    assert_eq!(encoded(store.keys()), vec!["a/d.txt", "e.txt"]);
    removedir(&mut store, &parse_key("nothing").unwrap()).unwrap();
    removedir(&mut store, &parse_key("").unwrap()).unwrap();
    assert!(store.keys().is_empty());
    assert!(NoStore.makedir(&parse_key("a").unwrap()).is_err());
}

#[test]
fn layered_stores() {
    let upper = filled("up", &["up/a.txt", "up/b/c.txt"]);
    let lower = filled("", &["low.txt", "up/shadowed.txt", "d/e.txt"]);
    let mut store = with_overlay(lower, upper);
    assert_eq!(store.store_name(), "up Store over  Store");
    let key = |text: &str| parse_key(text).unwrap();
    assert_eq!(store.get_bytes(&key("up/a.txt")).unwrap(), b"up/a.txt");
    assert_eq!(store.get_bytes(&key("low.txt")).unwrap(), b"low.txt");
    assert!(store.get(&key("up/shadowed.txt")).is_err());
    assert!(store.contains(&key("d/e.txt")));
    assert!(!store.contains(&key("up/shadowed.txt")));
    assert!(store.is_supported(&key("up/new.txt")));
    assert!(!store.is_supported(&key("low.txt")));
    assert_eq!(encoded(store.keys()), vec!["up/a.txt", "up/b/c.txt", "low.txt", "d/e.txt"]);
    assert_eq!(store.listdir(&key("")), vec!["up", "low.txt", "d"]);
    assert_eq!(store.listdir(&key("up")), vec!["a.txt", "b"]);
    assert!(store.is_dir(&key("up/b")));
    assert!(!store.is_dir(&key("low.txt")));
    store.set(&key("up/new.txt"), &vec![1], &Metadata::new()).unwrap();
    assert_eq!(store.get_bytes(&key("up/new.txt")).unwrap(), vec![1]);
    let refused = store.set(&key("low.txt"), &vec![1], &Metadata::new()).unwrap_err();
    assert_eq!(
        refused.to_string(),
        "Key low.txt not supported by store up Store over  Store"
    );
    assert!(store.remove(&key("d/e.txt")).is_err());
    store.remove(&key("up/a.txt")).unwrap();
    assert!(store.get_metadata(&key("up/a.txt")).is_err());
    store.set_metadata(&key("up/m"), &Metadata::new()).unwrap();
    assert!(store.makedir(&key("up/dir")).is_ok());
    assert!(store.makedir(&key("other")).is_err());

    let fallback = with_fallback(filled("x", &["x/1"]), NoStore);
    assert_eq!(encoded(fallback.keys()), vec!["x/1"]);
    assert!(fallback.get(&key("y")).is_err());
}

#[test]
fn contexts() {
    let mut context = Context::new();
    context.debug("d");
    context.info("i");
    context.set_filename("a.json".to_string());
    let record = context.get_metadata();
    assert_eq!(record.log.len(), 2);
    assert_eq!(record.log[0].level, LogLevel::Debug);
    assert_eq!(record.media_type, "application/json");
    assert!(!record.is_error);
    let copy = context.clone();
    context.warning("w");
    context.error("e");
    assert!(context.get_metadata().is_error);
    assert_eq!(copy.get_metadata().log.len(), 2);
    context.reset();
    assert!(context.get_metadata().log.is_empty());

    let mut action = ActionContext::new(MetadataRecord::new(), filled("", &["a"]));
    action.info("i");
    action.warning("w");
    action.debug("d");
    action.set_filename("x.csv".to_string());
    assert_eq!(action.get_metadata().log.len(), 3);
    assert_eq!(action.get_metadata().media_type, "text/csv");
    assert!(action.get_store().contains(&parse_key("a").unwrap()));
    action.error("e");
    assert!(action.get_metadata().is_error);
    action.reset();
    assert!(!action.get_metadata().is_error);
}

#[test]
fn names_and_keys_compare_by_name() {
    let a = parse_key("a/b").unwrap();
    let b = liquers::query::Key::new().join("a").join("b");
    assert!(a == b);
    assert!(a != parse_key("a/c").unwrap());
    assert!(a != parse_key("a").unwrap());
    assert!(a.0[0] == b.0[0]);
    assert!(liquers::store::same_names(&a, &b));
}

#[test]
fn metadata_file_names() {
    assert!(FileStore::holds_metadata("a.txt.__metadata__"));
    assert!(FileStore::holds_metadata(".__metadata__"));
    assert!(!FileStore::holds_metadata("a.txt"));
    assert!(!FileStore::holds_metadata("__metadata__"));
    assert!(!FileStore::holds_metadata(".__metadata__.txt"));
    assert!(!FileStore::holds_metadata(""));
}
