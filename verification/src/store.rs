//! Stores: resources with their metadata, kept under keys.
use crate::metadata::{Metadata, MetadataView};
use crate::query::{Key as Path, encode_key, name_texts};
use crate::text::{begins_with, chars_of, has_at, matches_at, same_text, texts};
use vstd::prelude::*;
use vstd::string::StringExecFns;

verus! {

/// A key in its encoded form: the names of the key joined by `/`. Stores
/// that map keys to paths or addresses work on this form, and the errors
/// of a store name the key by it.
#[derive(Debug)]
pub struct Key(pub String);

impl View for Key {
    type V = Seq<char>;

    open spec fn view(&self) -> Seq<char> {
        self.0@
    }
}

impl Clone for Key {
    fn clone(&self) -> (r: Key)
        ensures
            r@ == self@,
    {
        Key(self.0.clone())
    }
}

impl Key {
    pub fn new(s: &str) -> (k: Key)
        ensures
            k@ == s@,
    {
        Key(s.to_owned())
    }

    /// The encoded form of `key`.
    pub fn from_key(key: &Path) -> (k: Key)
        ensures
            k@ == encode_key(key@),
    {
        Key(key.encode())
    }

    /// Whether the key begins with `prefix`.
    pub fn has_prefix(&self, prefix: &str) -> (r: bool)
        ensures
            r == prefix@.is_prefix_of(self@),
    {
        let text = chars_of(self.0.as_str());
        let wanted = chars_of(prefix);
        begins_with(&text, &wanted)
    }

    pub fn to_string(&self) -> (s: String)
        ensures
            s@ == self@,
    {
        self.0.clone()
    }
}

/// What can go wrong in a store. Each error names the key, and all but the
/// first the store.
#[derive(Debug)]
pub enum StoreError {
    KeyNotFound(Key),
    KeyNotSupported(Key, String),
    KeyReadError(Key, String),
    KeyWriteError(Key, String),
}

pub enum StoreErrorView {
    KeyNotFound(Seq<char>),
    KeyNotSupported(Seq<char>, Seq<char>),
    KeyReadError(Seq<char>, Seq<char>),
    KeyWriteError(Seq<char>, Seq<char>),
}

impl View for StoreError {
    type V = StoreErrorView;

    open spec fn view(&self) -> StoreErrorView {
        match self {
            StoreError::KeyNotFound(k) => StoreErrorView::KeyNotFound(k@),
            StoreError::KeyNotSupported(k, s) => StoreErrorView::KeyNotSupported(k@, s@),
            StoreError::KeyReadError(k, s) => StoreErrorView::KeyReadError(k@, s@),
            StoreError::KeyWriteError(k, s) => StoreErrorView::KeyWriteError(k@, s@),
        }
    }
}

impl StoreErrorView {
    pub open spec fn text(self) -> Seq<char> {
        match self {
            StoreErrorView::KeyNotFound(k) => "Key not found: "@ + k,
            StoreErrorView::KeyNotSupported(k, s) => "Key "@ + k + " not supported by store "@ + s,
            StoreErrorView::KeyReadError(k, s) => "Error reading key "@ + k + ", store "@ + s,
            StoreErrorView::KeyWriteError(k, s) => "Error writing key "@ + k + ", store "@ + s,
        }
    }
}

impl StoreError {
    pub fn to_string(&self) -> (s: String)
        ensures
            s@ == self@.text(),
    {
        match self {
            StoreError::KeyNotFound(k) => String::from_str("Key not found: ").concat(
                k.0.as_str(),
            ),
            StoreError::KeyNotSupported(k, s) => String::from_str("Key ").concat(
                k.0.as_str(),
            ).concat(" not supported by store ").concat(s.as_str()),
            StoreError::KeyReadError(k, s) => String::from_str("Error reading key ").concat(
                k.0.as_str(),
            ).concat(", store ").concat(s.as_str()),
            StoreError::KeyWriteError(k, s) => String::from_str("Error writing key ").concat(
                k.0.as_str(),
            ).concat(", store ").concat(s.as_str()),
        }
    }
}

/// Paths are strings of names separated by `/`. `relative` appended to
/// `base`: a path that begins with `/` stands for itself, and so does any
/// path after the empty path; else a `/` is put between the two unless
/// `base` ends with one.
pub open spec fn joined_path(base: Seq<char>, relative: Seq<char>) -> Seq<char> {
    if relative.len() > 0 && relative[0] == '/' {
        relative
    } else if base.len() == 0 {
        relative
    } else if base.last() == '/' {
        base + relative
    } else {
        base + seq!['/'] + relative
    }
}

fn join_path(base: &str, relative: &str) -> (r: String)
    ensures
        r@ == joined_path(base@, relative@),
{
    let b = chars_of(base);
    let r = chars_of(relative);
    if r.len() > 0 && r[0] == '/' {
        relative.to_owned()
    } else if b.len() == 0 {
        relative.to_owned()
    } else if b[b.len() - 1] == '/' {
        base.to_owned().concat(relative)
    } else {
        let mut out = base.to_owned();
        out.push('/');
        out.append(relative);
        assert(out@ =~= base@ + seq!['/'] + relative@);
        out
    }
}

/// A store of files under a directory. Here are its names and paths; the
/// reading and writing of the files is for the host.
#[derive(Debug)]
pub struct FileStore {
    pub path: String,
    pub prefix: String,
}

/// What follows the name of a key in the name of the file that holds
/// its metadata.
pub open spec fn metadata_suffix() -> Seq<char> {
    ".__metadata__"@
}

impl FileStore {
    pub fn new(path: &str, prefix: &str) -> (s: FileStore)
        ensures
            s.path@ == path@,
            s.prefix@ == prefix@,
    {
        FileStore { path: path.to_owned(), prefix: prefix.to_owned() }
    }

    /// The path of the file that holds the data of `key`.
    pub fn key_to_path(&self, key: &Key) -> (p: String)
        ensures
            p@ == joined_path(self.path@, key@),
    {
        join_path(self.path.as_str(), key.0.as_str())
    }

    /// The path of the file that holds the metadata of `key`.
    pub fn key_to_path_metadata(&self, key: &Key) -> (p: String)
        ensures
            p@ == joined_path(self.path@, key@ + metadata_suffix()),
    {
        let name = key.0.clone().concat(".__metadata__");
        join_path(self.path.as_str(), name.as_str())
    }

    /// Whether a file of the name `name` holds the metadata of a key, and
    /// so stands for no key of its own.
    pub fn holds_metadata(name: &str) -> (r: bool)
        ensures
            r == has_at(name@, name@.len() - metadata_suffix().len(), metadata_suffix()),
    {
        let text = chars_of(name);
        let suffix = chars_of(".__metadata__");
        if text.len() < suffix.len() {
            return false;
        }
        matches_at(&text, text.len() - suffix.len(), &suffix)
    }

    pub fn store_name(&self) -> (s: String)
        ensures
            s@ == self.prefix@ + " File store in "@ + self.path@,
    {
        self.prefix.clone().concat(" File store in ").concat(self.path.as_str())
    }

    pub fn key_prefix(&self) -> (s: &str)
        ensures
            s@ == self.prefix@,
    {
        self.prefix.as_str()
    }
}

/// A store behind a web address.
#[derive(Debug)]
pub struct SimpleUrlStore {
    url_prefix: String,
}

impl SimpleUrlStore {
    pub closed spec fn url_prefix(&self) -> Seq<char> {
        self.url_prefix@
    }

    pub fn new(url_prefix: String) -> (s: SimpleUrlStore)
        ensures
            s.url_prefix() == url_prefix@,
    {
        SimpleUrlStore { url_prefix }
    }

    /// The address of the resource under `key`.
    pub fn key_to_url(&self, key: &Path) -> (url: String)
        ensures
            url@ == self.url_prefix() + seq!['/'] + encode_key(key@),
    {
        let text = key.encode();
        let mut url = self.url_prefix.clone();
        url.push('/');
        url.append(text.as_str());
        assert(url@ =~= self.url_prefix@ + seq!['/'] + text@);
        url
    }
}

// ---------------------------------------------------------------------------
// The contract of a store
// ---------------------------------------------------------------------------
/// What a store holds under a key.
pub struct StoreEntryView {
    pub data: Seq<u8>,
    pub metadata: MetadataView,
}

/// Whether `key` lies in the directory `dir`, at any depth.
pub open spec fn under(dir: Seq<Seq<char>>, key: Seq<Seq<char>>) -> bool {
    dir.len() < key.len() && dir.is_prefix_of(key)
}

/// Whether two metadata name the same query and media type.
pub open spec fn same_identity(a: MetadataView, b: MetadataView) -> bool {
    a.query_text() == b.query_text() && a.media_type() == b.media_type()
}

/// What writing `data` and `metadata` under `key` makes of the contents of
/// a store: the data stands under the key with metadata of the same query
/// and media type, and every other key holds what it held.
pub open spec fn written(
    before: Map<Seq<Seq<char>>, StoreEntryView>,
    after: Map<Seq<Seq<char>>, StoreEntryView>,
    key: Seq<Seq<char>>,
    data: Seq<u8>,
    metadata: MetadataView,
) -> bool {
    &&& after.dom() == before.dom().insert(key)
    &&& after[key].data == data
    &&& same_identity(after[key].metadata, metadata)
    &&& forall|other: Seq<Seq<char>>|
        other != key && before.contains_key(other) ==> #[trigger] after[other] == before[other]
}

/// The names directly in the directory `dir` of a store with the keys
/// `keys`.
pub open spec fn names_in(keys: Set<Seq<Seq<char>>>, dir: Seq<Seq<char>>) -> Set<Seq<char>> {
    Set::new(
        |name: Seq<char>|
            exists|key: Seq<Seq<char>>|
                keys.contains(key) && under(dir, key) && #[trigger] key[dir.len() as int]
                    == name,
    )
}

pub open spec fn paths_view(keys: Seq<Path>) -> Seq<Seq<Seq<char>>> {
    Seq::new(keys.len(), |i: int| name_texts(keys[i]@))
}

/// What a store is to contracts: what it holds by the names of the key,
/// the keys that it takes, its name in messages, and whether reading and
/// writing it never fails for a reason of its own. A store in memory is
/// reliable; one on a disk or behind a network is not.
pub struct StoreModel {
    pub contents: Map<Seq<Seq<char>>, StoreEntryView>,
    pub supported: Set<Seq<Seq<char>>>,
    pub name: Seq<char>,
    pub reliable: bool,
}

/// Whether `e` says that the store failed to read `key`.
pub open spec fn is_read_failure(e: StoreErrorView, key: Seq<char>) -> bool {
    e is KeyReadError && e->KeyReadError_0 == key
}

/// Whether `e` says that the store failed to write `key`.
pub open spec fn is_write_failure(e: StoreErrorView, key: Seq<char>) -> bool {
    e is KeyWriteError && e->KeyWriteError_0 == key
}

/// A store: a map from keys to data and metadata. A store supports some
/// keys and refuses the others.
///
/// `inv` and `model` describe the store to the verifier and are never run;
/// a store that is implemented outside verified code gives them bodies
/// that do not return.
pub trait Store {
    /// What must hold of the store between calls.
    spec fn inv(&self) -> bool;

    /// What the store is to contracts.
    spec fn model(&self) -> StoreModel;

    /// What the store holds, by the names of the key.
    open spec fn contents(&self) -> Map<Seq<Seq<char>>, StoreEntryView> {
        self.model().contents
    }

    /// Whether the store takes the key.
    open spec fn supports(&self, key: Seq<Seq<char>>) -> bool {
        self.model().supported.contains(key)
    }

    /// The name of the store in messages.
    open spec fn name(&self) -> Seq<char> {
        self.model().name
    }

    /// Whether reading and writing the store never fails for a reason of
    /// its own.
    open spec fn reliable(&self) -> bool {
        self.model().reliable
    }

    fn store_name(&self) -> (r: String)
        ensures
            r@ == self.name(),
    ;

    /// Whether the store takes `key`.
    fn is_supported(&self, key: &Path) -> (r: bool)
        ensures
            r == self.supports(name_texts(key@)),
    ;

    /// The data and metadata under `key`.
    fn get(&self, key: &Path) -> (r: Result<(Vec<u8>, Metadata), StoreError>)
        requires
            self.inv(),
        ensures
            match r {
                Ok((data, metadata)) => self.contents().contains_key(name_texts(key@))
                    && self.contents()[name_texts(key@)] == (StoreEntryView {
                    data: data@,
                    metadata: metadata@,
                }),
                Err(e) => (!self.contents().contains_key(name_texts(key@)) && e@
                    == StoreErrorView::KeyNotFound(encode_key(key@))) || (!self.reliable()
                    && is_read_failure(e@, encode_key(key@))),
            },
    ;

    /// The data under `key`.
    fn get_bytes(&self, key: &Path) -> (r: Result<Vec<u8>, StoreError>)
        requires
            self.inv(),
        ensures
            match r {
                Ok(data) => self.contents().contains_key(name_texts(key@))
                    && self.contents()[name_texts(key@)].data == data@,
                Err(e) => (!self.contents().contains_key(name_texts(key@)) && e@
                    == StoreErrorView::KeyNotFound(encode_key(key@))) || (!self.reliable()
                    && is_read_failure(e@, encode_key(key@))),
            },
    ;

    /// The metadata under `key`.
    fn get_metadata(&self, key: &Path) -> (r: Result<Metadata, StoreError>)
        requires
            self.inv(),
        ensures
            match r {
                Ok(metadata) => self.contents().contains_key(name_texts(key@))
                    && self.contents()[name_texts(key@)].metadata == metadata@,
                Err(e) => (!self.contents().contains_key(name_texts(key@)) && e@
                    == StoreErrorView::KeyNotFound(encode_key(key@))) || (!self.reliable()
                    && is_read_failure(e@, encode_key(key@))),
            },
    ;

    /// Writes data and metadata under `key`.
    fn set(&mut self, key: &Path, data: &Vec<u8>, metadata: &Metadata) -> (r: Result<
        (),
        StoreError,
    >)
        requires
            old(self).inv(),
        ensures
            final(self).inv(),
            final(self).name() == old(self).name(),
            final(self).reliable() == old(self).reliable(),
            forall|k: Seq<Seq<char>>| final(self).supports(k) == old(self).supports(k),
            match r {
                Ok(()) => old(self).supports(name_texts(key@)) && written(
                    old(self).contents(),
                    final(self).contents(),
                    name_texts(key@),
                    data@,
                    metadata@,
                ),
                Err(e) => final(self).contents() == old(self).contents() && ((!old(self).supports(
                    name_texts(key@),
                ) && e@ == StoreErrorView::KeyNotSupported(encode_key(key@), old(self).name()))
                    || (!old(self).reliable() && is_write_failure(e@, encode_key(key@)))),
            },
    ;

    /// Writes the metadata under `key` and leaves the data as it is; a key
    /// that held nothing holds no data afterwards.
    fn set_metadata(&mut self, key: &Path, metadata: &Metadata) -> (r: Result<(), StoreError>)
        requires
            old(self).inv(),
        ensures
            final(self).inv(),
            final(self).name() == old(self).name(),
            final(self).reliable() == old(self).reliable(),
            forall|k: Seq<Seq<char>>| final(self).supports(k) == old(self).supports(k),
            match r {
                Ok(()) => old(self).supports(name_texts(key@)) && written(
                    old(self).contents(),
                    final(self).contents(),
                    name_texts(key@),
                    if old(self).contents().contains_key(name_texts(key@)) {
                        old(self).contents()[name_texts(key@)].data
                    } else {
                        Seq::empty()
                    },
                    metadata@,
                ),
                Err(e) => final(self).contents() == old(self).contents() && ((!old(self).supports(
                    name_texts(key@),
                ) && e@ == StoreErrorView::KeyNotSupported(encode_key(key@), old(self).name()))
                    || (!old(self).reliable() && is_write_failure(e@, encode_key(key@)))),
            },
    ;

    /// Removes what stands under `key`.
    fn remove(&mut self, key: &Path) -> (r: Result<(), StoreError>)
        requires
            old(self).inv(),
        ensures
            final(self).inv(),
            final(self).name() == old(self).name(),
            final(self).reliable() == old(self).reliable(),
            forall|k: Seq<Seq<char>>| final(self).supports(k) == old(self).supports(k),
            match r {
                Ok(()) => old(self).supports(name_texts(key@)) && old(self).contents().contains_key(
                    name_texts(key@),
                ) && final(self).contents() == old(self).contents().remove(name_texts(key@)),
                Err(e) => final(self).contents() == old(self).contents()
                    && (if old(self).supports(name_texts(key@)) {
                    !old(self).contents().contains_key(name_texts(key@)) && e@
                        == StoreErrorView::KeyNotFound(encode_key(key@))
                } else {
                    e@ == StoreErrorView::KeyNotSupported(encode_key(key@), old(self).name())
                } || (!old(self).reliable() && is_write_failure(e@, encode_key(key@)))),
            },
    ;

    /// Makes the directory `key`. Directories hold no data: what the store
    /// holds stays as it is.
    fn makedir(&mut self, key: &Path) -> (r: Result<(), StoreError>)
        requires
            old(self).inv(),
        ensures
            final(self).inv(),
            final(self).name() == old(self).name(),
            final(self).reliable() == old(self).reliable(),
            forall|k: Seq<Seq<char>>| final(self).supports(k) == old(self).supports(k),
            final(self).contents() == old(self).contents(),
            match r {
                Ok(()) => old(self).supports(name_texts(key@)),
                Err(e) => (!old(self).supports(name_texts(key@)) && e@
                    == StoreErrorView::KeyNotSupported(encode_key(key@), old(self).name()))
                    || (!old(self).reliable() && is_write_failure(e@, encode_key(key@))),
            },
    ;

    /// Whether something stands under `key`.
    fn contains(&self, key: &Path) -> (r: bool)
        requires
            self.inv(),
        ensures
            r == self.contents().contains_key(name_texts(key@)),
    ;

    /// Whether `key` is a directory: whether some key lies in it.
    fn is_dir(&self, key: &Path) -> (r: bool)
        requires
            self.inv(),
        ensures
            r == exists|k: Seq<Seq<char>>| #[trigger]
                self.contents().contains_key(k) && under(name_texts(key@), k),
    ;

    /// The keys of the store, each once.
    fn keys(&self) -> (r: Vec<Path>)
        requires
            self.inv(),
        ensures
            paths_view(r@).no_duplicates(),
            paths_view(r@).to_set() == self.contents().dom(),
    ;

    /// The names directly in the directory `key`, each once.
    fn listdir(&self, key: &Path) -> (r: Vec<String>)
        requires
            self.inv(),
        ensures
            texts(r@).no_duplicates(),
            texts(r@).to_set() == names_in(self.contents().dom(), name_texts(key@)),
    ;
}

/// The keys directly in the directory `key`, each once: `key` joined with
/// each name of that directory.
pub fn listdir_keys<S: Store>(store: &S, key: &Path) -> (r: Vec<Path>)
    requires
        store.inv(),
    ensures
        paths_view(r@).no_duplicates(),
        forall|k: Seq<Seq<char>>| #[trigger]
            paths_view(r@).contains(k) <==> k.len() == key@.len() + 1 && name_texts(
                key@,
            ).is_prefix_of(k) && names_in(store.contents().dom(), name_texts(key@)).contains(
                k.last(),
            ),
{
    let names = store.listdir(key);
    let ghost dir = name_texts(key@);
    let ghost wanted = names_in(store.contents().dom(), dir);
    let mut out: Vec<Path> = Vec::new();
    let mut i: usize = 0;
    assert(paths_view(out@) =~= Seq::new(0, |j: int| dir.push(names@[j]@)));
    while i < names.len()
        invariant
            i <= names.len(),
            dir == name_texts(key@),
            paths_view(out@) == Seq::new(i as nat, |j: int| dir.push(names@[j]@)),
        decreases names.len() - i,
    {
        let child = key.join(names[i].as_str());
        assert(name_texts(child@) =~= dir.push(names@[i as int]@));
        let ghost before = paths_view(out@);
        out.push(child);
        assert(paths_view(out@) =~= before.push(dir.push(names@[i as int]@)));
        i += 1;
        assert(paths_view(out@) =~= Seq::new(i as nat, |j: int| dir.push(names@[j]@)));
    }
    proof {
        let found = paths_view(out@);
        assert forall|a: int, b: int| 0 <= a < found.len() && 0 <= b < found.len() && a
            != b implies found[a] != found[b] by {
            assert(texts(names@)[a] == names@[a]@);
            assert(texts(names@)[b] == names@[b]@);
            assert(found[a].last() == names@[a]@);
            assert(found[b].last() == names@[b]@);
        }
        assert forall|k: Seq<Seq<char>>| #[trigger]
            found.contains(k) <==> k.len() == key@.len() + 1 && dir.is_prefix_of(k)
                && wanted.contains(k.last()) by {
            if found.contains(k) {
                let j = choose|j: int| 0 <= j < found.len() && found[j] == k;
                assert(texts(names@)[j] == names@[j]@);
                assert(texts(names@).to_set().contains(names@[j]@));
                assert(k.subrange(0, dir.len() as int) =~= dir);
            }
            if k.len() == key@.len() + 1 && dir.is_prefix_of(k) && wanted.contains(k.last()) {
                assert(texts(names@).to_set().contains(k.last()));
                let j = choose|j: int| 0 <= j < texts(names@).len() && texts(names@)[j] == k.last();
                assert(found[j] =~= k);
            }
        }
    }
    out
}

/// After data and metadata were written under a key, the store holds the
/// data under the key, with metadata of the same query and media type.
pub proof fn lemma_written_is_read(
    before: Map<Seq<Seq<char>>, StoreEntryView>,
    after: Map<Seq<Seq<char>>, StoreEntryView>,
    key: Seq<Seq<char>>,
    data: Seq<u8>,
    metadata: MetadataView,
)
    requires
        written(before, after, key, data, metadata),
    ensures
        after.contains_key(key),
        after[key].data == data,
        after[key].metadata.query_text() == metadata.query_text(),
        after[key].metadata.media_type() == metadata.media_type(),
{
}

// ---------------------------------------------------------------------------
// Stores in memory
// ---------------------------------------------------------------------------
/// The store that holds nothing and takes no key.
#[derive(Debug, Clone, Copy)]
pub struct NoStore;

impl Store for NoStore {
    open spec fn inv(&self) -> bool {
        true
    }

    open spec fn model(&self) -> StoreModel {
        StoreModel {
            contents: Map::empty(),
            supported: Set::empty(),
            name: " Store"@,
            reliable: true,
        }
    }

    fn store_name(&self) -> (r: String) {
        String::from_str(" Store")
    }

    fn is_supported(&self, key: &Path) -> (r: bool) {
        false
    }

    fn get(&self, key: &Path) -> (r: Result<(Vec<u8>, Metadata), StoreError>) {
        Err(StoreError::KeyNotFound(Key::from_key(key)))
    }

    fn get_bytes(&self, key: &Path) -> (r: Result<Vec<u8>, StoreError>) {
        Err(StoreError::KeyNotFound(Key::from_key(key)))
    }

    fn get_metadata(&self, key: &Path) -> (r: Result<Metadata, StoreError>) {
        Err(StoreError::KeyNotFound(Key::from_key(key)))
    }

    fn set(&mut self, key: &Path, data: &Vec<u8>, metadata: &Metadata) -> (r: Result<
        (),
        StoreError,
    >) {
        Err(StoreError::KeyNotSupported(Key::from_key(key), self.store_name()))
    }

    fn set_metadata(&mut self, key: &Path, metadata: &Metadata) -> (r: Result<(), StoreError>) {
        Err(StoreError::KeyNotSupported(Key::from_key(key), self.store_name()))
    }

    fn remove(&mut self, key: &Path) -> (r: Result<(), StoreError>) {
        Err(StoreError::KeyNotSupported(Key::from_key(key), self.store_name()))
    }

    fn makedir(&mut self, key: &Path) -> (r: Result<(), StoreError>) {
        Err(StoreError::KeyNotSupported(Key::from_key(key), self.store_name()))
    }

    fn contains(&self, key: &Path) -> (r: bool) {
        false
    }

    fn is_dir(&self, key: &Path) -> (r: bool) {
        false
    }

    fn keys(&self) -> (r: Vec<Path>) {
        let r: Vec<Path> = Vec::new();
        assert(paths_view(r@).to_set() =~= Set::<Seq<Seq<char>>>::empty());
        r
    }

    fn listdir(&self, key: &Path) -> (r: Vec<String>) {
        let r: Vec<String> = Vec::new();
        assert(texts(r@).to_set() =~= names_in(self.contents().dom(), name_texts(key@)));
        r
    }
}

/// Whether two keys have the same names.
pub fn same_names(a: &Path, b: &Path) -> (r: bool)
    ensures
        r == (name_texts(a@) == name_texts(b@)),
{
    a == b
}

/// Whether the names of `key` begin with the names of `prefix`.
pub fn has_names_prefix(key: &Path, prefix: &Path) -> (r: bool)
    ensures
        r == name_texts(prefix@).is_prefix_of(name_texts(key@)),
{
    if prefix.len() > key.len() {
        return false;
    }
    let ghost p = name_texts(prefix@);
    let ghost k = name_texts(key@);
    let mut i: usize = 0;
    while i < prefix.len()
        invariant
            i <= prefix@.len() <= key@.len(),
            p == name_texts(prefix@),
            k == name_texts(key@),
            forall|j: int| 0 <= j < i ==> p[j] == k[j],
        decreases prefix@.len() - i,
    {
        assert(p[i as int] == prefix.0@[i as int].name@);
        assert(k[i as int] == key.0@[i as int].name@);
        if !same_text(prefix.0[i].name.as_str(), key.0[i].name.as_str()) {
            assert(!p.is_prefix_of(k)) by {
                if p.is_prefix_of(k) {
                    assert(k.subrange(0, p.len() as int)[i as int] == k[i as int]);
                }
            }
            return false;
        }
        i += 1;
    }
    assert(p =~= k.subrange(0, p.len() as int));
    true
}

fn find_path(keys: &Vec<Path>, key: &Path) -> (r: Option<usize>)
    ensures
        match r {
            Some(i) => i < keys.len() && paths_view(keys@)[i as int] == name_texts(key@),
            None => !paths_view(keys@).contains(name_texts(key@)),
        },
{
    let mut i: usize = 0;
    while i < keys.len()
        invariant
            i <= keys.len(),
            forall|j: int| 0 <= j < i ==> (#[trigger] paths_view(keys@)[j]) != name_texts(key@),
        decreases keys.len() - i,
    {
        assert(paths_view(keys@)[i as int] == name_texts(keys@[i as int]@));
        if same_names(&keys[i], key) {
            return Some(i);
        }
        i += 1;
    }
    None
}

#[derive(Debug)]
pub struct StoreEntry {
    pub data: Vec<u8>,
    pub metadata: Metadata,
}

impl View for StoreEntry {
    type V = StoreEntryView;

    open spec fn view(&self) -> StoreEntryView {
        StoreEntryView { data: self.data@, metadata: self.metadata@ }
    }
}

pub open spec fn store_entries_view(entries: Seq<StoreEntry>) -> Seq<StoreEntryView> {
    Seq::new(entries.len(), |i: int| entries[i]@)
}

fn copy_data(data: &Vec<u8>) -> (r: Vec<u8>)
    ensures
        r@ == data@,
{
    let r = data.clone();
    assert(r@ =~= data@);
    r
}

/// Whether one of the keys `all` lies in the directory `at`.
pub fn any_under(all: &Vec<Path>, at: &Path) -> (r: bool)
    ensures
        r == exists|k: Seq<Seq<char>>| #[trigger]
            paths_view(all@).to_set().contains(k) && under(name_texts(at@), k),
{
    let ghost dir = name_texts(at@);
    let ghost keys = paths_view(all@);
    let mut i: usize = 0;
    while i < all.len()
        invariant
            i <= all.len(),
            dir == name_texts(at@),
            keys == paths_view(all@),
            forall|j: int| 0 <= j < i ==> !under(dir, #[trigger] keys[j]),
        decreases all.len() - i,
    {
        assert(keys[i as int] == name_texts(all@[i as int]@));
        if all[i].len() > at.len() && has_names_prefix(&all[i], at) {
            assert(keys.contains(keys[i as int]));
            assert(keys.to_set().contains(keys[i as int]));
            return true;
        }
        i += 1;
    }
    assert forall|k: Seq<Seq<char>>| #[trigger] keys.to_set().contains(k) implies !under(
        dir,
        k,
    ) by {
        let j = choose|j: int| 0 <= j < keys.len() && keys[j] == k;
        assert(!under(dir, keys[j]));
    }
    false
}

/// The names directly in the directory `at` among the keys `all`, each
/// once, in the order in which they first occur.
pub fn names_under(all: &Vec<Path>, at: &Path) -> (r: Vec<String>)
    ensures
        texts(r@).no_duplicates(),
        texts(r@).to_set() == names_in(paths_view(all@).to_set(), name_texts(at@)),
{
    let ghost dir = name_texts(at@);
    let ghost keys = paths_view(all@);
    let mut out: Vec<String> = Vec::new();
    let mut i: usize = 0;
    while i < all.len()
        invariant
            i <= all.len(),
            dir == name_texts(at@),
            keys == paths_view(all@),
            texts(out@).no_duplicates(),
            forall|name: Seq<char>| #[trigger]
                texts(out@).contains(name) <==> exists|j: int|
                    0 <= j < i && under(dir, #[trigger] keys[j]) && keys[j][dir.len() as int]
                        == name,
        decreases all.len() - i,
    {
        let k = &all[i];
        assert(keys[i as int] == name_texts(k@));
        let ghost before = texts(out@);
        if k.len() > at.len() && has_names_prefix(k, at) {
            let name = &k.0[at.len()].name;
            assert(keys[i as int][dir.len() as int] == name@);
            match crate::keyed::find_key(&out, name.as_str()) {
                Some(at) => {
                    assert(before[at as int] == name@);
                    assert(before.contains(name@));
                },
                None => {
                    out.push(name.clone());
                    assert(texts(out@) =~= before.push(name@));
                    assert(texts(out@).no_duplicates()) by {
                        assert forall|a: int, b: int|
                            0 <= a < texts(out@).len() && 0 <= b < texts(out@).len() && a
                                != b implies texts(out@)[a] != texts(out@)[b] by {
                            if a < before.len() && b < before.len() {
                                assert(before[a] != before[b]);
                            } else if a < before.len() {
                                assert(before.contains(before[a]));
                            } else {
                                assert(before.contains(before[b]));
                            }
                        }
                    }
                },
            }
            assert forall|n: Seq<char>| #[trigger]
                texts(out@).contains(n) <==> exists|j: int|
                    0 <= j < i + 1 && under(dir, #[trigger] keys[j]) && keys[j][dir.len() as int]
                        == n by {
                if texts(out@).contains(n) {
                    let a = choose|a: int| 0 <= a < texts(out@).len() && texts(out@)[a] == n;
                    if a < before.len() {
                        assert(before[a] == n);
                        assert(before.contains(n));
                    } else {
                        assert(under(dir, keys[i as int]));
                    }
                }
                if exists|j: int|
                    0 <= j < i + 1 && under(dir, #[trigger] keys[j]) && keys[j][dir.len() as int]
                        == n {
                    let j = choose|j: int|
                        0 <= j < i + 1 && under(dir, #[trigger] keys[j])
                            && keys[j][dir.len() as int] == n;
                    if j < i {
                        assert(before.contains(n));
                        let a = choose|a: int| 0 <= a < before.len() && before[a] == n;
                        assert(texts(out@)[a] == n);
                    } else {
                        assert(n == name@);
                        if before.contains(n) {
                            let a = choose|a: int| 0 <= a < before.len() && before[a] == n;
                            assert(texts(out@)[a] == n);
                        } else {
                            assert(texts(out@)[before.len() as int] == n);
                        }
                    }
                }
            }
        } else {
            assert forall|n: Seq<char>| #[trigger]
                texts(out@).contains(n) <==> exists|j: int|
                    0 <= j < i + 1 && under(dir, #[trigger] keys[j]) && keys[j][dir.len() as int]
                        == n by {
                if exists|j: int|
                    0 <= j < i + 1 && under(dir, #[trigger] keys[j]) && keys[j][dir.len() as int]
                        == n {
                    let j = choose|j: int|
                        0 <= j < i + 1 && under(dir, #[trigger] keys[j])
                            && keys[j][dir.len() as int] == n;
                    assert(j < i);
                }
            }
        }
        i += 1;
    }
    proof {
        let wanted = names_in(keys.to_set(), dir);
        assert forall|n: Seq<char>| texts(out@).to_set().contains(n) == wanted.contains(n) by {
            if texts(out@).contains(n) {
                let j = choose|j: int|
                    0 <= j < i && under(dir, #[trigger] keys[j]) && keys[j][dir.len() as int]
                        == n;
                assert(keys.contains(keys[j]));
                assert(keys.to_set().contains(keys[j]));
            }
            if wanted.contains(n) {
                let k = choose|k: Seq<Seq<char>>|
                    keys.to_set().contains(k) && under(dir, k) && #[trigger] k[dir.len() as int]
                        == n;
                let j = choose|j: int| 0 <= j < keys.len() && keys[j] == k;
                assert(under(dir, keys[j]));
            }
        }
        assert(texts(out@).to_set() =~= wanted);
    }
    out
}

/// A store in memory. It takes the keys that begin with its prefix.
#[derive(Debug)]
pub struct MemoryStore {
    prefix: Path,
    keys: Vec<Path>,
    entries: Vec<StoreEntry>,
}

impl MemoryStore {
    /// The names that every key of the store begins with.
    pub closed spec fn prefix(&self) -> Seq<Seq<char>> {
        name_texts(self.prefix@)
    }

    /// The empty store for the keys that begin with `prefix`.
    pub fn new(prefix: &Path) -> (s: MemoryStore)
        ensures
            s.inv(),
            s.reliable(),
            s.prefix() == name_texts(prefix@),
            s.contents() == Map::<Seq<Seq<char>>, StoreEntryView>::empty(),
    {
        let s = MemoryStore { prefix: prefix.clone(), keys: Vec::new(), entries: Vec::new() };
        proof {
            crate::keyed::lemma_map_of_empty(paths_view(s.keys@), store_entries_view(s.entries@));
        }
        s
    }

    /// The store takes the keys that begin with its prefix, is named after
    /// the prefix, and is reliable.
    pub proof fn lemma_prefix(&self, key: Seq<Seq<char>>)
        ensures
            self.supports(key) == self.prefix().is_prefix_of(key),
            self.name() == crate::text::join(self.prefix(), seq!['/']) + " Store"@,
            self.reliable(),
    {
    }

    /// The names that every key of the store begins with.
    pub fn key_prefix(&self) -> (k: Path)
        ensures
            name_texts(k@) == self.prefix(),
    {
        self.prefix.clone()
    }

    fn put(&mut self, key: &Path, entry: StoreEntry)
        requires
            old(self).inv(),
        ensures
            final(self).inv(),
            final(self).prefix() == old(self).prefix(),
            final(self).contents() == old(self).contents().insert(name_texts(key@), entry@),
    {
        let ghost keys = paths_view(self.keys@);
        let ghost entries = store_entries_view(self.entries@);
        match find_path(&self.keys, key) {
            Some(i) => {
                self.entries.set(i, entry);
                proof {
                    assert(store_entries_view(self.entries@) =~= entries.update(i as int, entry@));
                    crate::keyed::lemma_map_of_update(keys, entries, i as int, entry@);
                }
            },
            None => {
                self.keys.push(key.clone());
                self.entries.push(entry);
                proof {
                    assert(paths_view(self.keys@) =~= keys.push(name_texts(key@)));
                    assert(store_entries_view(self.entries@) =~= entries.push(entry@));
                    crate::keyed::lemma_map_of_push(keys, entries, name_texts(key@), entry@);
                }
            },
        }
    }

    fn entry_at(&self, i: usize)
        requires
            self.inv(),
            i < self.keys.len(),
        ensures
            self.contents().contains_key(paths_view(self.keys@)[i as int]),
            self.contents()[paths_view(self.keys@)[i as int]] == self.entries@[i as int]@,
    {
        proof {
            crate::keyed::lemma_map_of_at(
                paths_view(self.keys@),
                store_entries_view(self.entries@),
                i as int,
            );
        }
    }
}

impl Store for MemoryStore {
    closed spec fn inv(&self) -> bool {
        &&& self.keys.len() == self.entries.len()
        &&& paths_view(self.keys@).no_duplicates()
    }

    closed spec fn model(&self) -> StoreModel {
        StoreModel {
            contents: crate::keyed::map_of(
                paths_view(self.keys@),
                store_entries_view(self.entries@),
            ),
            supported: Set::new(|key: Seq<Seq<char>>| name_texts(self.prefix@).is_prefix_of(key)),
            name: crate::text::join(name_texts(self.prefix@), seq!['/']) + " Store"@,
            reliable: true,
        }
    }

    fn store_name(&self) -> (r: String) {
        self.prefix.encode().concat(" Store")
    }

    fn is_supported(&self, key: &Path) -> (r: bool) {
        has_names_prefix(key, &self.prefix)
    }

    fn get(&self, key: &Path) -> (r: Result<(Vec<u8>, Metadata), StoreError>) {
        match find_path(&self.keys, key) {
            Some(i) => {
                self.entry_at(i);
                Ok((copy_data(&self.entries[i].data), self.entries[i].metadata.clone()))
            },
            None => Err(StoreError::KeyNotFound(Key::from_key(key))),
        }
    }

    fn get_bytes(&self, key: &Path) -> (r: Result<Vec<u8>, StoreError>) {
        match find_path(&self.keys, key) {
            Some(i) => {
                self.entry_at(i);
                Ok(copy_data(&self.entries[i].data))
            },
            None => Err(StoreError::KeyNotFound(Key::from_key(key))),
        }
    }

    fn get_metadata(&self, key: &Path) -> (r: Result<Metadata, StoreError>) {
        match find_path(&self.keys, key) {
            Some(i) => {
                self.entry_at(i);
                Ok(self.entries[i].metadata.clone())
            },
            None => Err(StoreError::KeyNotFound(Key::from_key(key))),
        }
    }

    fn set(&mut self, key: &Path, data: &Vec<u8>, metadata: &Metadata) -> (r: Result<
        (),
        StoreError,
    >) {
        if !self.is_supported(key) {
            return Err(StoreError::KeyNotSupported(Key::from_key(key), self.store_name()));
        }
        let ghost before = self.contents();
        self.put(key, StoreEntry { data: copy_data(data), metadata: metadata.clone() });
        assert(self.contents().dom() =~= before.dom().insert(name_texts(key@)));
        Ok(())
    }

    fn set_metadata(&mut self, key: &Path, metadata: &Metadata) -> (r: Result<(), StoreError>) {
        if !self.is_supported(key) {
            return Err(StoreError::KeyNotSupported(Key::from_key(key), self.store_name()));
        }
        let data = match find_path(&self.keys, key) {
            Some(i) => {
                self.entry_at(i);
                copy_data(&self.entries[i].data)
            },
            None => Vec::new(),
        };
        let ghost before = self.contents();
        self.put(key, StoreEntry { data, metadata: metadata.clone() });
        assert(self.contents().dom() =~= before.dom().insert(name_texts(key@)));
        Ok(())
    }

    fn remove(&mut self, key: &Path) -> (r: Result<(), StoreError>) {
        if !self.is_supported(key) {
            return Err(StoreError::KeyNotSupported(Key::from_key(key), self.store_name()));
        }
        let ghost keys = paths_view(self.keys@);
        let ghost entries = store_entries_view(self.entries@);
        match find_path(&self.keys, key) {
            Some(i) => {
                self.entry_at(i);
                self.keys.remove(i);
                self.entries.remove(i);
                proof {
                    assert(paths_view(self.keys@) =~= keys.remove(i as int));
                    assert(store_entries_view(self.entries@) =~= entries.remove(i as int));
                    crate::keyed::lemma_map_of_remove(keys, entries, i as int);
                }
                Ok(())
            },
            None => Err(StoreError::KeyNotFound(Key::from_key(key))),
        }
    }

    fn makedir(&mut self, key: &Path) -> (r: Result<(), StoreError>) {
        if self.is_supported(key) {
            Ok(())
        } else {
            Err(StoreError::KeyNotSupported(Key::from_key(key), self.store_name()))
        }
    }

    fn contains(&self, key: &Path) -> (r: bool) {
        find_path(&self.keys, key).is_some()
    }

    fn is_dir(&self, key: &Path) -> (r: bool) {
        proof {
            crate::keyed::lemma_map_of_dom(
                paths_view(self.keys@),
                store_entries_view(self.entries@),
            );
        }
        let r = any_under(&self.keys, key);
        proof {
            let keys = paths_view(self.keys@);
            let dir = name_texts(key@);
            if r {
                let k = choose|k: Seq<Seq<char>>| #[trigger]
                    keys.to_set().contains(k) && under(dir, k);
                assert(self.contents().contains_key(k) && under(dir, k));
            } else {
                assert forall|k: Seq<Seq<char>>| #[trigger]
                    self.contents().contains_key(k) implies !under(dir, k) by {
                    assert(keys.to_set().contains(k));
                }
            }
        }
        r
    }

    fn keys(&self) -> (r: Vec<Path>) {
        let mut out: Vec<Path> = Vec::new();
        let mut i: usize = 0;
        while i < self.keys.len()
            invariant
                i <= self.keys.len(),
                out.len() == i,
                forall|j: int| 0 <= j < i ==> name_texts(out@[j]@) == name_texts(self.keys@[j]@),
            decreases self.keys.len() - i,
        {
            let k = self.keys[i].clone();
            out.push(k);
            i += 1;
        }
        proof {
            assert(paths_view(out@) =~= paths_view(self.keys@));
            crate::keyed::lemma_map_of_dom(
                paths_view(self.keys@),
                store_entries_view(self.entries@),
            );
        }
        out
    }

    fn listdir(&self, key: &Path) -> (r: Vec<String>) {
        proof {
            crate::keyed::lemma_map_of_dom(
                paths_view(self.keys@),
                store_entries_view(self.entries@),
            );
        }
        names_under(&self.keys, key)
    }
}

// ---------------------------------------------------------------------------
// Directories at any depth
// ---------------------------------------------------------------------------
/// The keys of a store that lie in the directory `dir`, at any depth.
pub open spec fn keys_under(contents: Map<Seq<Seq<char>>, StoreEntryView>, dir: Seq<Seq<char>>)
    -> Set<Seq<Seq<char>>> {
    Set::new(|k: Seq<Seq<char>>| contents.contains_key(k) && under(dir, k))
}

/// The keys in the directory `key` at any depth, each once.
pub fn listdir_keys_deep<S: Store>(store: &S, key: &Path) -> (r: Vec<Path>)
    requires
        store.inv(),
    ensures
        paths_view(r@).no_duplicates(),
        paths_view(r@).to_set() == keys_under(store.contents(), name_texts(key@)),
{
    let all = store.keys();
    let ghost dir = name_texts(key@);
    let ghost every = paths_view(all@);
    let mut out: Vec<Path> = Vec::new();
    let mut i: usize = 0;
    while i < all.len()
        invariant
            i <= all.len(),
            dir == name_texts(key@),
            every == paths_view(all@),
            every.no_duplicates(),
            paths_view(out@).no_duplicates(),
            forall|k: Seq<Seq<char>>| #[trigger]
                paths_view(out@).contains(k) <==> under(dir, k) && exists|j: int|
                    0 <= j < i && #[trigger] every[j] == k,
        decreases all.len() - i,
    {
        let candidate = &all[i];
        assert(every[i as int] == name_texts(candidate@));
        let ghost before = paths_view(out@);
        if candidate.len() > key.len() && has_names_prefix(candidate, key) {
            let ghost added = name_texts(candidate@);
            assert(!before.contains(added)) by {
                if before.contains(added) {
                    let j = choose|j: int| 0 <= j < i && #[trigger] every[j] == added;
                    assert(every[j] == every[i as int]);
                }
            }
            out.push(candidate.clone());
            assert(paths_view(out@) =~= before.push(added));
            assert(paths_view(out@).no_duplicates()) by {
                assert forall|a: int, b: int|
                    0 <= a < before.len() + 1 && 0 <= b < before.len() + 1 && a
                        != b implies paths_view(out@)[a] != paths_view(out@)[b] by {
                    if a < before.len() && b < before.len() {
                        assert(before[a] != before[b]);
                    } else if a < before.len() {
                        assert(before.contains(before[a]));
                    } else {
                        assert(before.contains(before[b]));
                    }
                }
            }
            assert forall|k: Seq<Seq<char>>| #[trigger]
                paths_view(out@).contains(k) <==> under(dir, k) && exists|j: int|
                    0 <= j < i + 1 && #[trigger] every[j] == k by {
                if paths_view(out@).contains(k) {
                    let a = choose|a: int|
                        0 <= a < paths_view(out@).len() && paths_view(out@)[a] == k;
                    if a < before.len() {
                        assert(before[a] == k);
                        assert(before.contains(k));
                    } else {
                        assert(every[i as int] == k);
                    }
                }
                if under(dir, k) && exists|j: int| 0 <= j < i + 1 && #[trigger] every[j] == k {
                    let j = choose|j: int| 0 <= j < i + 1 && #[trigger] every[j] == k;
                    if j < i {
                        assert(before.contains(k));
                        let a = choose|a: int| 0 <= a < before.len() && before[a] == k;
                        assert(paths_view(out@)[a] == k);
                    } else {
                        assert(paths_view(out@)[before.len() as int] == k);
                    }
                }
            }
        } else {
            assert forall|k: Seq<Seq<char>>| #[trigger]
                paths_view(out@).contains(k) <==> under(dir, k) && exists|j: int|
                    0 <= j < i + 1 && #[trigger] every[j] == k by {
                if under(dir, k) && exists|j: int| 0 <= j < i + 1 && #[trigger] every[j] == k {
                    let j = choose|j: int| 0 <= j < i + 1 && #[trigger] every[j] == k;
                    assert(j < i);
                }
            }
        }
        i += 1;
    }
    proof {
        let wanted = keys_under(store.contents(), dir);
        assert forall|k: Seq<Seq<char>>| paths_view(out@).to_set().contains(k)
            == wanted.contains(k) by {
            if paths_view(out@).contains(k) {
                let j = choose|j: int| 0 <= j < i && #[trigger] every[j] == k;
                assert(every.contains(k));
                assert(every.to_set().contains(k));
            }
            if wanted.contains(k) {
                assert(every.to_set().contains(k));
                assert(every.contains(k));
                let j = choose|j: int| 0 <= j < every.len() && every[j] == k;
                assert(every[j] == k);
            }
        }
        assert(paths_view(out@).to_set() =~= wanted);
    }
    out
}

/// Removes all that lies in the directory `key`, at any depth. The first
/// key that cannot be removed ends it; what was removed before stays
/// removed. A key cannot be removed where the store does not take it, or
/// where the store fails to write.
pub fn removedir<S: Store>(store: &mut S, key: &Path) -> (r: Result<(), StoreError>)
    requires
        old(store).inv(),
    ensures
        final(store).inv(),
        final(store).name() == old(store).name(),
        final(store).reliable() == old(store).reliable(),
        forall|k: Seq<Seq<char>>| final(store).supports(k) == old(store).supports(k),
        forall|k: Seq<Seq<char>>|
            !under(name_texts(key@), k)
                ==> final(store).contents().contains_key(k) == old(store).contents().contains_key(k)
                && (old(store).contents().contains_key(k)
                ==> final(store).contents()[k] == old(store).contents()[k]),
        match r {
            Ok(()) => final(store).contents() == old(store).contents().remove_keys(
                keys_under(old(store).contents(), name_texts(key@)),
            ),
            Err(e) => exists|k: Seq<Seq<char>>|
                #[trigger] old(store).contents().contains_key(k) && under(name_texts(key@), k) && (
                !old(store).supports(k) || !old(store).reliable()),
        },
{
    let doomed = listdir_keys_deep(store, key);
    let ghost dir = name_texts(key@);
    let ghost before = store.contents();
    let ghost all = paths_view(doomed@);
    let mut i: usize = 0;
    assert(store.contents() =~= before.remove_keys(all.take(0).to_set()));
    while i < doomed.len()
        invariant
            i <= doomed.len(),
            store.inv(),
            store.name() == old(store).name(),
            store.reliable() == old(store).reliable(),
            forall|k: Seq<Seq<char>>| store.supports(k) == old(store).supports(k),
            dir == name_texts(key@),
            before == old(store).contents(),
            all == paths_view(doomed@),
            all.no_duplicates(),
            all.to_set() == keys_under(before, dir),
            store.contents() == before.remove_keys(all.take(i as int).to_set()),
        decreases doomed.len() - i,
    {
        let ghost k = all[i as int];
        assert(k == name_texts(doomed@[i as int]@));
        assert(all.to_set().contains(k));
        let ghost held = store.contents();
        match store.remove(&doomed[i]) {
            Ok(()) => {},
            Err(e) => {
                proof {
                    assert(held.contains_key(k)) by {
                        assert(before.contains_key(k));
                        if all.take(i as int).to_set().contains(k) {
                            let j = choose|j: int|
                                0 <= j < all.take(i as int).len() && all.take(i as int)[j] == k;
                            assert(all[j] == all[i as int]);
                        }
                    }
                    assert(before.contains_key(k) && under(dir, k) && (!old(store).supports(k)
                        || !old(store).reliable()));
                    assert forall|other: Seq<Seq<char>>|
                        !under(dir, other) implies store.contents().contains_key(other)
                        == before.contains_key(other) && (before.contains_key(other)
                        ==> store.contents()[other] == before[other]) by {
                        if all.take(i as int).to_set().contains(other) {
                            let j = choose|j: int|
                                0 <= j < all.take(i as int).len() && all.take(i as int)[j]
                                    == other;
                            assert(all[j] == other);
                            assert(all.to_set().contains(other));
                        }
                    }
                }
                return Err(e);
            },
        }
        proof {
            assert(all.take(i + 1) =~= all.take(i as int).push(k));
            let shorter = all.take(i as int);
            let longer = all.take(i + 1);
            assert forall|x: Seq<Seq<char>>| longer.to_set().contains(x) == shorter.to_set().insert(
                k,
            ).contains(x) by {
                if longer.contains(x) {
                    let a = choose|a: int| 0 <= a < longer.len() && longer[a] == x;
                    if a < shorter.len() {
                        assert(shorter[a] == x);
                        assert(shorter.contains(x));
                    }
                }
                if shorter.contains(x) {
                    let a = choose|a: int| 0 <= a < shorter.len() && shorter[a] == x;
                    assert(longer[a] == x);
                }
                if x == k {
                    assert(longer[i as int] == k);
                }
            }
            assert(longer.to_set() =~= shorter.to_set().insert(k));
            assert(store.contents() =~= before.remove_keys(all.take(i + 1).to_set()));
        }
        i += 1;
    }
    proof {
        assert(all.take(i as int) =~= all);
        assert forall|other: Seq<Seq<char>>|
            !under(dir, other) implies store.contents().contains_key(other)
            == before.contains_key(other) && (before.contains_key(other) ==> store.contents()[other]
            == before[other]) by {
            assert(!all.to_set().contains(other));
        }
    }
    Ok(())
}

// ---------------------------------------------------------------------------
// Stores in layers
// ---------------------------------------------------------------------------
/// Two stores as one: the keys that the upper store takes are kept there,
/// and it alone is written to; every other key is read from the lower
/// store.
pub struct OverlayStore<U, L> {
    upper: U,
    lower: L,
}

/// What two stores in layers hold: for each key that the upper store takes
/// what the upper store holds, for any other key what the lower store
/// holds.
pub open spec fn layered(
    upper: Map<Seq<Seq<char>>, StoreEntryView>,
    taken: Set<Seq<Seq<char>>>,
    lower: Map<Seq<Seq<char>>, StoreEntryView>,
) -> Map<Seq<Seq<char>>, StoreEntryView> {
    Map::new(
        |k: Seq<Seq<char>>|
            if taken.contains(k) {
                upper.contains_key(k)
            } else {
                lower.contains_key(k)
            },
        |k: Seq<Seq<char>>|
            if taken.contains(k) {
                upper[k]
            } else {
                lower[k]
            },
    )
}

/// The keys that a store takes.
pub open spec fn taken_by<S: Store>(store: S) -> Set<Seq<Seq<char>>> {
    Set::new(|k: Seq<Seq<char>>| store.supports(k))
}

/// `lower` with `upper` laid over it.
pub fn with_overlay<U: Store, L: Store>(lower: L, upper: U) -> (r: OverlayStore<U, L>)
    requires
        upper.inv(),
        lower.inv(),
        forall|k: Seq<Seq<char>>| upper.contents().contains_key(k) ==> upper.supports(k),
    ensures
        r.inv(),
        r.upper_store() == upper,
        r.lower_store() == lower,
{
    OverlayStore { upper, lower }
}

/// `upper` with `lower` to fall back on for the keys that it does not
/// take.
pub fn with_fallback<U: Store, L: Store>(upper: U, lower: L) -> (r: OverlayStore<U, L>)
    requires
        upper.inv(),
        lower.inv(),
        forall|k: Seq<Seq<char>>| upper.contents().contains_key(k) ==> upper.supports(k),
    ensures
        r.inv(),
        r.upper_store() == upper,
        r.lower_store() == lower,
{
    OverlayStore { upper, lower }
}

impl<U: Store, L: Store> OverlayStore<U, L> {
    pub closed spec fn upper_store(&self) -> U {
        self.upper
    }

    pub closed spec fn lower_store(&self) -> L {
        self.lower
    }

    /// What the layers amount to.
    pub proof fn lemma_layers(&self)
        ensures
            self.contents() == layered(
                self.upper_store().contents(),
                taken_by(self.upper_store()),
                self.lower_store().contents(),
            ),
            forall|k: Seq<Seq<char>>| self.supports(k) == self.upper_store().supports(k),
            self.name() == self.upper_store().name() + " over "@ + self.lower_store().name(),
            self.reliable() == (self.upper_store().reliable() && self.lower_store().reliable()),
    {
    }

    fn refuse(&self, key: &Path) -> (e: StoreError)
        ensures
            e@ == StoreErrorView::KeyNotSupported(encode_key(key@), self.name()),
    {
        StoreError::KeyNotSupported(Key::from_key(key), self.store_name())
    }
}

impl<U: Store, L: Store> Store for OverlayStore<U, L> {
    closed spec fn inv(&self) -> bool {
        &&& self.upper.inv()
        &&& self.lower.inv()
        &&& forall|k: Seq<Seq<char>>|
            self.upper.contents().contains_key(k) ==> self.upper.supports(k)
    }

    closed spec fn model(&self) -> StoreModel {
        StoreModel {
            contents: layered(
                self.upper.contents(),
                taken_by(self.upper),
                self.lower.contents(),
            ),
            supported: taken_by(self.upper),
            name: self.upper.name() + " over "@ + self.lower.name(),
            reliable: self.upper.reliable() && self.lower.reliable(),
        }
    }

    fn store_name(&self) -> (r: String) {
        self.upper.store_name().concat(" over ").concat(self.lower.store_name().as_str())
    }

    fn is_supported(&self, key: &Path) -> (r: bool) {
        self.upper.is_supported(key)
    }

    fn get(&self, key: &Path) -> (r: Result<(Vec<u8>, Metadata), StoreError>) {
        if self.upper.is_supported(key) {
            self.upper.get(key)
        } else {
            self.lower.get(key)
        }
    }

    fn get_bytes(&self, key: &Path) -> (r: Result<Vec<u8>, StoreError>) {
        if self.upper.is_supported(key) {
            self.upper.get_bytes(key)
        } else {
            self.lower.get_bytes(key)
        }
    }

    fn get_metadata(&self, key: &Path) -> (r: Result<Metadata, StoreError>) {
        if self.upper.is_supported(key) {
            self.upper.get_metadata(key)
        } else {
            self.lower.get_metadata(key)
        }
    }

    fn set(&mut self, key: &Path, data: &Vec<u8>, metadata: &Metadata) -> (r: Result<
        (),
        StoreError,
    >) {
        if !self.upper.is_supported(key) {
            return Err(self.refuse(key));
        }
        let ghost before = self.contents();
        let r = self.upper.set(key, data, metadata);
        proof {
            if r is Ok {
                assert(self.contents().dom() =~= before.dom().insert(name_texts(key@)));
            } else {
                assert(self.contents() =~= before);
            }
        }
        r
    }

    fn set_metadata(&mut self, key: &Path, metadata: &Metadata) -> (r: Result<(), StoreError>) {
        if !self.upper.is_supported(key) {
            return Err(self.refuse(key));
        }
        let ghost before = self.contents();
        let r = self.upper.set_metadata(key, metadata);
        proof {
            if r is Ok {
                assert(self.contents().dom() =~= before.dom().insert(name_texts(key@)));
            } else {
                assert(self.contents() =~= before);
            }
        }
        r
    }

    fn remove(&mut self, key: &Path) -> (r: Result<(), StoreError>) {
        if !self.upper.is_supported(key) {
            return Err(self.refuse(key));
        }
        let ghost before = self.contents();
        let r = self.upper.remove(key);
        proof {
            if r is Ok {
                assert(self.contents() =~= before.remove(name_texts(key@)));
            } else {
                assert(self.contents() =~= before);
            }
        }
        r
    }

    fn makedir(&mut self, key: &Path) -> (r: Result<(), StoreError>) {
        if !self.upper.is_supported(key) {
            return Err(self.refuse(key));
        }
        let ghost before = self.contents();
        let r = self.upper.makedir(key);
        proof {
            assert(self.contents() =~= before);
        }
        r
    }

    fn contains(&self, key: &Path) -> (r: bool) {
        if self.upper.is_supported(key) {
            self.upper.contains(key)
        } else {
            self.lower.contains(key)
        }
    }

    fn is_dir(&self, key: &Path) -> (r: bool) {
        let keys = self.keys();
        let r = any_under(&keys, key);
        proof {
            let all = paths_view(keys@);
            let dir = name_texts(key@);
            if r {
                let k = choose|k: Seq<Seq<char>>| #[trigger]
                    all.to_set().contains(k) && under(dir, k);
                assert(self.contents().contains_key(k) && under(dir, k));
            } else {
                assert forall|k: Seq<Seq<char>>| #[trigger]
                    self.contents().contains_key(k) implies !under(dir, k) by {
                    assert(all.to_set().contains(k));
                }
            }
        }
        r
    }

    fn keys(&self) -> (r: Vec<Path>) {
        let mut out = self.upper.keys();
        let lows = self.lower.keys();
        let ghost ups = paths_view(out@);
        let ghost below = paths_view(lows@);
        let mut i: usize = 0;
        while i < lows.len()
            invariant
                i <= lows.len(),
                self.inv(),
                below == paths_view(lows@),
                below.no_duplicates(),
                below.to_set() == self.lower.contents().dom(),
                ups.no_duplicates(),
                ups.to_set() == self.upper.contents().dom(),
                paths_view(out@).no_duplicates(),
                forall|k: Seq<Seq<char>>| #[trigger]
                    paths_view(out@).contains(k) <==> ups.contains(k) || (!self.upper.supports(k)
                        && exists|j: int| 0 <= j < i && #[trigger] below[j] == k),
            decreases lows.len() - i,
        {
            let candidate = &lows[i];
            assert(below[i as int] == name_texts(candidate@));
            let ghost before = paths_view(out@);
            let ghost added = name_texts(candidate@);
            if !self.upper.is_supported(candidate) {
                assert(!before.contains(added)) by {
                    if before.contains(added) {
                        if ups.contains(added) {
                            assert(ups.to_set().contains(added));
                            assert(self.upper.contents().contains_key(added));
                        } else {
                            let j = choose|j: int| 0 <= j < i && #[trigger] below[j] == added;
                            assert(below[j] == below[i as int]);
                        }
                    }
                }
                out.push(candidate.clone());
                assert(paths_view(out@) =~= before.push(added));
                assert(paths_view(out@).no_duplicates()) by {
                    assert forall|a: int, b: int|
                        0 <= a < before.len() + 1 && 0 <= b < before.len() + 1 && a
                            != b implies paths_view(out@)[a] != paths_view(out@)[b] by {
                        if a < before.len() && b < before.len() {
                            assert(before[a] != before[b]);
                        } else if a < before.len() {
                            assert(before.contains(before[a]));
                        } else {
                            assert(before.contains(before[b]));
                        }
                    }
                }
                assert forall|k: Seq<Seq<char>>| #[trigger]
                    paths_view(out@).contains(k) <==> ups.contains(k) || (!self.upper.supports(k)
                        && exists|j: int| 0 <= j < i + 1 && #[trigger] below[j] == k) by {
                    if paths_view(out@).contains(k) {
                        let a = choose|a: int|
                            0 <= a < paths_view(out@).len() && paths_view(out@)[a] == k;
                        if a < before.len() {
                            assert(before[a] == k);
                            assert(before.contains(k));
                        } else {
                            assert(below[i as int] == k);
                        }
                    }
                    if ups.contains(k) || (!self.upper.supports(k) && exists|j: int|
                        0 <= j < i + 1 && #[trigger] below[j] == k) {
                        if ups.contains(k) {
                            assert(before.contains(k));
                            let a = choose|a: int| 0 <= a < before.len() && before[a] == k;
                            assert(paths_view(out@)[a] == k);
                        } else {
                            let j = choose|j: int| 0 <= j < i + 1 && #[trigger] below[j] == k;
                            if j < i {
                                assert(before.contains(k));
                                let a = choose|a: int| 0 <= a < before.len() && before[a] == k;
                                assert(paths_view(out@)[a] == k);
                            } else {
                                assert(paths_view(out@)[before.len() as int] == k);
                            }
                        }
                    }
                }
            } else {
                assert forall|k: Seq<Seq<char>>| #[trigger]
                    paths_view(out@).contains(k) <==> ups.contains(k) || (!self.upper.supports(k)
                        && exists|j: int| 0 <= j < i + 1 && #[trigger] below[j] == k) by {
                    if !self.upper.supports(k) && exists|j: int|
                        0 <= j < i + 1 && #[trigger] below[j] == k {
                        let j = choose|j: int| 0 <= j < i + 1 && #[trigger] below[j] == k;
                        assert(j < i);
                    }
                }
            }
            i += 1;
        }
        proof {
            let found = paths_view(out@);
            assert forall|k: Seq<Seq<char>>| found.to_set().contains(k)
                == self.contents().dom().contains(k) by {
                if found.contains(k) {
                    if ups.contains(k) {
                        assert(ups.to_set().contains(k));
                    } else {
                        let j = choose|j: int| 0 <= j < i && #[trigger] below[j] == k;
                        assert(below.contains(k));
                        assert(below.to_set().contains(k));
                    }
                }
                if self.contents().dom().contains(k) {
                    if self.upper.supports(k) {
                        assert(ups.to_set().contains(k));
                    } else {
                        assert(below.to_set().contains(k));
                        assert(below.contains(k));
                        let j = choose|j: int| 0 <= j < below.len() && below[j] == k;
                        assert(below[j] == k);
                    }
                }
            }
            assert(found.to_set() =~= self.contents().dom());
        }
        out
    }

    fn listdir(&self, key: &Path) -> (r: Vec<String>) {
        let keys = self.keys();
        names_under(&keys, key)
    }
}

} // verus!
