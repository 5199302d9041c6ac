//! Caches: what was computed for a query, kept under the text of the
//! query.
use crate::error::{Error, ErrorType, ErrorView, plain_error};
use crate::metadata::{Metadata, MetadataView};
use crate::query::{Query, encode_query};
use std::sync::Arc;
use vstd::prelude::*;

verus! {

/// What a cache holds under a key: metadata, and the bytes of the value
/// where they were given.
pub struct CacheEntryView {
    pub metadata: MetadataView,
    pub binary: Option<Seq<u8>>,
}

/// The key under which the value of the query of `metadata` is kept: the
/// canonical text of that query.
pub open spec fn cache_key(metadata: MetadataView) -> Result<Seq<char>, ErrorView> {
    match metadata {
        MetadataView::MetadataRecord(m) => Ok(encode_query(m.query)),
        MetadataView::LegacyMetadata(v) => match crate::metadata::text_field(v, "query"@) {
            Some(text) => match crate::parse::parse_result(text) {
                Ok(q) => Ok(encode_query(q)),
                Err(e) => Err(e),
            },
            None => if v is Object {
                Err(crate::metadata::query_not_found())
            } else {
                Err(crate::metadata::query_not_found_unsupported())
            },
        },
    }
}

pub open spec fn not_supported_error() -> ErrorView {
    plain_error(ErrorType::CacheNotSupported, "Cache not supported"@)
}

/// What a cache is to contracts: whether it keeps what it is given, and
/// what it holds by the text of the query.
pub struct CacheModel {
    pub supported: bool,
    pub contents: Map<Seq<char>, CacheEntryView>,
}

/// A cache of serialized values. A cache either keeps what it is given
/// (`supported`), and then behaves as the map `contents` says, or it keeps
/// nothing and refuses to be written to.
///
/// `inv` and `model` describe the cache to the verifier and are never run;
/// a cache that is implemented outside verified code gives them bodies
/// that do not return.
pub trait BinCache {
    /// What must hold of the cache between calls.
    spec fn inv(&self) -> bool;

    /// What the cache is to contracts.
    spec fn model(&self) -> CacheModel;

    /// Whether the cache keeps what it is given.
    open spec fn supported(&self) -> bool {
        self.model().supported
    }

    /// What the cache holds, by the text of the query.
    open spec fn contents(&self) -> Map<Seq<char>, CacheEntryView> {
        self.model().contents
    }

    /// Empties the cache.
    fn clear(&mut self)
        requires
            old(self).inv(),
        ensures
            final(self).inv(),
            final(self).supported() == old(self).supported(),
            final(self).contents() == Map::<Seq<char>, CacheEntryView>::empty(),
    ;

    /// The bytes kept for `query`.
    fn get_binary(&self, query: &Query) -> (r: Option<Vec<u8>>)
        requires
            self.inv(),
        ensures
            match r {
                Some(bytes) => self.contents().contains_key(encode_query(query@))
                    && self.contents()[encode_query(query@)].binary == Some(bytes@),
                None => !self.contents().contains_key(encode_query(query@))
                    || self.contents()[encode_query(query@)].binary is None,
            },
    ;

    /// The metadata kept for `query`.
    fn get_metadata(&self, query: &Query) -> (r: Option<Arc<Metadata>>)
        requires
            self.inv(),
        ensures
            match r {
                Some(metadata) => self.contents().contains_key(encode_query(query@))
                    && self.contents()[encode_query(query@)].metadata == (*metadata)@,
                None => !self.contents().contains_key(encode_query(query@)),
            },
    ;

    /// Keeps `data` and `metadata` for the query that `metadata` names.
    fn set_binary(&mut self, data: &Vec<u8>, metadata: &Metadata) -> (r: Result<(), Error>)
        requires
            old(self).inv(),
        ensures
            final(self).inv(),
            final(self).supported() == old(self).supported(),
            match r {
                Ok(()) => old(self).supported() && cache_key(metadata@) is Ok
                    && final(self).contents() == old(self).contents().insert(
                    cache_key(metadata@)->Ok_0,
                    CacheEntryView { metadata: metadata@, binary: Some(data@) },
                ),
                Err(e) => final(self).contents() == old(self).contents()
                    && if old(self).supported() {
                    cache_key(metadata@) == Err::<Seq<char>, ErrorView>(e@)
                } else {
                    e@ == not_supported_error()
                },
            },
    ;

    /// Keeps `metadata` for the query that it names, and leaves the bytes
    /// kept for that query as they are.
    fn set_metadata(&mut self, metadata: &Metadata) -> (r: Result<(), Error>)
        requires
            old(self).inv(),
        ensures
            final(self).inv(),
            final(self).supported() == old(self).supported(),
            match r {
                Ok(()) => {
                    let key = cache_key(metadata@)->Ok_0;
                    &&& old(self).supported()
                    &&& cache_key(metadata@) is Ok
                    &&& final(self).contents() == old(self).contents().insert(
                        key,
                        CacheEntryView {
                            metadata: metadata@,
                            binary: if old(self).contents().contains_key(key) {
                                old(self).contents()[key].binary
                            } else {
                                None
                            },
                        },
                    )
                },
                Err(e) => final(self).contents() == old(self).contents()
                    && if old(self).supported() {
                    cache_key(metadata@) == Err::<Seq<char>, ErrorView>(e@)
                } else {
                    e@ == not_supported_error()
                },
            },
    ;

    /// Forgets what is kept for `query`.
    fn remove(&mut self, query: &Query) -> (r: Result<(), Error>)
        requires
            old(self).inv(),
        ensures
            final(self).inv(),
            final(self).supported() == old(self).supported(),
            match r {
                Ok(()) => old(self).supported()
                    && final(self).contents() == old(self).contents().remove(encode_query(query@)),
                Err(e) => !old(self).supported() && final(self).contents() == old(self).contents()
                    && e@ == not_supported_error(),
            },
    ;

    /// Whether anything is kept for `query`.
    fn contains(&self, query: &Query) -> (r: bool)
        requires
            self.inv(),
        ensures
            r == self.contents().contains_key(encode_query(query@)),
    ;

    /// The queries for which something is kept, each once.
    fn keys(&self) -> (r: Vec<Query>)
        requires
            self.inv(),
        ensures
            query_texts(r@).no_duplicates(),
            query_texts(r@).to_set() == self.contents().dom(),
    ;
}

/// The texts of queries.
pub open spec fn query_texts(queries: Seq<Query>) -> Seq<Seq<char>> {
    Seq::new(queries.len(), |i: int| encode_query(queries[i]@))
}

/// The cache that keeps nothing.
#[derive(Debug, Clone, Copy)]
pub struct NoBinCache;

impl BinCache for NoBinCache {
    open spec fn inv(&self) -> bool {
        true
    }

    open spec fn model(&self) -> CacheModel {
        CacheModel { supported: false, contents: Map::empty() }
    }

    fn clear(&mut self) {
    }

    fn get_binary(&self, query: &Query) -> (r: Option<Vec<u8>>) {
        None
    }

    fn get_metadata(&self, query: &Query) -> (r: Option<Arc<Metadata>>) {
        None
    }

    fn set_binary(&mut self, data: &Vec<u8>, metadata: &Metadata) -> (r: Result<(), Error>) {
        Err(Error::cache_not_supported())
    }

    fn set_metadata(&mut self, metadata: &Metadata) -> (r: Result<(), Error>) {
        Err(Error::cache_not_supported())
    }

    fn remove(&mut self, query: &Query) -> (r: Result<(), Error>) {
        Err(Error::cache_not_supported())
    }

    fn contains(&self, query: &Query) -> (r: bool) {
        false
    }

    fn keys(&self) -> (r: Vec<Query>) {
        let r: Vec<Query> = Vec::new();
        assert(query_texts(r@).to_set() =~= Set::<Seq<char>>::empty());
        r
    }
}

/// What a cache in memory holds under a key.
#[derive(Debug)]
pub struct CacheEntry {
    pub metadata: Metadata,
    pub binary: Option<Vec<u8>>,
}

impl View for CacheEntry {
    type V = CacheEntryView;

    open spec fn view(&self) -> CacheEntryView {
        CacheEntryView {
            metadata: self.metadata@,
            binary: match self.binary {
                Some(b) => Some(b@),
                None => None,
            },
        }
    }
}

pub open spec fn entries_view(entries: Seq<CacheEntry>) -> Seq<CacheEntryView> {
    Seq::new(entries.len(), |i: int| entries[i]@)
}

fn key_of(metadata: &Metadata) -> (r: Result<(String, Query), Error>)
    ensures
        match r {
            Ok((key, query)) => cache_key(metadata@) == Ok::<Seq<char>, ErrorView>(key@) && key@
                == encode_query(query@),
            Err(e) => cache_key(metadata@) == Err::<Seq<char>, ErrorView>(e@),
        },
{
    match metadata.query() {
        Ok(q) => Ok((q.encode(), q)),
        Err(e) => Err(e),
    }
}

fn copy_bytes(data: &Vec<u8>) -> (r: Vec<u8>)
    ensures
        r@ == data@,
{
    let r = data.clone();
    assert(r@ =~= data@);
    r
}

/// A cache in memory.
#[derive(Debug)]
pub struct MemoryBinCache {
    keys: Vec<String>,
    queries: Vec<Query>,
    entries: Vec<CacheEntry>,
}

impl MemoryBinCache {
    /// The empty cache.
    pub fn new() -> (c: MemoryBinCache)
        ensures
            c.inv(),
            c.supported(),
            c.contents() == Map::<Seq<char>, CacheEntryView>::empty(),
    {
        let c = MemoryBinCache { keys: Vec::new(), queries: Vec::new(), entries: Vec::new() };
        proof {
            assert(query_texts(c.queries@) =~= crate::text::texts(c.keys@));
            crate::keyed::lemma_map_of_empty(
                crate::text::texts(c.keys@),
                entries_view(c.entries@),
            );
        }
        c
    }

    /// A cache in memory keeps what it is given, whatever it holds.
    pub proof fn lemma_keeps(&self)
        ensures
            self.supported(),
    {
    }

    fn store(&mut self, key: String, query: Query, entry: CacheEntry)
        requires
            old(self).inv(),
            key@ == encode_query(query@),
        ensures
            final(self).inv(),
            final(self).contents() == old(self).contents().insert(key@, entry@),
    {
        let ghost keys = crate::text::texts(self.keys@);
        let ghost entries = entries_view(self.entries@);
        match crate::keyed::find_key(&self.keys, key.as_str()) {
            Some(i) => {
                self.entries.set(i, entry);
                proof {
                    assert(entries_view(self.entries@) =~= entries.update(i as int, entry@));
                    assert(keys[i as int] == key@);
                    crate::keyed::lemma_map_of_update(keys, entries, i as int, entry@);
                }
            },
            None => {
                self.keys.push(key);
                self.queries.push(query);
                self.entries.push(entry);
                proof {
                    assert(crate::text::texts(self.keys@) =~= keys.push(key@));
                    assert(query_texts(self.queries@) =~= crate::text::texts(self.keys@));
                    assert(entries_view(self.entries@) =~= entries.push(entry@));
                    crate::keyed::lemma_map_of_push(keys, entries, key@, entry@);
                }
            },
        }
    }
}

impl BinCache for MemoryBinCache {
    closed spec fn inv(&self) -> bool {
        &&& self.keys.len() == self.entries.len()
        &&& self.keys.len() == self.queries.len()
        &&& crate::text::texts(self.keys@).no_duplicates()
        &&& query_texts(self.queries@) == crate::text::texts(self.keys@)
    }

    closed spec fn model(&self) -> CacheModel {
        CacheModel {
            supported: true,
            contents: crate::keyed::map_of(
                crate::text::texts(self.keys@),
                entries_view(self.entries@),
            ),
        }
    }

    fn clear(&mut self) {
        self.keys.clear();
        self.queries.clear();
        self.entries.clear();
        proof {
            assert(query_texts(self.queries@) =~= crate::text::texts(self.keys@));
            crate::keyed::lemma_map_of_empty(
                crate::text::texts(self.keys@),
                entries_view(self.entries@),
            );
        }
    }

    fn get_binary(&self, query: &Query) -> (r: Option<Vec<u8>>) {
        let key = query.encode();
        match crate::keyed::find_key(&self.keys, key.as_str()) {
            Some(i) => {
                proof {
                    assert(crate::text::texts(self.keys@)[i as int] == key@);
                    crate::keyed::lemma_map_of_at(
                        crate::text::texts(self.keys@),
                        entries_view(self.entries@),
                        i as int,
                    );
                }
                match &self.entries[i].binary {
                    Some(b) => Some(copy_bytes(b)),
                    None => None,
                }
            },
            None => None,
        }
    }

    fn get_metadata(&self, query: &Query) -> (r: Option<Arc<Metadata>>) {
        let key = query.encode();
        match crate::keyed::find_key(&self.keys, key.as_str()) {
            Some(i) => {
                proof {
                    assert(crate::text::texts(self.keys@)[i as int] == key@);
                    crate::keyed::lemma_map_of_at(
                        crate::text::texts(self.keys@),
                        entries_view(self.entries@),
                        i as int,
                    );
                }
                Some(Arc::new(self.entries[i].metadata.clone()))
            },
            None => None,
        }
    }

    fn set_binary(&mut self, data: &Vec<u8>, metadata: &Metadata) -> (r: Result<(), Error>) {
        let (key, query) = match key_of(metadata) {
            Ok(found) => found,
            Err(e) => {
                return Err(e);
            },
        };
        self.store(
            key,
            query,
            CacheEntry { metadata: metadata.clone(), binary: Some(copy_bytes(data)) },
        );
        Ok(())
    }

    fn set_metadata(&mut self, metadata: &Metadata) -> (r: Result<(), Error>) {
        let (key, query) = match key_of(metadata) {
            Ok(found) => found,
            Err(e) => {
                return Err(e);
            },
        };
        let binary = match crate::keyed::find_key(&self.keys, key.as_str()) {
            Some(i) => {
                proof {
                    assert(crate::text::texts(self.keys@)[i as int] == key@);
                    crate::keyed::lemma_map_of_at(
                        crate::text::texts(self.keys@),
                        entries_view(self.entries@),
                        i as int,
                    );
                }
                match &self.entries[i].binary {
                    Some(b) => Some(copy_bytes(b)),
                    None => None,
                }
            },
            None => None,
        };
        self.store(key, query, CacheEntry { metadata: metadata.clone(), binary });
        Ok(())
    }

    fn remove(&mut self, query: &Query) -> (r: Result<(), Error>) {
        let key = query.encode();
        let ghost keys = crate::text::texts(self.keys@);
        let ghost entries = entries_view(self.entries@);
        match crate::keyed::find_key(&self.keys, key.as_str()) {
            Some(i) => {
                self.keys.remove(i);
                self.queries.remove(i);
                self.entries.remove(i);
                proof {
                    assert(keys[i as int] == key@);
                    assert(crate::text::texts(self.keys@) =~= keys.remove(i as int));
                    assert(query_texts(self.queries@) =~= crate::text::texts(self.keys@));
                    assert(entries_view(self.entries@) =~= entries.remove(i as int));
                    crate::keyed::lemma_map_of_remove(keys, entries, i as int);
                }
            },
            None => {
                assert(self.contents() =~= self.contents().remove(key@));
            },
        }
        Ok(())
    }

    fn contains(&self, query: &Query) -> (r: bool) {
        let key = query.encode();
        match crate::keyed::find_key(&self.keys, key.as_str()) {
            Some(i) => {
                assert(crate::text::texts(self.keys@)[i as int] == key@);
                true
            },
            None => false,
        }
    }

    fn keys(&self) -> (r: Vec<Query>) {
        let mut r: Vec<Query> = Vec::new();
        let mut i: usize = 0;
        while i < self.queries.len()
            invariant
                i <= self.queries.len(),
                r.len() == i,
                forall|j: int| 0 <= j < i ==> r@[j]@ == self.queries@[j]@,
            decreases self.queries.len() - i,
        {
            r.push(self.queries[i].clone());
            i += 1;
        }
        proof {
            assert(query_texts(r@) =~= query_texts(self.queries@));
            crate::keyed::lemma_map_of_dom(
                crate::text::texts(self.keys@),
                entries_view(self.entries@),
            );
        }
        r
    }
}

/// What was kept for a query is what the cache gives for the query, and
/// it stays so while other queries are written and forgotten: once an
/// entry stands under a key, it is what is found there, and neither an
/// insertion nor a removal under another key changes that.
pub proof fn lemma_kept_until_removed(
    contents: Map<Seq<char>, CacheEntryView>,
    key: Seq<char>,
    entry: CacheEntryView,
    other: Seq<char>,
    other_entry: CacheEntryView,
)
    requires
        other != key,
    ensures
        contents.insert(key, entry).contains_key(key),
        contents.insert(key, entry)[key] == entry,
        contents.insert(key, entry).insert(other, other_entry).contains_key(key),
        contents.insert(key, entry).insert(other, other_entry)[key] == entry,
        contents.insert(key, entry).remove(other).contains_key(key),
        contents.insert(key, entry).remove(other)[key] == entry,
        !contents.insert(key, entry).remove(key).contains_key(key),
{
}

} // verus!
