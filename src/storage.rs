//! Content-addressed chunk storage: a chunk is stored under the lowercase hex
//! SHA-256 digest of its bytes.
use vstd::prelude::*;
use vstd::string::*;

use crate::crypto::{chunk_id, chunk_id_of, same_text};

verus! {

/// Failure of the medium behind a store.
#[derive(Debug, Clone, Copy, PartialEq, Eq, Structural)]
pub enum StoreError {
    Io,
}

/// A chunk store: `put_chunk` files bytes under their chunk id, `get_chunk`
/// hands back what was filed under an id, or `None` when nothing was.
pub trait Storage {
    fn put_chunk(&mut self, data: &[u8]) -> (r: Result<String, StoreError>)
        ensures
            r matches Ok(id) ==> id@ == chunk_id_of(data@),
    ;

    fn get_chunk(&self, id: &str) -> (r: Result<Option<Vec<u8>>, StoreError>);
}

/// A chunk store held in memory.
pub struct MemoryStorage {
    entries: Vec<(String, Vec<u8>)>,
}

/// The map described by a list of (id, bytes) entries; a later entry for an
/// id shadows an earlier one.
spec fn entries_map(s: Seq<(String, Vec<u8>)>) -> Map<Seq<char>, Seq<u8>>
    decreases s.len(),
{
    if s.len() == 0 {
        Map::empty()
    } else {
        entries_map(s.drop_last()).insert(s.last().0@, s.last().1@)
    }
}

/// Index `i` is the last entry for `k`.
spec fn last_entry_for(s: Seq<(String, Vec<u8>)>, k: Seq<char>, i: int) -> bool {
    &&& 0 <= i < s.len()
    &&& s[i].0@ == k
    &&& forall|j: int| i < j < s.len() ==> #[trigger] s[j].0@ != k
}

proof fn lemma_entries_lookup(s: Seq<(String, Vec<u8>)>, k: Seq<char>)
    ensures
        entries_map(s).contains_key(k) <==> exists|i: int| 0 <= i < s.len() && #[trigger] s[i].0@ == k,
        forall|i: int| last_entry_for(s, k, i) ==> entries_map(s)[k] == s[i].1@,
    decreases s.len(),
{
    if s.len() > 0 {
        let t = s.drop_last();
        lemma_entries_lookup(t, k);
        if entries_map(s).contains_key(k) && s.last().0@ != k {
            let i = choose|i: int| 0 <= i < t.len() && #[trigger] t[i].0@ == k;
            assert(s[i].0@ == k);
        }
        if s.last().0@ != k {
            assert forall|i: int| 0 <= i < s.len() && #[trigger] s[i].0@ == k implies 0 <= i < t.len()
                && t[i].0@ == k by {}
            assert forall|i: int| last_entry_for(s, k, i) implies last_entry_for(t, k, i) by {
                assert forall|j: int| i < j < t.len() implies #[trigger] t[j].0@ != k by {
                    assert(s[j].0@ != k);
                }
            }
        } else {
            assert(s[s.len() - 1].0@ == k);
        }
    }
}

proof fn lemma_entries_update(s: Seq<(String, Vec<u8>)>, i: int, e: (String, Vec<u8>))
    requires
        last_entry_for(s, e.0@, i),
    ensures
        entries_map(s.update(i, e)) == entries_map(s).insert(e.0@, e.1@),
    decreases s.len(),
{
    let u = s.update(i, e);
    if i == s.len() - 1 {
        assert(u.drop_last() =~= s.drop_last());
    } else {
        let t = s.drop_last();
        assert(last_entry_for(t, e.0@, i)) by {
            assert forall|j: int| i < j < t.len() implies #[trigger] t[j].0@ != e.0@ by {
                assert(s[j].0@ != e.0@);
            }
        }
        lemma_entries_update(t, i, e);
        assert(u.drop_last() =~= t.update(i, e));
        assert(s.last().0@ != e.0@);
        assert(entries_map(u) =~= entries_map(s).insert(e.0@, e.1@));
    }
}

/// Every chunk is filed under its own id.
pub open spec fn content_addressed(chunks: Map<Seq<char>, Seq<u8>>) -> bool {
    forall|k: Seq<char>| #[trigger] chunks.contains_key(k) ==> chunk_id_of(chunks[k]) == k
}

impl MemoryStorage {
    /// The chunks held, by id.
    pub closed spec fn chunks(&self) -> Map<Seq<char>, Seq<u8>> {
        entries_map(self.entries@)
    }

    /// An empty store.
    pub fn new() -> (r: MemoryStorage)
        ensures
            r.chunks() == Map::<Seq<char>, Seq<u8>>::empty(),
            content_addressed(r.chunks()),
    {
        MemoryStorage { entries: Vec::new() }
    }

    /// The position of the entry that holds `id`.
    fn position(&self, id: &str) -> (r: Option<usize>)
        ensures
            match r {
                Some(i) => last_entry_for(self.entries@, id@, i as int),
                None => !self.chunks().contains_key(id@),
            },
    {
        proof {
            lemma_entries_lookup(self.entries@, id@);
        }
        let mut i: usize = self.entries.len();
        while i > 0
            invariant
                i <= self.entries@.len(),
                forall|j: int| i <= j < self.entries@.len() ==> #[trigger] self.entries@[j].0@ != id@,
            decreases i,
        {
            i = i - 1;
            if same_text(self.entries[i].0.as_str(), id) {
                return Some(i);
            }
        }
        None
    }

    /// Stores `data` under its chunk id and returns the id. Storing the same
    /// bytes again leaves the store as it was.
    pub fn put(&mut self, data: &[u8]) -> (id: String)
        ensures
            id@ == chunk_id_of(data@),
            final(self).chunks() == old(self).chunks().insert(id@, data@),
            content_addressed(old(self).chunks()) ==> content_addressed(final(self).chunks()),
    {
        let id = chunk_id(data);
        let bytes = vstd::slice::slice_to_vec(data);
        match self.position(id.as_str()) {
            Some(i) => {
                proof {
                    lemma_entries_update(self.entries@, i as int, (id, bytes));
                }
                self.entries.set(i, (id.clone(), bytes));
            },
            None => {
                let ghost before = self.entries@;
                self.entries.push((id.clone(), bytes));
                assert(self.entries@.drop_last() =~= before);
            },
        }
        id
    }

    /// The bytes stored under `id`, or `None`.
    pub fn get(&self, id: &str) -> (r: Option<Vec<u8>>)
        ensures
            match r {
                Some(v) => self.chunks().contains_key(id@) && v@ == self.chunks()[id@],
                None => !self.chunks().contains_key(id@),
            },
    {
        proof {
            lemma_entries_lookup(self.entries@, id@);
        }
        match self.position(id) {
            Some(i) => Some(vstd::slice::slice_to_vec(self.entries[i].1.as_slice())),
            None => None,
        }
    }

    /// Whether a chunk is stored under `id`.
    pub fn contains(&self, id: &str) -> (r: bool)
        ensures
            r == self.chunks().contains_key(id@),
    {
        proof {
            lemma_entries_lookup(self.entries@, id@);
        }
        self.position(id).is_some()
    }
}

impl Storage for MemoryStorage {
    fn put_chunk(&mut self, data: &[u8]) -> (r: Result<String, StoreError>) {
        Ok(self.put(data))
    }

    fn get_chunk(&self, id: &str) -> (r: Result<Option<Vec<u8>>, StoreError>) {
        Ok(self.get(id))
    }
}

/// Storing bytes and then asking for their id gives the bytes back, under the
/// id that is the hex SHA-256 of the bytes.
pub proof fn law_put_get(chunks: Map<Seq<char>, Seq<u8>>, data: Seq<u8>)
    ensures
        chunks.insert(chunk_id_of(data), data).contains_key(chunk_id_of(data)),
        chunks.insert(chunk_id_of(data), data)[chunk_id_of(data)] == data,
{
}

/// Storing the same bytes twice gives the same id and the same store as
/// storing them once.
pub proof fn law_put_idempotent(chunks: Map<Seq<char>, Seq<u8>>, data: Seq<u8>)
    ensures
        chunks.insert(chunk_id_of(data), data).insert(chunk_id_of(data), data) == chunks.insert(
            chunk_id_of(data),
            data,
        ),
{
    assert(chunks.insert(chunk_id_of(data), data).insert(chunk_id_of(data), data) =~= chunks.insert(
        chunk_id_of(data),
        data,
    ));
}


/// A chunk store on disk. Chunk `h` lives at `<data_dir>/chunks/<h[0..2]>/<h>`;
/// the two-character directory keeps the fan-out of each directory bounded.
/// The reading and writing of files is left to the caller, which asks this
/// type for the paths.
#[derive(Debug, Clone)]
pub struct LocalStorage {
    chunks_dir: String,
}

/// The first two characters of an id, or all of it when it is shorter.
pub open spec fn id_prefix(id: Seq<char>) -> Seq<char> {
    if id.len() < 2 {
        id
    } else {
        id.take(2)
    }
}

impl LocalStorage {
    /// The directory that holds the chunks.
    pub closed spec fn dir(&self) -> Seq<char> {
        self.chunks_dir@
    }

    /// A store rooted in `base_dir`; its chunks go under `base_dir/chunks`.
    pub fn new(base_dir: &str) -> (r: LocalStorage)
        ensures
            r.dir() == base_dir@ + "/chunks"@,
    {
        let mut dir = String::from_str(base_dir);
        dir.append("/chunks");
        LocalStorage { chunks_dir: dir }
    }

    /// The directory that holds the chunks.
    pub fn chunks_dir(&self) -> (r: &str)
        ensures
            r@ == self.dir(),
    {
        self.chunks_dir.as_str()
    }

    /// Where the chunk with id `chunk_id` is kept.
    pub fn chunk_path(&self, chunk_id: &str) -> (r: String)
        ensures
            r@ == self.dir() + "/"@ + id_prefix(chunk_id@) + "/"@ + chunk_id@,
    {
        let n = chunk_id.unicode_len();
        let end: usize = if n < 2 {
            n
        } else {
            2
        };
        let prefix = chunk_id.substring_char(0, end);
        let mut path = self.chunks_dir.clone();
        path.append("/");
        path.append(prefix);
        path.append("/");
        path.append(chunk_id);
        proof {
            if n < 2 {
                assert(chunk_id@.subrange(0, n as int) =~= chunk_id@);
            }
        }
        path
    }
}

} // verus!
