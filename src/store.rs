//! One library's memories: deduplicated by content hash, with importance as
//! a fraction in millionths.

use vstd::prelude::*;
use crate::error::{ErrorKind, MemoryError};

verus! {

/// Importance, similarity and strength are fractions in millionths; this is 1.0.
pub const UNIT: u32 = 1_000_000;

/// The kind of a memory.
#[derive(Debug, Clone, Copy, PartialEq, Eq, Structural)]
pub enum MemoryType {
    Episodic,
    Semantic,
    Procedural,
    Working,
    LongTerm,
}

/// A stored memory.
#[derive(Debug)]
pub struct MemoryRecord {
    /// Stable id, unique in the library.
    pub id: String,
    /// The text.
    pub content: String,
    /// Hash of the text: the dedup key, unique in the library.
    pub content_hash: i64,
    pub memory_type: MemoryType,
    pub created_at: u64,
    pub updated_at: u64,
    /// When it was last returned by a search, if ever.
    pub last_accessed_at: Option<u64>,
    /// Salience in millionths, at most `UNIT`.
    pub importance: u32,
    /// Embedding components, one per dimension of the library.
    pub embedding: Vec<i32>,
}

/// A memory to be stored.
#[derive(Debug)]
pub struct NewMemory {
    /// The id to use if the content is new.
    pub id: String,
    pub content: String,
    pub content_hash: i64,
    pub memory_type: MemoryType,
    pub embedding: Vec<i32>,
}

/// The memories of one library and the embedding dimension it was made with.
pub struct LibraryStore {
    pub dim: usize,
    pub records: Vec<MemoryRecord>,
}

/// No two records share a content hash, and none share an id.
pub open spec fn keys_unique(s: Seq<MemoryRecord>) -> bool {
    forall|i: int, j: int| 0 <= i < s.len() && 0 <= j < s.len() && i != j ==> {
        &&& (#[trigger] s[i]).content_hash != (#[trigger] s[j]).content_hash
        &&& s[i].id@ != s[j].id@
    }
}

/// A record is well formed in a library of dimension `dim`.
pub open spec fn record_wf(r: MemoryRecord, dim: usize) -> bool {
    &&& r.importance <= UNIT
    &&& r.created_at <= r.updated_at
    &&& r.embedding@.len() == dim
}

/// Number of records with content hash `h`.
pub open spec fn hash_count(s: Seq<MemoryRecord>, h: i64) -> nat
    decreases s.len(),
{
    if s.len() == 0 {
        0
    } else {
        hash_count(s.drop_last(), h) + if s.last().content_hash == h { 1nat } else { 0nat }
    }
}

/// Number of records of type `t`.
pub open spec fn type_count(s: Seq<MemoryRecord>, t: MemoryType) -> nat
    decreases s.len(),
{
    if s.len() == 0 {
        0
    } else {
        type_count(s.drop_last(), t) + if s.last().memory_type == t { 1nat } else { 0nat }
    }
}

/// Some record has content hash `h`.
pub open spec fn has_hash(s: Seq<MemoryRecord>, h: i64) -> bool {
    exists|i: int| 0 <= i < s.len() && (#[trigger] s[i]).content_hash == h
}

/// Some record has id `id`.
pub open spec fn has_record_id(s: Seq<MemoryRecord>, id: Seq<char>) -> bool {
    exists|i: int| 0 <= i < s.len() && (#[trigger] s[i]).id@ == id
}

/// `a` and `b` hold the same values.
pub open spec fn same_record(a: MemoryRecord, b: MemoryRecord) -> bool {
    &&& a.id == b.id
    &&& a.content == b.content
    &&& a.content_hash == b.content_hash
    &&& a.memory_type == b.memory_type
    &&& a.created_at == b.created_at
    &&& a.updated_at == b.updated_at
    &&& a.last_accessed_at == b.last_accessed_at
    &&& a.importance == b.importance
    &&& a.embedding@ == b.embedding@
}

/// The record state after upserting `m` at `now` into `o`, returning `r`.
pub open spec fn upserted(o: Seq<MemoryRecord>, m: NewMemory, now: u64, n: Seq<MemoryRecord>, r: MemoryRecord) -> bool {
    if has_hash(o, m.content_hash) {
        exists|i: int| {
            &&& 0 <= i < o.len()
            &&& (#[trigger] o[i]).content_hash == m.content_hash
            &&& r.id == o[i].id
            &&& r.content == o[i].content
            &&& r.content_hash == o[i].content_hash
            &&& r.memory_type == o[i].memory_type
            &&& r.created_at == o[i].created_at
            &&& r.updated_at == (if now >= o[i].created_at { now } else { o[i].created_at })
            &&& r.last_accessed_at == o[i].last_accessed_at
            &&& r.importance == UNIT
            &&& r.embedding@ == m.embedding@
            &&& n.len() == o.len()
            &&& same_record(n[i], r)
            &&& forall|j: int| 0 <= j < o.len() && j != i ==> n[j] == o[j]
        }
    } else {
        &&& r.id == m.id
        &&& r.content == m.content
        &&& r.content_hash == m.content_hash
        &&& r.memory_type == m.memory_type
        &&& r.created_at == now
        &&& r.updated_at == now
        &&& r.last_accessed_at is None
        &&& r.importance == UNIT
        &&& r.embedding@ == m.embedding@
        &&& n.len() == o.len() + 1
        &&& n.drop_last() == o
        &&& same_record(n.last(), r)
    }
}

/// A copy of a list of components.
fn copy_components(v: &Vec<i32>) -> (r: Vec<i32>)
    ensures
        r@ == v@,
{
    let mut r: Vec<i32> = Vec::new();
    let mut i: usize = 0;
    while i < v.len()
        invariant
            i <= v.len(),
            r@ == v@.subrange(0, i as int),
        decreases v.len() - i,
    {
        r.push(v[i]);
        assert(v@.subrange(0, i + 1) =~= v@.subrange(0, i as int).push(v@[i as int]));
        i = i + 1;
    }
    assert(v@.subrange(0, v.len() as int) =~= v@);
    r
}

/// A copy of an optional time.
fn copy_time(t: &Option<u64>) -> (r: Option<u64>)
    ensures
        r == *t,
{
    match t {
        Some(x) => Some(*x),
        None => None,
    }
}

impl MemoryRecord {
    /// A field-by-field copy.
    pub fn copy(&self) -> (r: MemoryRecord)
        ensures
            r.id == self.id,
            r.content == self.content,
            r.content_hash == self.content_hash,
            r.memory_type == self.memory_type,
            r.created_at == self.created_at,
            r.updated_at == self.updated_at,
            r.last_accessed_at == self.last_accessed_at,
            r.importance == self.importance,
            r.embedding@ == self.embedding@,
    {
        MemoryRecord {
            id: self.id.clone(),
            content: self.content.clone(),
            content_hash: self.content_hash,
            memory_type: self.memory_type,
            created_at: self.created_at,
            updated_at: self.updated_at,
            last_accessed_at: copy_time(&self.last_accessed_at),
            importance: self.importance,
            embedding: copy_components(&self.embedding),
        }
    }
}

impl LibraryStore {
    /// Keys are unique and every record is well formed.
    pub open spec fn wf(&self) -> bool {
        &&& keys_unique(self.records@)
        &&& forall|i: int| 0 <= i < self.records@.len() ==> record_wf(#[trigger] self.records@[i], self.dim)
    }

    /// An empty library whose embeddings have `dim` components.
    pub fn new(dim: usize) -> (r: LibraryStore)
        ensures
            r.wf(),
            r.dim == dim,
            r.records@.len() == 0,
    {
        LibraryStore { dim, records: Vec::new() }
    }

    /// Number of memories.
    pub fn count(&self) -> (r: usize)
        ensures
            r == self.records@.len(),
    {
        self.records.len()
    }

    /// Number of memories of type `t`.
    pub fn count_by_type(&self, t: MemoryType) -> (r: usize)
        ensures
            r == type_count(self.records@, t),
    {
        let mut n: usize = 0;
        let mut i: usize = 0;
        while i < self.records.len()
            invariant
                i <= self.records@.len(),
                n == type_count(self.records@.subrange(0, i as int), t),
                n <= i,
            decreases self.records.len() - i,
        {
            assert(self.records@.subrange(0, i + 1).drop_last() =~= self.records@.subrange(0, i as int));
            if self.records[i].memory_type == t {
                n = n + 1;
            }
            i = i + 1;
        }
        assert(self.records@.subrange(0, self.records@.len() as int) =~= self.records@);
        n
    }

    /// Position of the record with content hash `h`.
    pub fn find_hash(&self, h: i64) -> (r: Option<usize>)
        ensures
            r is None <==> !has_hash(self.records@, h),
            r matches Some(i) ==> i < self.records@.len() && self.records@[i as int].content_hash == h,
    {
        let mut i: usize = 0;
        while i < self.records.len()
            invariant
                i <= self.records@.len(),
                forall|j: int| 0 <= j < i ==> (#[trigger] self.records@[j]).content_hash != h,
            decreases self.records.len() - i,
        {
            if self.records[i].content_hash == h {
                return Some(i);
            }
            i = i + 1;
        }
        None
    }

    /// Position of the record with id `id`.
    pub fn find_id(&self, id: &str) -> (r: Option<usize>)
        ensures
            r is None <==> !has_record_id(self.records@, id@),
            r matches Some(i) ==> i < self.records@.len() && self.records@[i as int].id@ == id@,
    {
        let key = id.to_owned();
        let mut i: usize = 0;
        while i < self.records.len()
            invariant
                key@ == id@,
                i <= self.records@.len(),
                forall|j: int| 0 <= j < i ==> (#[trigger] self.records@[j]).id@ != id@,
            decreases self.records.len() - i,
        {
            if self.records[i].id == key {
                return Some(i);
            }
            i = i + 1;
        }
        None
    }

    /// Number of records with content hash `h`.
    pub fn count_with_content_hash(&self, h: i64) -> (r: usize)
        ensures
            r == hash_count(self.records@, h),
    {
        let mut n: usize = 0;
        let mut i: usize = 0;
        while i < self.records.len()
            invariant
                i <= self.records@.len(),
                n == hash_count(self.records@.subrange(0, i as int), h),
                n <= i,
            decreases self.records.len() - i,
        {
            assert(self.records@.subrange(0, i + 1).drop_last() =~= self.records@.subrange(0, i as int));
            if self.records[i].content_hash == h {
                n = n + 1;
            }
            i = i + 1;
        }
        assert(self.records@.subrange(0, self.records@.len() as int) =~= self.records@);
        n
    }

    /// Stores `m` at time `now`. If a memory with the same content hash exists
    /// it keeps its id and creation time, its importance is reset to `UNIT`,
    /// its embedding replaced and its update time set to `now` (never before
    /// its creation). Otherwise a new record is added with importance `UNIT`.
    /// An embedding of the wrong dimension is `InvalidInput`; a new memory whose
    /// id is taken is `Internal`. Returns the stored record.
    pub fn upsert(&mut self, m: NewMemory, now: u64) -> (r: Result<MemoryRecord, MemoryError>)
        requires
            old(self).wf(),
        ensures
            final(self).wf(),
            final(self).dim == old(self).dim,
            r is Err <==> (m.embedding@.len() != old(self).dim
                || (!has_hash(old(self).records@, m.content_hash) && has_record_id(old(self).records@, m.id@))),
            r matches Err(e) ==> final(self).records@ == old(self).records@ && (
                m.embedding@.len() != old(self).dim ==> e.kind == ErrorKind::InvalidInput),
            r matches Ok(rec) ==> upserted(old(self).records@, m, now, final(self).records@, rec),
    {
        if m.embedding.len() != self.dim {
            return Err(MemoryError::new(ErrorKind::InvalidInput, "embedding dimension does not match the library".to_string()));
        }
        match self.find_hash(m.content_hash) {
            Some(i) => {
                let ghost o = self.records@;
                let old_rec = self.records.remove(i);
                let created = old_rec.created_at;
                let rec = MemoryRecord {
                    id: old_rec.id,
                    content: old_rec.content,
                    content_hash: old_rec.content_hash,
                    memory_type: old_rec.memory_type,
                    created_at: created,
                    updated_at: if now >= created { now } else { created },
                    last_accessed_at: old_rec.last_accessed_at,
                    importance: UNIT,
                    embedding: m.embedding,
                };
                let out = rec.copy();
                self.records.insert(i, rec);
                proof {
                    assert(self.records@ =~= o.update(i as int, self.records@[i as int]));
                    assert forall|a: int, b: int| 0 <= a < self.records@.len() && 0 <= b < self.records@.len() && a != b implies {
                        &&& (#[trigger] self.records@[a]).content_hash != (#[trigger] self.records@[b]).content_hash
                        &&& self.records@[a].id@ != self.records@[b].id@
                    } by {
                        assert(o[a].content_hash != o[b].content_hash);
                    }
                    assert(upserted(o, m, now, self.records@, out));
                }
                Ok(out)
            },
            None => {
                if self.find_id(m.id.as_str()).is_some() {
                    return Err(MemoryError::new(ErrorKind::Internal, "memory id already in use".to_string()));
                }
                let rec = MemoryRecord {
                    id: m.id,
                    content: m.content,
                    content_hash: m.content_hash,
                    memory_type: m.memory_type,
                    created_at: now,
                    updated_at: now,
                    last_accessed_at: None,
                    importance: UNIT,
                    embedding: m.embedding,
                };
                let out = rec.copy();
                let ghost o = self.records@;
                self.records.push(rec);
                proof {
                    assert(self.records@.drop_last() =~= o);
                }
                Ok(out)
            },
        }
    }

    /// Notes that the memory with id `id` was returned by a search at `now`;
    /// says whether it exists.
    pub fn mark_accessed(&mut self, id: &str, now: u64) -> (r: bool)
        requires
            old(self).wf(),
        ensures
            final(self).wf(),
            final(self).dim == old(self).dim,
            r == has_record_id(old(self).records@, id@),
            final(self).records@.len() == old(self).records@.len(),
            forall|j: int| 0 <= j < old(self).records@.len() ==> {
                let a = old(self).records@[j];
                #[trigger] final(self).records@[j] == (if a.id@ == id@ { MemoryRecord { last_accessed_at: Some(now), ..a } } else { a })
            },
    {
        match self.find_id(id) {
            None => false,
            Some(i) => {
                let ghost o = self.records@;
                let rec = self.records.remove(i);
                self.records.insert(i, MemoryRecord { last_accessed_at: Some(now), ..rec });
                proof {
                    let n = self.records@;
                    assert forall|j: int| 0 <= j < o.len() && j != i implies o[j].id@ != id@ by {
                        assert(o[j].id@ != o[i as int].id@);
                    }
                    assert forall|j: int| 0 <= j < o.len() implies #[trigger] n[j] == (if o[j].id@ == id@ { MemoryRecord { last_accessed_at: Some(now), ..o[j] } } else { o[j] }) by {
                    }
                    assert forall|a: int, b: int| 0 <= a < n.len() && 0 <= b < n.len() && a != b implies {
                        &&& (#[trigger] n[a]).content_hash != (#[trigger] n[b]).content_hash
                        &&& n[a].id@ != n[b].id@
                    } by {
                        assert(o[a].content_hash != o[b].content_hash);
                    }
                    assert forall|j: int| 0 <= j < n.len() implies record_wf(#[trigger] n[j], self.dim) by {
                        assert(record_wf(o[j], self.dim));
                    }
                }
                true
            },
        }
    }

    /// The record with id `id`, if any.
    pub fn get(&self, id: &str) -> (r: Option<MemoryRecord>)
        ensures
            r is None <==> !has_record_id(self.records@, id@),
            r matches Some(rec) ==> exists|i: int| 0 <= i < self.records@.len() && {
                let s = #[trigger] self.records@[i];
                &&& s.id@ == id@
                &&& rec.id == s.id
                &&& rec.content == s.content
                &&& rec.content_hash == s.content_hash
                &&& rec.importance == s.importance
                &&& rec.memory_type == s.memory_type
                &&& rec.created_at == s.created_at
                &&& rec.updated_at == s.updated_at
                &&& rec.last_accessed_at == s.last_accessed_at
                &&& rec.embedding@ == s.embedding@
            },
    {
        match self.find_id(id) {
            Some(i) => Some(self.records[i].copy()),
            None => None,
        }
    }

    /// Removes the record with id `id`; says whether there was one.
    pub fn delete(&mut self, id: &str) -> (r: bool)
        requires
            old(self).wf(),
        ensures
            final(self).wf(),
            final(self).dim == old(self).dim,
            r == has_record_id(old(self).records@, id@),
            !has_record_id(final(self).records@, id@),
            r ==> exists|i: int| 0 <= i < old(self).records@.len()
                && (#[trigger] old(self).records@[i]).id@ == id@
                && final(self).records@ == old(self).records@.remove(i),
            !r ==> final(self).records@ == old(self).records@,
    {
        match self.find_id(id) {
            Some(i) => {
                let ghost o = self.records@;
                self.records.remove(i);
                proof {
                    assert forall|j: int| 0 <= j < self.records@.len() implies (#[trigger] self.records@[j]).id@ != id@ by {
                        if j < i {
                            assert(self.records@[j] == o[j]);
                        } else {
                            assert(self.records@[j] == o[j + 1]);
                        }
                    }
                    assert forall|a: int, b: int| 0 <= a < self.records@.len() && 0 <= b < self.records@.len() && a != b implies {
                        &&& (#[trigger] self.records@[a]).content_hash != (#[trigger] self.records@[b]).content_hash
                        &&& self.records@[a].id@ != self.records@[b].id@
                    } by {
                        let a2 = if a < i { a } else { a + 1 };
                        let b2 = if b < i { b } else { b + 1 };
                        assert(self.records@[a] == o[a2] && self.records@[b] == o[b2]);
                        assert(o[a2].content_hash != o[b2].content_hash);
                    }
                    assert forall|j: int| 0 <= j < self.records@.len() implies record_wf(#[trigger] self.records@[j], self.dim) by {
                        let j2 = if j < i { j } else { j + 1 };
                        assert(self.records@[j] == o[j2]);
                    }
                }
                true
            },
            None => false,
        }
    }
}

proof fn lemma_count_unique(s: Seq<MemoryRecord>, h: i64)
    requires
        keys_unique(s),
    ensures
        hash_count(s, h) == (if has_hash(s, h) { 1nat } else { 0nat }),
    decreases s.len(),
{
    if s.len() > 0 {
        let init = s.drop_last();
        assert(keys_unique(init)) by {
            assert forall|i: int, j: int| 0 <= i < init.len() && 0 <= j < init.len() && i != j implies {
                &&& (#[trigger] init[i]).content_hash != (#[trigger] init[j]).content_hash
                &&& init[i].id@ != init[j].id@
            } by {
                assert(init[i] == s[i] && init[j] == s[j]);
            }
        }
        lemma_count_unique(init, h);
        if s.last().content_hash == h {
            assert(s[s.len() - 1].content_hash == h);
            if has_hash(init, h) {
                let k = choose|k: int| 0 <= k < init.len() && (#[trigger] init[k]).content_hash == h;
                assert(s[k].content_hash == s[s.len() - 1].content_hash);
            }
        } else {
            if has_hash(s, h) {
                let k = choose|k: int| 0 <= k < s.len() && (#[trigger] s[k]).content_hash == h;
                assert(init[k].content_hash == h);
            }
            if has_hash(init, h) {
                let k = choose|k: int| 0 <= k < init.len() && (#[trigger] init[k]).content_hash == h;
                assert(s[k].content_hash == h);
            }
        }
    }
}

/// After an upsert of content with hash `h`, the library holds exactly one
/// record with hash `h`.
pub proof fn lemma_upsert_leaves_one_record(o: Seq<MemoryRecord>, m: NewMemory, now: u64, n: Seq<MemoryRecord>, r: MemoryRecord)
    requires
        upserted(o, m, now, n, r),
        keys_unique(n),
    ensures
        hash_count(n, m.content_hash) == 1,
{
    if has_hash(o, m.content_hash) {
        let i = choose|i: int| {
            &&& 0 <= i < o.len()
            &&& (#[trigger] o[i]).content_hash == m.content_hash
            &&& r.id == o[i].id
            &&& r.content == o[i].content
            &&& r.content_hash == o[i].content_hash
            &&& r.memory_type == o[i].memory_type
            &&& r.created_at == o[i].created_at
            &&& r.updated_at == (if now >= o[i].created_at { now } else { o[i].created_at })
            &&& r.last_accessed_at == o[i].last_accessed_at
            &&& r.importance == UNIT
            &&& r.embedding@ == m.embedding@
            &&& n.len() == o.len()
            &&& same_record(n[i], r)
            &&& forall|j: int| 0 <= j < o.len() && j != i ==> n[j] == o[j]
        };
        assert(n[i].content_hash == m.content_hash);
    } else {
        assert(n[n.len() - 1].content_hash == m.content_hash);
    }
    lemma_count_unique(n, m.content_hash);
}

/// Two upserts of the same content, one after the other, return the same id,
/// and both leave its importance at `UNIT`.
pub proof fn lemma_repeated_upsert_keeps_id(
    s0: Seq<MemoryRecord>,
    m1: NewMemory,
    t1: u64,
    s1: Seq<MemoryRecord>,
    r1: MemoryRecord,
    m2: NewMemory,
    t2: u64,
    s2: Seq<MemoryRecord>,
    r2: MemoryRecord,
)
    requires
        upserted(s0, m1, t1, s1, r1),
        upserted(s1, m2, t2, s2, r2),
        keys_unique(s1),
        m1.content_hash == m2.content_hash,
    ensures
        r1.id == r2.id,
        r1.importance == UNIT,
        r2.importance == UNIT,
{
    let h = m1.content_hash;
    let k: int = if has_hash(s0, h) {
        choose|i: int| {
            &&& 0 <= i < s0.len()
            &&& (#[trigger] s0[i]).content_hash == m1.content_hash
            &&& r1.id == s0[i].id
            &&& r1.content == s0[i].content
            &&& r1.content_hash == s0[i].content_hash
            &&& r1.memory_type == s0[i].memory_type
            &&& r1.created_at == s0[i].created_at
            &&& r1.updated_at == (if t1 >= s0[i].created_at { t1 } else { s0[i].created_at })
            &&& r1.last_accessed_at == s0[i].last_accessed_at
            &&& r1.importance == UNIT
            &&& r1.embedding@ == m1.embedding@
            &&& s1.len() == s0.len()
            &&& same_record(s1[i], r1)
            &&& forall|j: int| 0 <= j < s0.len() && j != i ==> s1[j] == s0[j]
        }
    } else {
        s1.len() - 1
    };
    assert(s1[k].content_hash == h && s1[k].id == r1.id);
    assert(has_hash(s1, h));
    let i2 = choose|i: int| {
        &&& 0 <= i < s1.len()
        &&& (#[trigger] s1[i]).content_hash == m2.content_hash
        &&& r2.id == s1[i].id
        &&& r2.content == s1[i].content
        &&& r2.content_hash == s1[i].content_hash
        &&& r2.memory_type == s1[i].memory_type
        &&& r2.created_at == s1[i].created_at
        &&& r2.updated_at == (if t2 >= s1[i].created_at { t2 } else { s1[i].created_at })
        &&& r2.last_accessed_at == s1[i].last_accessed_at
        &&& r2.importance == UNIT
        &&& r2.embedding@ == m2.embedding@
        &&& s2.len() == s1.len()
        &&& same_record(s2[i], r2)
        &&& forall|j: int| 0 <= j < s1.len() && j != i ==> s2[j] == s1[j]
    };
    assert(i2 == k);
}

/// An upsert keeps every stored id.
pub proof fn lemma_upsert_keeps_ids(o: Seq<MemoryRecord>, m: NewMemory, now: u64, n: Seq<MemoryRecord>, r: MemoryRecord, id: Seq<char>)
    requires
        upserted(o, m, now, n, r),
        has_record_id(o, id),
    ensures
        has_record_id(n, id),
{
    let k = choose|k: int| 0 <= k < o.len() && (#[trigger] o[k]).id@ == id;
    if has_hash(o, m.content_hash) {
        let i = choose|i: int| {
            &&& 0 <= i < o.len()
            &&& (#[trigger] o[i]).content_hash == m.content_hash
            &&& r.id == o[i].id
            &&& r.content == o[i].content
            &&& r.content_hash == o[i].content_hash
            &&& r.memory_type == o[i].memory_type
            &&& r.created_at == o[i].created_at
            &&& r.updated_at == (if now >= o[i].created_at { now } else { o[i].created_at })
            &&& r.last_accessed_at == o[i].last_accessed_at
            &&& r.importance == UNIT
            &&& r.embedding@ == m.embedding@
            &&& n.len() == o.len()
            &&& same_record(n[i], r)
            &&& forall|j: int| 0 <= j < o.len() && j != i ==> n[j] == o[j]
        };
        if k == i {
            assert(n[i].id@ == id);
        } else {
            assert(n[k] == o[k]);
        }
    } else {
        assert(n[k] == n.drop_last()[k]);
    }
}

/// After an upsert the returned record's id is stored.
pub proof fn lemma_upserted_holds_record(o: Seq<MemoryRecord>, m: NewMemory, now: u64, n: Seq<MemoryRecord>, r: MemoryRecord)
    requires
        upserted(o, m, now, n, r),
    ensures
        has_record_id(n, r.id@),
{
    if has_hash(o, m.content_hash) {
        let i = choose|i: int| {
            &&& 0 <= i < o.len()
            &&& (#[trigger] o[i]).content_hash == m.content_hash
            &&& r.id == o[i].id
            &&& r.content == o[i].content
            &&& r.content_hash == o[i].content_hash
            &&& r.memory_type == o[i].memory_type
            &&& r.created_at == o[i].created_at
            &&& r.updated_at == (if now >= o[i].created_at { now } else { o[i].created_at })
            &&& r.last_accessed_at == o[i].last_accessed_at
            &&& r.importance == UNIT
            &&& r.embedding@ == m.embedding@
            &&& n.len() == o.len()
            &&& same_record(n[i], r)
            &&& forall|j: int| 0 <= j < o.len() && j != i ==> n[j] == o[j]
        };
        assert(n[i].id@ == r.id@);
    } else {
        assert(n[n.len() - 1].id@ == r.id@);
    }
}

/// Once the record with id `id` is removed, no record has that id: a later
/// `get` finds nothing and a second `delete` reports `false`.
pub proof fn lemma_deleted_id_is_gone(o: Seq<MemoryRecord>, i: int, id: Seq<char>)
    requires
        keys_unique(o),
        0 <= i < o.len(),
        o[i].id@ == id,
    ensures
        !has_record_id(o.remove(i), id),
{
    let n = o.remove(i);
    if has_record_id(n, id) {
        let j = choose|j: int| 0 <= j < n.len() && (#[trigger] n[j]).id@ == id;
        let j2 = if j < i { j } else { j + 1 };
        assert(n[j] == o[j2]);
    }
}

} // verus!
