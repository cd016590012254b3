//! Per-library coordinators and the pool that holds one per library name.

use vstd::prelude::*;
use crate::ids::new_uuid;
use crate::error::{ErrorKind, MemoryError};
use crate::evaluator::{EvaluationQueue, PendingEvaluation};
use crate::hash::{content_hash, hash_of_text};
use crate::library::{valid_library_name, validate_library_name};
use crate::ranking::{rank_candidates, ranked_top, Candidate, EntanglementEdge, RecallResult};
use crate::store::{has_hash, hash_count, has_record_id, upserted, LibraryStore, MemoryRecord, MemoryType, NewMemory, UNIT};

verus! {

/// Capacity of each library's evaluation queue.
pub const EVAL_QUEUE_CAPACITY: usize = 1024;

/// A nearest-neighbour hit: a memory id and its raw similarity in millionths.
#[derive(Debug)]
pub struct SearchHit {
    pub id: String,
    pub similarity: u32,
}

/// How many nearest neighbours a search of `limit` results draws: `4·limit`,
/// at least 32.
pub open spec fn candidate_pool_size(limit: usize) -> nat {
    let four = 4 * (limit as int);
    if four < 32 { 32 } else { four as nat }
}

/// The key by which hits are compared: id and similarity.
pub open spec fn hit_key(h: SearchHit) -> (Seq<char>, u32) {
    (h.id@, h.similarity)
}

/// The keys of `hits`.
pub open spec fn hit_keys(hits: Seq<SearchHit>) -> Seq<(Seq<char>, u32)> {
    hits.map_values(|h: SearchHit| hit_key(h))
}

/// `a` is at least as similar as `b`.
pub open spec fn closer_first() -> spec_fn((Seq<char>, u32), (Seq<char>, u32)) -> bool {
    |a: (Seq<char>, u32), b: (Seq<char>, u32)| a.1 >= b.1
}

/// The nearest neighbours among all `scored` memories for a search of `limit`
/// results: the `candidate_pool_size(limit)` most similar (all, if fewer),
/// most similar first.
pub fn nearest_hits(scored: Vec<SearchHit>, limit: usize) -> (r: Vec<SearchHit>)
    ensures
        r@.len() == if candidate_pool_size(limit) <= scored@.len() { candidate_pool_size(limit) } else { scored@.len() },
        forall|i: int, j: int| 0 <= i < j < r@.len() ==> (#[trigger] r@[i]).similarity >= (#[trigger] r@[j]).similarity,
        exists|full: Seq<(Seq<char>, u32)>| {
            &&& full.to_multiset() == hit_keys(scored@).to_multiset()
            &&& vstd::relations::sorted_by(full, closer_first())
            &&& forall|i: int| 0 <= i < r@.len() ==> hit_key(#[trigger] r@[i]) == full[i]
        },
{
    let want: usize = if limit > 8 { if limit > usize::MAX / 4 { usize::MAX } else { 4 * limit } } else { 32 };
    proof {
        if limit > 8 && limit > usize::MAX / 4 {
            assert(4 * (limit as int) > usize::MAX as int);
        }
    }
    let ghost src = scored@;
    let ghost all = hit_keys(src);
    let mut rest = scored;
    let mut sorted: Vec<SearchHit> = Vec::new();
    let ghost mut i: int = 0;
    proof {
        assert(rest@ =~= src.subrange(0, src.len() as int));
        assert(all.subrange(0, 0) =~= Seq::<(Seq<char>, u32)>::empty());
        assert(hit_keys(sorted@) =~= Seq::<(Seq<char>, u32)>::empty());
        assert(hit_keys(src.subrange(0, 0)) =~= Seq::<(Seq<char>, u32)>::empty());
    }
    while rest.len() > 0
        invariant
            0 <= i <= src.len(),
            all == hit_keys(src),
            rest@ == src.subrange(i, src.len() as int),
            hit_keys(sorted@).to_multiset() == all.subrange(0, i).to_multiset(),
            vstd::relations::sorted_by(hit_keys(sorted@), closer_first()),
        decreases rest.len(),
    {
        let item = rest.remove(0);
        proof {
            assert(item == src[i]);
            assert(hit_key(item) == all[i]);
        }
        let ghost keys = hit_keys(sorted@);
        let mut p: usize = 0;
        while p < sorted.len() && sorted[p].similarity >= item.similarity
            invariant
                p <= sorted@.len(),
                keys == hit_keys(sorted@),
                forall|j: int| 0 <= j < p ==> (#[trigger] keys[j]).1 >= item.similarity,
            decreases sorted.len() - p,
        {
            p = p + 1;
        }
        proof {
            assert forall|j: int| p <= j < keys.len() implies (#[trigger] keys[j]).1 <= item.similarity by {
                if p < j {
                    assert(closer_first()(keys[p as int], keys[j]));
                }
            }
        }
        sorted.insert(p, item);
        proof {
            let keys2 = hit_keys(sorted@);
            assert(keys2 =~= keys.insert(p as int, all[i]));
            vstd::seq_lib::to_multiset_insert(keys, p as int, all[i]);
            assert(all.subrange(0, i + 1) =~= all.subrange(0, i).push(all[i]));
            vstd::seq_lib::to_multiset_build(all.subrange(0, i), all[i]);
            assert forall|a: int, b: int| 0 <= a < b < keys2.len() implies #[trigger] closer_first()(keys2[a], keys2[b]) by {
                if b < p {
                    assert(closer_first()(keys[a], keys[b]));
                } else if a < p && b == p {
                } else if a < p {
                    assert(keys2[b] == keys[b - 1]);
                } else if a == p {
                    assert(keys2[b] == keys[b - 1]);
                } else {
                    assert(keys2[a] == keys[a - 1] && keys2[b] == keys[b - 1]);
                    assert(closer_first()(keys[a - 1], keys[b - 1]));
                }
            }
            i = i + 1;
            assert(rest@ =~= src.subrange(i, src.len() as int));
        }
    }
    let ghost full = hit_keys(sorted@);
    proof {
        assert(all.subrange(0, i) =~= all);
        vstd::seq_lib::to_multiset_len(full);
        vstd::seq_lib::to_multiset_len(all);
    }
    sorted.truncate(want);
    proof {
        assert forall|a: int, b: int| 0 <= a < b < sorted@.len() implies
            (#[trigger] sorted@[a]).similarity >= (#[trigger] sorted@[b]).similarity by {
            assert(closer_first()(full[a], full[b]));
        }
        assert forall|t: int| 0 <= t < sorted@.len() implies hit_key(#[trigger] sorted@[t]) == full[t] by {
        }
    }
    sorted
}

pub struct MemoryCoordinator {
    pub library: String,
    pub store: LibraryStore,
    pub edges: Vec<EntanglementEdge>,
    pub queue: EvaluationQueue,
}

/// Every edge joins two stored memories and has a strength of at most `UNIT`.
pub open spec fn edges_wf(edges: Seq<EntanglementEdge>, records: Seq<MemoryRecord>) -> bool {
    forall|k: int| 0 <= k < edges.len() ==> {
        &&& has_record_id(records, (#[trigger] edges[k]).source@)
        &&& has_record_id(records, edges[k].target@)
        &&& edges[k].strength <= UNIT
    }
}

/// Whether a stored id equals `id`.
fn same_id_str(a: &String, id: &str) -> (r: bool)
    ensures
        r == (a@ == id@),
{
    crate::text::same_text(a.as_str(), id)
}

/// Edges stay well formed when the records keep their ids in place.
proof fn lemma_same_ids_keep_edges(edges: Seq<EntanglementEdge>, o: Seq<MemoryRecord>, n: Seq<MemoryRecord>)
    requires
        edges_wf(edges, o),
        n.len() == o.len(),
        forall|j: int| 0 <= j < o.len() ==> (#[trigger] n[j]).id == o[j].id,
    ensures
        edges_wf(edges, n),
{
    assert forall|k: int| 0 <= k < edges.len() implies {
        &&& has_record_id(n, (#[trigger] edges[k]).source@)
        &&& has_record_id(n, edges[k].target@)
        &&& edges[k].strength <= UNIT
    } by {
        let a = choose|a: int| 0 <= a < o.len() && (#[trigger] o[a]).id@ == edges[k].source@;
        let b = choose|b: int| 0 <= b < o.len() && (#[trigger] o[b]).id@ == edges[k].target@;
        assert(n[a].id == o[a].id);
        assert(n[b].id == o[b].id);
    }
}

/// The position of the record with id `id` (meaningful when there is one).
pub open spec fn record_index(records: Seq<MemoryRecord>, id: Seq<char>) -> int {
    choose|j: int| 0 <= j < records.len() && (#[trigger] records[j]).id@ == id
}

proof fn lemma_record_index(records: Seq<MemoryRecord>, id: Seq<char>, j: int)
    requires
        crate::store::keys_unique(records),
        0 <= j < records.len(),
        records[j].id@ == id,
    ensures
        record_index(records, id) == j,
{
    let k = record_index(records, id);
    assert(records[k].id@ == id);
    if k != j {
        assert(records[k].id@ != records[j].id@);
    }
}

/// The candidate for hit `h`: the stored memory with the hit's id, scored
/// with the hit's similarity.
pub open spec fn hit_candidate(h: SearchHit, records: Seq<MemoryRecord>) -> Candidate {
    let s = records[record_index(records, h.id@)];
    Candidate { id: s.id, content: s.content, created_at: s.created_at, similarity: h.similarity, importance: s.importance }
}

/// Some hit of `hits` has id `id`.
pub open spec fn hit_seen(hits: Seq<SearchHit>, id: Seq<char>) -> bool {
    exists|j: int| 0 <= j < hits.len() && (#[trigger] hits[j]).id@ == id
}

/// The candidates behind `hits`, in hit order: one per stored id, at its first hit.
pub open spec fn candidates_of(hits: Seq<SearchHit>, records: Seq<MemoryRecord>) -> Seq<Candidate>
    decreases hits.len(),
{
    if hits.len() == 0 {
        Seq::<Candidate>::empty()
    } else {
        let p = candidates_of(hits.drop_last(), records);
        let h = hits.last();
        if has_record_id(records, h.id@) && !hit_seen(hits.drop_last(), h.id@) {
            p.push(hit_candidate(h, records))
        } else {
            p
        }
    }
}

proof fn lemma_candidates_stored(hits: Seq<SearchHit>, records: Seq<MemoryRecord>)
    ensures
        candidates_of(hits, records).len() <= hits.len(),
        forall|t: int| 0 <= t < candidates_of(hits, records).len()
            ==> has_record_id(records, (#[trigger] candidates_of(hits, records)[t]).id@),
    decreases hits.len(),
{
    if hits.len() > 0 {
        let p = candidates_of(hits.drop_last(), records);
        lemma_candidates_stored(hits.drop_last(), records);
        let h = hits.last();
        if has_record_id(records, h.id@) && !hit_seen(hits.drop_last(), h.id@) {
            let c = hit_candidate(h, records);
            let k = record_index(records, h.id@);
            assert(records[k].id@ == h.id@);
            assert(has_record_id(records, c.id@));
            assert forall|t: int| 0 <= t < p.push(c).len() implies has_record_id(records, (#[trigger] p.push(c)[t]).id@) by {
                if t < p.len() {
                    assert(p.push(c)[t] == p[t]);
                }
            }
        }
    }
}

proof fn lemma_candidates_distinct(hits: Seq<SearchHit>, records: Seq<MemoryRecord>)
    ensures
        forall|t: int| 0 <= t < candidates_of(hits, records).len()
            ==> hit_seen(hits, (#[trigger] candidates_of(hits, records)[t]).id@),
        forall|a: int, b: int| 0 <= a < candidates_of(hits, records).len() && 0 <= b < candidates_of(hits, records).len() && a != b
            ==> (#[trigger] candidates_of(hits, records)[a]).id@ != (#[trigger] candidates_of(hits, records)[b]).id@,
    decreases hits.len(),
{
    if hits.len() > 0 {
        let init = hits.drop_last();
        let p = candidates_of(init, records);
        lemma_candidates_distinct(init, records);
        let h = hits.last();
        assert forall|t: int| 0 <= t < p.len() implies hit_seen(hits, (#[trigger] p[t]).id@) by {
            let j = choose|j: int| 0 <= j < init.len() && (#[trigger] init[j]).id@ == p[t].id@;
            assert(hits[j] == init[j]);
        }
        if has_record_id(records, h.id@) && !hit_seen(init, h.id@) {
            let c = hit_candidate(h, records);
            let k = record_index(records, h.id@);
            assert(records[k].id@ == h.id@);
            let q = p.push(c);
            assert(hit_seen(hits, c.id@)) by {
                assert(hits[hits.len() - 1] == h);
            }
            assert forall|t: int| 0 <= t < q.len() implies hit_seen(hits, (#[trigger] q[t]).id@) by {
                if t < p.len() {
                    assert(q[t] == p[t]);
                }
            }
            assert forall|a: int, b: int| 0 <= a < q.len() && 0 <= b < q.len() && a != b implies
                (#[trigger] q[a]).id@ != (#[trigger] q[b]).id@ by {
                if a < p.len() && b < p.len() {
                    assert(q[a] == p[a] && q[b] == p[b]);
                } else if a < p.len() {
                    assert(q[a] == p[a]);
                    assert(hit_seen(init, p[a].id@));
                } else {
                    assert(q[b] == p[b]);
                    assert(hit_seen(init, p[b].id@));
                }
            }
        }
    }
}

/// A search never yields more candidates than the library holds memories.
pub proof fn lemma_candidates_bounded(hits: Seq<SearchHit>, records: Seq<MemoryRecord>)
    ensures
        candidates_of(hits, records).len() <= records.len(),
{
    let cands = candidates_of(hits, records);
    lemma_candidates_distinct(hits, records);
    lemma_candidates_stored(hits, records);
    let ic = cands.map_values(|c: Candidate| c.id@);
    let ir = records.map_values(|r: MemoryRecord| r.id@);
    assert(ic.no_duplicates()) by {
        assert forall|a: int, b: int| 0 <= a < ic.len() && 0 <= b < ic.len() && a != b implies ic[a] != ic[b] by {
            assert(cands[a].id@ != cands[b].id@);
        }
    }
    ic.unique_seq_to_set();
    assert(ic.to_set().subset_of(ir.to_set())) by {
        assert forall|x: Seq<char>| ic.to_set().contains(x) implies ir.to_set().contains(x) by {
            let t = choose|t: int| 0 <= t < ic.len() && ic[t] == x;
            assert(has_record_id(records, cands[t].id@));
            let j = choose|j: int| 0 <= j < records.len() && (#[trigger] records[j]).id@ == cands[t].id@;
            assert(ir[j] == x);
        }
    }
    ir.lemma_cardinality_of_set();
    vstd::set_lib::lemma_len_subset(ic.to_set(), ir.to_set());
}

/// Whether some hit before position `i` has id `id`.
fn seen_id(hits: &Vec<SearchHit>, i: usize, id: &String) -> (r: bool)
    requires
        i <= hits@.len(),
    ensures
        r == hit_seen(hits@.subrange(0, i as int), id@),
{
    let mut j: usize = 0;
    while j < i
        invariant
            i <= hits@.len(),
            j <= i,
            forall|t: int| 0 <= t < j ==> (#[trigger] hits@[t]).id@ != id@,
        decreases i - j,
    {
        if hits[j].id == *id {
            assert(hits@.subrange(0, i as int)[j as int] == hits@[j as int]);
            return true;
        }
        j = j + 1;
    }
    proof {
        if hit_seen(hits@.subrange(0, i as int), id@) {
            let t = choose|t: int| 0 <= t < i && (#[trigger] hits@.subrange(0, i as int)[t]).id@ == id@;
            assert(hits@.subrange(0, i as int)[t] == hits@[t]);
        }
    }
    false
}

/// `a` after the results with ids `ids` were noted as accessed at `now`.
pub open spec fn touched_record(a: MemoryRecord, ids: Seq<Seq<char>>, now: u64) -> MemoryRecord {
    if ids.contains(a.id@) { MemoryRecord { last_accessed_at: Some(now), ..a } } else { a }
}

/// The ids of `results`.
pub open spec fn result_ids(results: Seq<RecallResult>) -> Seq<Seq<char>> {
    results.map_values(|r: RecallResult| r.id@)
}

impl MemoryCoordinator {
    /// Store, queue and graph are well formed.
    pub open spec fn wf(&self) -> bool {
        &&& self.store.wf()
        &&& self.queue.wf()
        &&& edges_wf(self.edges@, self.store.records@)
    }

    /// Whether edge `e` may join this library's graph: both ends stored and a
    /// strength of at most `UNIT`.
    pub open spec fn edge_allowed(&self, e: EntanglementEdge) -> bool {
        &&& has_record_id(self.store.records@, e.source@)
        &&& has_record_id(self.store.records@, e.target@)
        &&& e.strength <= UNIT
    }

    /// Adds an edge to the graph. An end that is not stored is `NotFound`; a
    /// strength above `UNIT` is `InvalidInput`.
    pub fn add_entanglement(&mut self, edge: EntanglementEdge) -> (r: Result<(), MemoryError>)
        requires
            old(self).wf(),
        ensures
            final(self).wf(),
            final(self).library == old(self).library,
            final(self).store == old(self).store,
            final(self).queue == old(self).queue,
            r is Ok <==> old(self).edge_allowed(edge),
            r is Ok ==> final(self).edges@ == old(self).edges@.push(edge),
            r is Err ==> final(self).edges@ == old(self).edges@,
            r matches Err(e) ==> (edge.strength > UNIT ==> e.kind == ErrorKind::InvalidInput)
                && (edge.strength <= UNIT ==> e.kind == ErrorKind::NotFound),
    {
        if edge.strength > UNIT {
            return Err(MemoryError::new(ErrorKind::InvalidInput, "edge strength above 1".to_string()));
        }
        if self.store.find_id(edge.source.as_str()).is_none() || self.store.find_id(edge.target.as_str()).is_none() {
            return Err(MemoryError::new(ErrorKind::NotFound, "edge endpoint not stored".to_string()));
        }
        self.edges.push(edge);
        proof {
            assert forall|k: int| 0 <= k < self.edges@.len() implies {
                &&& has_record_id(self.store.records@, (#[trigger] self.edges@[k]).source@)
                &&& has_record_id(self.store.records@, self.edges@[k].target@)
                &&& self.edges@[k].strength <= UNIT
            } by {
                if k < old(self).edges@.len() {
                    assert(self.edges@[k] == old(self).edges@[k]);
                }
            }
        }
        Ok(())
    }

    /// Builds the graph from the edges loaded at start-up, keeping those that
    /// may join it, in order. When loading failed (`None`) the graph is empty
    /// and searches get no boost.
    pub fn load_entanglement(&mut self, loaded: Option<Vec<EntanglementEdge>>)
        requires
            old(self).wf(),
        ensures
            final(self).wf(),
            final(self).library == old(self).library,
            final(self).store == old(self).store,
            final(self).queue == old(self).queue,
            loaded is None ==> final(self).edges@.len() == 0,
            loaded matches Some(v) ==> final(self).edges@ == v@.filter(|e: EntanglementEdge| old(self).edge_allowed(e)),
    {
        self.edges = Vec::new();
        match loaded {
            None => {},
            Some(v) => {
                let ghost src = v@;
                let ghost allowed = |e: EntanglementEdge| old(self).edge_allowed(e);
                let mut rest = v;
                let ghost mut i: int = 0;
                proof {
                    assert(rest@ =~= src.subrange(0, src.len() as int));
                    assert(src.subrange(0, 0) =~= Seq::<EntanglementEdge>::empty());
                    reveal(Seq::filter);
                }
                while rest.len() > 0
                    invariant
                        0 <= i <= src.len(),
                        rest@ == src.subrange(i, src.len() as int),
                        self.wf(),
                        self.library == old(self).library,
                        self.store == old(self).store,
                        self.queue == old(self).queue,
                        allowed == (|e: EntanglementEdge| old(self).edge_allowed(e)),
                        self.edges@ == src.subrange(0, i).filter(allowed),
                    decreases rest.len(),
                {
                    let e = rest.remove(0);
                    proof {
                        reveal(Seq::filter);
                        assert(src.subrange(0, i + 1).drop_last() =~= src.subrange(0, i));
                        assert(src.subrange(0, i + 1).last() == e);
                    }
                    let _ = self.add_entanglement(e);
                    proof {
                        i = i + 1;
                        assert(rest@ =~= src.subrange(i, src.len() as int));
                    }
                }
                proof {
                    assert(src.subrange(0, i) =~= src);
                }
            },
        }
    }

    /// Deletes the memory with id `id` and every edge that touches it; says
    /// whether the memory existed.
    pub fn delete_memory(&mut self, id: &str) -> (r: bool)
        requires
            old(self).wf(),
        ensures
            final(self).wf(),
            final(self).library == old(self).library,
            final(self).queue == old(self).queue,
            final(self).store.dim == old(self).store.dim,
            r == has_record_id(old(self).store.records@, id@),
            !has_record_id(final(self).store.records@, id@),
            r ==> exists|i: int| 0 <= i < old(self).store.records@.len()
                && (#[trigger] old(self).store.records@[i]).id@ == id@
                && final(self).store.records@ == old(self).store.records@.remove(i),
            !r ==> final(self).store.records@ == old(self).store.records@,
            forall|k: int| 0 <= k < old(self).edges@.len()
                && (#[trigger] old(self).edges@[k]).source@ != id@ && old(self).edges@[k].target@ != id@
                ==> final(self).edges@.contains(old(self).edges@[k]),
            forall|k: int| 0 <= k < final(self).edges@.len() ==>
                (#[trigger] final(self).edges@[k]).source@ != id@ && final(self).edges@[k].target@ != id@,
    {
        let ghost before_recs = self.store.records@;
        let existed = self.store.delete(id);
        let ghost recs = self.store.records@;
        proof {
            assert forall|x: Seq<char>| x != id@ && has_record_id(before_recs, x) implies has_record_id(recs, x) by {
                let a = choose|a: int| 0 <= a < before_recs.len() && (#[trigger] before_recs[a]).id@ == x;
                if existed {
                    let j = choose|j: int| 0 <= j < before_recs.len()
                        && (#[trigger] before_recs[j]).id@ == id@
                        && recs == before_recs.remove(j);
                    if a < j {
                        assert(recs[a] == before_recs[a]);
                    } else {
                        assert(a != j);
                        assert(recs[a - 1] == before_recs[a]);
                    }
                } else {
                    assert(recs[a] == before_recs[a]);
                }
            }
        }
        let mut old_edges: Vec<EntanglementEdge> = Vec::new();
        std::mem::swap(&mut old_edges, &mut self.edges);
        let ghost oe = old_edges@;
        let mut rest = old_edges;
        let ghost mut i: int = 0;
        proof {
            assert(rest@ =~= oe.subrange(0, oe.len() as int));
        }
        while rest.len() > 0
            invariant
                0 <= i <= oe.len(),
                rest@ == oe.subrange(i, oe.len() as int),
                recs == self.store.records@,
                self.store.wf(),
                self.queue == old(self).queue,
                self.library == old(self).library,
                self.store.dim == old(self).store.dim,
                !has_record_id(recs, id@),
                forall|k: int| 0 <= k < oe.len() ==> {
                    &&& ((#[trigger] oe[k]).source@ != id@ ==> has_record_id(recs, oe[k].source@))
                    &&& (oe[k].target@ != id@ ==> has_record_id(recs, oe[k].target@))
                    &&& oe[k].strength <= UNIT
                },
                edges_wf(self.edges@, recs),
                forall|k: int| 0 <= k < self.edges@.len() ==>
                    (#[trigger] self.edges@[k]).source@ != id@ && self.edges@[k].target@ != id@,
                forall|k: int| 0 <= k < i && (#[trigger] oe[k]).source@ != id@ && oe[k].target@ != id@
                    ==> self.edges@.contains(oe[k]),
            decreases rest.len(),
        {
            let e = rest.remove(0);
            proof {
                assert(e == oe[i]);
            }
            let keep = !(same_id_str(&e.source, id) || same_id_str(&e.target, id));
            if keep {
                let ghost before = self.edges@;
                self.edges.push(e);
                proof {
                    assert(self.edges@[before.len() as int] == oe[i]);
                    assert forall|k: int| 0 <= k < i + 1 && (#[trigger] oe[k]).source@ != id@ && oe[k].target@ != id@
                        implies self.edges@.contains(oe[k]) by {
                        if k < i {
                            let t = choose|t: int| 0 <= t < before.len() && before[t] == oe[k];
                            assert(self.edges@[t] == before[t]);
                        }
                    }
                    assert forall|k: int| 0 <= k < self.edges@.len() implies {
                        &&& has_record_id(recs, (#[trigger] self.edges@[k]).source@)
                        &&& has_record_id(recs, self.edges@[k].target@)
                        &&& self.edges@[k].strength <= UNIT
                    } by {
                        if k < before.len() {
                            assert(self.edges@[k] == before[k]);
                        }
                    }
                }
            }
            proof {
                i = i + 1;
                assert(rest@ =~= oe.subrange(i, oe.len() as int));
            }
        }
        existed
    }

    /// Notes every returned memory as accessed at `now`.
    pub fn touch_results(&mut self, results: &Vec<RecallResult>, now: u64)
        requires
            old(self).wf(),
        ensures
            final(self).wf(),
            final(self).library == old(self).library,
            final(self).edges == old(self).edges,
            final(self).queue == old(self).queue,
            final(self).store.dim == old(self).store.dim,
            final(self).store.records@.len() == old(self).store.records@.len(),
            forall|j: int| 0 <= j < old(self).store.records@.len() ==>
                #[trigger] final(self).store.records@[j] == touched_record(old(self).store.records@[j], result_ids(results@), now),
    {
        let ghost o = self.store.records@;
        let mut i: usize = 0;
        while i < results.len()
            invariant
                i <= results@.len(),
                self.wf(),
                self.library == old(self).library,
                self.edges == old(self).edges,
                self.queue == old(self).queue,
                self.store.dim == old(self).store.dim,
                o == old(self).store.records@,
                self.store.records@.len() == o.len(),
                forall|j: int| 0 <= j < o.len() ==>
                    #[trigger] self.store.records@[j] == touched_record(o[j], result_ids(results@.subrange(0, i as int)), now),
            decreases results.len() - i,
        {
            let ghost before = self.store.records@;
            let _ = self.store.mark_accessed(results[i].id.as_str(), now);
            proof {
                lemma_same_ids_keep_edges(self.edges@, before, self.store.records@);
                let ids_next = result_ids(results@.subrange(0, i + 1));
                let ids_prev = result_ids(results@.subrange(0, i as int));
                assert(ids_next =~= ids_prev.push(results@[i as int].id@));
                assert forall|j: int| 0 <= j < o.len() implies
                    #[trigger] self.store.records@[j] == touched_record(o[j], ids_next, now) by {
                    assert(before[j] == touched_record(o[j], ids_prev, now));
                    if ids_prev.contains(o[j].id@) {
                        assert(ids_next.contains(o[j].id@)) by {
                            let t = choose|t: int| 0 <= t < ids_prev.len() && ids_prev[t] == o[j].id@;
                            assert(ids_next[t] == o[j].id@);
                        }
                    } else if o[j].id@ == results@[i as int].id@ {
                        assert(ids_next[i as int] == o[j].id@);
                    } else {
                        assert(!ids_next.contains(o[j].id@)) by {
                            if ids_next.contains(o[j].id@) {
                                let t = choose|t: int| 0 <= t < ids_next.len() && ids_next[t] == o[j].id@;
                                if t < i {
                                    assert(ids_prev[t] == o[j].id@);
                                }
                            }
                        }
                    }
                }
            }
            i = i + 1;
        }
        proof {
            assert(results@.subrange(0, results@.len() as int) =~= results@);
        }
    }

    /// Stops the coordinator's work: the evaluations still queued are handed
    /// back, oldest first, and the queue is left empty.
    pub fn shutdown_workers(&mut self) -> (r: Vec<PendingEvaluation>)
        requires
            old(self).wf(),
        ensures
            final(self).wf(),
            final(self).library == old(self).library,
            final(self).store == old(self).store,
            final(self).edges == old(self).edges,
            r@ == old(self).queue.items@,
            final(self).queue.items@.len() == 0,
    {
        let n = self.queue.items.len();
        let r = self.queue.take_batch(n);
        proof {
            assert(old(self).queue.items@.subrange(0, n as int) =~= old(self).queue.items@);
        }
        r
    }

    /// A coordinator for an empty library with embeddings of `dim` components.
    pub fn new(library: String, dim: usize) -> (r: MemoryCoordinator)
        ensures
            r.wf(),
            r.library@ == library@,
            r.store.dim == dim,
            r.store.records@.len() == 0,
            r.edges@.len() == 0,
    {
        MemoryCoordinator {
            library,
            store: LibraryStore::new(dim),
            edges: Vec::new(),
            queue: EvaluationQueue::new(EVAL_QUEUE_CAPACITY),
        }
    }

    /// Stores a memory (deduplicated by the hash of its content) under a fresh
    /// id when it is new, and queues it for evaluation. Empty content is
    /// `InvalidInput`.
    pub fn add_memory(
        &mut self,
        content: String,
        memory_type: MemoryType,
        embedding: Vec<i32>,
        now: u64,
    ) -> (r: Result<MemoryRecord, MemoryError>)
        requires
            old(self).wf(),
        ensures
            final(self).wf(),
            final(self).library == old(self).library,
            final(self).edges == old(self).edges,
            final(self).store.dim == old(self).store.dim,
            content@.len() == 0 ==> (r matches Err(e) && e.kind == ErrorKind::InvalidInput),
            embedding@.len() != old(self).store.dim ==> (r matches Err(e) && e.kind == ErrorKind::InvalidInput),
            content@.len() > 0 && embedding@.len() == old(self).store.dim
                && (has_hash(old(self).store.records@, hash_of_text(content@)) || old(self).store.records@.len() == 0)
                ==> r is Ok,
            r is Err ==> content@.len() == 0 || embedding@.len() != old(self).store.dim
                || (!has_hash(old(self).store.records@, hash_of_text(content@)) && old(self).store.records@.len() > 0),
            r is Err ==> final(self).store.records@ == old(self).store.records@,
            r is Ok ==> hash_count(final(self).store.records@, hash_of_text(content@)) == 1,
            r matches Ok(rec) ==> rec.content_hash == hash_of_text(content@) && exists|m: NewMemory| {
                &&& m.content@ == content@
                &&& m.content_hash == hash_of_text(content@)
                &&& m.memory_type == memory_type
                &&& m.embedding@ == embedding@
                &&& upserted(old(self).store.records@, m, now, final(self).store.records@, rec)
            },
    {
        if content.as_str().is_empty() {
            return Err(MemoryError::new(ErrorKind::InvalidInput, "content must not be empty".to_string()));
        }
        let hash = content_hash(content.as_str());
        let id = new_uuid();
        let m = NewMemory { id, content, content_hash: hash, memory_type, embedding };
        let ghost mg = m;
        match self.store.upsert(m, now) {
            Ok(rec) => {
                let _queued = self.queue.enqueue(rec.id.clone(), rec.content.clone());
                proof {
                    assert(mg.content@ == content@ && mg.content_hash == hash);
                    assert(upserted(old(self).store.records@, mg, now, self.store.records@, rec));
                    crate::store::lemma_upsert_leaves_one_record(old(self).store.records@, mg, now, self.store.records@, rec);
                }
                Ok(rec)
            },
            Err(e) => Err(e),
        }
    }

    /// The candidates behind `hits`, in hit order: each hit whose memory is
    /// stored, skipping repeated ids, with that memory's id, content, creation
    /// time and importance and the hit's similarity.
    pub fn candidates(&self, hits: &Vec<SearchHit>) -> (r: Vec<Candidate>)
        requires
            self.wf(),
        ensures
            r@ == candidates_of(hits@, self.store.records@),
    {
        let ghost recs = self.store.records@;
        let mut r: Vec<Candidate> = Vec::new();
        let mut i: usize = 0;
        while i < hits.len()
            invariant
                i <= hits@.len(),
                self.wf(),
                recs == self.store.records@,
                r@ == candidates_of(hits@.subrange(0, i as int), recs),
            decreases hits.len() - i,
        {
            let ghost pre = hits@.subrange(0, i + 1);
            proof {
                assert(pre.drop_last() =~= hits@.subrange(0, i as int));
                assert(pre.last() == hits@[i as int]);
            }
            let seen = seen_id(hits, i, &hits[i].id);
            match self.store.find_id(hits[i].id.as_str()) {
                Some(j) => {
                    if !seen {
                        let s = &self.store.records[j];
                        let c = Candidate {
                            id: s.id.clone(),
                            content: s.content.clone(),
                            created_at: s.created_at,
                            similarity: hits[i].similarity,
                            importance: s.importance,
                        };
                        proof {
                            lemma_record_index(recs, hits@[i as int].id@, j as int);
                            assert(c == hit_candidate(hits@[i as int], recs));
                        }
                        r.push(c);
                    }
                },
                None => {},
            }
            i = i + 1;
        }
        proof {
            assert(hits@.subrange(0, hits@.len() as int) =~= hits@);
        }
        r
    }

    /// Answers a search: the stored memories among `hits`, ranked, the best
    /// `limit` of them. A limit of zero answers nothing.
    pub fn search_memories(&self, hits: &Vec<SearchHit>, limit: usize) -> (r: Vec<RecallResult>)
        requires
            self.wf(),
        ensures
            ranked_top(candidates_of(hits@, self.store.records@), self.edges@, limit, r@),
            r@.len() <= limit,
            r@.len() <= self.store.records@.len(),
            self.store.records@.len() == 0 ==> r@.len() == 0,
            forall|i: int| 0 <= i < r@.len() ==> has_record_id(self.store.records@, (#[trigger] r@[i]).id@),
    {
        let cands = self.candidates(hits);
        let r = rank_candidates(&cands, &self.edges, limit);
        proof {
            lemma_candidates_stored(hits@, self.store.records@);
            lemma_candidates_bounded(hits@, self.store.records@);
            let full = choose|full: Seq<crate::ranking::RankKey>| {
                &&& full.to_multiset() == crate::ranking::scored_all(self.edges@, cands@).to_multiset()
                &&& vstd::relations::sorted_by(full, crate::ranking::rank_order())
                &&& forall|i: int| 0 <= i < r@.len() ==> crate::ranking::result_key(#[trigger] r@[i]) == full[i]
            };
            let all = crate::ranking::scored_all(self.edges@, cands@);
            assert forall|i: int| 0 <= i < r@.len() implies has_record_id(self.store.records@, (#[trigger] r@[i]).id@) by {
                vstd::seq_lib::to_multiset_len(full);
                vstd::seq_lib::to_multiset_len(all);
                assert(full.contains(full[i]));
                vstd::seq_lib::to_multiset_contains(full, full[i]);
                vstd::seq_lib::to_multiset_contains(all, full[i]);
                let k = choose|k: int| 0 <= k < all.len() && all[k] == full[i];
                assert(all[k].0 == cands@[k].id@);
                assert(has_record_id(self.store.records@, cands@[k].id@));
            }
            if self.store.records@.len() == 0 {
                if cands@.len() > 0 {
                    assert(has_record_id(self.store.records@, cands@[0].id@));
                }
            }
        }
        r
    }
}

/// The coordinators, one per library name, in order of first access.
pub struct CoordinatorPool {
    /// Embedding dimension shared by every library.
    pub dim: usize,
    pub coordinators: Vec<MemoryCoordinator>,
}

/// No two coordinators serve the same library.
pub open spec fn names_unique(c: Seq<MemoryCoordinator>) -> bool {
    forall|i: int, j: int| 0 <= i < c.len() && 0 <= j < c.len() && i != j ==>
        (#[trigger] c[i]).library@ != (#[trigger] c[j]).library@
}

/// Some coordinator serves library `name`.
pub open spec fn serves(c: Seq<MemoryCoordinator>, name: Seq<char>) -> bool {
    exists|i: int| 0 <= i < c.len() && (#[trigger] c[i]).library@ == name
}

/// The memories that library `name` holds in `c`; none when it is not open.
pub open spec fn library_records(c: Seq<MemoryCoordinator>, name: Seq<char>) -> Seq<MemoryRecord> {
    if serves(c, name) {
        c[choose|k: int| 0 <= k < c.len() && (#[trigger] c[k]).library@ == name].store.records@
    } else {
        Seq::<MemoryRecord>::empty()
    }
}

proof fn lemma_library_records_at(c: Seq<MemoryCoordinator>, name: Seq<char>, i: int)
    requires
        names_unique(c),
        0 <= i < c.len(),
        c[i].library@ == name,
    ensures
        library_records(c, name) == c[i].store.records@,
{
    assert(serves(c, name));
    let k = choose|k: int| 0 <= k < c.len() && (#[trigger] c[k]).library@ == name;
    if k != i {
        assert(c[k].library@ != c[i].library@);
    }
}

/// The evaluations queued in `c`, coordinator by coordinator.
pub open spec fn pending_all(c: Seq<MemoryCoordinator>) -> Seq<PendingEvaluation>
    decreases c.len(),
{
    if c.len() == 0 {
        Seq::<PendingEvaluation>::empty()
    } else {
        pending_all(c.drop_last()) + c.last().queue.items@
    }
}

/// `n` is `o` with at most the coordinator of library `name` changed.
pub open spec fn only_library_changed(o: Seq<MemoryCoordinator>, n: Seq<MemoryCoordinator>, name: Seq<char>) -> bool {
    &&& o.len() <= n.len()
    &&& forall|i: int| 0 <= i < o.len() ==> (#[trigger] n[i]).library == o[i].library
    &&& forall|i: int| 0 <= i < o.len() && o[i].library@ != name ==> #[trigger] n[i] == o[i]
    &&& forall|i: int| o.len() <= i < n.len() ==> (#[trigger] n[i]).library@ == name
}

impl CoordinatorPool {
    /// One coordinator per library, each well formed, with a valid name.
    pub open spec fn wf(&self) -> bool {
        &&& names_unique(self.coordinators@)
        &&& forall|i: int| 0 <= i < self.coordinators@.len() ==> {
            &&& (#[trigger] self.coordinators@[i]).wf()
            &&& valid_library_name(self.coordinators@[i].library@)
            &&& self.coordinators@[i].store.dim == self.dim
        }
    }

    /// An empty pool for embeddings of `dim` components.
    pub fn new(dim: usize) -> (r: CoordinatorPool)
        ensures
            r.wf(),
            r.dim == dim,
            r.coordinators@.len() == 0,
    {
        CoordinatorPool { dim, coordinators: Vec::new() }
    }

    /// The libraries in a directory whose entries are `files`: the stems of
    /// the `.db` entries, sorted by name.
    pub fn list_libraries(&self, files: &Vec<String>) -> (r: Vec<String>)
        ensures
            crate::library::views(r@) == crate::library::library_listing(crate::library::views(files@)),
    {
        crate::library::list_library_names(files)
    }

    /// Number of open libraries.
    pub fn pool_size(&self) -> (r: usize)
        ensures
            r == self.coordinators@.len(),
    {
        self.coordinators.len()
    }

    /// Position of the coordinator of library `name`.
    pub fn find(&self, name: &str) -> (r: Option<usize>)
        ensures
            r is None <==> !serves(self.coordinators@, name@),
            r matches Some(i) ==> i < self.coordinators@.len() && self.coordinators@[i as int].library@ == name@,
    {
        let key = name.to_owned();
        let mut i: usize = 0;
        while i < self.coordinators.len()
            invariant
                key@ == name@,
                i <= self.coordinators@.len(),
                forall|j: int| 0 <= j < i ==> (#[trigger] self.coordinators@[j]).library@ != name@,
            decreases self.coordinators.len() - i,
        {
            if self.coordinators[i].library == key {
                return Some(i);
            }
            i = i + 1;
        }
        None
    }

    /// The coordinator of library `name`, opened on first access: returns its
    /// position. A second call for the same name finds the same coordinator
    /// and opens none. An invalid name is `InvalidInput`.
    pub fn get_coordinator(&mut self, name: &str) -> (r: Result<usize, MemoryError>)
        requires
            old(self).wf(),
        ensures
            final(self).wf(),
            final(self).dim == old(self).dim,
            r is Err <==> !valid_library_name(name@),
            r matches Err(e) ==> e.kind == ErrorKind::InvalidInput && final(self).coordinators@ == old(self).coordinators@,
            r matches Ok(i) ==> {
                &&& i < final(self).coordinators@.len()
                &&& final(self).coordinators@[i as int].library@ == name@
                &&& serves(old(self).coordinators@, name@) ==> final(self).coordinators@ == old(self).coordinators@
                &&& !serves(old(self).coordinators@, name@) ==> {
                    &&& final(self).coordinators@.drop_last() == old(self).coordinators@
                    &&& i == old(self).coordinators@.len()
                    &&& final(self).coordinators@[i as int].store.records@.len() == 0
                }
            },
    {
        match validate_library_name(name) {
            Err(e) => return Err(e),
            Ok(()) => {},
        }
        match self.find(name) {
            Some(i) => Ok(i),
            None => {
                let c = MemoryCoordinator::new(name.to_owned(), self.dim);
                let idx = self.coordinators.len();
                let ghost o = self.coordinators@;
                self.coordinators.push(c);
                proof {
                    assert(self.coordinators@.drop_last() =~= o);
                    assert forall|a: int, b: int| 0 <= a < self.coordinators@.len() && 0 <= b < self.coordinators@.len() && a != b implies
                        (#[trigger] self.coordinators@[a]).library@ != (#[trigger] self.coordinators@[b]).library@ by {
                        if a < o.len() && b < o.len() {
                            assert(o[a].library@ != o[b].library@);
                        } else if a < o.len() {
                            assert(o[a].library@ != name@);
                        } else {
                            assert(o[b].library@ != name@);
                        }
                    }
                }
                Ok(idx)
            },
        }
    }

    /// Adds a memory to library `name`, opening it if needed. No other
    /// library changes.
    pub fn add_memory(
        &mut self,
        name: &str,
        content: String,
        memory_type: MemoryType,
        embedding: Vec<i32>,
        now: u64,
    ) -> (r: Result<MemoryRecord, MemoryError>)
        requires
            old(self).wf(),
        ensures
            final(self).wf(),
            final(self).dim == old(self).dim,
            only_library_changed(old(self).coordinators@, final(self).coordinators@, name@),
            !valid_library_name(name@) ==> (r matches Err(e) && e.kind == ErrorKind::InvalidInput),
            valid_library_name(name@) && (content@.len() == 0 || embedding@.len() != old(self).dim)
                ==> (r matches Err(e) && e.kind == ErrorKind::InvalidInput),
            valid_library_name(name@) && content@.len() > 0 && embedding@.len() == old(self).dim
                && (has_hash(library_records(old(self).coordinators@, name@), hash_of_text(content@))
                    || library_records(old(self).coordinators@, name@).len() == 0)
                ==> r is Ok,
            valid_library_name(name@) && r is Err ==> content@.len() == 0 || embedding@.len() != old(self).dim
                || (!has_hash(library_records(old(self).coordinators@, name@), hash_of_text(content@))
                    && library_records(old(self).coordinators@, name@).len() > 0),
            r is Ok ==> serves(final(self).coordinators@, name@)
                && hash_count(library_records(final(self).coordinators@, name@), hash_of_text(content@)) == 1,
            r matches Ok(rec) ==> exists|m: NewMemory| {
                &&& m.content@ == content@
                &&& m.content_hash == hash_of_text(content@)
                &&& m.memory_type == memory_type
                &&& m.embedding@ == embedding@
                &&& upserted(library_records(old(self).coordinators@, name@), m, now,
                    library_records(final(self).coordinators@, name@), rec)
            },
    {
        let i = match self.get_coordinator(name) {
            Err(e) => return Err(e),
            Ok(i) => i,
        };
        let ghost mid = self.coordinators@;
        proof {
            lemma_library_records_at(mid, name@, i as int);
            if !serves(old(self).coordinators@, name@) {
                assert(library_records(old(self).coordinators@, name@) =~= mid[i as int].store.records@);
            }
        }
        let mut c = self.coordinators.remove(i);
        let r = c.add_memory(content, memory_type, embedding, now);
        self.coordinators.insert(i, c);
        proof {
            let n = self.coordinators@;
            assert forall|j: int| 0 <= j < mid.len() && j != i implies #[trigger] n[j] == mid[j] by {
            }
            assert(n[i as int].library == mid[i as int].library);
            assert forall|a: int, b: int| 0 <= a < n.len() && 0 <= b < n.len() && a != b implies
                (#[trigger] n[a]).library@ != (#[trigger] n[b]).library@ by {
                assert(mid[a].library@ != mid[b].library@);
            }
            assert forall|j: int| 0 <= j < n.len() implies {
                &&& (#[trigger] n[j]).wf()
                &&& valid_library_name(n[j].library@)
            } by {
                if j != i {
                    assert(n[j] == mid[j]);
                }
            }
            if r is Ok {
                {
                    let rec = r->Ok_0;
                    let recs = n[i as int].store.records@;
                    let m = choose|m: NewMemory| {
                        &&& m.content@ == content@
                        &&& m.content_hash == hash_of_text(content@)
                        &&& m.memory_type == memory_type
                        &&& m.embedding@ == embedding@
                        &&& upserted(mid[i as int].store.records@, m, now, recs, rec)
                    };
                    crate::store::lemma_upserted_holds_record(mid[i as int].store.records@, m, now, recs, rec);
                }
            }
            assert(names_unique(n));
            lemma_library_records_at(n, name@, i as int);
            assert(serves(n, name@));
        }
        r
    }

    /// Answers `recall` on library `name` from the nearest-neighbour `hits` of
    /// the query: the best `limit` stored memories of that library, ranked.
    /// The library is opened if needed; an invalid name is `InvalidInput`; a
    /// limit of zero answers nothing and changes nothing.
    pub fn recall(&mut self, name: &str, hits: &Vec<SearchHit>, limit: usize) -> (r: Result<Vec<RecallResult>, MemoryError>)
        requires
            old(self).wf(),
        ensures
            final(self).wf(),
            final(self).dim == old(self).dim,
            r is Err <==> !valid_library_name(name@),
            r matches Err(e) ==> e.kind == ErrorKind::InvalidInput,
            limit == 0 ==> final(self).coordinators@ == old(self).coordinators@,
            limit == 0 && r is Ok ==> r->Ok_0@.len() == 0,
            only_library_changed(old(self).coordinators@, final(self).coordinators@, name@),
            forall|i: int| 0 <= i < old(self).coordinators@.len() ==> #[trigger] final(self).coordinators@[i] == old(self).coordinators@[i],
            r matches Ok(v) ==> {
                &&& v@.len() <= limit
                &&& limit > 0 ==> exists|k: int| {
                    &&& 0 <= k < final(self).coordinators@.len()
                    &&& (#[trigger] final(self).coordinators@[k]).library@ == name@
                    &&& final(self).coordinators@[k].store.records@ == library_records(final(self).coordinators@, name@)
                    &&& ranked_top(candidates_of(hits@, final(self).coordinators@[k].store.records@),
                        final(self).coordinators@[k].edges@, limit, v@)
                    &&& v@.len() <= final(self).coordinators@[k].store.records@.len()
                    &&& forall|i: int| 0 <= i < v@.len() ==> has_record_id(final(self).coordinators@[k].store.records@, (#[trigger] v@[i]).id@)
                }
            },
    {
        if limit == 0 {
            return match validate_library_name(name) {
                Err(e) => Err(e),
                Ok(()) => Ok(Vec::new()),
            };
        }
        let i = match self.get_coordinator(name) {
            Err(e) => return Err(e),
            Ok(i) => i,
        };
        let v = self.coordinators[i].search_memories(hits, limit);
        proof {
            assert(self.coordinators@[i as int].library@ == name@);
            lemma_library_records_at(self.coordinators@, name@, i as int);
        }
        Ok(v)
    }

    /// Notes the results of a recall on library `name` as accessed at `now`.
    /// A library that is not open is left alone.
    pub fn touch_recalled(&mut self, name: &str, results: &Vec<RecallResult>, now: u64)
        requires
            old(self).wf(),
        ensures
            final(self).wf(),
            final(self).dim == old(self).dim,
            final(self).coordinators@.len() == old(self).coordinators@.len(),
            only_library_changed(old(self).coordinators@, final(self).coordinators@, name@),
            forall|k: int| 0 <= k < old(self).coordinators@.len() && (#[trigger] old(self).coordinators@[k]).library@ == name@ ==> {
                let o = old(self).coordinators@[k];
                let n = final(self).coordinators@[k];
                &&& n.edges == o.edges
                &&& n.queue == o.queue
                &&& n.store.records@.len() == o.store.records@.len()
                &&& forall|j: int| 0 <= j < o.store.records@.len() ==>
                    #[trigger] n.store.records@[j] == touched_record(o.store.records@[j], result_ids(results@), now)
            },
    {
        match self.find(name) {
            None => {},
            Some(i) => {
                let ghost mid = self.coordinators@;
                let mut c = self.coordinators.remove(i);
                c.touch_results(results, now);
                self.coordinators.insert(i, c);
                proof {
                    let n = self.coordinators@;
                    assert forall|k: int| 0 <= k < mid.len() && (#[trigger] mid[k]).library@ == name@ implies k == i by {
                        if k != i {
                            assert(mid[k].library@ != mid[i as int].library@);
                        }
                    }
                    assert forall|j: int| 0 <= j < mid.len() && j != i implies #[trigger] n[j] == mid[j] by {
                    }
                    assert forall|a: int, b: int| 0 <= a < n.len() && 0 <= b < n.len() && a != b implies
                        (#[trigger] n[a]).library@ != (#[trigger] n[b]).library@ by {
                        assert(mid[a].library@ != mid[b].library@);
                    }
                    assert forall|j: int| 0 <= j < n.len() implies {
                        &&& (#[trigger] n[j]).wf()
                        &&& valid_library_name(n[j].library@)
                    } by {
                        if j != i {
                            assert(n[j] == mid[j]);
                        }
                    }
                }
            },
        }
    }

    /// Shuts every library down: each coordinator stops its work and hands
    /// back the evaluations still queued, which are returned in pool order
    /// for the caller to flush; the pool is left empty.
    pub fn shutdown_all(&mut self) -> (r: Vec<PendingEvaluation>)
        requires
            old(self).wf(),
        ensures
            final(self).wf(),
            final(self).dim == old(self).dim,
            r@ == pending_all(old(self).coordinators@),
            final(self).coordinators@.len() == 0,
    {
        let ghost olds = self.coordinators@;
        let mut out: Vec<PendingEvaluation> = Vec::new();
        let ghost mut i: int = 0;
        proof {
            assert(self.coordinators@ =~= olds.subrange(0, olds.len() as int));
            assert(olds.subrange(0, 0) =~= Seq::<MemoryCoordinator>::empty());
        }
        while self.coordinators.len() > 0
            invariant
                0 <= i <= olds.len(),
                self.coordinators@ == olds.subrange(i, olds.len() as int),
                out@ == pending_all(olds.subrange(0, i)),
                forall|k: int| 0 <= k < olds.len() ==> (#[trigger] olds[k]).wf(),
                self.dim == old(self).dim,
            decreases self.coordinators.len(),
        {
            let mut c = self.coordinators.remove(0);
            proof {
                assert(c == olds[i]);
            }
            let mut pending = c.shutdown_workers();
            out.append(&mut pending);
            proof {
                assert(olds.subrange(0, i + 1).drop_last() =~= olds.subrange(0, i));
                assert(olds.subrange(0, i + 1).last() == olds[i]);
                i = i + 1;
                assert(self.coordinators@ =~= olds.subrange(i, olds.len() as int));
            }
        }
        proof {
            assert(olds.subrange(0, i) =~= olds);
        }
        out
    }
}

/// Each library has at most one coordinator in a pool.
pub proof fn lemma_one_coordinator_per_library(pool: CoordinatorPool, i: int, j: int)
    requires
        pool.wf(),
        0 <= i < pool.coordinators@.len(),
        0 <= j < pool.coordinators@.len(),
        pool.coordinators@[i].library@ == pool.coordinators@[j].library@,
    ensures
        i == j,
{
}

/// Work on one library leaves every other library as it was, so a memory
/// stored in one library never reaches a search of another.
pub proof fn lemma_libraries_isolated(
    o: Seq<MemoryCoordinator>,
    n: Seq<MemoryCoordinator>,
    changed: Seq<char>,
    k: int,
)
    requires
        only_library_changed(o, n, changed),
        0 <= k < o.len(),
        o[k].library@ != changed,
    ensures
        n[k] == o[k],
        n[k].store.records@ == o[k].store.records@,
{
}

} // verus!
