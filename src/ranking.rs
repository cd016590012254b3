//! Hybrid ranking of search candidates: vector similarity times importance,
//! raised by entanglement with other candidates. Fractions are in millionths.

use vstd::prelude::*;
use vstd::relations::sorted_by;
use crate::order::{lemma_le_connected, lemma_le_transitive, name_le, name_leq};
use crate::store::UNIT;

verus! {

/// Kind of a relationship edge. Only `Entangled` edges raise importance.
#[derive(Debug, Clone, Copy, PartialEq, Eq, Structural)]
pub enum EdgeKind {
    Entangled,
    Caused,
}

/// A stored edge between two memories.
#[derive(Debug)]
pub struct EntanglementEdge {
    pub source: String,
    pub target: String,
    pub kind: EdgeKind,
    /// Strength in millionths.
    pub strength: u32,
}

/// A nearest-neighbour hit with what the store knows of it.
#[derive(Debug)]
pub struct Candidate {
    pub id: String,
    pub content: String,
    pub created_at: u64,
    /// Raw cosine similarity in millionths.
    pub similarity: u32,
    /// Stored importance in millionths.
    pub importance: u32,
}

/// One ranked search result.
#[derive(Debug)]
pub struct RecallResult {
    pub id: String,
    pub content: String,
    pub created_at: u64,
    /// Raw similarity, at most `UNIT`.
    pub similarity: u32,
    /// Importance after the entanglement boost, at most `UNIT`.
    pub importance: u32,
    /// `similarity × importance`, in millionths.
    pub score: u32,
    /// Position, from 1.
    pub rank: usize,
}

/// Some candidate has id `id`.
pub open spec fn in_candidates(cands: Seq<Candidate>, id: Seq<char>) -> bool {
    exists|i: int| 0 <= i < cands.len() && (#[trigger] cands[i]).id@ == id
}

/// What edge `e` adds to the boost of candidate `c`: its strength when it is
/// an entangled edge from or to `c` whose other end is a candidate.
pub open spec fn edge_share(e: EntanglementEdge, c: Seq<char>, cands: Seq<Candidate>) -> nat {
    if e.kind == EdgeKind::Entangled && (
        (e.source@ == c && in_candidates(cands, e.target@))
        || (e.target@ == c && in_candidates(cands, e.source@))) {
        e.strength as nat
    } else {
        0
    }
}

/// The sum of the shares of `edges` for `c`.
pub open spec fn boost_sum(edges: Seq<EntanglementEdge>, c: Seq<char>, cands: Seq<Candidate>) -> nat
    decreases edges.len(),
{
    if edges.len() == 0 {
        0
    } else {
        boost_sum(edges.drop_last(), c, cands) + edge_share(edges.last(), c, cands)
    }
}

/// The boost of `c`: the sum of its shares, capped at `UNIT`.
pub open spec fn boost_of(edges: Seq<EntanglementEdge>, c: Seq<char>, cands: Seq<Candidate>) -> u32 {
    if boost_sum(edges, c, cands) >= UNIT { UNIT } else { boost_sum(edges, c, cands) as u32 }
}

/// Importance raised by a quarter of the boost, capped at `UNIT`.
pub open spec fn effective_importance(importance: u32, boost: u32) -> u32 {
    let v = (importance as int) * (UNIT as int + (boost as int) / 4) / (UNIT as int);
    if v >= UNIT { UNIT } else { v as u32 }
}

/// Similarity capped at `UNIT`.
pub open spec fn capped(x: u32) -> u32 {
    if x >= UNIT { UNIT } else { x }
}

/// The score: capped similarity times effective importance.
pub open spec fn fused_score(similarity: u32, importance: u32) -> u32 {
    ((capped(similarity) as int) * (capped(importance) as int) / (UNIT as int)) as u32
}

/// The id of one candidate in a list of candidates.
fn same_id(a: &String, b: &String) -> (r: bool)
    ensures
        r == (a@ == b@),
{
    *a == *b
}

/// Whether some candidate has id `id`.
pub fn has_candidate(cands: &Vec<Candidate>, id: &String) -> (r: bool)
    ensures
        r == in_candidates(cands@, id@),
{
    let mut i: usize = 0;
    while i < cands.len()
        invariant
            i <= cands.len(),
            forall|j: int| 0 <= j < i ==> (#[trigger] cands@[j]).id@ != id@,
        decreases cands.len() - i,
    {
        if same_id(&cands[i].id, id) {
            return true;
        }
        i = i + 1;
    }
    false
}

/// The entanglement boost of candidate `c` among `cands`.
pub fn entanglement_boost(edges: &Vec<EntanglementEdge>, c: &String, cands: &Vec<Candidate>) -> (r: u32)
    ensures
        r == boost_of(edges@, c@, cands@),
        r <= UNIT,
{
    let mut acc: u32 = 0;
    let mut i: usize = 0;
    while i < edges.len()
        invariant
            i <= edges.len(),
            acc == boost_of(edges@.subrange(0, i as int), c@, cands@),
        decreases edges.len() - i,
    {
        let e = &edges[i];
        let share: u32 = if e.kind == EdgeKind::Entangled && (
            (same_id(&e.source, c) && has_candidate(cands, &e.target))
            || (same_id(&e.target, c) && has_candidate(cands, &e.source))) {
            e.strength
        } else {
            0
        };
        proof {
            let pre = edges@.subrange(0, i + 1);
            assert(pre.drop_last() =~= edges@.subrange(0, i as int));
            assert(pre.last() == edges@[i as int]);
            assert(share as nat == edge_share(edges@[i as int], c@, cands@));
        }
        let sum: u64 = acc as u64 + share as u64;
        acc = if sum >= UNIT as u64 { UNIT } else { sum as u32 };
        i = i + 1;
    }
    proof {
        assert(edges@.subrange(0, edges.len() as int) =~= edges@);
    }
    acc
}

/// Effective importance of `importance` under `boost`.
pub fn boosted_importance(importance: u32, boost: u32) -> (r: u32)
    requires
        boost <= UNIT,
    ensures
        r == effective_importance(importance, boost),
        r <= UNIT,
{
    let factor: u64 = UNIT as u64 + (boost / 4) as u64;
    assert((importance as u64) * factor <= 0xffff_ffffu64 * 1_250_000u64) by (nonlinear_arith)
        requires factor <= 1_250_000, importance <= 0xffff_ffff;
    let v: u64 = (importance as u64) * factor / (UNIT as u64);
    if v >= UNIT as u64 { UNIT } else { v as u32 }
}

/// Score of a candidate of `similarity` with effective importance `importance`.
pub fn score(similarity: u32, importance: u32) -> (r: u32)
    ensures
        r == fused_score(similarity, importance),
        r <= UNIT,
{
    let s: u64 = if similarity >= UNIT { UNIT as u64 } else { similarity as u64 };
    let m: u64 = if importance >= UNIT { UNIT as u64 } else { importance as u64 };
    assert(s * m <= 1_000_000u64 * 1_000_000u64) by (nonlinear_arith)
        requires s <= 1_000_000, m <= 1_000_000;
    assert(s * m / 1_000_000 <= 1_000_000) by (nonlinear_arith)
        requires s <= 1_000_000, m <= 1_000_000;
    (s * m / (UNIT as u64)) as u32
}

/// What a ranked result says of a memory: id, content, creation time,
/// similarity, effective importance and score.
pub type RankKey = (Seq<char>, Seq<char>, u64, u32, u32, u32);

/// The key of candidate `c` among `cands` under `edges`.
pub open spec fn scored(c: Candidate, edges: Seq<EntanglementEdge>, cands: Seq<Candidate>) -> RankKey {
    let imp = effective_importance(c.importance, boost_of(edges, c.id@, cands));
    (c.id@, c.content@, c.created_at, capped(c.similarity), imp, fused_score(c.similarity, imp))
}

/// The keys of all candidates.
pub open spec fn scored_all(edges: Seq<EntanglementEdge>, cands: Seq<Candidate>) -> Seq<RankKey> {
    cands.map_values(|c: Candidate| scored(c, edges, cands))
}

/// The key of a result.
pub open spec fn result_key(r: RecallResult) -> RankKey {
    (r.id@, r.content@, r.created_at, r.similarity, r.importance, r.score)
}

/// `a` ranks at or before `b`: higher score first, then newer first, then by id.
pub open spec fn ranks_before(a: RankKey, b: RankKey) -> bool {
    a.5 > b.5 || (a.5 == b.5 && (a.2 > b.2 || (a.2 == b.2 && name_le(a.0, b.0))))
}

/// The ranking order as a relation value.
pub open spec fn rank_order() -> spec_fn(RankKey, RankKey) -> bool {
    |a: RankKey, b: RankKey| ranks_before(a, b)
}

proof fn lemma_rank_connected(a: RankKey, b: RankKey)
    ensures
        ranks_before(a, b) || ranks_before(b, a),
{
    lemma_le_connected(a.0, b.0);
}

proof fn lemma_rank_transitive(a: RankKey, b: RankKey, c: RankKey)
    requires
        ranks_before(a, b),
        ranks_before(b, c),
    ensures
        ranks_before(a, c),
{
    if a.5 == b.5 && b.5 == c.5 && a.2 == b.2 && b.2 == c.2 {
        lemma_le_transitive(a.0, b.0, c.0);
    }
}

/// `r` is the best `k` of `cands` in rank order: as many rows as `k` allows,
/// ranked from 1, fractions within `UNIT`, each score the product of its
/// similarity and importance, scores not increasing, and the rows the first
/// ones of a sorted arrangement of all scored candidates.
pub open spec fn ranked_top(cands: Seq<Candidate>, edges: Seq<EntanglementEdge>, k: usize, r: Seq<RecallResult>) -> bool {
    &&& r.len() == if k <= cands.len() { k as nat } else { cands.len() }
    &&& forall|i: int| 0 <= i < r.len() ==> (#[trigger] r[i]).rank == i + 1
    &&& forall|i: int| 0 <= i < r.len() ==> (#[trigger] r[i]).similarity <= UNIT && r[i].importance <= UNIT
    &&& forall|i: int| 0 <= i < r.len() ==> (#[trigger] r[i]).score == fused_score(r[i].similarity, r[i].importance)
    &&& forall|i: int, j: int| 0 <= i < j < r.len() ==> (#[trigger] r[i]).score >= (#[trigger] r[j]).score
    &&& exists|full: Seq<RankKey>| {
        &&& full.to_multiset() == scored_all(edges, cands).to_multiset()
        &&& sorted_by(full, rank_order())
        &&& forall|i: int| 0 <= i < r.len() ==> result_key(#[trigger] r[i]) == full[i]
    }
}

/// Ranks `cands` and keeps the best `k`: each candidate gets its boost from
/// the entangled edges to other candidates, its effective importance and its
/// score; results come in rank order with ranks counted from 1.
pub fn rank_candidates(cands: &Vec<Candidate>, edges: &Vec<EntanglementEdge>, k: usize) -> (r: Vec<RecallResult>)
    ensures
        ranked_top(cands@, edges@, k, r@),
{
    let ghost all = scored_all(edges@, cands@);
    let mut sorted: Vec<RecallResult> = Vec::new();
    let mut i: usize = 0;
    proof {
        assert(all.subrange(0, 0) =~= Seq::<RankKey>::empty());
        assert(sorted@.map_values(|x: RecallResult| result_key(x)) =~= Seq::<RankKey>::empty());
    }
    while i < cands.len()
        invariant
            i <= cands.len(),
            all == scored_all(edges@, cands@),
            sorted@.map_values(|x: RecallResult| result_key(x)).to_multiset() == all.subrange(0, i as int).to_multiset(),
            sorted_by(sorted@.map_values(|x: RecallResult| result_key(x)), rank_order()),
            forall|j: int| 0 <= j < sorted@.len() ==> (#[trigger] sorted@[j]).similarity <= UNIT && sorted@[j].importance <= UNIT,
            forall|j: int| 0 <= j < sorted@.len() ==> (#[trigger] sorted@[j]).score == fused_score(sorted@[j].similarity, sorted@[j].importance),
        decreases cands.len() - i,
    {
        let c = &cands[i];
        let boost = entanglement_boost(edges, &c.id, cands);
        let imp = boosted_importance(c.importance, boost);
        let sim = if c.similarity >= UNIT { UNIT } else { c.similarity };
        let item = RecallResult {
            id: c.id.clone(),
            content: c.content.clone(),
            created_at: c.created_at,
            similarity: sim,
            importance: imp,
            score: score(c.similarity, imp),
            rank: 0,
        };
        proof {
            assert(result_key(item) == all[i as int]);
        }
        let ghost keys = sorted@.map_values(|x: RecallResult| result_key(x));
        let mut p: usize = 0;
        while p < sorted.len() && (
            sorted[p].score > item.score || (sorted[p].score == item.score && (
                sorted[p].created_at > item.created_at || (sorted[p].created_at == item.created_at
                    && name_leq(sorted[p].id.as_str(), item.id.as_str())))))
            invariant
                p <= sorted@.len(),
                keys == sorted@.map_values(|x: RecallResult| result_key(x)),
                forall|j: int| 0 <= j < p ==> ranks_before(#[trigger] keys[j], result_key(item)),
            decreases sorted.len() - p,
        {
            p = p + 1;
        }
        proof {
            if p < sorted.len() {
                lemma_rank_connected(keys[p as int], result_key(item));
            }
            assert forall|j: int| p <= j < keys.len() implies ranks_before(result_key(item), #[trigger] keys[j]) by {
                if p < j {
                    assert(rank_order()(keys[p as int], keys[j]));
                    lemma_rank_transitive(result_key(item), keys[p as int], keys[j]);
                }
            }
        }
        let ghost before = sorted@;
        sorted.insert(p, item);
        proof {
            let keys2 = sorted@.map_values(|x: RecallResult| result_key(x));
            assert(keys2 =~= keys.insert(p as int, all[i as int]));
            vstd::seq_lib::to_multiset_insert(keys, p as int, all[i as int]);
            assert(all.subrange(0, i as int + 1) =~= all.subrange(0, i as int).push(all[i as int]));
            vstd::seq_lib::to_multiset_build(all.subrange(0, i as int), all[i as int]);
            assert forall|a: int, b: int| 0 <= a < b < keys2.len() implies #[trigger] rank_order()(keys2[a], keys2[b]) by {
                if b < p {
                } else if a < p && b == p {
                } else if a < p {
                    assert(keys2[b] == keys[b - 1]);
                } else if a == p {
                    assert(keys2[b] == keys[b - 1]);
                } else {
                    assert(keys2[a] == keys[a - 1] && keys2[b] == keys[b - 1]);
                }
            }
            assert forall|j: int| 0 <= j < sorted@.len() implies (#[trigger] sorted@[j]).score == fused_score(sorted@[j].similarity, sorted@[j].importance) by {
                if j > p {
                    assert(sorted@[j] == before[j - 1]);
                } else if j < p {
                    assert(sorted@[j] == before[j]);
                }
            }
            assert forall|j: int| 0 <= j < sorted@.len() implies (#[trigger] sorted@[j]).similarity <= UNIT && sorted@[j].importance <= UNIT by {
                if j < p {
                } else if j > p {
                    assert(sorted@[j] == before[j - 1]);
                }
            }
        }
        i = i + 1;
    }
    let ghost sv = sorted@;
    let ghost full = sorted@.map_values(|x: RecallResult| result_key(x));
    proof {
        assert(all.subrange(0, cands.len() as int) =~= all);
        vstd::seq_lib::to_multiset_len(full);
        vstd::seq_lib::to_multiset_len(all);
        assert(sv.len() == cands@.len());
    }
    let n_out: usize = if k <= sorted.len() { k } else { sorted.len() };
    let mut rest = sorted;
    let mut out: Vec<RecallResult> = Vec::new();
    let mut j: usize = 0;
    while j < n_out
        invariant
            n_out <= sv.len(),
            j <= n_out,
            rest@ == sv.subrange(j as int, sv.len() as int),
            out@.len() == j,
            full == sv.map_values(|x: RecallResult| result_key(x)),
            forall|t: int| 0 <= t < sv.len() ==> (#[trigger] sv[t]).similarity <= UNIT && sv[t].importance <= UNIT,
            forall|t: int| 0 <= t < sv.len() ==> (#[trigger] sv[t]).score == fused_score(sv[t].similarity, sv[t].importance),
            forall|t: int| 0 <= t < j ==> {
                &&& result_key(#[trigger] out@[t]) == full[t]
                &&& out@[t].rank == t + 1
                &&& out@[t].similarity <= UNIT
                &&& out@[t].importance <= UNIT
                &&& out@[t].score == fused_score(out@[t].similarity, out@[t].importance)
            },
        decreases n_out - j,
    {
        let x = rest.remove(0);
        proof {
            assert(x == sv[j as int]);
            assert(full[j as int] == result_key(sv[j as int]));
        }
        out.push(RecallResult {
            id: x.id,
            content: x.content,
            created_at: x.created_at,
            similarity: x.similarity,
            importance: x.importance,
            score: x.score,
            rank: j + 1,
        });
        proof {
            assert(rest@ =~= sv.subrange(j + 1, sv.len() as int));
        }
        j = j + 1;
    }
    proof {
        assert forall|a: int, b: int| 0 <= a < b < out@.len() implies (#[trigger] out@[a]).score >= (#[trigger] out@[b]).score by {
            assert(rank_order()(full[a], full[b]));
            assert(result_key(out@[a]) == full[a] && result_key(out@[b]) == full[b]);
        }
    }
    out
}

} // verus!
