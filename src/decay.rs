//! Temporal decay of importance and write-back of evaluator scores.

use vstd::prelude::*;
use crate::error::{ErrorKind, MemoryError};
use crate::store::{keys_unique, record_wf, LibraryStore, MemoryRecord, UNIT};

verus! {

/// Importance never decays below this floor (0.05).
pub const DECAY_FLOOR: u32 = 50_000;

/// Importance after decay by `factor` (the fraction `exp(-λ·Δt)` in
/// millionths): the product, but not below the floor.
pub open spec fn decayed(importance: u32, factor: u32) -> u32 {
    let v = (importance as int) * (factor as int) / (UNIT as int);
    if v < DECAY_FLOOR { DECAY_FLOOR } else { v as u32 }
}

/// One decay step for one importance value.
pub fn decay_importance(importance: u32, factor: u32) -> (r: u32)
    requires
        factor <= UNIT,
        importance <= UNIT,
    ensures
        r == decayed(importance, factor),
        r <= UNIT,
{
    assert((importance as u64) * (factor as u64) <= 1_000_000u64 * 1_000_000u64) by (nonlinear_arith)
        requires importance <= 1_000_000, factor <= 1_000_000;
    assert((importance as u64) * (factor as u64) / 1_000_000 <= importance as u64) by (nonlinear_arith)
        requires factor <= 1_000_000;
    let v: u64 = (importance as u64) * (factor as u64) / (UNIT as u64);
    if v < DECAY_FLOOR as u64 { DECAY_FLOOR } else { v as u32 }
}

/// Decay never raises an importance that is at or above the floor, and never
/// takes it below the floor.
pub proof fn lemma_decay_monotonic(importance: u32, factor: u32)
    requires
        factor <= UNIT,
        DECAY_FLOOR <= importance <= UNIT,
    ensures
        DECAY_FLOOR <= decayed(importance, factor) <= importance,
{
    assert((importance as int) * (factor as int) / (UNIT as int) <= importance as int) by (nonlinear_arith)
        requires factor <= 1_000_000, importance >= 0;
}

/// `n` is `o` with each importance decayed by `factor` and nothing else changed.
pub open spec fn decayed_all(o: Seq<MemoryRecord>, n: Seq<MemoryRecord>, factor: u32) -> bool {
    &&& n.len() == o.len()
    &&& forall|i: int| 0 <= i < o.len() ==> {
        &&& (#[trigger] n[i]).importance == decayed(o[i].importance, factor)
        &&& n[i].id == o[i].id
        &&& n[i].content == o[i].content
        &&& n[i].content_hash == o[i].content_hash
        &&& n[i].memory_type == o[i].memory_type
        &&& n[i].created_at == o[i].created_at
        &&& n[i].updated_at == o[i].updated_at
        &&& n[i].last_accessed_at == o[i].last_accessed_at
        &&& n[i].embedding == o[i].embedding
    }
}

/// Applies one decay sweep to every memory of a library.
pub fn apply_decay(store: &mut LibraryStore, factor: u32)
    requires
        old(store).wf(),
        factor <= UNIT,
    ensures
        final(store).wf(),
        final(store).dim == old(store).dim,
        decayed_all(old(store).records@, final(store).records@, factor),
{
    let ghost o = store.records@;
    let mut rest: Vec<MemoryRecord> = Vec::new();
    std::mem::swap(&mut rest, &mut store.records);
    let mut out: Vec<MemoryRecord> = Vec::new();
    let ghost mut i: int = 0;
    proof {
        assert(rest@ =~= o.subrange(0, o.len() as int));
    }
    while rest.len() > 0
        invariant
            0 <= i <= o.len(),
            factor <= UNIT,
            rest@ == o.subrange(i, o.len() as int),
            out@.len() == i,
            forall|j: int| 0 <= j < i ==> (#[trigger] out@[j]).importance <= UNIT,
            decayed_all(o.subrange(0, i), out@, factor),
            forall|j: int| 0 <= j < o.len() ==> record_wf(#[trigger] o[j], store.dim),
        decreases rest.len(),
    {
        let r = rest.remove(0);
        proof {
            assert(r == o[i]);
        }
        let imp = decay_importance(r.importance, factor);
        out.push(MemoryRecord { importance: imp, ..r });
        proof {
            i = i + 1;
            assert(rest@ =~= o.subrange(i, o.len() as int));
        }
    }
    proof {
        assert(o.subrange(0, i) =~= o);
        let n = out@;
        assert forall|a: int, b: int| 0 <= a < n.len() && 0 <= b < n.len() && a != b implies {
            &&& (#[trigger] n[a]).content_hash != (#[trigger] n[b]).content_hash
            &&& n[a].id@ != n[b].id@
        } by {
            assert(o[a].content_hash != o[b].content_hash);
        }
        assert forall|j: int| 0 <= j < n.len() implies record_wf(#[trigger] n[j], store.dim) by {
            assert(record_wf(o[j], store.dim));
        }
    }
    store.records = out;
}

} // verus!
