//! The queue of memories waiting for an importance evaluation, the checks on
//! the scores that come back, and their write-back.

use vstd::prelude::*;
use crate::error::{ErrorKind, MemoryError};
use crate::store::{has_record_id, record_wf, LibraryStore, MemoryRecord, UNIT};
use crate::text::{decimal, decimal_of};
use vstd::string::StringExecFns;

verus! {

/// Largest number of memories evaluated in one call.
pub const EVAL_BATCH_SIZE: usize = 16;

/// A memory waiting for its evaluation.
#[derive(Debug)]
pub struct PendingEvaluation {
    pub memory_id: String,
    pub content: String,
    /// Failed evaluations of this entry so far.
    pub attempts: u8,
}

/// A bounded queue of pending evaluations, oldest first.
pub struct EvaluationQueue {
    pub capacity: usize,
    pub items: Vec<PendingEvaluation>,
}

/// The queue after `batch` failed: each entry on its first failure goes back
/// at the end with one attempt counted, while there is room; others are dropped.
pub open spec fn requeue_all(items: Seq<PendingEvaluation>, batch: Seq<PendingEvaluation>, capacity: usize) -> Seq<PendingEvaluation>
    decreases batch.len(),
{
    if batch.len() == 0 {
        items
    } else {
        let prev = requeue_all(items, batch.drop_last(), capacity);
        let p = batch.last();
        if p.attempts == 0 && prev.len() < capacity {
            prev.push(PendingEvaluation { attempts: 1, ..p })
        } else {
            prev
        }
    }
}

impl EvaluationQueue {
    /// The queue holds at most `capacity` entries.
    pub open spec fn wf(&self) -> bool {
        self.items@.len() <= self.capacity
    }

    /// An empty queue for at most `capacity` entries.
    pub fn new(capacity: usize) -> (r: EvaluationQueue)
        ensures
            r.wf(),
            r.capacity == capacity,
            r.items@.len() == 0,
    {
        EvaluationQueue { capacity, items: Vec::new() }
    }

    /// Adds a memory for evaluation; a full queue refuses it (backpressure).
    pub fn enqueue(&mut self, memory_id: String, content: String) -> (r: bool)
        requires
            old(self).wf(),
        ensures
            final(self).wf(),
            final(self).capacity == old(self).capacity,
            r == (old(self).items@.len() < old(self).capacity),
            r ==> final(self).items@ == old(self).items@.push(PendingEvaluation { memory_id, content, attempts: 0 }),
            !r ==> final(self).items@ == old(self).items@,
    {
        if self.items.len() < self.capacity {
            self.items.push(PendingEvaluation { memory_id, content, attempts: 0 });
            true
        } else {
            false
        }
    }

    /// Takes the oldest `n` entries (all, if fewer).
    pub fn take_batch(&mut self, n: usize) -> (r: Vec<PendingEvaluation>)
        requires
            old(self).wf(),
        ensures
            final(self).wf(),
            final(self).capacity == old(self).capacity,
            r@.len() == if n <= old(self).items@.len() { n as nat } else { old(self).items@.len() },
            r@ == old(self).items@.subrange(0, r@.len() as int),
            final(self).items@ == old(self).items@.subrange(r@.len() as int, old(self).items@.len() as int),
    {
        let ghost o = self.items@;
        let m: usize = if n <= self.items.len() { n } else { self.items.len() };
        let mut r: Vec<PendingEvaluation> = Vec::new();
        let mut j: usize = 0;
        proof {
            assert(self.items@ =~= o.subrange(0, o.len() as int));
        }
        while j < m
            invariant
                m <= o.len(),
                j <= m,
                self.capacity == old(self).capacity,
                o.len() <= self.capacity,
                r@ == o.subrange(0, j as int),
                self.items@ == o.subrange(j as int, o.len() as int),
            decreases m - j,
        {
            let p = self.items.remove(0);
            r.push(p);
            proof {
                assert(r@ =~= o.subrange(0, j + 1));
                assert(self.items@ =~= o.subrange(j + 1, o.len() as int));
            }
            j = j + 1;
        }
        r
    }

    /// Puts back the entries of a batch whose evaluation failed: each goes
    /// back once, then is dropped. Returns how many were dropped.
    pub fn requeue_failed(&mut self, batch: Vec<PendingEvaluation>) -> (dropped: usize)
        requires
            old(self).wf(),
        ensures
            final(self).wf(),
            final(self).capacity == old(self).capacity,
            final(self).items@ == requeue_all(old(self).items@, batch@, old(self).capacity),
            dropped == old(self).items@.len() + batch@.len() - final(self).items@.len(),
    {
        let ghost o = self.items@;
        let ghost b = batch@;
        let total = batch.len();
        let mut rest = batch;
        let mut dropped: usize = 0;
        let ghost mut i: int = 0;
        proof {
            assert(rest@ =~= b.subrange(0, b.len() as int));
            assert(b.subrange(0, 0) =~= Seq::<PendingEvaluation>::empty());
        }
        while rest.len() > 0
            invariant
                0 <= i <= b.len(),
                rest@ == b.subrange(i, b.len() as int),
                self.items@ == requeue_all(o, b.subrange(0, i), self.capacity),
                self.capacity == old(self).capacity,
                self.items@.len() <= self.capacity,
                dropped == o.len() + i - self.items@.len(),
                self.items@.len() <= o.len() + i,
                self.items@.len() >= o.len(),
                b.len() == total,
            decreases rest.len(),
        {
            let p = rest.remove(0);
            proof {
                assert(b.subrange(0, i + 1).drop_last() =~= b.subrange(0, i));
                assert(b.subrange(0, i + 1).last() == p);
            }
            if p.attempts == 0 && self.items.len() < self.capacity {
                self.items.push(PendingEvaluation { attempts: 1, ..p });
            } else {
                dropped = dropped + 1;
            }
            proof {
                i = i + 1;
                assert(rest@ =~= b.subrange(i, b.len() as int));
            }
        }
        proof {
            assert(b.subrange(0, i) =~= b);
        }
        dropped
    }
}

/// The opening lines of a batch evaluation prompt.
pub open spec fn prompt_header() -> Seq<char> {
    "Evaluate the quality of each memory below on a scale from 0.0 to 1.0.\nConsider clarity, relevance, and completeness.\nReturn ONLY a JSON array of scores in the exact order: [0.8, 0.6, 0.9, ...]\n\n"@
}

/// The closing line of a batch evaluation prompt.
pub open spec fn prompt_footer() -> Seq<char> {
    "\nReturn scores as JSON array with one score per memory: [score1, score2, ...]"@
}

/// The numbered entries of `items`, each `Memory <n>:` and its content.
pub open spec fn prompt_entries(items: Seq<PendingEvaluation>) -> Seq<char>
    decreases items.len(),
{
    if items.len() == 0 {
        Seq::<char>::empty()
    } else {
        prompt_entries(items.drop_last()) + "Memory "@ + decimal_of(items.len()) + ":\n"@
            + items.last().content@ + "\n\n"@
    }
}

/// The prompt that asks for one score per memory of `items`, in order.
pub fn batch_prompt(items: &Vec<PendingEvaluation>) -> (r: String)
    ensures
        r@ == prompt_header() + prompt_entries(items@) + prompt_footer(),
{
    let mut r = String::from_str("Evaluate the quality of each memory below on a scale from 0.0 to 1.0.\nConsider clarity, relevance, and completeness.\nReturn ONLY a JSON array of scores in the exact order: [0.8, 0.6, 0.9, ...]\n\n");
    let mut i: usize = 0;
    while i < items.len()
        invariant
            i <= items@.len(),
            r@ == prompt_header() + prompt_entries(items@.subrange(0, i as int)),
        decreases items.len() - i,
    {
        let ghost before = r@;
        r.append("Memory ");
        let n = decimal(i + 1);
        r.append(n.as_str());
        r.append(":\n");
        r.append(items[i].content.as_str());
        r.append("\n\n");
        proof {
            let pre = items@.subrange(0, i + 1);
            assert(pre.drop_last() =~= items@.subrange(0, i as int));
            assert(pre.last() == items@[i as int]);
            assert(pre.len() == i + 1);
            assert(r@ =~= prompt_header() + prompt_entries(pre));
        }
        i = i + 1;
    }
    proof {
        assert(items@.subrange(0, items@.len() as int) =~= items@);
    }
    r.append("\nReturn scores as JSON array with one score per memory: [score1, score2, ...]");
    r
}

/// Checks the scores returned for a batch of `expected` memories, given in
/// millionths: there must be one per memory, each in `[0, UNIT]`.
pub fn check_batch_scores(scores: &Vec<i64>, expected: usize) -> (r: Result<Vec<u32>, MemoryError>)
    ensures
        r is Ok <==> (scores@.len() == expected
            && forall|i: int| 0 <= i < scores@.len() ==> 0 <= #[trigger] scores@[i] <= UNIT),
        r matches Err(e) ==> e.kind == ErrorKind::Internal,
        r matches Ok(v) ==> v@.len() == scores@.len()
            && forall|i: int| 0 <= i < v@.len() ==> (#[trigger] v@[i]) as i64 == scores@[i],
{
    if scores.len() != expected {
        return Err(MemoryError::new(ErrorKind::Internal, "score count does not match the batch".to_string()));
    }
    let mut v: Vec<u32> = Vec::new();
    let mut i: usize = 0;
    while i < scores.len()
        invariant
            i <= scores.len(),
            v@.len() == i,
            forall|j: int| 0 <= j < i ==> 0 <= #[trigger] scores@[j] <= UNIT,
            forall|j: int| 0 <= j < i ==> (#[trigger] v@[j]) as i64 == scores@[j],
        decreases scores.len() - i,
    {
        let s = scores[i];
        if s < 0 || s > UNIT as i64 {
            return Err(MemoryError::new(ErrorKind::Internal, "score out of range".to_string()));
        }
        v.push(s as u32);
        i = i + 1;
    }
    Ok(v)
}

/// Sets the importance of the memory with id `id`; says whether it exists.
pub fn set_importance(store: &mut LibraryStore, id: &str, importance: u32) -> (r: bool)
    requires
        old(store).wf(),
        importance <= UNIT,
    ensures
        final(store).wf(),
        final(store).dim == old(store).dim,
        r == has_record_id(old(store).records@, id@),
        final(store).records@.len() == old(store).records@.len(),
        forall|j: int| 0 <= j < old(store).records@.len() ==> {
            let a = old(store).records@[j];
            let b = #[trigger] final(store).records@[j];
            &&& b == (if a.id@ == id@ { MemoryRecord { importance, ..a } } else { a })
        },
{
    match store.find_id(id) {
        None => false,
        Some(i) => {
            let ghost o = store.records@;
            let rec = store.records.remove(i);
            store.records.insert(i, MemoryRecord { importance, ..rec });
            proof {
                let n = store.records@;
                assert forall|j: int| 0 <= j < o.len() && j != i implies o[j].id@ != id@ by {
                    assert(o[j].id@ != o[i as int].id@);
                }
                assert forall|j: int| 0 <= j < o.len() implies #[trigger] n[j] == (if o[j].id@ == id@ { MemoryRecord { importance, ..o[j] } } else { o[j] }) by {
                }
                assert forall|a: int, b: int| 0 <= a < n.len() && 0 <= b < n.len() && a != b implies {
                    &&& (#[trigger] n[a]).content_hash != (#[trigger] n[b]).content_hash
                    &&& n[a].id@ != n[b].id@
                } by {
                    assert(o[a].content_hash != o[b].content_hash);
                }
                assert forall|j: int| 0 <= j < n.len() implies record_wf(#[trigger] n[j], store.dim) by {
                    assert(record_wf(o[j], store.dim));
                }
            }
            true
        },
    }
}

} // verus!
