use candle_memory::coordinator::{CoordinatorPool, MemoryCoordinator, SearchHit};
use candle_memory::decay::{apply_decay, decay_importance, DECAY_FLOOR};
use candle_memory::error::ErrorKind;
use candle_memory::hash::content_hash;
use candle_memory::evaluator::{check_batch_scores, set_importance, EvaluationQueue};
use candle_memory::library::{library_file_name, library_stem, list_library_names, validate_library_name};
use candle_memory::ranking::{
    boosted_importance, entanglement_boost, rank_candidates, score, Candidate, EdgeKind, EntanglementEdge,
};
use candle_memory::store::{LibraryStore, MemoryType, NewMemory, UNIT};

fn new_memory(id: &str, content: &str, hash: i64, dim: usize) -> NewMemory {
    NewMemory {
        id: id.to_string(),
        content: content.to_string(),
        content_hash: hash,
        memory_type: MemoryType::Semantic,
        embedding: vec![1; dim],
    }
}

#[test]
fn test_duplicate_content_hash_resets_importance() {
    let mut store = LibraryStore::new(4);
    let content = "This is a test fact about Rust memory management";

    let result1 = store.upsert(new_memory("m-1", content, 77, 4), 1_000);
    assert!(result1.is_ok(), "First insert should succeed");
    let inserted1 = result1.unwrap();
    assert_eq!(inserted1.importance, UNIT);

    assert!(set_importance(&mut store, &inserted1.id, 300_000));
    let retrieved = store.get(&inserted1.id);
    assert!(retrieved.is_some());
    assert_eq!(retrieved.as_ref().unwrap().importance, 300_000);

    let result2 = store.upsert(new_memory("m-2", content, 77, 4), 2_000);
    assert!(result2.is_ok(), "Duplicate insert should succeed (upsert)");
    let upserted = result2.unwrap();
    assert_eq!(upserted.importance, UNIT, "Importance should be reset to maximum (1.0) on duplicate content re-ingestion");
    assert_eq!(upserted.id, inserted1.id, "Upsert should return the same record, not create a new one");
}

#[test]
fn test_pool_creation() {
    let pool = CoordinatorPool::new(1024);
    assert_eq!(pool.pool_size(), 0);
}

#[test]
fn upsert_leaves_one_row_per_hash() {
    let mut store = LibraryStore::new(2);
    store.upsert(new_memory("a", "hello world", 5, 2), 10).unwrap();
    store.upsert(new_memory("b", "hello world", 5, 2), 20).unwrap();
    store.upsert(new_memory("c", "other", 6, 2), 30).unwrap();
    assert_eq!(store.count_with_content_hash(5), 1);
    assert_eq!(store.count_with_content_hash(6), 1);
    assert_eq!(store.count_with_content_hash(7), 0);
    assert_eq!(store.count(), 2);
    let rec = store.get("a").unwrap();
    assert_eq!(rec.updated_at, 20);
    assert_eq!(rec.created_at, 10);
}

#[test]
fn upsert_rejects_wrong_dimension() {
    let mut store = LibraryStore::new(3);
    let err = store.upsert(new_memory("a", "x", 1, 2), 1).unwrap_err();
    assert_eq!(err.kind, ErrorKind::InvalidInput);
    assert_eq!(store.count(), 0);
}

#[test]
fn delete_then_get_is_none() {
    let mut store = LibraryStore::new(1);
    let rec = store.upsert(new_memory("id-1", "x", 1, 1), 1).unwrap();
    assert!(store.delete(&rec.id));
    assert!(store.get(&rec.id).is_none());
    assert!(!store.delete(&rec.id));
}

#[test]
fn decay_respects_floor_and_never_raises() {
    assert_eq!(decay_importance(UNIT, 500_000), 500_000);
    assert_eq!(decay_importance(100_000, 100_000), DECAY_FLOOR);
    let mut store = LibraryStore::new(1);
    store.upsert(new_memory("a", "x", 1, 1), 1).unwrap();
    apply_decay(&mut store, 900_000);
    assert_eq!(store.get("a").unwrap().importance, 900_000);
    apply_decay(&mut store, 900_000);
    assert_eq!(store.get("a").unwrap().importance, 810_000);
}

fn cand(id: &str, created_at: u64, similarity: u32, importance: u32) -> Candidate {
    Candidate { id: id.to_string(), content: id.to_string(), created_at, similarity, importance }
}

#[test]
fn ranking_orders_by_score_and_breaks_ties() {
    let cands = vec![cand("b", 1, 500_000, UNIT), cand("a", 1, 500_000, UNIT), cand("c", 2, 500_000, UNIT), cand("d", 0, 900_000, UNIT)];
    let r = rank_candidates(&cands, &vec![], 10);
    let ids: Vec<&str> = r.iter().map(|x| x.id.as_str()).collect();
    assert_eq!(ids, vec!["d", "c", "a", "b"]);
    assert_eq!(r[0].rank, 1);
    assert_eq!(r[3].rank, 4);
    assert_eq!(r[0].score, 900_000);
}

#[test]
fn ranking_keeps_top_k_and_handles_limits() {
    let cands = vec![cand("a", 1, 100_000, UNIT), cand("b", 1, 300_000, UNIT), cand("c", 1, 200_000, UNIT)];
    let r = rank_candidates(&cands, &vec![], 2);
    assert_eq!(r.len(), 2);
    assert_eq!(r[0].id, "b");
    assert_eq!(r[1].id, "c");
    assert!(rank_candidates(&cands, &vec![], 0).is_empty());
    assert!(rank_candidates(&vec![], &vec![], 5).is_empty());
}

#[test]
fn recall_ranking_scenario() {
    // A="rust error handling", B="python packaging", C="rust async io"
    let cands = vec![
        Candidate { id: "A".to_string(), content: "rust error handling".to_string(), created_at: 1, similarity: 920_000, importance: UNIT },
        Candidate { id: "B".to_string(), content: "python packaging".to_string(), created_at: 2, similarity: 150_000, importance: UNIT },
        Candidate { id: "C".to_string(), content: "rust async io".to_string(), created_at: 3, similarity: 480_000, importance: UNIT },
    ];
    let r = rank_candidates(&cands, &vec![], 3);
    assert_eq!(r[0].id, "A");
    assert_eq!(r[0].rank, 1);
    assert!(r[0].score > r[1].score && r[1].score > r[2].score);
    assert_eq!(r[1].id, "C");
    assert_eq!(r[2].id, "B");
}

#[test]
fn entanglement_boost_raises_importance() {
    let cands = vec![cand("a", 1, 500_000, 400_000), cand("b", 1, 500_000, 400_000)];
    let edges = vec![
        EntanglementEdge { source: "a".to_string(), target: "b".to_string(), kind: EdgeKind::Entangled, strength: 800_000 },
        EntanglementEdge { source: "a".to_string(), target: "z".to_string(), kind: EdgeKind::Entangled, strength: 900_000 },
        EntanglementEdge { source: "b".to_string(), target: "a".to_string(), kind: EdgeKind::Caused, strength: 900_000 },
    ];
    assert_eq!(entanglement_boost(&edges, &"a".to_string(), &cands), 800_000);
    assert_eq!(entanglement_boost(&edges, &"b".to_string(), &cands), 800_000);
    assert_eq!(boosted_importance(400_000, 800_000), 480_000);
    assert_eq!(boosted_importance(UNIT, UNIT), UNIT);
    assert_eq!(score(500_000, 480_000), 240_000);
    let r = rank_candidates(&cands, &edges, 2);
    assert_eq!(r[0].importance, 480_000);
}

#[test]
fn pool_isolates_libraries() {
    let mut pool = CoordinatorPool::new(2);
    let foo = pool.add_memory("libA", "foo".to_string(), MemoryType::LongTerm, vec![1, 2], 1).unwrap();
    let bar = pool.add_memory("libB", "bar".to_string(), MemoryType::LongTerm, vec![1, 2], 1).unwrap();
    let hits = vec![SearchHit { id: foo.id.clone(), similarity: 990_000 }, SearchHit { id: bar.id.clone(), similarity: 100_000 }];
    let in_a = pool.recall("libA", &hits, 5).unwrap();
    assert_eq!(in_a.len(), 1);
    assert_eq!(in_a[0].content, "foo");
    let in_b = pool.recall("libB", &hits, 5).unwrap();
    assert!(in_b.iter().all(|m| m.content != "foo"));
    assert_eq!(pool.pool_size(), 2);
}

#[test]
fn pool_dedups_across_calls() {
    let mut pool = CoordinatorPool::new(1);
    let first = pool.add_memory("libA", "hello world".to_string(), MemoryType::LongTerm, vec![3], 1).unwrap();
    let second = pool.add_memory("libA", "hello world".to_string(), MemoryType::LongTerm, vec![3], 2).unwrap();
    assert_eq!(first.id, second.id);
    assert_eq!(second.importance, UNIT);
    let i = pool.get_coordinator("libA").unwrap();
    assert_eq!(pool.coordinators[i].store.count(), 1);
    assert_eq!(pool.coordinators[i].store.count_with_content_hash(content_hash("hello world")), 1);
}

#[test]
fn pool_opens_one_coordinator_per_library() {
    let mut pool = CoordinatorPool::new(1);
    let mut first = None;
    for _ in 0..32 {
        let i = pool.get_coordinator("fresh").unwrap();
        if first.is_none() {
            first = Some(i);
        }
        assert_eq!(Some(i), first);
    }
    assert_eq!(pool.pool_size(), 1);
    let flushed = pool.shutdown_all();
    assert!(flushed.is_empty());
    assert_eq!(pool.pool_size(), 0);
}

#[test]
fn recall_on_empty_library_and_zero_limit() {
    let mut pool = CoordinatorPool::new(1);
    let hits = vec![SearchHit { id: "nothing".to_string(), similarity: 500_000 }];
    assert_eq!(pool.recall("empty", &hits, 10).unwrap().len(), 0);
    let m = pool.add_memory("lib", "x".to_string(), MemoryType::LongTerm, vec![0], 1).unwrap();
    let hits = vec![SearchHit { id: m.id.clone(), similarity: 500_000 }];
    assert_eq!(pool.recall("lib", &hits, 0).unwrap().len(), 0);
    let before = pool.pool_size();
    assert_eq!(pool.recall("never-opened", &hits, 0).unwrap().len(), 0);
    assert_eq!(pool.pool_size(), before);
    assert_eq!(pool.recall("lib", &hits, 1).unwrap().len(), 1);
}

#[test]
fn invalid_library_names_are_rejected() {
    for bad in ["", "a/b", "a\\b", "..", "x..y"] {
        assert_eq!(validate_library_name(bad).unwrap_err().kind, ErrorKind::InvalidInput);
    }
    assert!(validate_library_name("notes.v1").is_ok());
    let mut pool = CoordinatorPool::new(1);
    assert_eq!(pool.recall("../etc", &vec![], 5).unwrap_err().kind, ErrorKind::InvalidInput);
}

#[test]
fn coordinator_rejects_empty_content() {
    let mut c = MemoryCoordinator::new("lib".to_string(), 1);
    assert_eq!(c.add_memory(String::new(), MemoryType::LongTerm, vec![0], 1).unwrap_err().kind, ErrorKind::InvalidInput);
}

#[test]
fn library_listing_is_sorted_and_stable() {
    let files = vec!["zeta.db".to_string(), "notes.txt".to_string(), "alpha.db".to_string(), ".db".to_string(), "Beta.db".to_string()];
    let names = list_library_names(&files);
    assert_eq!(names, vec!["Beta".to_string(), "alpha".to_string(), "zeta".to_string()]);
    let again: Vec<String> = names.iter().map(|n| library_file_name(n)).collect();
    assert_eq!(list_library_names(&again), names);
    assert_eq!(library_stem("work.db"), Some("work".to_string()));
    assert_eq!(library_stem("work.dbx"), None);
}

#[test]
fn evaluation_queue_batches_and_retries_once() {
    let mut q = EvaluationQueue::new(3);
    assert!(q.enqueue("a".to_string(), "A".to_string()));
    assert!(q.enqueue("b".to_string(), "B".to_string()));
    assert!(q.enqueue("c".to_string(), "C".to_string()));
    assert!(!q.enqueue("d".to_string(), "D".to_string()));
    let batch = q.take_batch(2);
    assert_eq!(batch.len(), 2);
    assert_eq!(batch[0].memory_id, "a");
    assert_eq!(q.items.len(), 1);
    assert_eq!(q.requeue_failed(batch), 0);
    assert_eq!(q.items.len(), 3);
    assert_eq!(q.items[1].attempts, 1);
    let again = q.take_batch(10);
    assert_eq!(again.len(), 3);
    assert_eq!(q.requeue_failed(again), 2);
    assert_eq!(q.items.len(), 1);
    assert_eq!(q.items[0].memory_id, "c");
}

#[test]
fn batch_scores_are_checked() {
    assert_eq!(check_batch_scores(&vec![800_000, 0, 1_000_000], 3).unwrap(), vec![800_000, 0, 1_000_000]);
    assert!(check_batch_scores(&vec![800_000], 2).is_err());
    assert!(check_batch_scores(&vec![1_000_001], 1).is_err());
    assert!(check_batch_scores(&vec![-1], 1).is_err());
}

#[test]
fn content_hash_is_fnv1a() {
    assert_eq!(content_hash(""), 0xcbf2_9ce4_8422_2325u64 as i64);
    assert_eq!(content_hash("a"), 0xaf63_dc4c_8601_ec8cu64 as i64);
    assert_ne!(content_hash("hello world"), content_hash("hello worle"));
}

#[test]
fn nearest_hits_keep_the_most_similar() {
    let scored: Vec<SearchHit> = (0..40u32).map(|i| SearchHit { id: format!("m{i}"), similarity: i * 1000 }).collect();
    let hits = candle_memory::coordinator::nearest_hits(scored, 2);
    assert_eq!(hits.len(), 32);
    assert_eq!(hits[0].similarity, 39_000);
    assert_eq!(hits[31].similarity, 8_000);
    let few = vec![SearchHit { id: "a".to_string(), similarity: 1 }, SearchHit { id: "b".to_string(), similarity: 5 }];
    let hits = candle_memory::coordinator::nearest_hits(few, 10);
    assert_eq!(hits[0].id, "b");
    assert_eq!(hits.len(), 2);
}

#[test]
fn repeated_hits_count_once_and_shutdown_flushes() {
    let mut pool = CoordinatorPool::new(1);
    let m = pool.add_memory("lib", "x".to_string(), MemoryType::LongTerm, vec![1], 1).unwrap();
    let hits = vec![
        SearchHit { id: m.id.clone(), similarity: 500_000 },
        SearchHit { id: m.id.clone(), similarity: 900_000 },
    ];
    let r = pool.recall("lib", &hits, 5).unwrap();
    assert_eq!(r.len(), 1);
    assert_eq!(r[0].similarity, 500_000);
    let flushed = pool.shutdown_all();
    assert_eq!(flushed.len(), 1);
    assert_eq!(flushed[0].content, "x");
    assert_eq!(pool.pool_size(), 0);
}

#[test]
fn wrong_dimension_on_pool_is_invalid_input() {
    let mut pool = CoordinatorPool::new(2);
    assert_eq!(pool.add_memory("lib", "x".to_string(), MemoryType::LongTerm, vec![1], 1).unwrap_err().kind, ErrorKind::InvalidInput);
}
