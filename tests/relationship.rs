use candle_memory::coordinator::{CoordinatorPool, MemoryCoordinator, SearchHit};
use candle_memory::error::ErrorKind;
use candle_memory::evaluator::{batch_prompt, PendingEvaluation};
use candle_memory::ranking::{EdgeKind, EntanglementEdge};
use candle_memory::library::library_db_path;
use candle_memory::relationship::Relationship;
use candle_memory::store::{MemoryType, UNIT};
use candle_memory::text::decimal;
use candle_memory::tools::{count_metrics, libraries_summary, memorize_started_summary};

#[test]
fn test_new_relationship() {
    let relationship = Relationship::new("source-id", "target-id", "related_to", 0);

    assert!(!relationship.id.is_empty());
    assert_eq!(relationship.source_id, "source-id");
    assert_eq!(relationship.target_id, "target-id");
    assert_eq!(relationship.relationship_type, "related_to");
    assert_eq!(relationship.strength, UNIT);
    assert_eq!(relationship.metadata, serde_json::Value::Object(serde_json::Map::new()));
}

#[test]
fn test_relationship_builder_pattern() {
    let mut expected = serde_json::Map::new();
    expected.insert("key".to_string(), serde_json::Value::from("value"));
    let relationship = Relationship::new("source-id", "target-id", "related_to", 0)
        .with_strength(750_000)
        .with_metadata(serde_json::Value::Object(expected.clone()));

    assert_eq!(relationship.strength, 750_000);
    assert_eq!(relationship.metadata, serde_json::Value::Object(expected));
}

#[test]
fn test_relationship_between_and_involves() {
    let relationship = Relationship::new("memory1", "memory2", "related_to", 0);

    assert!(relationship.is_between("memory1", "memory2"));
    assert!(relationship.is_between("memory2", "memory1"));
    assert!(!relationship.is_between("memory1", "memory3"));

    assert!(relationship.involves("memory1"));
    assert!(relationship.involves("memory2"));
    assert!(!relationship.involves("memory3"));

    assert_eq!(relationship.get_other_memory_id("memory1"), Some("memory2"));
    assert_eq!(relationship.get_other_memory_id("memory2"), Some("memory1"));
    assert_eq!(relationship.get_other_memory_id("memory3"), None);
}

#[test]
fn relationship_defaults_and_strength() {
    let r = Relationship::new("source-id", "target-id", "related_to", 5);
    assert_eq!(r.id.len(), 36);
    assert_eq!(r.strength, UNIT);
    assert_eq!(r.created_at, 5);
    let r = r.with_strength(750_000);
    assert_eq!(r.strength, 750_000);
    let mut r = r.with_strength(2_000_000);
    assert_eq!(r.strength, UNIT);
    r.update_strength(10, 9);
    assert_eq!(r.strength, 10);
    assert_eq!(r.updated_at, 9);
    let fixed = Relationship::new_with_id("rel-1", "a", "b", "entangled", 1);
    assert_eq!(fixed.id, "rel-1");
}

#[test]
fn coordinator_shutdown_hands_back_pending_evaluations() {
    let mut c = MemoryCoordinator::new("lib".to_string(), 1);
    c.add_memory("first".to_string(), MemoryType::Episodic, vec![1], 1).unwrap();
    c.add_memory("second".to_string(), MemoryType::Episodic, vec![1], 2).unwrap();
    let pending = c.shutdown_workers();
    assert_eq!(pending.len(), 2);
    assert_eq!(pending[0].content, "first");
    assert!(c.queue.items.is_empty());
    assert_eq!(c.store.count(), 2);
}

#[test]
fn recalled_memories_are_marked_accessed() {
    let mut pool = CoordinatorPool::new(1);
    let m = pool.add_memory("lib", "x".to_string(), MemoryType::LongTerm, vec![1], 1).unwrap();
    let other = pool.add_memory("lib", "y".to_string(), MemoryType::LongTerm, vec![1], 1).unwrap();
    let hits = vec![SearchHit { id: m.id.clone(), similarity: 700_000 }];
    let results = pool.recall("lib", &hits, 5).unwrap();
    pool.touch_recalled("lib", &results, 99);
    let i = pool.get_coordinator("lib").unwrap();
    assert_eq!(pool.coordinators[i].store.get(&m.id).unwrap().id, m.id);
    let touched = pool.coordinators[i].store.records.iter().find(|r| r.id == m.id).unwrap();
    assert_eq!(touched.last_accessed_at, Some(99));
    let untouched = pool.coordinators[i].store.records.iter().find(|r| r.id == other.id).unwrap();
    assert_eq!(untouched.last_accessed_at, None);
}

#[test]
fn pool_lists_libraries_from_entries() {
    let pool = CoordinatorPool::new(1);
    let files = vec!["b.db".to_string(), "a.db".to_string(), "readme".to_string()];
    assert_eq!(pool.list_libraries(&files), vec!["a".to_string(), "b".to_string()]);
    assert_eq!(library_db_path("/data", "work"), "/data/memory/work.db");
}

#[test]
fn batch_prompt_numbers_memories() {
    let items = vec![
        PendingEvaluation { memory_id: "a".to_string(), content: "alpha".to_string(), attempts: 0 },
        PendingEvaluation { memory_id: "b".to_string(), content: "beta".to_string(), attempts: 0 },
    ];
    let p = batch_prompt(&items);
    assert!(p.starts_with("Evaluate the quality of each memory below on a scale from 0.0 to 1.0.\n"));
    assert!(p.contains("Memory 1:\nalpha\n\nMemory 2:\nbeta\n\n"));
    assert!(p.ends_with("\nReturn scores as JSON array with one score per memory: [score1, score2, ...]"));
}

#[test]
fn reply_texts() {
    assert_eq!(decimal(0), "0");
    assert_eq!(decimal(1234), "1234");
    assert_eq!(
        memorize_started_summary("s-1", "docs"),
        "\u{2713} Memorization started\n\nSession: s-1\nLibrary: docs\nStatus: IN_PROGRESS\n\nUse check_memorize_status to monitor progress"
    );
    assert_eq!(
        libraries_summary(&vec!["a".to_string(), "b".to_string()]),
        "\u{2713} Memory libraries found (2)\n\n  \u{2022} a\n  \u{2022} b"
    );
    assert!(libraries_summary(&vec![]).starts_with("\u{2713} No memory libraries found"));
}

#[test]
fn count_metrics_text() {
    let mut c = MemoryCoordinator::new("lib".to_string(), 1);
    c.add_memory("a".to_string(), MemoryType::Episodic, vec![1], 1).unwrap();
    c.add_memory("b".to_string(), MemoryType::Episodic, vec![1], 1).unwrap();
    c.add_memory("c".to_string(), MemoryType::LongTerm, vec![1], 1).unwrap();
    assert_eq!(c.store.count_by_type(MemoryType::Episodic), 2);
    assert_eq!(c.store.count_by_type(MemoryType::Working), 0);
    let text = count_metrics(&c.store, true);
    assert!(text.starts_with("# HELP memory_manager_healthy Memory manager health status (1=healthy, 0=unhealthy)\n# TYPE memory_manager_healthy gauge\nmemory_manager_healthy 1\n"));
    assert!(text.contains("memory_total_count 3\n"));
    assert!(text.contains("memory_count_by_type{type=\"episodic\"} 2\n"));
    assert!(text.ends_with("memory_count_by_type{type=\"working\"} 0\nmemory_count_by_type{type=\"longterm\"} 1\n"));
}

fn edge(source: &str, target: &str, strength: u32) -> EntanglementEdge {
    EntanglementEdge { source: source.to_string(), target: target.to_string(), kind: EdgeKind::Entangled, strength }
}

#[test]
fn entanglement_graph_keeps_endpoints_stored() {
    let mut c = MemoryCoordinator::new("lib".to_string(), 1);
    let a = c.add_memory("a".to_string(), MemoryType::Semantic, vec![1], 1).unwrap();
    let b = c.add_memory("b".to_string(), MemoryType::Semantic, vec![1], 1).unwrap();
    assert!(c.add_entanglement(edge(&a.id, &b.id, 500_000)).is_ok());
    assert_eq!(c.add_entanglement(edge(&a.id, "missing", 500_000)).unwrap_err().kind, ErrorKind::NotFound);
    assert_eq!(c.add_entanglement(edge(&a.id, &b.id, 1_000_001)).unwrap_err().kind, ErrorKind::InvalidInput);
    assert_eq!(c.edges.len(), 1);

    c.load_entanglement(Some(vec![edge(&b.id, &a.id, 10), edge("x", &a.id, 10), edge(&a.id, &a.id, 20)]));
    assert_eq!(c.edges.len(), 2);
    assert_eq!(c.edges[1].strength, 20);
    c.load_entanglement(None);
    assert!(c.edges.is_empty());

    c.load_entanglement(Some(vec![edge(&b.id, &a.id, 10), edge(&b.id, &b.id, 10)]));
    assert!(c.delete_memory(&a.id));
    assert_eq!(c.edges.len(), 1);
    assert_eq!(c.edges[0].target, b.id);
    assert!(!c.delete_memory(&a.id));
    assert!(c.store.get(&a.id).is_none());
}
