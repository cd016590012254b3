use candle_memory::error::ErrorKind;
use candle_memory::manager::MemorizeSessionManager;
use candle_memory::resolver::{
    classify_content, directory_pattern, directory_text, file_text, glob_text, join_documents,
    parse_github_reference, ContentSource, LoadedDocument, PathKind,
};
use candle_memory::session::{should_remove, IngestAction, IngestEvent, MemorizeProgress, MemorizeSession, MemorizeStatus};

#[test]
fn async_progress_stages() {
    let mut m = MemorizeSessionManager::new();
    let id = m.start_memorize_session("docs".to_string(), "github.com/u/r".to_string(), 0).unwrap();
    assert_eq!(id.len(), 36);
    assert_eq!(m.get_status(&id, 5).unwrap().progress.stage, "Initializing");
    assert_eq!(m.advance_session(&id, IngestEvent::Started).unwrap(), IngestAction::ResolveContent);
    assert_eq!(m.get_status(&id, 10).unwrap().progress.stage, "Loading content");
    assert_eq!(m.advance_session(&id, IngestEvent::ContentLoaded { size: 120 }).unwrap(), IngestAction::OpenLibrary);
    let s = m.get_status(&id, 20).unwrap();
    assert_eq!(s.progress.stage, "Generating embeddings");
    assert_eq!(s.progress.total_size_bytes, 120);
    assert_eq!(m.advance_session(&id, IngestEvent::LibraryReady).unwrap(), IngestAction::StoreMemory);
    assert_eq!(m.get_status(&id, 30).unwrap().progress.stage, "Storing in database");
    assert_eq!(m.advance_session(&id, IngestEvent::Stored { memory_id: "mem-1".to_string() }).unwrap(), IngestAction::Finish);
    let done = m.get_status(&id, 40).unwrap();
    assert_eq!(done.status, MemorizeStatus::Completed);
    assert_eq!(done.memory_id, Some("mem-1".to_string()));
    assert_eq!(done.progress.stage, "Completed");
    assert_eq!(done.runtime_ms, 40);
    assert_eq!(done.status.as_str(), "COMPLETED");
}

#[test]
fn terminal_status_is_kept() {
    let mut s = MemorizeSession::new("s".to_string(), "lib".to_string(), "x".to_string(), 0);
    s.fail("boom".to_string());
    assert_eq!(s.status, MemorizeStatus::Failed);
    s.complete("m".to_string());
    assert_eq!(s.status, MemorizeStatus::Failed);
    assert_eq!(s.memory_id, None);
    assert_eq!(s.advance(IngestEvent::Stored { memory_id: "m".to_string() }), IngestAction::Finish);
    assert_eq!(s.status, MemorizeStatus::Failed);
    assert_eq!(s.error, Some("boom".to_string()));
}

#[test]
fn failures_and_cancellation_carry_messages() {
    let mut s = MemorizeSession::new("s".to_string(), "lib".to_string(), "x".to_string(), 0);
    s.advance(IngestEvent::LoadFailed { message: "no files found".to_string() });
    assert_eq!(s.status, MemorizeStatus::Failed);
    assert_eq!(s.error, Some("Failed to load content: no files found".to_string()));
    let mut c = MemorizeSession::new("t".to_string(), "lib".to_string(), "x".to_string(), 0);
    c.advance(IngestEvent::Cancelled);
    assert_eq!(c.error, Some("cancelled".to_string()));
}

#[test]
fn session_gc_removes_completed_after_retention() {
    let mut m = MemorizeSessionManager::new();
    let done = m.start_memorize_session("lib".to_string(), "a".to_string(), 0).unwrap();
    let failed = m.start_memorize_session("lib".to_string(), "b".to_string(), 0).unwrap();
    let running = m.start_memorize_session("lib".to_string(), "c".to_string(), 0).unwrap();
    m.advance_session(&done, IngestEvent::Started).unwrap();
    m.advance_session(&done, IngestEvent::ContentLoaded { size: 1 }).unwrap();
    m.advance_session(&done, IngestEvent::LibraryReady).unwrap();
    m.advance_session(&done, IngestEvent::Stored { memory_id: "m".to_string() }).unwrap();
    m.advance_session(&failed, IngestEvent::StoreFailed { message: "x".to_string() }).unwrap();
    m.cleanup_sessions(29_999);
    assert_eq!(m.sessions.len(), 3);
    m.cleanup_sessions(30_000);
    assert_eq!(m.get_status(&done, 30_001).unwrap_err().kind, ErrorKind::NotFound);
    assert!(m.get_status(&failed, 30_001).is_ok());
    m.cleanup_sessions(330_001);
    assert!(m.get_status(&failed, 330_002).is_err());
    m.cleanup_sessions(10_000_000);
    assert!(m.get_status(&running, 10_000_001).is_ok());
    assert!(should_remove(MemorizeStatus::Completed, 100, 30_100));
    assert!(!should_remove(MemorizeStatus::Completed, 100, 30_099));
    assert!(!should_remove(MemorizeStatus::InProgress, 0, u64::MAX));
    assert!(!should_remove(MemorizeStatus::Failed, 500, 100));
}

#[test]
fn unknown_session_and_bad_library() {
    let mut m = MemorizeSessionManager::new();
    assert_eq!(m.get_status("nope", 1).unwrap_err().kind, ErrorKind::NotFound);
    assert_eq!(m.start_memorize_session("a/b".to_string(), "x".to_string(), 0).unwrap_err().kind, ErrorKind::InvalidInput);
    assert_eq!(MemorizeProgress::default().stage, "Initializing");
}

#[test]
fn classification_order() {
    assert!(matches!(classify_content("https://example.com/doc.txt", PathKind::File).unwrap(), ContentSource::Url));
    assert!(matches!(classify_content("/tmp/x", PathKind::Directory).unwrap(), ContentSource::Directory));
    assert!(matches!(classify_content("/tmp/x", PathKind::File).unwrap(), ContentSource::File));
    assert!(matches!(classify_content("src/*.rs", PathKind::Missing).unwrap(), ContentSource::Glob));
    assert!(matches!(classify_content("/no/such/path", PathKind::Missing).unwrap(), ContentSource::Literal));
    assert!(matches!(classify_content("Hello, world!", PathKind::Missing).unwrap(), ContentSource::Literal));
    assert_eq!(classify_content("github.com/onlyowner", PathKind::Missing).unwrap_err().kind, ErrorKind::InvalidInput);
}

#[test]
fn github_references() {
    assert_eq!(parse_github_reference("github.com/u/r"), Some(("u/r".to_string(), "README.md".to_string())));
    assert_eq!(
        parse_github_reference("github.com/u/r/blob/main/src/lib.rs"),
        Some(("u/r".to_string(), "src/lib.rs".to_string()))
    );
    assert_eq!(parse_github_reference("github.com/u/r/docs/a.md"), Some(("u/r".to_string(), "docs/a.md".to_string())));
    assert_eq!(parse_github_reference("github.com/u/r/"), Some(("u/r".to_string(), "README.md".to_string())));
    match classify_content("github.com/u/r", PathKind::Missing).unwrap() {
        ContentSource::GitHub { repo, path } => {
            assert_eq!(repo, "u/r");
            assert_eq!(path, "README.md");
        }
        _ => panic!("expected a GitHub source"),
    }
}

fn doc(path: &str, body: &str) -> LoadedDocument {
    LoadedDocument { path: path.to_string(), body: body.to_string() }
}

#[test]
fn documents_are_joined_with_headers() {
    let docs = vec![doc("a.txt", "one"), doc("b.txt", "two")];
    assert_eq!(join_documents(&docs), "=== a.txt ===\none\n\n=== b.txt ===\ntwo");
    assert_eq!(directory_text(&docs).unwrap(), "=== a.txt ===\none\n\n=== b.txt ===\ntwo");
    assert_eq!(file_text(&docs).unwrap(), "one");
}

#[test]
fn empty_directory_fails_and_empty_glob_is_literal() {
    let err = directory_text(&vec![]).unwrap_err();
    assert_eq!(err.message, "no files found");
    assert_eq!(glob_text("*.nothing", &vec![]), "*.nothing");
    assert!(file_text(&vec![]).is_err());
    assert_eq!(directory_pattern("docs//"), "docs/**/*");
    assert_eq!(directory_pattern("docs"), "docs/**/*");
}

#[test]
fn out_of_order_events_are_ignored() {
    let mut s = MemorizeSession::new("s".to_string(), "lib".to_string(), "x".to_string(), 0);
    assert_eq!(s.advance(IngestEvent::LibraryReady), IngestAction::Finish);
    assert_eq!(s.progress.stage, "Initializing");
    assert_eq!(s.advance(IngestEvent::Started), IngestAction::ResolveContent);
    assert_eq!(s.advance(IngestEvent::ContentLoaded { size: 3 }), IngestAction::OpenLibrary);
    assert_eq!(s.advance(IngestEvent::LibraryReady), IngestAction::StoreMemory);
    assert_eq!(s.advance(IngestEvent::Started), IngestAction::Finish);
    assert_eq!(s.progress.stage, "Storing in database");
    assert_eq!(s.status, MemorizeStatus::InProgress);
}
