use candle_memory::instruction::{format_single_with_instruction, format_with_instruction, get_instruction};

#[test]
fn test_valid_tasks_no_warning() {
    let valid_tasks = vec![
        "s2p",
        "s2s",
        "search_query",
        "search_document",
        "classification",
        "clustering",
        "retrieval",
    ];

    for task in valid_tasks {
        let result = format_with_instruction(&["test"], Some(task));
        assert_eq!(result.len(), 1);
        assert!(result[0].starts_with("Instruct:"));
    }
}

#[test]
fn test_none_task_uses_default() {
    let result = format_with_instruction(&["test"], None);
    assert_eq!(result.len(), 1);
    assert!(result[0].contains("Given a web search query"));
}

#[test]
fn test_invalid_task_warning() {
    let result = format_with_instruction(&["test"], Some("invalid_task"));
    assert_eq!(result.len(), 1);
    assert!(result[0].contains("Given a web search query"));
}

#[test]
fn test_case_sensitive_task() {
    let result = format_with_instruction(&["test"], Some("S2P"));
    assert_eq!(result.len(), 1);
    assert!(result[0].contains("Given a web search query"));
}

#[test]
fn test_empty_string_task() {
    let result = format_with_instruction(&["test"], Some(""));
    assert_eq!(result.len(), 1);
    assert!(result[0].contains("Given a web search query"));
}

#[test]
fn test_multiple_texts() {
    let texts = vec!["text1", "text2", "text3"];
    let result = format_with_instruction(&texts, Some("s2p"));
    assert_eq!(result.len(), 3);
    for formatted in result {
        assert!(formatted.starts_with("Instruct:"));
        assert!(formatted.contains("Query:"));
    }
}

#[test]
fn test_empty_texts_array() {
    let result = format_with_instruction(&[], Some("s2p"));
    assert_eq!(result.len(), 0);
}

#[test]
fn test_instruction_mapping() {
    let search_tasks = vec!["s2p", "search_query", "search_document", "retrieval"];
    for task in search_tasks {
        let result = format_with_instruction(&["test"], Some(task));
        assert!(result[0].contains("Given a web search query"));
    }

    let similarity_tasks = vec!["s2s", "classification", "clustering"];
    for task in similarity_tasks {
        let result = format_with_instruction(&["test"], Some(task));
        assert!(result[0].contains("Retrieve semantically similar text"));
    }
}

#[test]
fn document_task_has_no_prefix() {
    assert_eq!(format_single_with_instruction("Rust is fast", Some("document")), "Rust is fast");
}

#[test]
fn query_task_exact_format() {
    assert_eq!(
        format_single_with_instruction("What is Rust?", Some("search_query")),
        "Instruct: Given a web search query, retrieve relevant passages that answer the query.\nQuery: What is Rust?"
    );
    assert_eq!(get_instruction(Some("clustering")), "Retrieve semantically similar text.");
}
