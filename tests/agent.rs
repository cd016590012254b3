use candle_memory::agent::{process_turn, CandleAgentConversationMessage, CandleChatLoop, CandleLibrary, McpServerConfig};
use candle_memory::message::{check_content_length, validate_message_sync, CandleMessage, CandleMessageRole, SanitizationError};
use candle_memory::prompt::{format_memory_context, ContextDocument, ContextMemory, PromptFormatter};
use candle_memory::tool_parser::ToolCallParser;

#[test]
fn mcp_configs() {
    let s = McpServerConfig::stdio("/usr/bin/kodegen");
    assert_eq!(s.server_type(), "stdio");
    assert_eq!(s.bin_path(), Some("/usr/bin/kodegen"));
    assert_eq!(s.init_command(), None);
    let k = McpServerConfig::socket("start");
    assert_eq!(k.server_type(), "socket");
    assert_eq!(k.bin_path(), None);
    assert_eq!(k.init_command(), Some("start"));
    let n = McpServerConfig::new("custom".to_string(), None, Some("go".to_string()));
    assert_eq!(n.init_command(), Some("go"));
}

#[test]
fn turns_and_libraries() {
    assert_eq!(process_turn(), CandleChatLoop::Reprompt("continue".to_string()));
    assert_eq!(CandleLibrary::named("work").name, "work");
    let m = CandleAgentConversationMessage { content: "hi".to_string() };
    assert_eq!(m.message(), "hi");
}

#[test]
fn message_validation() {
    let ok = CandleMessage { role: CandleMessageRole::User, content: "Hello, world!".to_string() };
    assert!(validate_message_sync(&ok).is_ok());
    let empty = CandleMessage { role: CandleMessageRole::User, content: String::new() };
    assert_eq!(validate_message_sync(&empty).unwrap_err(), "Empty message content");
    assert!(check_content_length("short").is_ok());
    let long = "x".repeat(100_001);
    assert!(matches!(check_content_length(&long), Err(SanitizationError::TooLong(100_001, 100_000))));
}

#[test]
fn prompt_formatter_settings() {
    let f = PromptFormatter::new();
    assert!(f.include_headers);
    assert_eq!(f.max_memory_length, Some(2000));
    assert_eq!(f.max_context_length, Some(4000));
    let g = f.with_headers(false).with_max_memory_length(None).with_max_context_length(Some(10));
    assert!(!g.include_headers);
    assert_eq!(g.max_memory_length, None);
    assert_eq!(g.max_context_length, Some(10));
}

#[test]
fn tool_call_across_tokens() {
    let mut p = ToolCallParser::new();
    assert!(p.process_token("Sure. <tool_").is_none());
    assert!(p.process_token("call>{\"name\": \"read_file\", ").is_none());
    assert!(p.in_tool_call);
    let call = p.process_token("\"arguments\": {\"path\": \"/tmp/a\"}}</tool_call>").unwrap();
    assert_eq!(call.name, "read_file");
    assert_eq!(call.arguments, "{\"path\":\"/tmp/a\"}");
    assert!(!p.in_tool_call);
}

#[test]
fn tool_call_in_one_token_and_bad_json() {
    let mut p = ToolCallParser::new();
    assert!(p.process_token("<tool_call>").is_none());
    let call = p.process_token("{\"name\": \"ls\"}</tool_call>").unwrap();
    assert_eq!(call.name, "ls");
    assert_eq!(call.arguments, "null");
    assert!(p.process_token("<tool_call>").is_none());
    assert!(p.process_token("not json</tool_call>").is_none());
    p.reset();
    assert!(!p.in_tool_call);
    assert!(p.buffer.is_empty());
}

#[test]
fn memory_context_respects_budget() {
    let ms = vec![
        ContextMemory { source: Some("notes".to_string()), content: "alpha".to_string() },
        ContextMemory { source: None, content: "beta".to_string() },
        ContextMemory { source: None, content: "gamma".to_string() },
    ];
    assert_eq!(
        format_memory_context(&ms, 1000),
        "## Relevant Context\n\n- [notes]: alpha\n- [unknown]: beta\n- [unknown]: gamma\n"
    );
    // heading is 21 bytes, first line 17: a budget of 38 keeps exactly one line
    assert_eq!(format_memory_context(&ms, 38), "## Relevant Context\n\n- [notes]: alpha\n");
    assert_eq!(format_memory_context(&ms, 37), "## Relevant Context\n\n");
    assert_eq!(format_memory_context(&ms, 0), "## Relevant Context\n\n");
}

#[test]
fn context_section_with_limits() {
    let docs = vec![
        ContextDocument { title: Some("Guide".to_string()), data: "read me".to_string() },
        ContextDocument { title: None, data: "second".to_string() },
    ];
    let f = PromptFormatter::new();
    assert_eq!(
        f.format_context_section(&docs),
        Some("--- CONTEXT DOCUMENTS ---\nStatic reference information:\n\nGuide: read me\nDocument 2: second".to_string())
    );
    let bare = PromptFormatter::new().with_headers(false).with_max_context_length(Some(20));
    assert_eq!(bare.format_context_section(&docs), Some("Guide: read me".to_string()));
    let tight = PromptFormatter::new().with_max_context_length(Some(60));
    assert_eq!(
        tight.format_context_section(&docs),
        Some("--- CONTEXT DOCUMENTS ---\nStatic reference information:\n\n[Additional documents truncated due to length limit]".to_string())
    );
    assert_eq!(f.format_context_section(&vec![]), None);
    assert_eq!(PromptFormatter::format_single_document(&docs[1], 7), "Document 7: second");
}

#[test]
fn tool_call_spread_over_many_tokens_parses_once() {
    let mut p = ToolCallParser::new();
    assert!(p.process_token("<tool_call>{\"name\":").is_none());
    assert!(p.process_token(" \"search\", \"arguments\"").is_none());
    assert!(p.process_token(": {\"q\": \"rust\"}").is_none());
    let call = p.process_token("}</tool_call> trailing").unwrap();
    assert_eq!(call.name, "search");
    assert_eq!(call.arguments, "{\"q\":\"rust\"}");
}
