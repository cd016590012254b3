use candle_memory::model_error::{CandleModelError, OptionExt, ResultExt, RouterError};

#[test]
fn test_model_error_display() {
    assert_eq!(
        CandleModelError::ModelNotFound { provider: "test".to_string(), name: "test".to_string() }.to_string(),
        "Model not found: test:test"
    );
    assert_eq!(
        CandleModelError::ProviderNotFound("test".to_string()).to_string(),
        "Provider not found: test"
    );
    assert_eq!(
        CandleModelError::ModelAlreadyExists { provider: "test".to_string(), name: "test".to_string() }.to_string(),
        "Model already registered: test:test"
    );
    assert_eq!(
        CandleModelError::InvalidConfiguration("test".to_string()).to_string(),
        "Invalid model configuration: test"
    );
    assert_eq!(
        CandleModelError::OperationNotSupported("test".to_string()).to_string(),
        "Operation not supported by model: test"
    );
    assert_eq!(CandleModelError::InvalidInput("test".to_string()).to_string(), "Invalid input: test");
    assert_eq!(CandleModelError::Internal("test".to_string()).to_string(), "Internal error: test");
}

#[test]
fn test_option_ext() {
    let some: Option<u32> = Some(42);
    assert_eq!(some.or_model_not_found("test", "test").unwrap(), 42);

    let none: Option<u32> = None;
    assert!(matches!(
        none.or_model_not_found("test", "test"),
        Err(CandleModelError::ModelNotFound { provider: _, name: _ })
    ));
}

#[derive(Debug, Clone)]
struct TestError(String);

#[test]
fn test_result_ext() {
    let ok: Result<u32, TestError> = Ok(42);
    assert_eq!(ok.clone().invalid_config("test").unwrap(), 42);
    assert_eq!(ok.not_supported("test").unwrap(), 42);

    let err: Result<u32, TestError> = Err(TestError("error".to_string()));
    assert!(matches!(err.clone().invalid_config("test"), Err(CandleModelError::InvalidConfiguration(_))));
    assert!(matches!(err.not_supported("test"), Err(CandleModelError::OperationNotSupported(_))));
}

#[test]
fn router_error_text() {
    assert_eq!(RouterError::ToolNotFound("calc".to_string()).to_string(), "Tool not found: calc");
    assert_eq!(RouterError::McpClientError("down".to_string()).to_string(), "MCP client error: down");
}
