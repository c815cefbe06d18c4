use easyhyoka::completion::{
    authorization_value, build_request, extract_summary, ChatMessage, CompletionReply,
    COMPLETION_ENDPOINT, MODEL, SYSTEM_INSTRUCTION, TEMPERATURE_TENTHS,
};
use easyhyoka::error::PipelineError;
use easyhyoka::text::decimal_string;

#[test]
fn request_has_the_instruction_and_the_prompt() {
    let request = build_request("the prompt".to_string());
    assert_eq!(request.model, "gpt-4.1-mini-2025-04-14");
    assert_eq!(request.model, MODEL);
    assert_eq!(request.temperature_tenths, 7);
    assert_eq!(request.temperature_tenths, TEMPERATURE_TENTHS);
    assert_eq!(request.temperature_tenths as f32 / 10.0, 0.7f32);
    assert_eq!(
        request.messages,
        vec![
            ChatMessage { role: "system".to_string(), content: SYSTEM_INSTRUCTION.to_string() },
            ChatMessage { role: "user".to_string(), content: "the prompt".to_string() },
        ]
    );
    assert!(SYSTEM_INSTRUCTION.starts_with("あなたはエンジニアの評価を最大化することを目的としたAIアシスタントです。"));
    assert!(SYSTEM_INSTRUCTION.ends_with("適切に評価してください。"));
    assert_eq!(COMPLETION_ENDPOINT, "https://api.openai.com/v1/chat/completions");
}

#[test]
fn authorization_is_a_bearer_credential() {
    assert_eq!(authorization_value("key-123"), "Bearer key-123");
    assert_eq!(authorization_value(""), "Bearer ");
}

#[test]
fn first_choice_is_the_summary() {
    let reply = CompletionReply::Completed {
        choices: vec!["first".to_string(), "second".to_string(), "third".to_string()],
    };
    assert_eq!(extract_summary(reply), Ok("first".to_string()));
    let single = CompletionReply::Completed { choices: vec!["".to_string()] };
    assert_eq!(extract_summary(single), Ok("".to_string()));
}

#[test]
fn no_choice_is_no_completion() {
    let reply = CompletionReply::Completed { choices: Vec::new() };
    assert_eq!(extract_summary(reply), Err(PipelineError::NoCompletionError));
}

#[test]
fn non_success_surfaces_the_body() {
    let reply = CompletionReply::Rejected { body: "{\"error\":\"rate limited\"}".to_string() };
    assert_eq!(
        extract_summary(reply),
        Err(PipelineError::UpstreamError { body: "{\"error\":\"rate limited\"}".to_string() })
    );
}

#[test]
fn errors_report_stage_and_detail() {
    let source = PipelineError::SourceUnavailable { detail: "gh: not found".to_string() };
    assert_eq!(source.message(), "activity query failed: gh: not found");
    assert!(source.fatal());
    let upstream = PipelineError::UpstreamError { body: "boom".to_string() };
    assert_eq!(upstream.message(), "completion endpoint error: boom");
    assert!(upstream.fatal());
    assert_eq!(
        PipelineError::NoCompletionError.message(),
        "completion endpoint returned no choices"
    );
    assert!(PipelineError::NoCompletionError.fatal());
    assert_eq!(
        PipelineError::SerializationFailed.message(),
        "structured payload could not be built"
    );
    assert!(PipelineError::SerializationFailed.fatal());
    assert_eq!(PipelineError::CommentFetchFailed.message(), "comment query failed");
    assert!(!PipelineError::CommentFetchFailed.fatal());
}

#[test]
fn numbers_are_written_in_decimal() {
    assert_eq!(decimal_string(0), "0");
    assert_eq!(decimal_string(7), "7");
    assert_eq!(decimal_string(10), "10");
    assert_eq!(decimal_string(1000), "1000");
    assert_eq!(decimal_string(9876543210), "9876543210");
    assert_eq!(decimal_string(u64::MAX), "18446744073709551615");
}
