use bongo_cat::llm::{chat_endpoint, ChatMessage, ChatResponse, ChatResponseOutput, ChatState, LLMProvider};

#[test]
fn types_test_chat_message_creation() {
    let user_msg = ChatMessage::user("Hello");
    assert_eq!(user_msg.role, "user");
    assert_eq!(user_msg.content, "Hello");

    let assistant_msg = ChatMessage::assistant("Hi there!");
    assert_eq!(assistant_msg.role, "assistant");
    assert_eq!(assistant_msg.content, "Hi there!");

    let system_msg = ChatMessage::system("You are a helpful assistant");
    assert_eq!(system_msg.role, "system");
    assert_eq!(system_msg.content, "You are a helpful assistant");
}

#[test]
fn chat_state_records_an_exchange_and_clears() {
    let mut state = ChatState::default();
    assert_eq!(state.history().len(), 0);
    state.record_exchange("hi", "hello");
    let h = state.history();
    assert_eq!(h.len(), 2);
    assert_eq!(h[0].role, "user");
    assert_eq!(h[0].content, "hi");
    assert_eq!(h[1].role, "assistant");
    assert_eq!(h[1].content, "hello");
    state.set_system_prompt("be kind".to_string());
    assert_eq!(state.system_prompt, "be kind");
    state.clear_messages();
    assert_eq!(state.history().len(), 0);
    assert_eq!(state.system_prompt, "be kind");
}

#[test]
fn chat_response_output_keeps_content_and_model() {
    let out: ChatResponseOutput = ChatResponseOutput::from(ChatResponse {
        content: "meow".to_string(),
        model: "m1".to_string(),
    });
    assert_eq!(out.content, "meow");
    assert_eq!(out.model, "m1");
}

#[test]
fn provider_defaults_to_deepseek() {
    assert_eq!(LLMProvider::default(), LLMProvider::DeepSeek);
    assert_eq!(LLMProvider::Kimi.to_display_string(), "kimi");
}

#[test]
fn duplicated_messages_are_equal() {
    let v = vec![ChatMessage::user("a"), ChatMessage::assistant("b")];
    let d = bongo_cat::llm::duplicate_messages(&v);
    assert_eq!(d.len(), 2);
    assert_eq!(d[1].role, "assistant");
    assert_eq!(d[1].content, "b");
}

#[test]
fn each_provider_has_its_chat_address() {
    assert_eq!(chat_endpoint(LLMProvider::DeepSeek, "x"), "https://api.deepseek.com/v1/chat/completions");
    assert_eq!(chat_endpoint(LLMProvider::Minimax, "x"), "https://api.minimaxi.com/v1/text/chatcompletion_v2");
    assert_eq!(chat_endpoint(LLMProvider::LlamaCpp, "http://localhost:8080"), "http://localhost:8080/v1/chat/completions");
}
