use bongo_cat::config::{
    get_current_character_voice_id_internal, llm_config_from, merge_by_id, parse_provider,
    character_briefs, Character, LLMConfig, LLMConfigData, MinimaxConfig, ProviderConfig, TTSConfig,
};
use bongo_cat::llm::LLMProvider;

#[test]
fn test_tts_config_default() {
    let config = TTSConfig::default();
    assert_eq!(config.enabled, false);
    assert_eq!(config.base_url, "http://localhost:9880");
    assert_eq!(config.default_voice_id, "suyao");
}

#[test]
fn test_llm_config_default() {
    let config = LLMConfig::default();
    assert_eq!(config.provider, LLMProvider::DeepSeek);
    assert_eq!(config.model, "deepseek-v4-flash");
    assert_eq!(f32::from_bits(config.temperature_bits), 0.8);
}

#[test]
fn test_llm_provider_display() {
    assert_eq!(LLMProvider::DeepSeek.to_display_string(), "deepseek");
    assert_eq!(LLMProvider::Minimax.to_display_string(), "minimax");
    assert_eq!(LLMProvider::LlamaCpp.to_display_string(), "llama.cpp");
}

fn provider(key: &str, url: &str, model: &str) -> ProviderConfig {
    ProviderConfig { api_key: key.to_string(), base_url: url.to_string(), model: model.to_string() }
}

fn llm_data(name: &str) -> LLMConfigData {
    LLMConfigData {
        provider: name.to_string(),
        deepseek: provider("dk", "https://d", "dm"),
        minimax: MinimaxConfig { api_key: "mk".to_string(), model: "mm".to_string() },
        ollama: provider("ok", "http://o", "om"),
        temperature_bits: 0.5f32.to_bits(),
        max_tokens: 300,
        stream: true,
    }
}

#[test]
fn provider_names_map_to_providers() {
    assert_eq!(parse_provider("minimax"), LLMProvider::Minimax);
    assert_eq!(parse_provider("ollama"), LLMProvider::LlamaCpp);
    assert_eq!(parse_provider("deepseek"), LLMProvider::DeepSeek);
    assert_eq!(parse_provider("something else"), LLMProvider::DeepSeek);
}

#[test]
fn llm_config_takes_the_chosen_section() {
    let c = llm_config_from(llm_data("minimax"));
    assert_eq!(c.provider, LLMProvider::Minimax);
    assert_eq!(c.api_key, "mk");
    assert_eq!(c.base_url, "https://api.minimax.chat/v1");
    assert_eq!(c.model, "mm");
    assert_eq!(c.max_tokens, 300);
    assert!(c.stream);
    assert_eq!(f32::from_bits(c.temperature_bits), 0.5);
    let o = llm_config_from(llm_data("ollama"));
    assert_eq!(o.provider, LLMProvider::LlamaCpp);
    assert_eq!(o.base_url, "http://o");
    let d = llm_config_from(llm_data("unknown"));
    assert_eq!(d.provider, LLMProvider::DeepSeek);
    assert_eq!(d.model, "dm");
}

fn character(id: &str, name: &str, voice: Option<&str>) -> Character {
    Character {
        id: id.to_string(),
        name: name.to_string(),
        description: format!("{} description", name),
        avatar: "a.png".to_string(),
        preferred_address: "you".to_string(),
        system_prompt: "sys".to_string(),
        preset_prompt: "pre".to_string(),
        voice_id: voice.map(|v| v.to_string()),
    }
}

#[test]
fn user_characters_win_over_builtin_ones_with_the_same_id() {
    let user = vec![character("cat", "My cat", None)];
    let builtin = vec![character("dog", "Dog", None), character("cat", "Builtin cat", None)];
    let merged = merge_by_id(user, builtin);
    assert_eq!(merged.len(), 2);
    assert_eq!(merged[0].name, "My cat");
    assert_eq!(merged[1].id, "dog");
}

#[test]
fn briefs_keep_the_listing_fields() {
    let briefs = character_briefs(vec![character("cat", "Cat", None)]);
    assert_eq!(briefs.len(), 1);
    assert_eq!(briefs[0].id, "cat");
    assert_eq!(briefs[0].name, "Cat");
    assert_eq!(briefs[0].description, "Cat description");
    assert_eq!(briefs[0].preferred_address, "you");
}

#[test]
fn voice_of_the_current_character() {
    let c = character("cat", "Cat", Some("v1"));
    assert_eq!(get_current_character_voice_id_internal(Some(&c)), Some("v1".to_string()));
    assert_eq!(get_current_character_voice_id_internal(None), None);
}
