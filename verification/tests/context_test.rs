use bongo_cat::context::{
    build_context, build_long_term_section, build_profile_text, estimate_messages_tokens,
    estimate_tokens, truncate_text, ContextSources,
};
use bongo_cat::llm::ChatMessage;

#[test]
fn tokens_are_one_and_a_half_per_character() {
    assert_eq!(estimate_tokens("abcd"), 6);
    assert_eq!(estimate_tokens("你好"), 3);
    assert_eq!(estimate_tokens(""), 0);
    assert_eq!(estimate_messages_tokens(&[ChatMessage::user("abcd"), ChatMessage::assistant("ab")]), 17);
}

#[test]
fn truncation_keeps_fitting_text_and_cuts_the_rest() {
    assert_eq!(truncate_text("short", 100), "short");
    assert_eq!(truncate_text("abc", usize::MAX), "abc");
    assert_eq!(truncate_text("hello world", 4), "he");
    // The cut falls back to the last newline when it is far enough in.
    assert_eq!(truncate_text("abcd\nefghijklmnop", 9), "abcd");
    // A newline too close to the start is ignored.
    assert_eq!(truncate_text("a\nbcdefghijklmnop", 9), "a\nbcde");
}

#[test]
fn truncated_text_fits_its_budget() {
    let text = "x".repeat(1000);
    for budget in [0usize, 1, 2, 3, 10, 99, 500, 1499, 1500, 2000] {
        let t = truncate_text(&text, budget);
        assert!(estimate_tokens(&t) <= budget);
        assert!(text.starts_with(&t));
    }
}

#[test]
fn long_term_section_keeps_the_chosen_blocks() {
    let raw = "### 2024-W10 周\nweek text\n\n### 2024-03 月\nmonth text\n";
    assert_eq!(
        build_long_term_section(raw, 1, 0),
        "### 2024-W10 周\nweek text\n\n"
    );
    assert_eq!(build_long_term_section(raw, 0, 1), "### 2024-03 月\nmonth text\n");
    assert_eq!(build_long_term_section(raw, 0, 0), "");
    assert_eq!(build_long_term_section("", 4, 2), "");
    assert_eq!(build_long_term_section(raw, 4, 2), "### 2024-W10 周\nweek text\n\n### 2024-03 月\nmonth text\n");
}

#[test]
fn profile_section_lists_entries() {
    assert_eq!(build_profile_text(&[]), "");
    assert_eq!(
        build_profile_text(&[("k".to_string(), "v".to_string())]),
        "## 用户信息\n- k: v\n\n\n"
    );
}

fn sources(custom: &str, character: &str, preset: &str, recent: usize) -> ContextSources {
    let mut msgs = Vec::new();
    for i in 0..recent {
        if i % 2 == 0 {
            msgs.push(ChatMessage::user(&format!("q{}", i)));
        } else {
            msgs.push(ChatMessage::assistant(&format!("a{}", i)));
        }
    }
    ContextSources {
        custom_prompt: custom.to_string(),
        character_prompt: character.to_string(),
        preset_prompt: preset.to_string(),
        profile: Vec::new(),
        long_term: String::new(),
        recent: msgs,
    }
}

#[test]
fn context_has_system_recent_and_user_messages() {
    let src = sources("", "S", "", 2);
    let msgs = build_context(&src, "hi");
    assert_eq!(msgs.len(), 4);
    assert_eq!(msgs[0].role, "system");
    assert_eq!(msgs[0].content, "S\n\n");
    assert_eq!(msgs[1].content, "q0");
    assert_eq!(msgs[2].content, "a1");
    assert_eq!(msgs[3].role, "user");
    assert_eq!(msgs[3].content, "hi");
}

#[test]
fn context_without_any_prompt_has_no_system_message() {
    let src = sources("", "", "", 0);
    let msgs = build_context(&src, "hi");
    assert_eq!(msgs.len(), 1);
    assert_eq!(msgs[0].role, "user");
}

#[test]
fn context_keeps_at_most_thirty_recent_messages() {
    let src = sources("", "", "", 40);
    let msgs = build_context(&src, "hi");
    assert_eq!(msgs.len(), 31);
    assert_eq!(msgs[0].content, "q10");
}

#[test]
fn over_budget_context_falls_back_and_keeps_the_user_message() {
    // A custom prompt is not capped, so no trimming level fits: the last resort keeps
    // five recent messages and the user's message last.
    let custom = "c".repeat(70_000);
    let src = sources(&custom, "S", &"p".repeat(2000), 10);
    let msgs = build_context(&src, "hi");
    assert_eq!(msgs.len(), 7);
    assert_eq!(msgs[1].content, "a5");
    assert_eq!(msgs[6].role, "user");
    assert_eq!(msgs[6].content, "hi");
    let expected_system = format!("{}\n\nS\n\n{}\n\n", custom, "p".repeat(500));
    assert_eq!(msgs[0].content, expected_system);
}

#[test]
fn blocks_beyond_the_limit_are_dropped_whole() {
    assert_eq!(build_long_term_section("### W1 周\nA\n### W2 周\nB\n", 1, 0), "### W1 周\nA\n");
    assert_eq!(
        build_long_term_section("intro\n### W1 周\nA\n### M1 月\nC\n### W2 周\nB\n### M2 月\nD\n", 1, 1),
        "intro\n### W1 周\nA\n### M1 月\nC\n"
    );
}

#[test]
fn long_term_memory_is_trimmed_before_recent_messages() {
    // Thirty long messages fit only once two weekly summaries are dropped; twenty would
    // fit with all four, but the recent messages are kept first.
    let mut src = sources("", "", "", 0);
    for i in 0..40 {
        src.recent.push(ChatMessage::user(&format!("{:04}{}", i, "m".repeat(996))));
    }
    let mut raw = String::new();
    for w in 1..=4 {
        raw.push_str(&format!("### W{} 周\n{}\n", w, "x".repeat(10_000)));
    }
    src.long_term = raw;
    let msgs = build_context(&src, "hi");
    assert_eq!(msgs.len(), 32);
    assert!(msgs[0].content.contains("### W2 周"));
    assert!(!msgs[0].content.contains("### W3 周"));
    assert!(msgs[1].content.starts_with("0010"));
    assert!(estimate_messages_tokens(&msgs) <= 96_000);
}
