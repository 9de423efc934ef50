use bongo_cat::json::JsonValue;
use bongo_cat::llm::ChatMessage;
use bongo_cat::profile::{Interaction, SpecialMemory, UserProfile};
use bongo_cat::profile_reply::{apply_profile_update, update_profile_from_reply};
use bongo_cat::profile_update::{
    auto_update_due, build_profile_summary, build_rebuild_prompt, build_transcript, check_profile_update_needed,
    count_user_messages, rebuild_request, recent_user_messages, transcript_with_times, TimedMessage, PROMPT_PART_0,
};

fn s(t: &str) -> JsonValue {
    JsonValue::Str(t.to_string())
}

fn obj(entries: Vec<(&str, JsonValue)>) -> JsonValue {
    JsonValue::Object(entries.into_iter().map(|(k, v)| (k.to_string(), v)).collect())
}

fn timed(ts: i64, m: ChatMessage) -> TimedMessage {
    TimedMessage { timestamp: ts, message: m }
}

#[test]
fn user_messages_are_counted_over_days() {
    let days = vec![
        vec![ChatMessage::user("a"), ChatMessage::assistant("b")],
        vec![ChatMessage::user("c")],
        vec![],
    ];
    assert_eq!(count_user_messages(&days), 2);
}

#[test]
fn automatic_rebuild_every_fifty_messages() {
    assert!(auto_update_due(100, 50));
    assert!(!auto_update_due(99, 50));
    assert!(!auto_update_due(10, 50));
}

#[test]
fn a_requested_rebuild_needs_new_messages() {
    let mut p = UserProfile::default();
    p.last_update_conversation_count = 5;
    assert!(check_profile_update_needed(None, 0).is_ok());
    assert_eq!(check_profile_update_needed(Some(&p), 5).err(), Some("画像已是最新，无需更新".to_string()));
    assert!(check_profile_update_needed(Some(&p), 0).is_err());
    assert!(check_profile_update_needed(Some(&p), 6).is_ok());
}

#[test]
fn recent_user_messages_are_newest_first() {
    let all = vec![
        timed(3, ChatMessage::user("c")),
        timed(1, ChatMessage::user("a")),
        timed(2, ChatMessage::assistant("b")),
        timed(5, ChatMessage::user("e")),
    ];
    let r = recent_user_messages(all);
    let texts: Vec<&str> = r.iter().map(|m| m.message.content.as_str()).collect();
    assert_eq!(texts, vec!["e", "c", "a"]);
}

#[test]
fn at_most_fifty_recent_messages() {
    let all: Vec<TimedMessage> = (0..60).map(|i| timed(i, ChatMessage::user(&format!("m{}", i)))).collect();
    let r = recent_user_messages(all);
    assert_eq!(r.len(), 50);
    assert_eq!(r[0].message.content, "m59");
    assert_eq!(r[49].message.content, "m10");
}

#[test]
fn transcript_lines_carry_time_and_speaker() {
    let msgs = vec![
        timed(1709875200, ChatMessage::user("hi")),
        timed(1709875260, ChatMessage::assistant("hello")),
        timed(i64::MAX, ChatMessage { role: "tool".to_string(), content: "x".to_string() }),
    ];
    assert_eq!(
        build_transcript(&msgs),
        "[2024-03-08 05:20] 我: hi\n[2024-03-08 05:21] Bongo: hello\n[未知时间] tool: x"
    );
}

#[test]
fn summary_of_an_empty_profile() {
    assert_eq!(
        build_profile_summary(&UserProfile::default()),
        "旧用户画像：\n- 用户名: 未知\n- 性格特点: 暂无\n- 偏好: 暂无\n- 重要日期: 暂无\n- 最近互动: 暂无\n- 专属回忆: 暂无"
    );
}

#[test]
fn summary_of_a_filled_profile() {
    let mut p = UserProfile::default();
    p.user_name = Some("小明".to_string());
    p.traits = vec!["开朗".to_string(), "细心".to_string()];
    p.preferences.insert("音乐".to_string(), "古典".to_string());
    p.recent_interactions = vec![Interaction {
        date: "2024-01-01".to_string(),
        activity: "听歌".to_string(),
        summary: "很开心".to_string(),
    }];
    p.special_memories = vec![SpecialMemory {
        title: "初见".to_string(),
        description: "第一次聊天".to_string(),
        date: String::new(),
        tags: vec![],
    }];
    assert_eq!(
        build_profile_summary(&p),
        "旧用户画像：\n- 用户名: 小明\n- 性格特点: 开朗, 细心\n- 偏好: 音乐: 古典\n- 重要日期: 暂无\n- 最近互动: 2024-01-01: 听歌 - 很开心\n- 专属回忆: 初见: 第一次聊天"
    );
}

#[test]
fn a_rebuild_needs_a_user_message() {
    let p = UserProfile::default();
    assert_eq!(rebuild_request(&p, vec![]).err(), Some("暂无对话数据".to_string()));
    assert_eq!(
        rebuild_request(&p, vec![timed(1, ChatMessage::assistant("only me"))]).err(),
        Some("暂无对话数据".to_string())
    );
    let msgs = vec![timed(1709875200, ChatMessage::user("hi"))];
    let req = rebuild_request(&p, msgs).ok().unwrap();
    assert_eq!(req.messages.len(), 1);
    assert_eq!(req.messages[0].role, "user");
    assert_eq!(req.temperature_percent, 70);
    assert_eq!(req.max_tokens, 2000);
    let prompt = req.messages[0].content.clone();
    assert!(prompt.starts_with(PROMPT_PART_0));
    assert!(prompt.contains("[2024-03-08 05:20] 我: hi"));
    let direct = build_rebuild_prompt(&p, &vec![timed(1709875200, ChatMessage::user("hi"))]);
    assert_eq!(prompt, direct);
}

#[test]
fn an_answer_rebuilds_the_profile() {
    let mut p = UserProfile::default();
    p.important_dates.insert("生日".to_string(), "01-01".to_string());
    p.special_memories = vec![SpecialMemory {
        title: "t".to_string(),
        description: "d".to_string(),
        date: String::new(),
        tags: vec![],
    }];
    let data = obj(vec![
        ("user_name", s("小明")),
        ("traits", JsonValue::Array(vec![s("a"), JsonValue::Number(Some(1)), s("b")])),
        ("preferences", obj(vec![("k", s("v")), ("n", JsonValue::Number(Some(3)))])),
        (
            "recent_interactions",
            JsonValue::Array(vec![
                obj(vec![("date", s("2024-01-02")), ("activity", s("散步"))]),
                obj(vec![("date", s("2024-01-03"))]),
            ]),
        ),
        ("special_memories", s("not a list")),
    ]);
    apply_profile_update(&mut p, &data, "2024-03-08 10:00:00".to_string(), 42);
    assert_eq!(p.user_name, Some("小明".to_string()));
    assert_eq!(p.traits, vec!["a".to_string(), "b".to_string()]);
    assert_eq!(p.preferences.len(), 1);
    assert_eq!(p.preferences.get("k"), Some(&"v".to_string()));
    assert_eq!(p.important_dates.get("生日"), Some(&"01-01".to_string()));
    assert_eq!(p.recent_interactions.len(), 1);
    assert_eq!(p.recent_interactions[0].activity, "散步");
    assert_eq!(p.recent_interactions[0].summary, "");
    assert_eq!(p.special_memories.len(), 1);
    assert_eq!(p.last_updated, "2024-03-08 10:00:00");
    assert_eq!(p.last_update_conversation_count, 42);
}

#[test]
fn reading_the_same_answer_twice_changes_nothing_more() {
    let data = obj(vec![
        ("traits", JsonValue::Array(vec![s("a")])),
        ("preferences", obj(vec![("k", s("v"))])),
        (
            "special_memories",
            JsonValue::Array(vec![obj(vec![
                ("title", s("t")),
                ("description", s("d")),
                ("tags", JsonValue::Array(vec![s("x")])),
            ])]),
        ),
    ]);
    let mut p = UserProfile::default();
    apply_profile_update(&mut p, &data, "now".to_string(), 1);
    apply_profile_update(&mut p, &data, "now".to_string(), 1);
    assert_eq!(p.user_name, None);
    assert_eq!(p.traits, vec!["a".to_string()]);
    assert_eq!(p.preferences.len(), 1);
    assert_eq!(p.special_memories.len(), 1);
    assert_eq!(p.special_memories[0].tags, vec!["x".to_string()]);
    assert_eq!(p.special_memories[0].date, "");
}

#[test]
fn an_unreadable_answer_is_an_error() {
    let r = update_profile_from_reply(UserProfile::default(), None, "now".to_string(), 3);
    assert_eq!(r.err(), Some("无法解析用户画像".to_string()));
    let ok = update_profile_from_reply(UserProfile::default(), Some(&obj(vec![])), "now".to_string(), 3);
    assert_eq!(ok.ok().unwrap().last_update_conversation_count, 3);
}

#[test]
fn transcript_lines_use_the_given_times() {
    let msgs = vec![timed(1, ChatMessage::user("hi")), timed(2, ChatMessage::assistant("yo"))];
    assert_eq!(
        transcript_with_times(&msgs, &vec![Some("T1".to_string()), None]),
        "[T1] 我: hi\n[未知时间] Bongo: yo"
    );
    assert_eq!(transcript_with_times(&vec![], &vec![]), "");
}
