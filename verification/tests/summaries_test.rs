use bongo_cat::json::JsonValue;
use bongo_cat::keyed::KeyedList;
use bongo_cat::llm::ChatMessage;
use bongo_cat::summaries::{
    build_monthly_prompt, build_quarterly_prompt, build_weekly_prompt, build_yearly_prompt,
    collect_conversation_lines, collect_monthly_lines, collect_quarterly_lines, monthly_summary_from,
    quarterly_summary_from, weekly_summary_from, yearly_summary_from, MonthlySummary, QuarterlySummary,
    MONTHLY_PROMPT_HEAD, QUARTERLY_PROMPT_TAIL, WEEKLY_PROMPT_HEAD, WEEKLY_PROMPT_MIDDLE, YEARLY_PROMPT_HEAD,
};

fn s(t: &str) -> JsonValue {
    JsonValue::Str(t.to_string())
}

fn obj(entries: Vec<(&str, JsonValue)>) -> JsonValue {
    JsonValue::Object(entries.into_iter().map(|(k, v)| (k.to_string(), v)).collect())
}

fn strs(v: &[&str]) -> Vec<String> {
    v.iter().map(|x| x.to_string()).collect()
}

#[test]
fn conversation_lines_name_the_speaker() {
    let days = vec![vec![ChatMessage::user("hi"), ChatMessage::assistant("yo")], vec![ChatMessage::user("bye")]];
    assert_eq!(collect_conversation_lines(&days), strs(&["user: hi", "assistant: yo", "user: bye"]));
}

#[test]
fn weekly_request_holds_the_record_and_its_size() {
    let lines = strs(&["user: hi", "assistant: yo", "user: bye"]);
    let p = build_weekly_prompt(&lines).unwrap();
    assert_eq!(
        p,
        format!("{}user: hi\nassistant: yo\nuser: bye{}3}}", WEEKLY_PROMPT_HEAD, WEEKLY_PROMPT_MIDDLE)
    );
    assert!(p.ends_with("\"chat_count\": 3}"));
    assert!(build_weekly_prompt(&vec![]).is_none());
}

#[test]
fn other_requests_are_skipped_without_material() {
    assert!(build_monthly_prompt(&vec![]).is_none());
    assert!(build_quarterly_prompt(&vec![]).is_none());
    assert!(build_yearly_prompt(&vec![]).is_none());
    let m = build_monthly_prompt(&strs(&["a", "b"])).unwrap();
    assert!(m.starts_with(MONTHLY_PROMPT_HEAD));
    assert!(m.contains("a\nb"));
    let q = build_quarterly_prompt(&strs(&["x"])).unwrap();
    assert!(q.ends_with(QUARTERLY_PROMPT_TAIL));
    let y = build_yearly_prompt(&strs(&["y"])).unwrap();
    assert!(y.starts_with(YEARLY_PROMPT_HEAD));
}

fn month(label: &str, growth: &str, milestones: &[&str]) -> MonthlySummary {
    MonthlySummary {
        month: label.to_string(),
        emotion_distribution: KeyedList::new(),
        topics: vec![],
        relationship_growth: growth.to_string(),
        milestones: strs(milestones),
    }
}

#[test]
fn quarterly_lines_take_this_years_months() {
    let months = vec![month("2024-01", "g", &["a", "b"]), month("2023-12", "old", &[]), month("2024-02", "h", &[])];
    assert_eq!(collect_monthly_lines(&months, "2024", 1), strs(&["2024-01: g - a, b", "2024-02: h - "]));
}

#[test]
fn quarterly_lines_take_only_the_quarters_months() {
    let months = vec![
        month("2024-01", "a", &[]),
        month("2024-05", "b", &[]),
        month("2023-02", "c", &[]),
        month("2024-03", "d", &["m"]),
        month("2024-04", "e", &[]),
    ];
    assert_eq!(collect_monthly_lines(&months, "2024", 1), strs(&["2024-01: a - ", "2024-03: d - m"]));
    assert_eq!(collect_monthly_lines(&months, "2024", 2), strs(&["2024-05: b - ", "2024-04: e - "]));
    assert_eq!(collect_monthly_lines(&months, "2024", 4), strs(&[]));
}

#[test]
fn yearly_lines_take_this_years_quarters() {
    let q = |label: &str, summary: &str, events: &[&str]| QuarterlySummary {
        quarter: label.to_string(),
        date_range: String::new(),
        keywords: vec![],
        summary: summary.to_string(),
        important_events: strs(events),
        milestone: String::new(),
    };
    let quarters = vec![q("2024-Q1", "s", &["e1", "e2"]), q("2023-Q4", "t", &[])];
    assert_eq!(collect_quarterly_lines(&quarters, "2024"), strs(&["2024-Q1: s - e1, e2"]));
}

#[test]
fn weekly_answer_becomes_a_record() {
    let data = obj(vec![
        ("keywords", JsonValue::Array(vec![s("忙碌"), JsonValue::Null])),
        ("summary", s("本周")),
        ("chat_count", JsonValue::Number(Some(5))),
    ]);
    let w = weekly_summary_from(&data, "2024-W10".to_string(), "2024-03-04", "2024-03-10");
    assert_eq!(w.week, "2024-W10");
    assert_eq!(w.date_range, "2024-03-04 ~ 2024-03-10");
    assert_eq!(w.keywords, strs(&["忙碌"]));
    assert!(w.emotion_arc.is_empty());
    assert_eq!(w.summary, "本周");
    assert_eq!(w.chat_count, 5);
    let big = obj(vec![("chat_count", JsonValue::Number(Some(4_294_967_297)))]);
    assert_eq!(weekly_summary_from(&big, String::new(), "a", "b").chat_count, 1);
    assert_eq!(weekly_summary_from(&obj(vec![]), String::new(), "a", "b").chat_count, 0);
}

#[test]
fn monthly_answer_keeps_integer_emotions() {
    let data = obj(vec![
        ("emotion_distribution", obj(vec![("happy", JsonValue::Number(Some(40))), ("tired", s("x"))])),
        ("topics", JsonValue::Array(vec![s("工作")])),
        ("relationship_growth", s("更亲近")),
    ]);
    let m = monthly_summary_from(&data, "2024-03".to_string());
    assert_eq!(m.month, "2024-03");
    assert_eq!(m.emotion_distribution.len(), 1);
    assert_eq!(m.emotion_distribution.get("happy"), Some(&40));
    assert_eq!(m.topics, strs(&["工作"]));
    assert_eq!(m.relationship_growth, "更亲近");
    assert!(m.milestones.is_empty());
}

#[test]
fn quarterly_and_yearly_answers_become_records() {
    let data = obj(vec![("summary", s("s")), ("milestone", s("m")), ("memorable_moments", JsonValue::Array(vec![s("x")]))]);
    let q = quarterly_summary_from(&data, "2024-Q1".to_string(), 1);
    assert_eq!(q.quarter, "2024-Q1");
    assert_eq!(q.date_range, "1季度");
    assert_eq!(q.summary, "s");
    assert_eq!(q.milestone, "m");
    let y = yearly_summary_from(&data, "2024".to_string());
    assert_eq!(y.year, "2024");
    assert_eq!(y.memorable_moments, strs(&["x"]));
    assert_eq!(y.relationship_growth, "");
}
