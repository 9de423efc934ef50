use bongo_cat::json::JsonValue;
use bongo_cat::llm::ChatMessage;
use bongo_cat::sources::{
    build_long_term_memory, name_less, newest_json_files, profile_entries_of, profile_entries_with, short_term_messages,
};

fn s(t: &str) -> JsonValue {
    JsonValue::Str(t.to_string())
}

fn obj(entries: Vec<(&str, JsonValue)>) -> JsonValue {
    JsonValue::Object(entries.into_iter().map(|(k, v)| (k.to_string(), v)).collect())
}

fn strs(v: &[&str]) -> Vec<String> {
    v.iter().map(|x| x.to_string()).collect()
}

#[test]
fn names_compare_by_code_point() {
    assert!(name_less("a", "b"));
    assert!(name_less("ab", "abc"));
    assert!(!name_less("abc", "ab"));
    assert!(!name_less("a", "a"));
    assert!(name_less("Z", "a"));
    assert!(name_less("z", "周"));
}

#[test]
fn newest_summary_files_come_first() {
    let names = strs(&["2024-W08.json", "2024-W10.json", "notes.txt", ".json", "2024-W09.json", "x.JSON"]);
    assert_eq!(newest_json_files(names.clone(), 2), strs(&["2024-W10.json", "2024-W09.json"]));
    assert_eq!(newest_json_files(names, 10), strs(&["2024-W10.json", "2024-W09.json", "2024-W08.json"]));
    assert!(newest_json_files(vec![], 4).is_empty());
}

#[test]
fn long_term_memory_is_made_of_summary_blocks() {
    let weekly = vec![
        Some(obj(vec![("summary", s("S")), ("week", s("2024-W10"))])),
        None,
        Some(obj(vec![("summary", s("no week"))])),
    ];
    let monthly = vec![Some(obj(vec![("relationship_growth", s("G")), ("month", s("2024-03"))]))];
    assert_eq!(build_long_term_memory(&weekly, &monthly), "### 2024-W10 周\nS\n\n### 2024-03 月\nG\n\n");
    assert_eq!(build_long_term_memory(&vec![], &vec![]), "");
}

#[test]
fn a_flat_profile_is_used_as_it_is() {
    let doc = obj(vec![("name", s("A")), ("city", s("B"))]);
    let e = profile_entries_of(Some(&doc));
    assert_eq!(e, vec![("name".to_string(), "A".to_string()), ("city".to_string(), "B".to_string())]);
}

#[test]
fn a_stored_profile_gives_its_short_form() {
    let doc = obj(vec![
        ("user_name", s("A")),
        ("traits", JsonValue::Array(vec![s("x"), s("y")])),
        ("preferences", obj(vec![("k", s("v")), ("a", s("b\"c"))])),
        ("important_dates", JsonValue::Null),
        ("recent_interactions", JsonValue::Array(vec![])),
    ]);
    let e = profile_entries_of(Some(&doc));
    assert_eq!(
        e,
        vec![
            ("用户名".to_string(), "A".to_string()),
            ("性格特点".to_string(), "x, y".to_string()),
            ("用户偏好".to_string(), "{\"a\":\"b\\\"c\",\"k\":\"v\"}".to_string()),
        ]
    );
}

#[test]
fn a_profile_of_the_wrong_shape_gives_nothing() {
    let bad = obj(vec![("traits", JsonValue::Array(vec![s("x"), JsonValue::Number(Some(1))]))]);
    assert!(profile_entries_of(Some(&bad)).is_empty());
    assert!(profile_entries_of(Some(&s("text"))).is_empty());
    assert!(profile_entries_of(None).is_empty());
    let arr = JsonValue::Array(vec![s("N"), JsonValue::Null, JsonValue::Null, JsonValue::Null]);
    assert_eq!(profile_entries_of(Some(&arr)), vec![("用户名".to_string(), "N".to_string())]);
}

#[test]
fn short_term_memory_is_the_last_thirty_messages() {
    let msgs: Vec<ChatMessage> = (0..35).map(|i| ChatMessage::user(&format!("m{}", i))).collect();
    let r = short_term_messages(msgs);
    assert_eq!(r.len(), 30);
    assert_eq!(r[0].content, "m5");
    assert_eq!(r[29].content, "m34");
    assert_eq!(short_term_messages(vec![ChatMessage::user("x")]).len(), 1);
}

#[test]
fn the_short_form_uses_the_given_map_texts() {
    let doc = obj(vec![
        ("user_name", JsonValue::Null),
        ("preferences", obj(vec![("k", s("v"))])),
        ("important_dates", obj(vec![])),
    ]);
    assert_eq!(
        profile_entries_with(Some(&doc), "P", "D"),
        vec![("用户偏好".to_string(), "P".to_string()), ("重要日期".to_string(), "D".to_string())]
    );
    assert_eq!(
        profile_entries_of(Some(&doc)),
        vec![("用户偏好".to_string(), "{\"k\":\"v\"}".to_string()), ("重要日期".to_string(), "{}".to_string())]
    );
}
