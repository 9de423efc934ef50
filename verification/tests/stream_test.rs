use bongo_cat::extract::{choose_json_text, extract_json_text, json_candidates};
use bongo_cat::json::JsonValue;
use bongo_cat::stream::{collect_deltas, deltas_of_chunk, feed_stream};

#[test]
fn complete_data_lines_are_read() {
    let mut buf = String::new();
    let out = feed_stream(&mut buf, b"data: hello\ndata: [DONE]\n");
    // A line keeps its newline, so the end marker is passed on like any other payload.
    assert_eq!(out, vec!["hello\n".to_string(), "[DONE]\n".to_string()]);
    assert_eq!(buf, "");
}

#[test]
fn payloads_keep_their_line_ending() {
    let mut buf = String::new();
    let out = feed_stream(&mut buf, b": comment\ndata: data: x\n\ndata: tail");
    assert_eq!(out, vec!["x\n".to_string()]);
    assert_eq!(buf, "data: tail");
}

#[test]
fn cutting_the_stream_differently_reads_the_same() {
    let text = "data: one\ndata: two\n\ndata: three\nda";
    let mut whole = String::new();
    let all = feed_stream(&mut whole, text.as_bytes());
    for cut in 0..=text.len() {
        let mut buf = String::new();
        let mut got = feed_stream(&mut buf, text[..cut].as_bytes());
        got.extend(feed_stream(&mut buf, text[cut..].as_bytes()));
        assert_eq!(got, all);
        assert_eq!(buf, whole);
    }
    assert_eq!(all, vec!["one\n".to_string(), "two\n".to_string(), "three\n".to_string()]);
    assert_eq!(whole, "da");
}

#[test]
fn invalid_bytes_change_nothing() {
    let mut buf = "data: par".to_string();
    let out = feed_stream(&mut buf, &[0xff, 0xfe]);
    assert!(out.is_empty());
    assert_eq!(buf, "data: par");
    let out2 = feed_stream(&mut buf, "tial\n".as_bytes());
    assert_eq!(out2, vec!["partial\n".to_string()]);
}

#[test]
fn json_is_taken_whole_when_it_parses() {
    assert_eq!(extract_json_text("{\"a\": 1}"), Some("{\"a\": 1}".to_string()));
    assert_eq!(extract_json_text("[1, 2]"), Some("[1, 2]".to_string()));
}

#[test]
fn json_is_found_between_braces() {
    assert_eq!(
        extract_json_text("Here:\n```json\n{\"a\": 1}\n```"),
        Some("{\"a\": 1}".to_string())
    );
    assert_eq!(
        extract_json_text("The profile is {\"name\": \"x\"} as asked."),
        Some("{\"name\": \"x\"}".to_string())
    );
}

#[test]
fn a_fenced_block_is_read_after_the_whole_fence() {
    assert_eq!(extract_json_text("```json\n[1,2]\n```"), Some("[1,2]".to_string()));
    assert_eq!(extract_json_text("Note ```JSON\n{\"k\": true}\n``` end"), Some("{\"k\": true}".to_string()));
    assert_eq!(extract_json_text("x ```jsonull``` y"), None);
}

#[test]
fn text_without_json_gives_nothing() {
    assert_eq!(extract_json_text("no json here"), None);
    assert_eq!(extract_json_text("} backwards {"), None);
    assert_eq!(extract_json_text("{ not json }"), None);
}

#[test]
fn candidates_are_the_fenced_block_and_the_braced_span() {
    assert_eq!(
        json_candidates("Here:\n```json\n{\"a\": 1}\n```"),
        (Some("{\"a\": 1}".to_string()), Some("{\"a\": 1}".to_string()))
    );
    assert_eq!(json_candidates("x ```jsonull``` y"), (Some("ull".to_string()), None));
    assert_eq!(json_candidates("```JSON\n[1]\n```"), (Some("[1]".to_string()), None));
    assert_eq!(json_candidates("no"), (None, None));
    assert_eq!(json_candidates("```json but no end {x}"), (None, Some("{x}".to_string())));
}

#[test]
fn the_first_text_that_parses_is_chosen() {
    let f = || Some("F".to_string());
    let b = || Some("B".to_string());
    assert_eq!(choose_json_text("T", true, f(), true, b(), true), Some("T".to_string()));
    assert_eq!(choose_json_text("T", false, f(), true, b(), true), Some("F".to_string()));
    assert_eq!(choose_json_text("T", false, f(), false, b(), true), Some("B".to_string()));
    assert_eq!(choose_json_text("T", false, None, true, None, true), None);
    assert_eq!(choose_json_text("T", false, f(), false, b(), false), None);
}

fn obj(entries: Vec<(&str, JsonValue)>) -> JsonValue {
    JsonValue::Object(entries.into_iter().map(|(k, v)| (k.to_string(), v)).collect())
}

fn chunk(texts: Vec<Option<&str>>) -> JsonValue {
    let choices = texts
        .into_iter()
        .map(|t| match t {
            Some(x) => obj(vec![("delta", obj(vec![("content", JsonValue::Str(x.to_string()))]))]),
            None => obj(vec![("delta", obj(vec![]))]),
        })
        .collect();
    obj(vec![("id", JsonValue::Str("c1".to_string())), ("choices", JsonValue::Array(choices))])
}

#[test]
fn a_chunk_gives_the_texts_of_its_choices() {
    assert_eq!(deltas_of_chunk(&chunk(vec![Some("Hel"), None, Some("lo")])), Some(vec!["Hel".to_string(), "lo".to_string()]));
    assert_eq!(deltas_of_chunk(&obj(vec![("choices", JsonValue::Null)])), Some(vec![]));
    assert_eq!(deltas_of_chunk(&obj(vec![])), Some(vec![]));
    let null_content = obj(vec![("choices", JsonValue::Array(vec![obj(vec![("delta", obj(vec![("content", JsonValue::Null)]))])]))]);
    assert_eq!(deltas_of_chunk(&null_content), Some(vec![]));
}

#[test]
fn a_document_of_another_shape_gives_no_chunk() {
    let number = obj(vec![("choices", JsonValue::Array(vec![obj(vec![("delta", obj(vec![("content", JsonValue::Number(Some(5)))]))])]))]);
    assert_eq!(deltas_of_chunk(&number), None);
    assert_eq!(deltas_of_chunk(&JsonValue::Str("x".to_string())), None);
    assert_eq!(deltas_of_chunk(&obj(vec![("choices", JsonValue::Bool(true))])), None);
    let bad_second = obj(vec![(
        "choices",
        JsonValue::Array(vec![obj(vec![("delta", obj(vec![("content", JsonValue::Str("a".to_string()))]))]), JsonValue::Null]),
    )]);
    assert_eq!(deltas_of_chunk(&bad_second), None);
}

#[test]
fn a_one_item_array_is_read_as_a_record() {
    let doc = JsonValue::Array(vec![JsonValue::Array(vec![JsonValue::Array(vec![JsonValue::Array(vec![
        JsonValue::Str("hi".to_string()),
    ])])])]);
    assert_eq!(deltas_of_chunk(&doc), Some(vec!["hi".to_string()]));
    assert_eq!(deltas_of_chunk(&JsonValue::Array(vec![])), None);
}

#[test]
fn streamed_texts_are_handed_on_in_order_and_build_the_answer() {
    let docs = vec![Some(chunk(vec![Some("Hel")])), None, Some(JsonValue::Bool(false)), Some(chunk(vec![Some("lo"), Some("!")]))];
    let mut content = "> ".to_string();
    let out = collect_deltas(&docs, &mut content);
    assert_eq!(out, vec!["Hel".to_string(), "lo".to_string(), "!".to_string()]);
    assert_eq!(content, "> Hello!");
    let mut more = content.clone();
    assert!(collect_deltas(&vec![], &mut more).is_empty());
    assert_eq!(more, content);
}
