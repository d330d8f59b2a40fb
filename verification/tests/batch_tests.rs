use mergson::codec::{merge_document, parse_json};
use mergson::error::Error;
use mergson::report::{get_file_name, summarize, MergeOutcome, RunSummary};
use mergson::value::JsonValue;

#[test]
fn batch_isolates_a_bad_target() {
    let template = parse_json("{\"a\": 1}").unwrap();
    let texts = ["{\"b\": 2}", "{oops", "{}"];
    let mut outcomes: Vec<MergeOutcome> = Vec::new();
    for (i, text) in texts.iter().enumerate() {
        let name = format!("target{}", i);
        let outcome = match merge_document(&template, text) {
            Ok((_new_text, count)) => MergeOutcome { name, outcome: Ok(count) },
            Err(e) => MergeOutcome { name, outcome: Err(e) },
        };
        outcomes.push(outcome);
    }
    assert!(outcomes[0].outcome.is_ok());
    assert!(outcomes[1].outcome.is_err());
    assert!(outcomes[2].outcome.is_ok());
    let summary = summarize(&outcomes);
    assert_eq!(
        summary,
        RunSummary { total: 3, succeeded: 2, changed: 2, failed: 1 }
    );
}

#[test]
fn summarize_counts_changed_only_above_zero() {
    let outcomes = vec![
        MergeOutcome { name: "a".to_string(), outcome: Ok(0) },
        MergeOutcome { name: "b".to_string(), outcome: Ok(2) },
        MergeOutcome {
            name: "c".to_string(),
            outcome: Err(Error::io_error("gone".to_string())),
        },
    ];
    let summary = summarize(&outcomes);
    assert_eq!(
        summary,
        RunSummary { total: 3, succeeded: 2, changed: 1, failed: 1 }
    );
}

#[test]
fn summarize_of_nothing_is_all_zero() {
    let outcomes: Vec<MergeOutcome> = Vec::new();
    let summary = summarize(&outcomes);
    assert_eq!(
        summary,
        RunSummary { total: 0, succeeded: 0, changed: 0, failed: 0 }
    );
}

#[test]
fn merge_document_renders_pretty_text() {
    let template = parse_json("{}").unwrap();
    let (text, count) = merge_document(&template, "{\"k\": 1}").unwrap();
    assert_eq!(count, 0);
    assert_eq!(text, "{\n  \"k\": 1\n}");
}

#[test]
fn merge_document_inserts_and_reports() {
    let template = parse_json("{\"a\": 1, \"b\": {\"c\": 2}}").unwrap();
    let (text, count) = merge_document(&template, "{\"b\": {\"d\": 3}}").unwrap();
    assert_eq!(count, 2);
    let reparsed = parse_json(&text).unwrap();
    let expected = parse_json("{\"b\": {\"d\": 3, \"c\": 2}, \"a\": 1}").unwrap();
    assert_eq!(reparsed, expected);
}

#[test]
fn parse_json_builds_the_model() {
    let v = parse_json("{\"a\": [1, true, null, \"x\"], \"b\": 1.5}").unwrap();
    assert_eq!(
        v,
        JsonValue::Object(vec![
            (
                "a".to_string(),
                JsonValue::Array(vec![
                    JsonValue::Number("1".to_string()),
                    JsonValue::Bool(true),
                    JsonValue::Null,
                    JsonValue::Text("x".to_string()),
                ]),
            ),
            ("b".to_string(), JsonValue::Number("1.5".to_string())),
        ])
    );
}

#[test]
fn parse_json_reports_bad_text() {
    let e = parse_json("nope{").unwrap_err();
    assert_eq!(e.kind, "JSONParseError");
    assert!(e.describe().starts_with("JSONParseError: "));
}

#[test]
fn error_constructors_keep_their_fields() {
    let io = Error::io_error("no such file".to_string());
    assert_eq!(io.kind, "IOError");
    assert_eq!(io.message, "no such file");
    assert_eq!(io.describe(), "IOError: no such file");
    let parse = Error::parse_error("bad token".to_string());
    assert_eq!(parse.kind, "JSONParseError");
    assert_eq!(parse.describe(), "JSONParseError: bad token");
}

#[test]
fn file_names_come_from_the_last_separator() {
    assert_eq!(get_file_name("/etc/conf/settings.json"), "settings.json");
    assert_eq!(get_file_name("relative/file.json"), "file.json");
    assert_eq!(get_file_name("plain.json"), "plain.json");
    assert_eq!(get_file_name("dir/"), "");
    assert_eq!(get_file_name(""), "");
}
