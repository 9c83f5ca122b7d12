use rust_rag::format::{decimal_string, encode_result, format_results, OutputFormat};
use rust_rag::results::SearchResult;

fn result(path: &str, category: &str, title: &str, snippet: &str, rank: Option<&str>) -> SearchResult {
    SearchResult {
        path: path.to_string(),
        category: category.to_string(),
        title: title.to_string(),
        snippet: snippet.to_string(),
        rank: rank.map(|r| r.to_string()),
    }
}

fn sample() -> Vec<SearchResult> {
    vec![
        result("docs/a.md", "guides", "Alpha", "say \"hi\"\nthen go", Some("-2.5")),
        result("docs/b.md", "notes", "Beta", "plain", Some("-1.25")),
        result("docs/c.md", "notes", "Gamma", "last one", Some("-0.5")),
    ]
}

fn copy(rs: &[SearchResult]) -> Vec<SearchResult> {
    rs.iter()
        .map(|r| result(&r.path, &r.category, &r.title, &r.snippet, r.rank.as_deref()))
        .collect()
}

fn out(rs: &[SearchResult], query: &str, format: OutputFormat) -> String {
    match format_results(&copy(rs), query, format) {
        Ok(s) => s,
        Err(_) => panic!("formatting failed"),
    }
}

#[test]
fn empty_results_in_json_formats() {
    assert_eq!(out(&[], "q", OutputFormat::Json), "{\"results\":[],\"count\":0}");
    assert_eq!(out(&[], "q", OutputFormat::Jsonl), "{\"results\":[],\"count\":0}");
}

#[test]
fn empty_results_in_text() {
    assert_eq!(out(&[], "q", OutputFormat::Text), "No results found.");
}

#[test]
fn compact_line_is_exact() {
    let s = out(&sample()[..1], "q", OutputFormat::Jsonl);
    assert_eq!(
        s,
        r#"{"c":"guides","p":"docs/a.md","r":-2.5,"s":"say \"hi\"\nthen go","t":"Alpha"}"#
    );
}

#[test]
fn compact_line_without_rank_has_null() {
    let s = out(&[result("p", "c", "t", "s", None)], "q", OutputFormat::Jsonl);
    assert_eq!(s, r#"{"c":"c","p":"p","r":null,"s":"s","t":"t"}"#);
}

#[test]
fn compact_output_has_one_line_per_result() {
    let s = out(&sample(), "q", OutputFormat::Jsonl);
    let lines: Vec<&str> = s.split('\n').collect();
    assert_eq!(lines.len(), 3);
    for (line, r) in lines.iter().zip(sample().iter()) {
        let v: serde_json::Value = serde_json::from_str(line).unwrap();
        assert_eq!(v["p"], r.path.as_str());
    }
}

#[test]
fn compact_line_matches_serde_json_object() {
    let r = &sample()[0];
    let mut m = serde_json::Map::new();
    m.insert("p".to_string(), serde_json::Value::String(r.path.clone()));
    m.insert("c".to_string(), serde_json::Value::String(r.category.clone()));
    m.insert("t".to_string(), serde_json::Value::String(r.title.clone()));
    m.insert("s".to_string(), serde_json::Value::String(r.snippet.clone()));
    m.insert("r".to_string(), serde_json::Value::from(-2.5f64));
    let expected = serde_json::Value::Object(m).to_string();
    assert_eq!(out(&sample()[..1], "q", OutputFormat::Jsonl), expected);
}

#[test]
fn pretty_document_is_exact() {
    let s = out(&sample()[1..2], "be \"ta\"", OutputFormat::Json);
    let expected = "{\n  \"count\": 1,\n  \"query\": \"be \\\"ta\\\"\",\n  \"results\": [\n    {\n      \"category\": \"notes\",\n      \"path\": \"docs/b.md\",\n      \"rank\": -1.25,\n      \"snippet\": \"plain\",\n      \"title\": \"Beta\"\n    }\n  ]\n}";
    assert_eq!(s, expected);
}

#[test]
fn pretty_document_without_rank_omits_it() {
    let s = out(&[result("p", "c", "t", "s", None)], "q", OutputFormat::Json);
    assert!(!s.contains("rank"));
    let v: serde_json::Value = serde_json::from_str(&s).unwrap();
    assert_eq!(v["results"][0]["title"], "t");
}

#[test]
fn pretty_document_reports_count() {
    let s = out(&sample(), "q", OutputFormat::Json);
    let v: serde_json::Value = serde_json::from_str(&s).unwrap();
    assert_eq!(v["count"], 3);
    assert_eq!(v["query"], "q");
    assert_eq!(v["results"].as_array().unwrap().len(), 3);
}

#[test]
fn pretty_then_compact_round_trip() {
    let pretty = out(&sample(), "q", OutputFormat::Json);
    let compact = out(&sample(), "q", OutputFormat::Jsonl);
    let doc: serde_json::Value = serde_json::from_str(&pretty).unwrap();
    let records = doc["results"].as_array().unwrap();
    let lines: Vec<serde_json::Value> =
        compact.split('\n').map(|l| serde_json::from_str(l).unwrap()).collect();
    assert_eq!(records.len(), lines.len());
    for (rec, line) in records.iter().zip(lines.iter()) {
        assert_eq!(rec["path"], line["p"]);
        assert_eq!(rec["category"], line["c"]);
        assert_eq!(rec["title"], line["t"]);
        assert_eq!(rec["snippet"], line["s"]);
        assert_eq!(rec["rank"], line["r"]);
    }
}

#[test]
fn order_is_kept_in_every_format() {
    let rs = sample();
    let compact = out(&rs, "q", OutputFormat::Jsonl);
    let pretty = out(&rs, "q", OutputFormat::Json);
    let text = out(&rs, "q", OutputFormat::Text);
    for s in [compact, pretty, text] {
        let a = s.find("docs/a.md").unwrap();
        let b = s.find("docs/b.md").unwrap();
        let c = s.find("docs/c.md").unwrap();
        assert!(a < b && b < c);
    }
}

#[test]
fn text_listing_is_exact() {
    let s = out(&sample()[1..], "beta", OutputFormat::Text);
    assert_eq!(
        s,
        "Found 2 results for 'beta':\n\n1. [notes] Beta\n   Path: docs/b.md\n   plain\n\n2. [notes] Gamma\n   Path: docs/c.md\n   last one\n"
    );
}

#[test]
fn decimal_strings() {
    assert_eq!(decimal_string(0), "0");
    assert_eq!(decimal_string(7), "7");
    assert_eq!(decimal_string(1234), "1234");
    assert_eq!(decimal_string(usize::MAX), usize::MAX.to_string());
}

#[test]
fn encoding_escapes_text_fields() {
    let r = result("a\\b", "c\td", "t", "line\nbreak", Some("1"));
    let e = match encode_result(&r) {
        Ok(e) => e,
        Err(_) => panic!("encoding failed"),
    };
    assert_eq!(e.path, "\"a\\\\b\"");
    assert_eq!(e.category, "\"c\\td\"");
    assert_eq!(e.snippet, "\"line\\nbreak\"");
    assert_eq!(e.rank, Some("1".to_string()));
}

#[test]
fn encoding_uses_short_and_hex_escapes() {
    let r = result("a/b", "\u{1}\u{1f}", "é\u{8}\u{c}", "\r\"", None);
    let e = match encode_result(&r) {
        Ok(e) => e,
        Err(_) => panic!("encoding failed"),
    };
    assert_eq!(e.path, "\"a/b\"");
    assert_eq!(e.category, "\"\\u0001\\u001f\"");
    assert_eq!(e.title, "\"é\\b\\f\"");
    assert_eq!(e.snippet, "\"\\r\\\"\"");
    assert_eq!(e.rank, None);
}

#[test]
fn formatting_json_never_fails() {
    let rs = vec![result("a.md", "c", "T", "s", Some("-1.5")), result("b.md", "d", "U", "x", None)];
    let s = out(&rs, "q", OutputFormat::Jsonl);
    let lines: Vec<&str> = s.split('\n').collect();
    assert_eq!(lines, vec![
        r#"{"c":"c","p":"a.md","r":-1.5,"s":"s","t":"T"}"#,
        r#"{"c":"d","p":"b.md","r":null,"s":"x","t":"U"}"#,
    ]);
    assert!(format_results(&copy(&rs), "q", OutputFormat::Json).is_ok());
}
