use rust_rag::results::{collect_results, RawMatch};

fn row(path: &str, category: &str, body: &str, rank: &str) -> RawMatch {
    RawMatch {
        path: path.to_string(),
        category: category.to_string(),
        title: format!("Title of {}", path),
        body: body.to_string(),
        rank: rank.to_string(),
    }
}

fn rows() -> Vec<RawMatch> {
    vec![
        row("a.md", "guides", "alpha beta gamma", "-3.5"),
        row("b.md", "notes", "beta only", "-2.25"),
        row("c.md", "guides", "nothing here", "-1"),
    ]
}

#[test]
fn category_filter_keeps_only_that_category() {
    let r = collect_results(&rows(), "beta", Some("guides"), 10, 100);
    assert_eq!(r.len(), 2);
    assert!(r.iter().all(|x| x.category == "guides"));
    assert_eq!(r[0].path, "a.md");
    assert_eq!(r[1].path, "c.md");
}

#[test]
fn order_of_rows_is_kept() {
    let r = collect_results(&rows(), "beta", None, 10, 100);
    let paths: Vec<&str> = r.iter().map(|x| x.path.as_str()).collect();
    assert_eq!(paths, vec!["a.md", "b.md", "c.md"]);
}

#[test]
fn limit_caps_the_results() {
    let r = collect_results(&rows(), "beta", None, 2, 100);
    assert_eq!(r.len(), 2);
    assert_eq!(r[1].path, "b.md");
    let r = collect_results(&rows(), "beta", None, 0, 100);
    assert!(r.is_empty());
}

#[test]
fn results_carry_fields_snippet_and_rank() {
    let r = collect_results(&rows(), "GAMMA", None, 10, 6);
    assert_eq!(r[0].title, "Title of a.md");
    assert_eq!(r[0].snippet, "...a gamma");
    assert_eq!(r[0].rank, Some("-3.5".to_string()));
    assert_eq!(r[2].snippet, "nothin...");
}

#[test]
fn unknown_category_gives_nothing() {
    let r = collect_results(&rows(), "beta", Some("misc"), 10, 100);
    assert!(r.is_empty());
}
