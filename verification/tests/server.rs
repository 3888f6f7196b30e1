use nci::score::CategoryScore;
use nci::server::{build_scan_response, plan_scan, scan_file_name, ScanRequest, ServerState};

#[test]
fn file_name_wraps_the_id() {
    assert_eq!(scan_file_name("abc"), "scanned_article_abc.md");
}

#[test]
fn plan_converts_html_and_names_a_fresh_file() {
    let plan = plan_scan("<html><body><h1>Hello</h1><p>World <b>now</b></p></body></html>");
    assert_ne!(plan.markdown, "<html><body><h1>Hello</h1><p>World <b>now</b></p></body></html>");
    assert!(plan.markdown.contains("Hello"));
    assert!(plan.markdown.contains("World"));
    assert!(!plan.markdown.contains("<h1>"));
    let name = plan.file_name.as_str();
    assert!(name.starts_with("scanned_article_"));
    assert!(name.ends_with(".md"));
    let id = &name["scanned_article_".len()..name.len() - 3];
    assert_eq!(id.len(), 36);
    for (i, c) in id.chars().enumerate() {
        if [8, 13, 18, 23].contains(&i) {
            assert_eq!(c, '-');
        } else {
            assert!(c.is_ascii_hexdigit() && !c.is_ascii_uppercase());
        }
    }
    assert_eq!(id.chars().nth(14), Some('4'));
    let other = plan_scan("<p>x</p>");
    assert_ne!(other.file_name, plan.file_name);
}

#[test]
fn response_carries_total_and_interpretation() {
    let scores: Vec<CategoryScore> = (1..=20)
        .map(|i| CategoryScore { id: i, name: format!("c{}", i), score: 3, reasoning: String::new() })
        .collect();
    let r = build_scan_response(scores, "scans/x.md".to_string());
    assert_eq!(r.total_score, 60);
    assert_eq!(r.interpretation, "Strong likelihood — manipulation likely");
    assert_eq!(r.saved_file, "scans/x.md");
    assert_eq!(r.scores.len(), 20);
    let r = build_scan_response(Vec::new(), String::new());
    assert_eq!(r.total_score, 0);
    assert_eq!(r.interpretation, "Low likelihood of a PSYOP");
}

#[test]
fn server_types_hold_their_fields() {
    let st = ServerState { api_url: "u".into(), model: "m".into(), api_key: "k".into() };
    let st2 = st.clone();
    assert_eq!((st2.api_url.as_str(), st2.model.as_str(), st2.api_key.as_str()), ("u", "m", "k"));
    let req = ScanRequest { url: "https://example.com".into() };
    assert_eq!(req.url, "https://example.com");
}

#[test]
fn category_scores_clone() {
    let s = CategoryScore { id: 1, name: "Timing".into(), score: 2, reasoning: "r".into() };
    let c = s.clone();
    assert_eq!((c.id, c.name.as_str(), c.score, c.reasoning.as_str()), (1, "Timing", 2, "r"));
}
