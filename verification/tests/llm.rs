use nci::llm::{
    chat_completions_url, clean_llm_output, first_reply, resolve_api_key, scores_from_raw,
    user_message, uses_bearer_auth, RawScore,
};

#[test]
fn endpoint_url_drops_trailing_slashes() {
    assert_eq!(chat_completions_url("https://api.openai.com/v1"), "https://api.openai.com/v1/chat/completions");
    assert_eq!(chat_completions_url("https://api.openai.com/v1/"), "https://api.openai.com/v1/chat/completions");
    assert_eq!(chat_completions_url("http://localhost:11434/v1///"), "http://localhost:11434/v1/chat/completions");
    assert_eq!(chat_completions_url(""), "/chat/completions");
}

#[test]
fn user_message_carries_the_article() {
    assert_eq!(user_message("Body"), "Article to analyse:\n\nBody");
    assert_eq!(user_message(""), "Article to analyse:\n\n");
}

#[test]
fn cleaning_removes_fences_and_whitespace() {
    assert_eq!(clean_llm_output("```json\n[{\"id\":1}]\n```"), "[{\"id\":1}]");
    assert_eq!(clean_llm_output("  ```json```json [x] ``````  "), "[x]");
    assert_eq!(clean_llm_output("```\n[]\n```\n"), "[]");
    assert_eq!(clean_llm_output("[1, 2]"), "[1, 2]");
    assert_eq!(clean_llm_output("   "), "");
    assert_eq!(clean_llm_output("````"), "`");
}

#[test]
fn raw_scores_are_named_and_clamped() {
    let raw = vec![
        RawScore { id: 2, score: 9, reasoning: "Loud.".to_string() },
        RawScore { id: 42, score: 0, reasoning: String::new() },
        RawScore { id: 7, score: 3, reasoning: "Some experts.".to_string() },
    ];
    let s = scores_from_raw(&raw);
    assert_eq!(s.len(), 3);
    assert_eq!((s[0].id, s[0].name.as_str(), s[0].score, s[0].reasoning.as_str()), (2, "Emotional Manipulation", 5, "Loud."));
    assert_eq!((s[1].id, s[1].name.as_str(), s[1].score), (42, "Category 42", 1));
    assert_eq!((s[2].name.as_str(), s[2].score, s[2].reasoning.as_str()), ("Authority Overload", 3, "Some experts."));
    assert!(s.iter().all(|e| (1..=5).contains(&e.score)));
    assert!(scores_from_raw(&Vec::new()).is_empty());
}

#[test]
fn api_key_resolution() {
    let openai = "https://api.openai.com/v1";
    let local = "http://localhost:11434/v1";
    assert_eq!(resolve_api_key(Some("a".into()), Some("b".into()), openai), Some("a".to_string()));
    assert_eq!(resolve_api_key(None, Some("b".into()), openai), Some("b".to_string()));
    assert_eq!(resolve_api_key(None, None, openai), None);
    assert_eq!(resolve_api_key(None, None, local), Some("sk-no-key".to_string()));
}

#[test]
fn first_reply_or_empty() {
    assert_eq!(first_reply(vec!["one".into(), "two".into()]), "one");
    assert_eq!(first_reply(Vec::new()), "");
}

#[test]
fn bearer_only_with_a_key() {
    assert!(uses_bearer_auth("sk-no-key"));
    assert!(!uses_bearer_auth(""));
}

#[test]
fn trace_shades_of_scores() {
    assert_eq!(nci::llm::score_shade(1), nci::llm::Shade::Green);
    assert_eq!(nci::llm::score_shade(2), nci::llm::Shade::Green);
    assert_eq!(nci::llm::score_shade(3), nci::llm::Shade::Yellow);
    assert_eq!(nci::llm::score_shade(4), nci::llm::Shade::Red);
    assert_eq!(nci::llm::score_shade(5), nci::llm::Shade::Red);
    assert_eq!(nci::llm::score_shade(0), nci::llm::Shade::White);
    assert_eq!(nci::llm::score_shade(6), nci::llm::Shade::White);
}

#[test]
fn previews_take_leading_characters() {
    assert_eq!(nci::text::first_chars("héllo world", 5), "héllo");
    assert_eq!(nci::text::first_chars("short", 200), "short");
    assert_eq!(nci::text::first_chars("", 3), "");
}

#[test]
fn fences_around_an_array_change_nothing() {
    let s = "  [{\"id\": 1, \"score\": 3, \"reasoning\": \"x\"}]\n";
    let bare = clean_llm_output(s);
    assert_eq!(bare, s.trim());
    assert_eq!(clean_llm_output(&format!("```json\n{}\n```", s)), bare);
    assert_eq!(clean_llm_output(&format!("```\n{}\n```", s)), bare);
}
