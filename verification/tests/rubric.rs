use nci::rubric::{categories, category_label_of, row_head, system_prompt};

#[test]
fn rubric_has_twenty_numbered_categories() {
    let cats = categories();
    assert_eq!(cats.len(), 20);
    for (i, c) in cats.iter().enumerate() {
        assert_eq!(c.id as usize, i + 1);
        assert!(!c.name.is_empty());
        assert!(!c.question.is_empty());
        assert!(!c.example.is_empty());
    }
    assert_eq!(cats[0].name, "Timing");
    assert_eq!(cats[9].name, "Financial/Political Gain");
    assert_eq!(cats[19].name, "Historical Parallels");
    assert_eq!(cats[19].question, "Does the story mirror manipulative past events?");
}

#[test]
fn system_prompt_lists_every_category() {
    let p = system_prompt();
    assert!(p.starts_with("You are an expert analyst applying the NCI Engineered Reality Scoring System. Read the provided article"));
    assert!(p.contains("Return ONLY a JSON array of 20 objects — no markdown fences, no extra text.\n\nScoring: 1 = Not Present, 5 = Overwhelmingly Present.\n\nCategories:\n1. Timing — Does the timing feel suspicious or coincidental with other events?\n2. Emotional Manipulation — "));
    assert!(p.ends_with("20. Historical Parallels — Does the story mirror manipulative past events?\n"));
    let lines: Vec<&str> = p.split("Categories:\n").nth(1).unwrap().lines().collect();
    assert_eq!(lines.len(), 20);
    for (i, l) in lines.iter().enumerate() {
        assert!(l.starts_with(&format!("{}. ", i + 1)));
    }
}

#[test]
fn category_labels_inside_and_outside_the_rubric() {
    let cats = categories();
    assert_eq!(category_label_of(&cats, 3), "Uniform Messaging");
    assert_eq!(category_label_of(&cats, 20), "Historical Parallels");
    assert_eq!(category_label_of(&cats, 0), "Category 0");
    assert_eq!(category_label_of(&cats, 21), "Category 21");
    assert_eq!(category_label_of(&cats, 255), "Category 255");
}

#[test]
fn category_detail_text() {
    let cats = categories();
    assert_eq!(
        nci::rubric::category_detail(&cats[0]),
        "Category 1  —  Timing\n\nQuestion:\nDoes the timing feel suspicious or coincidental with other events?\n\nExample:\nA story about water contamination surfaces during a corporate scandal."
    );
}

#[test]
fn row_heads_align_number_and_name() {
    assert_eq!(row_head(3, "Uniform Messaging", 24), format!("{:>2}. {:<24}", 3, "Uniform Messaging"));
    assert_eq!(row_head(12, "False Dilemmas", 26), format!("{:>2}. {:<26}", 12, "False Dilemmas"));
    assert_eq!(row_head(200, "Financial/Political Gain Extra", 5), "200. Financial/Political Gain Extra");
    assert_eq!(row_head(7, "é", 3), " 7. é  ");
}
