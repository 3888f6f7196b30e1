use nci::score::{band, empty_scores, interpretation, score_bar, total_score, wrap_text, Band, CategoryScore};

fn entry(id: u8, score: u8) -> CategoryScore {
    CategoryScore { id, name: format!("c{}", id), score, reasoning: String::new() }
}

#[test]
fn empty_scores_is_the_blank_sheet() {
    let s = empty_scores();
    assert_eq!(s.len(), 20);
    for (i, e) in s.iter().enumerate() {
        assert_eq!(e.id as usize, i + 1);
        assert_eq!(e.score, 1);
        assert!(e.reasoning.is_empty());
    }
    assert_eq!(s[1].name, "Emotional Manipulation");
    assert_eq!(total_score(&s), 20);
    assert_eq!(interpretation(total_score(&s)), "Low likelihood of a PSYOP");
}

#[test]
fn total_adds_every_score() {
    let s: Vec<CategoryScore> = (1..=20).map(|i| entry(i, 5)).collect();
    assert_eq!(total_score(&s), 100);
    let s = vec![entry(1, 3), entry(2, 4), entry(3, 0)];
    assert_eq!(total_score(&s), 7);
    assert_eq!(total_score(&[]), 0);
}

#[test]
fn total_of_full_sheet_stays_in_range() {
    for k in 1..=5u8 {
        let s: Vec<CategoryScore> = (1..=20).map(|i| entry(i, k)).collect();
        let t = total_score(&s);
        assert!((20..=100).contains(&t));
        assert_eq!(t, 20 * k as u32);
    }
}

#[test]
fn band_boundaries_follow_the_readme_table() {
    assert_eq!(band(0), Band::Low);
    assert_eq!(band(25), Band::Low);
    assert_eq!(band(26), Band::Moderate);
    assert_eq!(band(50), Band::Moderate);
    assert_eq!(band(51), Band::Strong);
    assert_eq!(band(75), Band::Strong);
    assert_eq!(band(76), Band::Overwhelming);
    assert_eq!(band(100), Band::Overwhelming);
    assert_eq!(band(u32::MAX), Band::Overwhelming);
}

#[test]
fn interpretation_sentences() {
    assert_eq!(interpretation(10), "Low likelihood of a PSYOP");
    assert_eq!(interpretation(40), "Moderate likelihood — look deeper");
    assert_eq!(interpretation(60), "Strong likelihood — manipulation likely");
    assert_eq!(interpretation(90), "Overwhelming signs of a PSYOP");
}

#[test]
fn score_bars() {
    assert_eq!(score_bar(0), "░░░░░");
    assert_eq!(score_bar(1), "█░░░░");
    assert_eq!(score_bar(3), "███░░");
    assert_eq!(score_bar(5), "█████");
}

#[test]
fn wrap_breaks_between_words() {
    assert_eq!(wrap_text("the quick brown fox", 10), vec!["the quick", "brown fox"]);
    assert_eq!(wrap_text("  spaced\tout\n words  ", 80), vec!["spaced out words"]);
    assert_eq!(wrap_text("", 10), Vec::<String>::new());
    assert_eq!(wrap_text("   \n\t ", 10), Vec::<String>::new());
}

#[test]
fn wrap_keeps_a_long_word_whole() {
    assert_eq!(
        wrap_text("a supercalifragilistic word", 5),
        vec!["a", "supercalifragilistic", "word"]
    );
    assert_eq!(wrap_text("one two", 0), vec!["one", "two"]);
}

#[test]
fn wrap_counts_bytes() {
    // "éé" takes four bytes: two of them with a space need nine bytes.
    assert_eq!(wrap_text("éé éé", 6), vec!["éé", "éé"]);
    assert_eq!(wrap_text("éé éé", 9), vec!["éé éé"]);
}

#[test]
fn wrap_keeps_words_and_fits_lines() {
    let text = "Reports show crying children and dying wildlife but avoid causes, while \
                campaigns push for immediate donations and rapid policy changes.";
    let lines = wrap_text(text, 52);
    assert_eq!(lines.join(" "), text.split_whitespace().collect::<Vec<_>>().join(" "));
    for l in &lines {
        assert!(!l.is_empty());
        assert!(l.len() <= 52 || !l.contains(' '));
    }
}

#[test]
fn each_wrapped_line_is_its_words_spaced() {
    let text = "  one\ttwo   three\nfour  fivefivefive six ";
    for width in [0usize, 3, 8, 12, 40] {
        for l in wrap_text(text, width) {
            assert!(!l.is_empty());
            assert_eq!(l, l.split_whitespace().collect::<Vec<_>>().join(" "));
        }
    }
}
