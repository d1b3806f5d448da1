use trendr::extract::{extract_topics, ExtractedTopic};
use trendr::store::Topic;
use trendr::text::{count_whole_word, normalize_text, to_lower, trim_bytes};

fn topic(id: u64, name: &str, keywords: &[&str]) -> Topic {
    Topic {
        id,
        name: name.to_string(),
        slug: Vec::new(),
        parent_topic_id: None,
        aliases: Vec::new(),
        keywords: keywords.iter().map(|k| k.as_bytes().to_vec()).collect(),
        created_at: "2024-01-01T00:00:00Z".to_string(),
    }
}

fn extract(text: &str, catalog: &Vec<Topic>) -> Vec<ExtractedTopic> {
    extract_topics(text.as_bytes(), catalog)
}

#[test]
fn whole_word_does_not_match_inside_words() {
    assert_eq!(count_whole_word(b"said", b"ai"), 0);
    assert_eq!(count_whole_word(b"main", b"ai"), 0);
    assert_eq!(count_whole_word(b"ai is great", b"ai"), 1);
    assert_eq!(count_whole_word(b"the main thing ai said about ai", b"ai"), 2);
}

#[test]
fn whole_word_matching_is_case_insensitive_through_extraction() {
    let catalog = vec![topic(0, "Artificial Intelligence", &["ai"])];
    let found = extract("AI is great", &catalog);
    assert_eq!(found.len(), 1);
    assert_eq!(found[0].topic_name, "Artificial Intelligence");
    assert_eq!(found[0].mentions, 1);
    let none = extract("said main", &catalog);
    assert_eq!(none.len(), 0);
}

#[test]
fn whole_word_handles_multi_word_keywords_and_punctuation() {
    assert_eq!(count_whole_word(b"great real estate deals", b"real estate"), 1);
    assert_eq!(count_whole_word(b"unreal estate", b"real estate"), 0);
    assert_eq!(count_whole_word(b"ai, ai. ai!", b"ai"), 3);
}

#[test]
fn confidence_is_twenty_hundredths_per_hit_clamped_at_one() {
    let catalog = vec![topic(0, "Cryptocurrency", &["bitcoin"])];
    let three = extract("bitcoin bitcoin bitcoin", &catalog);
    assert_eq!(three.len(), 1);
    assert_eq!(three[0].mentions, 3);
    assert_eq!(three[0].confidence, 60);
    let six = extract(
        "bitcoin bitcoin bitcoin bitcoin bitcoin bitcoin",
        &catalog,
    );
    assert_eq!(six[0].mentions, 6);
    assert_eq!(six[0].confidence, 100);
}

#[test]
fn extraction_counts_hits_across_all_keywords_of_a_topic() {
    let catalog = vec![topic(0, "Cryptocurrency", &["bitcoin", "crypto"])];
    let found = extract("Bitcoin to the moon! #crypto", &catalog);
    assert_eq!(found.len(), 1);
    assert_eq!(found[0].mentions, 2);
    assert_eq!(found[0].confidence, 40);
}

#[test]
fn extraction_caps_at_five_topics_sorted_by_confidence_descending() {
    let catalog = vec![
        topic(0, "A", &["alpha"]),
        topic(1, "B", &["beta"]),
        topic(2, "C", &["gamma"]),
        topic(3, "D", &["delta"]),
        topic(4, "E", &["epsilon"]),
        topic(5, "F", &["zeta"]),
        topic(6, "G", &["eta"]),
    ];
    let text = "alpha beta beta gamma gamma gamma delta delta delta delta \
                epsilon epsilon epsilon epsilon epsilon zeta zeta zeta zeta zeta zeta eta";
    let found = extract(text, &catalog);
    assert_eq!(found.len(), 5);
    for w in found.windows(2) {
        assert!(w[0].confidence >= w[1].confidence);
    }
    // the two weakest topics (one hit each) were cut off
    assert!(found.iter().all(|e| e.mentions >= 2));
}

#[test]
fn extraction_keeps_catalog_order_on_ties() {
    let catalog = vec![
        topic(0, "First", &["one"]),
        topic(1, "Second", &["two"]),
    ];
    let found = extract("one two", &catalog);
    assert_eq!(found.len(), 2);
    assert_eq!(found[0].topic_name, "First");
    assert_eq!(found[1].topic_name, "Second");
}

#[test]
fn extraction_returns_empty_for_no_matches() {
    let catalog = vec![topic(0, "Gaming", &["esports"])];
    assert_eq!(extract("nothing to see here", &catalog).len(), 0);
}

#[test]
fn lowercase_and_trim_and_normalize() {
    assert_eq!(to_lower(b"AbC-Xyz"), b"abc-xyz".to_vec());
    assert_eq!(trim_bytes(b"  \t hi there \n"), b"hi there".to_vec());
    assert_eq!(normalize_text(b"Title", b"Body"), b"Title\n\nBody".to_vec());
    assert_eq!(normalize_text(b"Title", b""), b"Title".to_vec());
    assert_eq!(normalize_text(b"", b"Body"), b"Body".to_vec());
    assert_eq!(normalize_text(b"  ", b""), b"".to_vec());
}
