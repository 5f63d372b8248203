use words_with_toddlers::dictionary::Dictionary;

fn vocab(words: &[&str]) -> Dictionary {
    let curated = words.join("\n");
    Dictionary::new(&curated, "")
}

#[test]
fn recovers_concatenated_words() {
    let d = vocab(&["dog", "cat"]);
    assert_eq!(d.parse_compound_words("dogcat"), vec!["dog", "cat"]);
}

#[test]
fn recovers_longer_runs() {
    let d = vocab(&["ran", "into", "the", "park"]);
    assert_eq!(
        d.parse_compound_words("ranintothepark"),
        vec!["ran", "into", "the", "park"]
    );
    let d = vocab(&["dog", "cat", "bird"]);
    assert_eq!(
        d.parse_compound_words("dogcatbird"),
        vec!["dog", "cat", "bird"]
    );
    let d = vocab(&["sun", "flower"]);
    assert_eq!(d.parse_compound_words("sunflower"), vec!["sun", "flower"]);
}

#[test]
fn no_matches_yield_empty_list() {
    let d = vocab(&["dog", "cat"]);
    assert_eq!(d.parse_compound_words("xyzqwk"), Vec::<String>::new());
    assert_eq!(d.parse_compound_words("xyz123abc"), Vec::<String>::new());
    assert_eq!(d.parse_compound_words(""), Vec::<String>::new());
    assert_eq!(d.parse_compound_words("123 !?"), Vec::<String>::new());
}

#[test]
fn case_and_symbols_do_not_matter() {
    let d = vocab(&["dog", "cat"]);
    assert_eq!(
        d.parse_compound_words("Dog-Cat!"),
        d.parse_compound_words("dogcat")
    );
    assert_eq!(d.parse_compound_words("DOGCAT"), vec!["dog", "cat"]);
    assert_eq!(d.parse_compound_words("d o g c a t"), vec!["dog", "cat"]);
}

#[test]
fn repeated_words_are_preserved() {
    let d = vocab(&["cat"]);
    assert_eq!(d.parse_compound_words("catcat"), vec!["cat", "cat"]);
}

#[test]
fn longest_match_wins() {
    let d = vocab(&["a", "an", "ant"]);
    assert_eq!(d.parse_compound_words("ant"), vec!["ant"]);
    // The greedy policy is not globally optimal: the longest prefix is
    // taken even when a different split would cover more of the text.
    let d = vocab(&["ab", "a", "bc"]);
    assert_eq!(d.parse_compound_words("abc"), vec!["ab"]);
}

#[test]
fn unmatched_letters_are_skipped() {
    let d = vocab(&["cat"]);
    assert_eq!(d.parse_compound_words("xcaty"), vec!["cat"]);
}

#[test]
fn membership_is_case_insensitive() {
    let d = vocab(&["cat", "dog"]);
    assert!(d.is_valid_word("cat"));
    assert!(d.is_valid_word("CAT"));
    assert!(d.is_valid_word("CaT"));
    assert!(!d.is_valid_word("cow"));
}

#[test]
fn empty_word_is_never_a_member() {
    let d = vocab(&["cat"]);
    assert!(!d.is_valid_word(""));
    let empty = Dictionary::new("", "");
    assert!(!empty.is_valid_word(""));
}

#[test]
fn curated_lines_are_trimmed_and_comments_skipped() {
    let d = Dictionary::new("  cat  \n# a comment\n\nDog\r\n", "");
    assert!(d.is_valid_word("cat"));
    assert!(d.is_valid_word("dog"));
    assert!(!d.is_valid_word("#"));
    assert!(!d.is_valid_word("# a comment"));
}

#[test]
fn general_tier_keeps_letters_only() {
    let d = Dictionary::new("", "Apple\nbanana\nabc123\n\npear tree\n");
    assert!(d.is_valid_word("apple"));
    assert!(d.is_valid_word("BANANA"));
    assert!(!d.is_valid_word("abc123"));
    assert!(!d.is_valid_word("pear tree"));
}

#[test]
fn both_tiers_answer_membership() {
    let d = Dictionary::new("cat\n", "zebra\n");
    assert!(d.is_valid_word("cat"));
    assert!(d.is_valid_word("zebra"));
    assert_eq!(d.parse_compound_words("catzebra"), vec!["cat", "zebra"]);
}

#[test]
fn missing_general_tier_degrades_gracefully() {
    let d = Dictionary::new("cat\ndog\n", "");
    assert!(d.is_valid_word("cat"));
    assert_eq!(d.parse_compound_words("dogcat"), vec!["dog", "cat"]);
}
