use unicode_segmentation_rs::{
    grapheme_indices, graphemes, split_word_bound_indices, split_word_bounds, unicode_sentences,
    unicode_words,
};

#[test]
fn graphemes_extended_clusters() {
    assert_eq!(
        graphemes("a\u{310}e\u{301}o\u{308}\u{332}", true),
        vec!["a\u{310}", "e\u{301}", "o\u{308}\u{332}"]
    );
    assert_eq!(
        graphemes("a\r\nb\u{1F1F7}\u{1F1FA}\u{1F1F8}\u{1F1F9}", true),
        vec!["a", "\r\n", "b", "\u{1F1F7}\u{1F1FA}", "\u{1F1F8}\u{1F1F9}"]
    );
}

#[test]
fn graphemes_legacy_differ_on_flags() {
    assert_eq!(graphemes("\r\n", false), vec!["\r\n"]);
    assert_eq!(graphemes("", true), Vec::<String>::new());
}

#[test]
fn grapheme_indices_are_byte_offsets() {
    let got = grapheme_indices("a\u{310}e\u{301}o\u{308}\u{332}\r\n", true);
    let want = vec![
        (0usize, "a\u{310}".to_string()),
        (3, "e\u{301}".to_string()),
        (6, "o\u{308}\u{332}".to_string()),
        (11, "\r\n".to_string()),
    ];
    assert_eq!(got, want);
}

#[test]
fn word_bounds_include_punctuation_and_whitespace() {
    assert_eq!(
        split_word_bounds("The quick (\"brown\")  fox"),
        vec!["The", " ", "quick", " ", "(", "\"", "brown", "\"", ")", "  ", "fox"]
    );
}

#[test]
fn word_bounds_partition_the_text() {
    let texts = ["", "hello, world", "a\\\\nb", "中文 kanji together"];
    for text in texts {
        let tokens = split_word_bounds(text);
        let mut s = String::new();
        for t in &tokens {
            assert!(!t.is_empty());
            s.push_str(t);
        }
        assert_eq!(s, text);
    }
}

#[test]
fn word_bound_indices_are_byte_offsets() {
    let got = split_word_bound_indices("Brr, it's 29.3\u{B0}F!");
    let want = vec![
        (0usize, "Brr".to_string()),
        (3, ",".to_string()),
        (4, " ".to_string()),
        (5, "it's".to_string()),
        (9, " ".to_string()),
        (10, "29.3".to_string()),
        (14, "\u{B0}".to_string()),
        (16, "F".to_string()),
        (17, "!".to_string()),
    ];
    assert_eq!(got, want);
}

#[test]
fn words_exclude_pure_punctuation() {
    assert_eq!(
        unicode_words("The quick (\"brown\") fox can't jump 32.3 feet, right?"),
        vec!["The", "quick", "brown", "fox", "can't", "jump", "32.3", "feet", "right"]
    );
    assert_eq!(unicode_words("..."), Vec::<String>::new());
}

#[test]
fn sentences_split_on_sentence_boundaries() {
    assert_eq!(
        unicode_sentences("Mr. Fox jumped. [...] The dog was too lazy."),
        vec!["Mr. ", "Fox jumped. ", "The dog was too lazy."]
    );
    assert_eq!(unicode_sentences(""), Vec::<String>::new());
}
