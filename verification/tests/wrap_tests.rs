use unicode_segmentation_rs::{gettext_wrap, split_po_chunks, text_width, wrap_po_chunks};

fn joined(lines: &[String]) -> String {
    let mut s = String::new();
    for line in lines {
        s.push_str(line);
    }
    s
}

#[test]
fn empty_text_wraps_to_no_lines() {
    assert_eq!(gettext_wrap("", 0), Vec::<String>::new());
    assert_eq!(gettext_wrap("", 1), Vec::<String>::new());
    assert_eq!(gettext_wrap("", 77), Vec::<String>::new());
}

#[test]
fn zero_width_disables_wrapping() {
    assert_eq!(gettext_wrap("hello world", 0), vec!["hello world"]);
    assert_eq!(gettext_wrap("a b c d e f g h", 0), vec!["a b c d e f g h"]);
}

#[test]
fn lines_concatenate_back_to_text() {
    let texts = [
        "hello, world",
        "foo (bar)",
        "a\\\\nb",
        "The quick (\"brown\") fox can't jump 32.3 feet, right?",
        "no-break-here/and}there)also>plus-minus",
        "中文中文中文",
        "tabs\tand  spaces   galore",
    ];
    for text in texts {
        for width in 0..20 {
            let lines = gettext_wrap(text, width);
            assert_eq!(joined(&lines), text, "width {width}");
        }
    }
}

#[test]
fn chunks_concatenate_back_to_text() {
    let texts = ["", "hello, world", "foo (bar)", "a\\\\nb", "中文", "x"];
    for text in texts {
        let chunks = split_po_chunks(text);
        assert_eq!(joined(&chunks), text);
        for chunk in &chunks {
            assert!(!chunk.is_empty());
        }
    }
}

#[test]
fn comma_stays_attached_to_word() {
    assert_eq!(gettext_wrap("hello, world", 6), vec!["hello, ", "world"]);
}

#[test]
fn no_line_starts_with_comma() {
    for width in 1..15 {
        for line in gettext_wrap("hello, world", width) {
            assert!(!line.starts_with(','), "width {width}: line {line:?}");
        }
    }
}

#[test]
fn no_break_after_open_parenthesis() {
    for width in 1..15 {
        for line in gettext_wrap("foo (bar)", width) {
            assert!(!line.ends_with('('), "width {width}: line {line:?}");
        }
    }
    assert_eq!(gettext_wrap("foo (bar)", 4), vec!["foo ", "(bar)"]);
}

#[test]
fn escaped_backslash_pair_is_never_split() {
    for width in 1..10 {
        let lines = gettext_wrap("a\\\\nb", width);
        assert_eq!(joined(&lines), "a\\\\nb");
        assert!(
            lines.iter().any(|l| l.contains("\\\\")),
            "width {width}: lines {lines:?}"
        );
        for pair in lines.windows(2) {
            assert!(
                !(pair[0].ends_with('\\') && pair[1].starts_with('\\')),
                "width {width}: lines {lines:?}"
            );
        }
    }
}

#[test]
fn escape_sequence_is_never_split() {
    assert_eq!(gettext_wrap("a\\nb", 2), vec!["a\\nb"]);
}

#[test]
fn cjk_characters_are_double_width() {
    assert_eq!(text_width("中文"), 4);
    assert_eq!(
        gettext_wrap("中文中文中文", 4),
        vec!["中文", "中文", "中文"]
    );
}

#[test]
fn text_width_examples() {
    assert_eq!(text_width(""), 0);
    assert_eq!(text_width("hello"), 5);
    assert_eq!(text_width("ｈｅｌｌｏ"), 10);
}

#[test]
fn overwide_chunk_stands_alone() {
    assert_eq!(gettext_wrap("aaaaaaaaaa bb", 4), vec!["aaaaaaaaaa ", "bb"]);
}

#[test]
fn lines_fit_width_unless_forced() {
    let texts = ["one two three four five", "a bb ccc dddd eeeee", "hello, world"];
    for text in texts {
        for width in 1..12 {
            let lines = gettext_wrap(text, width);
            let chunks = split_po_chunks(text);
            for line in &lines {
                let forced = chunks.contains(line);
                assert!(
                    text_width(line) <= width || forced,
                    "width {width}: line {line:?}"
                );
            }
        }
    }
}

#[test]
fn wrap_chunks_directly() {
    let chunks = vec!["hello, ".to_string(), "world".to_string()];
    assert_eq!(wrap_po_chunks(&chunks, 20), vec!["hello, world"]);
    assert_eq!(wrap_po_chunks(&chunks, 6), vec!["hello, ", "world"]);
    assert_eq!(wrap_po_chunks(&Vec::new(), 6), Vec::<String>::new());
}

#[test]
fn break_characters_allow_splits_between_words() {
    let lines = gettext_wrap("some/path and}brace close)paren", 10);
    assert_eq!(joined(&lines), "some/path and}brace close)paren");
    for line in &lines {
        assert!(!line.starts_with(' '), "line {line:?}");
    }
}
