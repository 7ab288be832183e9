use rscat::frequency::{analyze, normalize};
use rscat::orp::{pivot_index, split_word};
use rscat::text::tokenize;
use rscat::timing::word_core;

fn words(list: &[&str]) -> Vec<String> {
    list.iter().map(|w| (*w).to_string()).collect()
}

#[test]
fn analyze_counts_case_and_punctuation_insensitively() {
    let (counts, max) = analyze(&words(&["Aragorn", "the", "aragorn.", "Aragorn!", "the"]));
    assert_eq!(counts, vec![3, 2, 3, 3, 2]);
    assert_eq!(max, 3);
}

#[test]
fn analyze_ignores_surrounding_punctuation_like_guillemets() {
    let (counts, max) = analyze(&words(&["« Bonjour", "bonjour"]));
    assert_eq!(counts, vec![2, 2]);
    assert_eq!(max, 2);
}

#[test]
fn analyze_of_a_text_with_no_repeats() {
    let (counts, max) = analyze(&words(&["one", "two", "three"]));
    assert_eq!(counts, vec![1, 1, 1]);
    assert_eq!(max, 1);
}

#[test]
fn analyze_of_no_words_is_empty() {
    let (counts, max) = analyze(&[]);
    assert!(counts.is_empty());
    assert_eq!(max, 0);
}

#[test]
fn analyze_groups_punctuation_only_words_together() {
    let (counts, max) = analyze(&words(&["—", "...", "word", "«»"]));
    assert_eq!(counts, vec![3, 3, 1, 3]);
    assert_eq!(max, 3);
}

#[test]
fn normalize_strips_around_the_core_and_folds_case() {
    assert_eq!(normalize("«Bonjour»,"), "bonjour");
    assert_eq!(normalize("(Don't)"), "don't");
    assert_eq!(normalize("ÉCOLE."), "école");
    assert_eq!(normalize("?!"), "");
    assert_eq!(normalize(""), "");
}

#[test]
fn word_core_drops_trailing_punctuation_only() {
    assert_eq!(word_core("\"dog.\""), "\"dog");
    assert_eq!(word_core("dog"), "dog");
    assert_eq!(word_core("..."), "");
}

#[test]
fn pivot_index_matches_length_buckets() {
    assert_eq!(pivot_index("a"), 0);
    assert_eq!(pivot_index("to"), 1);
    assert_eq!(pivot_index("hello"), 1);
    assert_eq!(pivot_index("coding"), 2);
    assert_eq!(pivot_index("terminal"), 2);
    assert_eq!(pivot_index("recognition"), 3);
    assert_eq!(pivot_index("extraordinary"), 3);
    assert_eq!(pivot_index("internationalization"), 4);
}

#[test]
fn pivot_index_of_empty_word_is_zero() {
    assert_eq!(pivot_index(""), 0);
    assert_eq!(pivot_index("déjà"), 1);
}

#[test]
fn split_word_separates_pivot_character() {
    assert_eq!(split_word("coding"), ("co", 'd', "ing"));
    assert_eq!(split_word("a"), ("", 'a', ""));
}

#[test]
fn split_word_handles_empty_input() {
    assert_eq!(split_word(""), ("", ' ', ""));
}

#[test]
fn split_word_is_utf8_safe() {
    // "déjàvu" is 6 chars, pivot at index 2; the left side ends on the
    // multi-byte "é" and the right side starts on the multi-byte "à", so
    // both slices must land on char boundaries.
    assert_eq!(split_word("déjàvu"), ("dé", 'j', "àvu"));
    assert_eq!(split_word("grüßen"), ("gr", 'ü', "ßen"));
}

#[test]
fn split_word_recombines_into_the_word() {
    for w in ["internationalization", "to", "x", "naïveté"] {
        let (left, pivot, right) = split_word(w);
        assert_eq!(format!("{left}{pivot}{right}"), w);
        assert_eq!(left.chars().count(), pivot_index(w));
    }
}

#[test]
fn tokenize_splits_on_any_whitespace() {
    assert_eq!(
        tokenize("  hello\nworld\t foo "),
        vec!["hello", "world", "foo"]
    );
}

#[test]
fn tokenize_keeps_punctuation_attached() {
    assert_eq!(tokenize("end. Next,"), vec!["end.", "Next,"]);
}

#[test]
fn tokenize_of_blank_text_is_empty() {
    assert_eq!(tokenize(" \n\t "), Vec::<String>::new());
}

#[test]
fn tokenize_splits_on_unicode_whitespace_and_loses_nothing_else() {
    let text = "a\u{00a0}b\u{2003}c\r\nd";
    let words = tokenize(text);
    assert_eq!(words, vec!["a", "b", "c", "d"]);
    let joined: String = words.concat();
    let kept: String = text.chars().filter(|c| !c.is_whitespace()).collect();
    assert_eq!(joined, kept);
    assert_eq!(tokenize("single"), vec!["single"]);
    assert_eq!(tokenize(""), Vec::<String>::new());
}
