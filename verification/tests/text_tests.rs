use rusty_tools::text::{lines, str_eq, words};

fn owned(items: &[&str]) -> Vec<String> {
    items.iter().map(|t| t.to_string()).collect()
}

fn std_lines(text: &str) -> Vec<String> {
    text.lines().map(|t| t.to_string()).collect()
}

fn std_words(text: &str) -> Vec<String> {
    text.split_whitespace().map(|t| t.to_string()).collect()
}

#[test]
fn lines_drops_the_last_line_feed() {
    assert_eq!(lines("a\nb\n"), owned(&["a", "b"]));
}

#[test]
fn lines_of_nothing_is_nothing() {
    assert_eq!(lines(""), owned(&[]));
}

#[test]
fn lines_of_a_single_line_feed_is_one_empty_line() {
    assert_eq!(lines("\n"), owned(&[""]));
}

#[test]
fn lines_keeps_empty_lines_between_line_feeds() {
    assert_eq!(lines("a\n\n\nb"), owned(&["a", "", "", "b"]));
    assert_eq!(lines("\n\na"), owned(&["", "", "a"]));
    assert_eq!(lines("a\n\n"), owned(&["a", ""]));
}

#[test]
fn lines_drops_a_carriage_return_before_a_line_feed() {
    assert_eq!(lines("a\r\nb\r\n"), owned(&["a", "b"]));
    assert_eq!(lines("\r\n"), owned(&[""]));
}

#[test]
fn lines_drops_only_one_carriage_return() {
    assert_eq!(lines("a\r\r\nb"), owned(&["a\r", "b"]));
}

#[test]
fn lines_keeps_other_carriage_returns() {
    assert_eq!(lines("a\rb\nc\r"), owned(&["a\rb", "c\r"]));
    assert_eq!(lines("\r"), owned(&["\r"]));
    assert_eq!(lines("a\n\rb"), owned(&["a", "\rb"]));
}

#[test]
fn lines_keeps_text_that_is_not_ascii() {
    assert_eq!(lines("gr\u{fc}n\n\u{2588}\u{2591}\n"), owned(&["gr\u{fc}n", "\u{2588}\u{2591}"]));
}

#[test]
fn lines_agrees_with_the_standard_library() {
    let texts = [
        "",
        "\n",
        "\r",
        "\r\n",
        "\n\r",
        "a",
        "a\n",
        "a\r\n",
        "a\r",
        "a\r\r\n",
        "a\n\nb",
        "a\r\n\r\nb\r",
        "\n\n\n",
        "one\ntwo\r\nthree\rfour\n\r\nfive",
        " lead\ntrail \n\tmid\t\n",
        "\r\r\n\r",
        "\u{e9}\r\n\u{3000}\n",
    ];
    for text in texts {
        assert_eq!(lines(text), std_lines(text), "lines of {:?}", text);
    }
}

#[test]
fn words_drops_whitespace_around_and_between() {
    assert_eq!(words("  a   b  "), owned(&["a", "b"]));
}

#[test]
fn words_of_nothing_is_nothing() {
    assert_eq!(words(""), owned(&[]));
    assert_eq!(words("   \t\n "), owned(&[]));
}

#[test]
fn words_of_one_word_is_that_word() {
    assert_eq!(words("word"), owned(&["word"]));
    assert_eq!(words("word "), owned(&["word"]));
    assert_eq!(words(" word"), owned(&["word"]));
}

#[test]
fn words_splits_at_every_kind_of_whitespace() {
    assert_eq!(
        words("a\tb\nc\r\nd\u{a0}e\u{3000}f\u{2028}g\u{b}h\u{c}i"),
        owned(&["a", "b", "c", "d", "e", "f", "g", "h", "i"])
    );
}

#[test]
fn words_does_not_split_at_other_characters() {
    assert_eq!(words("a-b,c.d_e\u{200b}f"), owned(&["a-b,c.d_e\u{200b}f"]));
}

#[test]
fn words_are_never_empty() {
    for text in ["", " ", "a  b", "  a\t\tb  ", "\n\n", "x \u{a0} y"] {
        for word in words(text) {
            assert!(!word.is_empty());
            assert!(!word.chars().any(|c| c.is_whitespace()));
        }
    }
}

#[test]
fn words_agrees_with_the_standard_library() {
    let texts = [
        "",
        " ",
        "a",
        " a",
        "a ",
        "a b",
        "  a   b  ",
        "word1 word2",
        "tab\tseparated\twords",
        "line one\nline two\r\nline three",
        "\u{a0}no\u{a0}break\u{a0}",
        "\u{2000}\u{2001}wide\u{2002}spaces\u{200a}",
        "\u{1680}ogham\u{202f}narrow\u{205f}math\u{3000}ideographic\u{85}next",
        "zero\u{200b}width is no space",
        "gr\u{fc}n \u{2588}\u{2591}",
    ];
    for text in texts {
        assert_eq!(words(text), std_words(text), "words of {:?}", text);
    }
}

#[test]
fn lines_never_hold_a_line_feed() {
    for text in ["", "a\nb", "\n\n", "a\r\nb\n", "x\ny\nz\n"] {
        for line in lines(text) {
            assert!(!line.contains('\n'));
        }
    }
}

#[test]
fn str_eq_of_equal_texts() {
    assert!(str_eq("", ""));
    assert!(str_eq("red", "red"));
    assert!(str_eq("gr\u{fc}n", "gr\u{fc}n"));
}

#[test]
fn str_eq_of_different_texts() {
    assert!(!str_eq("red", "rod"));
    assert!(!str_eq("red", "reds"));
    assert!(!str_eq("red", ""));
    assert!(!str_eq("", "x"));
    assert!(!str_eq("Red", "red"));
    assert!(!str_eq("\u{e9}", "e"));
}

fn has_white_space_property(c: char) -> bool {
    matches!(
        c as u32,
        0x0009..=0x000D
            | 0x0020
            | 0x0085
            | 0x00A0
            | 0x1680
            | 0x2000..=0x200A
            | 0x2028
            | 0x2029
            | 0x202F
            | 0x205F
            | 0x3000
    )
}

#[test]
fn words_split_at_exactly_the_white_space_characters() {
    let mut text = String::new();
    for n in 0..=0x10FFFFu32 {
        if let Some(c) = char::from_u32(n) {
            text.clear();
            text.push('a');
            text.push(c);
            text.push('b');
            let expected = if has_white_space_property(c) { 2 } else { 1 };
            assert_eq!(words(&text).len(), expected, "U+{:04X}", n);
        }
    }
}
