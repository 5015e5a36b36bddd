use prompt_vault::text::{
    chain, chars_of, contains, contains_char, ends_with, is_whitespace, join_lines, split_lines,
    split_pieces, starts_with, string_of, trim, trim_end, trim_start, trim_start_matches,
    trim_start_matches_text,
};

fn text(v: &Vec<char>) -> String {
    string_of(v)
}

fn samples() -> Vec<&'static str> {
    vec![
        "",
        " ",
        "\n",
        "\r\n",
        "a",
        "  a  ",
        "\t a\u{a0}b \u{2003}\u{3000}",
        "a\nb",
        "a\nb\n",
        "a\r\nb\r\n",
        "a\rb",
        "a\r",
        "a\r\r\n",
        "\n\na\n\n",
        "\r",
        "a\n\rb",
        "##tag",
        "# #tag",
        "a,b  c,\td",
        ",",
        ",,a,",
        "---\n---\nx",
        "---\n---\n---\nx",
        "---",
        "```prompt\nHello\n```",
        "h\u{e9}llo w\u{f6}rld \u{1f600}",
        "\u{85}x\u{85}",
        "\u{200b}x\u{200b}",
        "\u{180e}x",
        "\u{2028}line\u{2029}",
    ]
}

#[test]
fn white_space_is_what_the_standard_library_says() {
    for n in 0..=0x10FFFFu32 {
        if let Some(c) = char::from_u32(n) {
            assert_eq!(is_whitespace(c), c.is_whitespace(), "U+{:04X}", n);
        }
    }
}

#[test]
fn characters_and_strings_convert_both_ways() {
    for s in samples() {
        let chars = chars_of(s);
        assert_eq!(chars, s.chars().collect::<Vec<char>>());
        assert_eq!(string_of(&chars), s);
    }
    assert_eq!(chain("ab", "cd"), "abcd");
    assert_eq!(chain("", ""), "");
}

#[test]
fn trimming_is_what_the_standard_library_does() {
    for s in samples() {
        let chars = chars_of(s);
        assert_eq!(text(&trim(&chars)), s.trim(), "{:?}", s);
        assert_eq!(text(&trim_start(&chars)), s.trim_start(), "{:?}", s);
        assert_eq!(text(&trim_end(&chars)), s.trim_end(), "{:?}", s);
        assert_eq!(text(&trim_start_matches(&chars, '#')), s.trim_start_matches('#'), "{:?}", s);
        assert_eq!(
            text(&trim_start_matches_text(&chars, &chars_of("---\n"))),
            s.trim_start_matches("---\n"),
            "{:?}",
            s
        );
        assert_eq!(text(&trim_start_matches_text(&chars, &chars_of(""))), s);
    }
}

#[test]
fn lines_are_what_the_standard_library_gives() {
    for s in samples() {
        let lines: Vec<String> = split_lines(&chars_of(s)).iter().map(text).collect();
        let expected: Vec<String> = s.lines().map(|l| l.to_string()).collect();
        assert_eq!(lines, expected, "{:?}", s);
        let joined = text(&join_lines(&split_lines(&chars_of(s))));
        assert_eq!(joined, expected.join("\n"), "{:?}", s);
    }
}

#[test]
fn lines_of_an_exact_example() {
    let lines: Vec<String> = split_lines(&chars_of("one\r\ntwo\n\nfour\r")).iter().map(text).collect();
    assert_eq!(lines, vec!["one", "two", "", "four\r"]);
    assert_eq!(text(&join_lines(&Vec::new())), "");
    assert_eq!(text(&join_lines(&vec![chars_of("only")])), "only");
    assert_eq!(text(&join_lines(&vec![chars_of("a"), chars_of(""), chars_of("b")])), "a\n\nb");
}

#[test]
fn pieces_are_what_the_standard_library_gives() {
    for s in samples() {
        let pieces: Vec<String> = split_pieces(&chars_of(s)).iter().map(text).collect();
        let expected: Vec<String> =
            s.split(|c: char| c == ',' || c.is_whitespace()).map(|p| p.to_string()).collect();
        assert_eq!(pieces, expected, "{:?}", s);
    }
    let pieces: Vec<String> = split_pieces(&chars_of("a, b")).iter().map(text).collect();
    assert_eq!(pieces, vec!["a", "", "b"]);
}

#[test]
fn searching_is_what_the_standard_library_does() {
    let patterns = ["", "a", "..", "```", "\n", "---", "b\n", "\u{1f600}", "prompt", "a\rb"];
    for s in samples() {
        let chars = chars_of(s);
        for p in patterns {
            let pattern = chars_of(p);
            assert_eq!(contains(&chars, &pattern), s.contains(p), "{:?} {:?}", s, p);
            assert_eq!(starts_with(&chars, &pattern), s.starts_with(p), "{:?} {:?}", s, p);
            assert_eq!(ends_with(&chars, &pattern), s.ends_with(p), "{:?} {:?}", s, p);
        }
        for c in ['a', '/', '\\', '\n', '\u{1f600}'] {
            assert_eq!(contains_char(&chars, c), s.contains(c), "{:?} {:?}", s, c);
        }
    }
}
