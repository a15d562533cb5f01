use hack_asm::source::{is_whitespace_char, source_lines, trim_chars};
use hack_asm::text::{chars_of, spells, string_of};

#[test]
fn chars_of_gives_each_character() {
    assert_eq!(chars_of(""), Vec::<char>::new());
    assert_eq!(chars_of("D=M"), vec!['D', '=', 'M']);
    assert_eq!(chars_of("a\u{e9}\u{4e2d}\u{1f600}"), vec!['a', '\u{e9}', '\u{4e2d}', '\u{1f600}']);
}

#[test]
fn string_of_appends_each_character() {
    assert_eq!(string_of(&[]), "");
    assert_eq!(string_of(&['J', 'M', 'P']), "JMP");
    assert_eq!(string_of(&['a', '\u{e9}', '\u{1f600}']), "a\u{e9}\u{1f600}");
    let text = "ball.move$if_true0";
    assert_eq!(string_of(&chars_of(text)), text);
}

#[test]
fn spells_compares_the_whole_text() {
    assert!(spells(&[], ""));
    assert!(spells(&['D', '+', '1'], "D+1"));
    assert!(!spells(&['D', '+', '1'], "D+"));
    assert!(!spells(&['D', '+'], "D+1"));
    assert!(!spells(&['D', '+', '1'], "D-1"));
    assert!(!spells(&[], "D"));
    assert!(!spells(&['D'], ""));
}

#[test]
fn white_space_is_what_the_standard_library_says() {
    for code in 0..=0x10FFFFu32 {
        if let Some(c) = char::from_u32(code) {
            assert_eq!(is_whitespace_char(c), c.is_whitespace(), "U+{:04X}", code);
        }
    }
}

#[test]
fn trim_takes_the_white_space_from_both_ends() {
    let trimmed = |s: &str| string_of(trim_chars(&chars_of(s)));
    assert_eq!(trimmed(""), "");
    assert_eq!(trimmed("   "), "");
    assert_eq!(trimmed("D=M"), "D=M");
    assert_eq!(trimmed("  D=M"), "D=M");
    assert_eq!(trimmed("D=M \t\r"), "D=M");
    assert_eq!(trimmed(" \t D = M \n"), "D = M");
    assert_eq!(trimmed("\u{3000}@1\u{a0}\u{2003}"), "@1");
    assert_eq!(trimmed("\u{feff}@1"), "\u{feff}@1");
    for s in ["", " ", " a", "a ", " a b ", "\t\n\u{b}\u{c}\r x\u{85}", "\u{1680}y\u{205f}"] {
        assert_eq!(trimmed(s), s.trim());
    }
}

#[test]
fn source_lines_are_trimmed_and_filtered() {
    assert_eq!(source_lines(""), Vec::<String>::new());
    assert_eq!(source_lines("\n\n \n"), Vec::<String>::new());
    assert_eq!(source_lines("// only a comment"), Vec::<String>::new());
    assert_eq!(source_lines("@1"), vec!["@1"]);
    assert_eq!(source_lines("@1\n"), vec!["@1"]);
    assert_eq!(
        source_lines("// Adds\n\n  @2  \n\tD=A\r\n   // indented comment\n(END)\n@END\n0;JMP"),
        vec!["@2", "D=A", "(END)", "@END", "0;JMP"],
    );
}

#[test]
fn a_comment_starts_the_line() {
    assert_eq!(source_lines("D=M // trailing"), vec!["D=M // trailing"]);
    assert_eq!(source_lines("/ /x\n/\n/x/\n//"), vec!["/ /x", "/", "/x/"]);
    assert_eq!(source_lines("///\n//x"), Vec::<String>::new());
}

#[test]
fn source_lines_agree_with_the_standard_library() {
    let samples = [
        "",
        "\n",
        "\r\n",
        "a",
        "a\n",
        "a\r\n",
        "a\n\nb",
        "a\r\n\r\nb\r\n",
        " a \n // c \n\n b\r",
        "\r",
        "a\rb",
        "a\r\rb\n\r\nc",
        "//\n/\n/ /\n",
        "\u{2028}x\u{2029}\ny\u{85}",
        "@R0\nD=M\n@R1\nD=D-M\n",
    ];
    for input in samples {
        let expected: Vec<String> = input
            .lines()
            .map(|s| s.trim())
            .filter(|s| !s.is_empty() && !s.starts_with("//"))
            .map(|s| s.to_string())
            .collect();
        assert_eq!(source_lines(input), expected, "{:?}", input);
    }
}
