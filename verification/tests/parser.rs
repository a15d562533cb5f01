use hack_asm::code::Code;
use hack_asm::command::{Command, PseudoCommand};
use hack_asm::parser::{parse, parse_a_command, parse_c_command, parse_l_definition};

#[test]
fn test_max_l() {
    let p = |s: &str| -> String {
        let c = Code::from(parse(s).unwrap()).unwrap();
        c.to_binary_string()
    };

    assert_eq!(p("@0"), "0000000000000000");
    assert_eq!(p("D=M"), "1111110000010000");
    assert_eq!(p("@1"), "0000000000000001");
    assert_eq!(p("D=D-M"), "1111010011010000");
    assert_eq!(p("@10"), "0000000000001010");
    assert_eq!(p("D;JGT"), "1110001100000001");
    assert_eq!(p("@1"), "0000000000000001");
    assert_eq!(p("D=M"), "1111110000010000");
    assert_eq!(p("@12"), "0000000000001100");
    assert_eq!(p("0;JMP"), "1110101010000111");
    assert_eq!(p("@0"), "0000000000000000");
    assert_eq!(p("D=M"), "1111110000010000");
    assert_eq!(p("@2"), "0000000000000010");
    assert_eq!(p("M=D"), "1110001100001000");
    assert_eq!(p("@14"), "0000000000001110");
    assert_eq!(p("0;JMP"), "1110101010000111");
}

#[test]
fn test_parse_a_command() {
    assert!(matches!(
        parse_a_command("@123"),
        Some(Command::A { address }) if address == 123,
    ));
}

#[test]
fn test_parse_variable() {
    assert!(matches!(
        parse_a_command("@xxx"),
        Some(Command::Pseudo(PseudoCommand::A { label })) if label == "xxx",
    ));
}

#[test]
fn test_parse_c_command() {
    match parse_c_command("M-1") {
        Command::C { comp, dest, jump } => {
            assert_eq!(dest, None);
            assert_eq!(comp, "M-1");
            assert_eq!(jump, None);
        }
        _ => panic!(),
    }
    match parse_c_command("A=M-1") {
        Command::C { comp, dest, jump } => {
            assert_eq!(dest, Some("A".into()));
            assert_eq!(comp, "M-1");
            assert_eq!(jump, None);
        }
        _ => panic!(),
    }
    match parse_c_command("0;JMP") {
        Command::C { comp, dest, jump } => {
            assert_eq!(dest, None);
            assert_eq!(comp, "0");
            assert_eq!(jump, Some("JMP".into()));
        }
        _ => panic!(),
    }
}

#[test]
fn test_parse_l_command() {
    assert!(matches!(
        parse_l_definition("(test)"),
        Some(Command::Pseudo(PseudoCommand::L { label })) if label == "test",
    ));
}

fn compute(line: &str) -> (Option<String>, String, Option<String>) {
    match parse_c_command(line) {
        Command::C { comp, dest, jump } => (dest, comp, jump),
        _ => panic!("a compute instruction was expected"),
    }
}

fn text(s: &str) -> Option<String> {
    Some(s.to_string())
}

#[test]
fn parse_empty_line_fails() {
    assert!(parse("").is_none());
}

#[test]
fn parse_picks_the_form_by_the_first_character() {
    assert!(matches!(parse("@7"), Some(Command::A { address: 7 })));
    assert!(matches!(
        parse("@i"),
        Some(Command::Pseudo(PseudoCommand::A { label })) if label == "i",
    ));
    assert!(matches!(
        parse("(END)"),
        Some(Command::Pseudo(PseudoCommand::L { label })) if label == "END",
    ));
    assert!(matches!(
        parse("D=M"),
        Some(Command::C { comp, dest, jump })
            if comp == "M" && dest == text("D") && jump.is_none(),
    ));
}

#[test]
fn address_numbers_stop_at_32767() {
    assert!(matches!(parse_a_command("@0"), Some(Command::A { address: 0 })));
    assert!(matches!(parse_a_command("@32767"), Some(Command::A { address: 32767 })));
    assert!(parse_a_command("@32768").is_none());
    assert!(parse_a_command("@65535").is_none());
    assert!(parse_a_command("@65536").is_none());
    assert!(parse_a_command("@99999999999999999999999").is_none());
}

#[test]
fn address_numbers_may_start_with_zeros() {
    assert!(matches!(parse_a_command("@007"), Some(Command::A { address: 7 })));
    assert!(matches!(
        parse_a_command("@000000000000000000032767"),
        Some(Command::A { address: 32767 }),
    ));
    assert!(parse_a_command("@000000000000000000032768").is_none());
}

#[test]
fn address_tokens_that_are_neither_number_nor_symbol_fail() {
    assert!(parse_a_command("@").is_none());
    assert!(parse_a_command("").is_none());
    assert!(parse_a_command("@-1").is_none());
    assert!(parse_a_command("@+1").is_none());
    assert!(parse_a_command("@1a").is_none());
    assert!(parse_a_command("@12 ").is_none());
    assert!(parse_a_command("@a b").is_none());
    assert!(parse_a_command("@a-b").is_none());
    assert!(parse_a_command("@\u{e9}t\u{e9}").is_none());
    assert!(parse_a_command("@99999x").is_none());
}

#[test]
fn symbols_hold_letters_digits_and_four_signs() {
    for name in ["a1", "_", "ball.move$if_true0", "sys:init", "Z", "$x", ".y", ":z", "R16"] {
        let line = format!("@{}", name);
        assert!(matches!(
            parse_a_command(&line),
            Some(Command::Pseudo(PseudoCommand::A { label })) if label == name,
        ));
    }
}

#[test]
fn address_line_is_read_after_its_first_character() {
    assert!(matches!(parse_a_command("x42"), Some(Command::A { address: 42 })));
}

#[test]
fn label_ends_at_the_first_closing_bracket() {
    assert!(matches!(
        parse_l_definition("(A)B)"),
        Some(Command::Pseudo(PseudoCommand::L { label })) if label == "A",
    ));
    assert!(matches!(
        parse_l_definition("()"),
        Some(Command::Pseudo(PseudoCommand::L { label })) if label.is_empty(),
    ));
    assert!(matches!(
        parse_l_definition("(a b)"),
        Some(Command::Pseudo(PseudoCommand::L { label })) if label == "a b",
    ));
    assert!(matches!(
        parse_l_definition("((x)"),
        Some(Command::Pseudo(PseudoCommand::L { label })) if label == "(x",
    ));
}

#[test]
fn label_without_closing_bracket_fails() {
    assert!(parse_l_definition("(LOOP").is_none());
    assert!(parse_l_definition("(").is_none());
    assert!(parse_l_definition("").is_none());
    assert!(parse("(LOOP").is_none());
}

#[test]
fn compute_with_all_three_fields() {
    assert_eq!(compute("AMD=D|M;JNE"), (text("AMD"), "D|M".to_string(), text("JNE")));
    assert_eq!(compute("D=M;JMP"), (text("D"), "M".to_string(), text("JMP")));
}

#[test]
fn compute_with_empty_fields() {
    assert_eq!(compute(";JMP"), (None, String::new(), text("JMP")));
    assert_eq!(compute("D="), (text("D"), String::new(), None));
    assert_eq!(compute("="), (text(""), String::new(), None));
    assert_eq!(compute(";"), (None, String::new(), text("")));
    assert_eq!(compute("D;"), (None, "D".to_string(), text("")));
    assert_eq!(compute(""), (None, String::new(), None));
}

#[test]
fn compute_with_repeated_separators() {
    assert_eq!(compute("A=B=C"), (text("B"), "C".to_string(), None));
    assert_eq!(compute("A;B;C"), (None, "B".to_string(), text("C")));
    assert_eq!(compute("A;B=C"), (text("B"), "A".to_string(), text("C")));
    assert_eq!(compute("A=B;C=D;E"), (text("C"), "D".to_string(), text("E")));
}

#[test]
fn compute_keeps_every_other_character() {
    assert_eq!(compute("D = M"), (text("D "), " M".to_string(), None));
    assert_eq!(compute("\u{3b1}=\u{3b2};\u{3b3}"), (text("\u{3b1}"), "\u{3b2}".to_string(), text("\u{3b3}")));
}
