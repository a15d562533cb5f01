use hack_asm::command::{Command, PseudoCommand};

#[test]
fn every_command_but_a_label_is_an_instruction() {
    assert!(Command::A { address: 0 }.is_instruction());
    assert!(Command::C { comp: "0".to_string(), dest: None, jump: None }.is_instruction());
    assert!(Command::Pseudo(PseudoCommand::A { label: "i".to_string() }).is_instruction());
    assert!(!Command::Pseudo(PseudoCommand::L { label: "LOOP".to_string() }).is_instruction());
}

#[test]
fn a_copy_of_a_command_reads_the_same() {
    let address = Command::A { address: 12345 };
    assert!(matches!(address.clone(), Command::A { address: 12345 }));

    let compute = Command::C {
        comp: "D+1".to_string(),
        dest: Some("AM".to_string()),
        jump: None,
    };
    assert!(matches!(
        compute.clone(),
        Command::C { comp, dest: Some(dest), jump: None } if comp == "D+1" && dest == "AM",
    ));
    let jump = Command::C { comp: "0".to_string(), dest: None, jump: Some("JMP".to_string()) };
    assert!(matches!(
        jump.clone(),
        Command::C { comp, dest: None, jump: Some(jump) } if comp == "0" && jump == "JMP",
    ));

    let symbolic = Command::Pseudo(PseudoCommand::A { label: "sum".to_string() });
    assert!(matches!(
        symbolic.clone(),
        Command::Pseudo(PseudoCommand::A { label }) if label == "sum",
    ));
    let label = PseudoCommand::L { label: "END".to_string() };
    assert!(matches!(label.clone(), PseudoCommand::L { label } if label == "END"));
}

#[test]
fn commands_can_be_printed_for_debugging() {
    let command = Command::Pseudo(PseudoCommand::L { label: "END".to_string() });
    assert_eq!(format!("{:?}", command), "Pseudo(L { label: \"END\" })");
    assert_eq!(format!("{:?}", Command::A { address: 7 }), "A { address: 7 }");
}
