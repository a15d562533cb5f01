use hack_asm::command::{Command, PseudoCommand};
use hack_asm::resolver::{count_instructions, first_pass, second_pass, ResolveError};
use hack_asm::symbol_table::SymbolTable;

fn address(address: u16) -> Command {
    Command::A { address }
}

fn compute(comp: &str) -> Command {
    Command::C { comp: comp.to_string(), dest: None, jump: None }
}

fn label(name: &str) -> Command {
    Command::Pseudo(PseudoCommand::L { label: name.to_string() })
}

fn symbol(name: &str) -> Command {
    Command::Pseudo(PseudoCommand::A { label: name.to_string() })
}

fn addresses(commands: &[Command]) -> Vec<Option<u16>> {
    commands
        .iter()
        .map(|c| match c {
            Command::A { address } => Some(*address),
            _ => None,
        })
        .collect()
}

#[test]
fn labels_are_not_counted_as_instructions() {
    assert_eq!(count_instructions(&[]), 0);
    let program = [label("A"), address(1), label("B"), label("C"), symbol("x"), compute("D")];
    assert_eq!(count_instructions(&program), 3);
}

#[test]
fn a_label_gets_the_address_of_the_next_instruction() {
    let program = [
        label("FIRST"),
        address(0),
        compute("D"),
        label("THIRD"),
        label("ALSO_THIRD"),
        symbol("x"),
        label("LAST"),
    ];
    let mut table = SymbolTable::new();
    assert_eq!(first_pass(&program, &mut table), Ok(()));
    assert_eq!(table.get("FIRST".to_string()), Some(0));
    assert_eq!(table.get("THIRD".to_string()), Some(2));
    assert_eq!(table.get("ALSO_THIRD".to_string()), Some(2));
    assert_eq!(table.get("LAST".to_string()), Some(3));
    assert_eq!(table.get("x".to_string()), None);
    assert_eq!(table.rom_address(), 3);
    assert_eq!(table.variable_address(), 16);
}

#[test]
fn the_first_definition_of_a_label_wins() {
    let program = [address(0), label("L"), address(1), label("L"), label("SP"), address(2)];
    let mut table = SymbolTable::new();
    assert_eq!(first_pass(&program, &mut table), Ok(()));
    assert_eq!(table.get("L".to_string()), Some(1));
    assert_eq!(table.get("SP".to_string()), Some(0));
}

#[test]
fn the_first_pass_goes_on_from_the_count_of_the_table() {
    let mut table = SymbolTable::new();
    table.increment_rom();
    table.increment_rom();
    assert_eq!(first_pass(&[address(0), label("L")], &mut table), Ok(()));
    assert_eq!(table.get("L".to_string()), Some(3));
    assert_eq!(table.rom_address(), 3);
}

#[test]
fn too_many_instructions_are_an_error() {
    let mut program: Vec<Command> = Vec::new();
    for _ in 0..65535 {
        program.push(address(0));
    }
    program.push(label("END"));
    let mut table = SymbolTable::new();
    assert_eq!(first_pass(&program, &mut table), Ok(()));
    assert_eq!(table.get("END".to_string()), Some(65535));
    assert_eq!(table.rom_address(), 65535);

    program.push(address(0));
    let mut table = SymbolTable::new();
    assert_eq!(first_pass(&program, &mut table), Err(ResolveError::TooManyInstructions));
    assert_eq!(table.get("END".to_string()), None);
    assert_eq!(table.rom_address(), 0);
}

#[test]
fn the_second_pass_drops_labels_and_keeps_the_order() {
    let program = vec![
        label("START"),
        address(5),
        compute("D+1"),
        label("MIDDLE"),
        compute("0"),
        address(7),
        label("END"),
    ];
    let mut table = SymbolTable::new();
    let resolved = second_pass(program, &mut table).unwrap();
    assert_eq!(resolved.len(), 4);
    assert!(matches!(resolved[0], Command::A { address: 5 }));
    assert!(matches!(&resolved[1], Command::C { comp, dest: None, jump: None } if comp == "D+1"));
    assert!(matches!(&resolved[2], Command::C { comp, dest: None, jump: None } if comp == "0"));
    assert!(matches!(resolved[3], Command::A { address: 7 }));
    assert!(!table.has("START"));
}

#[test]
fn variables_get_addresses_in_the_order_of_their_first_use() {
    let program = vec![
        symbol("first"),
        symbol("second"),
        symbol("first"),
        symbol("R2"),
        symbol("third"),
        symbol("second"),
        symbol("SCREEN"),
        symbol("first"),
    ];
    let mut table = SymbolTable::new();
    let resolved = second_pass(program, &mut table).unwrap();
    assert_eq!(
        addresses(&resolved),
        vec![
            Some(16),
            Some(17),
            Some(16),
            Some(2),
            Some(18),
            Some(17),
            Some(16384),
            Some(16)
        ],
    );
    assert_eq!(table.get("first".to_string()), Some(16));
    assert_eq!(table.get("second".to_string()), Some(17));
    assert_eq!(table.get("third".to_string()), Some(18));
    assert_eq!(table.variable_address(), 19);
}

#[test]
fn labels_are_resolved_before_and_after_their_definition() {
    let program = vec![
        symbol("END"),
        compute("0"),
        label("LOOP"),
        symbol("LOOP"),
        symbol("i"),
        label("END"),
        symbol("END"),
        symbol("LOOP"),
    ];
    let mut table = SymbolTable::new();
    assert_eq!(first_pass(&program, &mut table), Ok(()));
    let resolved = second_pass(program, &mut table).unwrap();
    assert_eq!(
        addresses(&resolved),
        vec![Some(4), None, Some(2), Some(16), Some(4), Some(2)],
    );
}

#[test]
fn a_symbol_used_before_its_label_is_no_variable() {
    let program = vec![symbol("var"), symbol("LATER"), label("LATER"), symbol("other")];
    let mut table = SymbolTable::new();
    assert_eq!(first_pass(&program, &mut table), Ok(()));
    let resolved = second_pass(program, &mut table).unwrap();
    assert_eq!(addresses(&resolved), vec![Some(16), Some(2), Some(17)]);
}

#[test]
fn without_a_first_pass_a_label_is_a_variable() {
    let program = vec![label("L"), symbol("L")];
    let mut table = SymbolTable::new();
    let resolved = second_pass(program, &mut table).unwrap();
    assert_eq!(addresses(&resolved), vec![Some(16)]);
}

#[test]
fn too_many_variables_are_an_error() {
    let mut program: Vec<Command> = Vec::new();
    for i in 0..65519 {
        program.push(symbol(&format!("v{}", i)));
    }
    let mut table = SymbolTable::new();
    let resolved = second_pass(program.clone(), &mut table).unwrap();
    assert_eq!(resolved.len(), 65519);
    assert!(matches!(resolved[0], Command::A { address: 16 }));
    assert!(matches!(resolved[65518], Command::A { address: 65534 }));
    assert_eq!(table.variable_address(), 65535);

    program.push(symbol("v0"));
    program.push(symbol("KBD"));
    let mut table = SymbolTable::new();
    assert_eq!(second_pass(program.clone(), &mut table).unwrap().len(), 65521);

    program.push(symbol("one_more"));
    program.push(symbol("v1"));
    let mut table = SymbolTable::new();
    assert_eq!(second_pass(program, &mut table).err(), Some(ResolveError::TooManyVariables));
    assert!(!table.has("one_more"));
    assert_eq!(table.get("v65518".to_string()), Some(65534));
    assert_eq!(table.variable_address(), 65535);
}
