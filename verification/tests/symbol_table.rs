use hack_asm::symbol_table::SymbolTable;

#[test]
fn default_rom_address() {
    let st = SymbolTable::new();
    assert_eq!(st.rom_address(), 0);
}

#[test]
fn default_var_address() {
    let st = SymbolTable::new();
    assert_eq!(st.variable_address(), 16);
}

#[test]
fn insert_label_duplicates_are_ignored() {
    let mut st = SymbolTable::new();
    st.insert_label("label".into());
    let before = st.get("label".into());
    st.insert_label("label".into());
    let after = st.get("label".into());
    assert_eq!(before, after);
}

#[test]
fn insert_variable_duplicates_are_ignored() {
    let mut st = SymbolTable::new();

    st.insert_variable("variable".into());
    let before = st.get("variable".into());
    st.insert_variable("variable".into());
    let after = st.get("variable".into());
    assert_eq!(before, after);
}

#[test]
fn retrieving_value() {
    let mut st = SymbolTable::new();
    st.insert_label("test".into());
    st.insert_label("test2".into());
    assert_eq!(st.get("test".into()), Some(0))
}

#[test]
fn retrieving_predefined() {
    let st = SymbolTable::new();
    assert_eq!(st.get("SP".into()), Some(0));
    assert_eq!(st.get("R3".into()), Some(3));
    assert_eq!(st.get("SCREEN".into()), Some(0x4000));
    assert_eq!(st.get("KBD".into()), Some(0x6000));
}

#[test]
fn retrieving_nonexistent_value() {
    let st = SymbolTable::new();
    assert_eq!(st.get("test".into()), None)
}

#[test]
fn every_predefined_symbol_has_its_address() {
    let st = SymbolTable::new();
    let expected: [(&str, u16); 23] = [
        ("SP", 0),
        ("LCL", 1),
        ("ARG", 2),
        ("THIS", 3),
        ("THAT", 4),
        ("SCREEN", 16384),
        ("KBD", 24576),
        ("R0", 0),
        ("R1", 1),
        ("R2", 2),
        ("R3", 3),
        ("R4", 4),
        ("R5", 5),
        ("R6", 6),
        ("R7", 7),
        ("R8", 8),
        ("R9", 9),
        ("R10", 10),
        ("R11", 11),
        ("R12", 12),
        ("R13", 13),
        ("R14", 14),
        ("R15", 15),
    ];
    for (name, address) in expected {
        assert!(st.has(name));
        assert_eq!(st.get(name.to_string()), Some(address));
    }
}

#[test]
fn names_are_case_sensitive() {
    let st = SymbolTable::new();
    assert!(!st.has("sp"));
    assert!(!st.has("R16"));
    assert!(!st.has("r0"));
    assert!(!st.has(""));
    assert_eq!(st.get("Screen".to_string()), None);
}

#[test]
fn default_table_is_empty() {
    let st = SymbolTable::default();
    assert!(!st.has("SP"));
    assert_eq!(st.rom_address(), 0);
    assert_eq!(st.variable_address(), 16);
}

#[test]
fn first_write_wins() {
    let mut st = SymbolTable::new();
    assert!(!st.has("x"));
    st.insert("x".to_string(), 100);
    assert!(st.has("x"));
    assert_eq!(st.get("x".to_string()), Some(100));
    st.insert("x".to_string(), 200);
    assert_eq!(st.get("x".to_string()), Some(100));
}

#[test]
fn predefined_symbols_are_never_rebound() {
    let mut st = SymbolTable::new();
    st.insert("SP".to_string(), 99);
    st.increment_rom();
    st.insert_label("LCL".to_string());
    st.insert_variable("KBD".to_string());
    assert_eq!(st.get("SP".to_string()), Some(0));
    assert_eq!(st.get("LCL".to_string()), Some(1));
    assert_eq!(st.get("KBD".to_string()), Some(0x6000));
    assert_eq!(st.variable_address(), 16);
}

#[test]
fn labels_take_the_instruction_count() {
    let mut st = SymbolTable::new();
    st.insert_label("start".to_string());
    st.increment_rom();
    st.increment_rom();
    st.insert_label("next".to_string());
    st.increment_rom();
    st.insert_label("start".to_string());
    assert_eq!(st.get("start".to_string()), Some(0));
    assert_eq!(st.get("next".to_string()), Some(2));
    assert_eq!(st.rom_address(), 3);
    assert_eq!(st.variable_address(), 16);
}

#[test]
fn variables_are_numbered_from_16() {
    let mut st = SymbolTable::new();
    st.insert_variable("i".to_string());
    st.insert_variable("sum".to_string());
    st.insert_variable("i".to_string());
    st.insert_variable("R5".to_string());
    st.insert_variable("j".to_string());
    assert_eq!(st.get("i".to_string()), Some(16));
    assert_eq!(st.get("sum".to_string()), Some(17));
    assert_eq!(st.get("j".to_string()), Some(18));
    assert_eq!(st.get("R5".to_string()), Some(5));
    assert_eq!(st.variable_address(), 19);
    assert_eq!(st.rom_address(), 0);
}
