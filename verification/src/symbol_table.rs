//! The table from symbol names to addresses.

use vstd::prelude::*;
use vstd::hash_map::StringHashMap;

verus! {

/// The address that the first variable of a program gets.
pub const FIRST_VARIABLE_ADDRESS: u16 = 0x10;

/// Symbols and their addresses, with the two counters that hand out the
/// addresses of labels and of variables.
///
/// A symbol keeps the address it was first given: inserting it again
/// changes nothing.
pub struct SymbolTable {
    map: StringHashMap<u16>,
    rom_address: u16,
    variable_address: u16,
}

/// What a symbol table holds.
pub struct SymbolTableView {
    /// The address of each symbol.
    pub symbols: Map<Seq<char>, u16>,
    /// The address of the next instruction.
    pub rom_address: nat,
    /// The address that the next new variable gets.
    pub variable_address: nat,
}

impl SymbolTableView {
    /// The table with `name` at `address`, unless `name` was in it already:
    /// then the table is unchanged.
    pub open spec fn insert(self, name: Seq<char>, address: u16) -> SymbolTableView {
        if self.symbols.contains_key(name) {
            self
        } else {
            SymbolTableView { symbols: self.symbols.insert(name, address), ..self }
        }
    }

    /// Whether `name` has an address.
    pub open spec fn has(self, name: Seq<char>) -> bool {
        self.symbols.contains_key(name)
    }

    /// The address of `name`, if it has one.
    pub open spec fn get(self, name: Seq<char>) -> Option<u16> {
        if self.symbols.contains_key(name) {
            Some(self.symbols[name])
        } else {
            None
        }
    }

    /// Whether this table holds every symbol of `earlier`, at the same
    /// address.
    pub open spec fn extends(self, earlier: SymbolTableView) -> bool {
        forall|name: Seq<char>| #[trigger]
            earlier.has(name) ==> self.has(name) && self.symbols[name] == earlier.symbols[name]
    }

    /// The table after one more instruction.
    pub open spec fn increment_rom(self) -> SymbolTableView {
        SymbolTableView { rom_address: self.rom_address + 1, ..self }
    }

    /// The table with `label` at the address of the next instruction, unless
    /// `label` was in it already.
    pub open spec fn insert_label(self, label: Seq<char>) -> SymbolTableView {
        self.insert(label, self.rom_address as u16)
    }

    /// The table with `label` at the next variable address and that address
    /// moved on by one, unless `label` was in it already.
    pub open spec fn insert_variable(self, label: Seq<char>) -> SymbolTableView {
        if self.symbols.contains_key(label) {
            self
        } else {
            SymbolTableView {
                symbols: self.symbols.insert(label, self.variable_address as u16),
                variable_address: self.variable_address + 1,
                ..self
            }
        }
    }
}

/// The symbols that every program starts with.
pub open spec fn predefined_symbols() -> Map<Seq<char>, u16> {
    map![
        "SP"@ => 0u16,
        "LCL"@ => 1u16,
        "ARG"@ => 2u16,
        "THIS"@ => 3u16,
        "THAT"@ => 4u16,
        "SCREEN"@ => 0x4000u16,
        "KBD"@ => 0x6000u16,
        "R0"@ => 0u16,
        "R1"@ => 1u16,
        "R2"@ => 2u16,
        "R3"@ => 3u16,
        "R4"@ => 4u16,
        "R5"@ => 5u16,
        "R6"@ => 6u16,
        "R7"@ => 7u16,
        "R8"@ => 8u16,
        "R9"@ => 9u16,
        "R10"@ => 10u16,
        "R11"@ => 11u16,
        "R12"@ => 12u16,
        "R13"@ => 13u16,
        "R14"@ => 14u16,
        "R15"@ => 15u16,
    ]
}

/// The table without symbols, before any instruction and any variable.
pub open spec fn empty_table() -> SymbolTableView {
    SymbolTableView {
        symbols: Map::empty(),
        rom_address: 0,
        variable_address: FIRST_VARIABLE_ADDRESS as nat,
    }
}

/// The table that assembling a program starts with: the predefined symbols,
/// before any instruction and any variable.
pub open spec fn initial_table() -> SymbolTableView {
    SymbolTableView { symbols: predefined_symbols(), ..empty_table() }
}

/// Every predefined symbol has its fixed address in the table that
/// assembling starts with.
pub proof fn lemma_predefined_addresses()
    ensures
        initial_table().get("SP"@) == Some(0u16),
        initial_table().get("LCL"@) == Some(1u16),
        initial_table().get("ARG"@) == Some(2u16),
        initial_table().get("THIS"@) == Some(3u16),
        initial_table().get("THAT"@) == Some(4u16),
        initial_table().get("SCREEN"@) == Some(0x4000u16),
        initial_table().get("KBD"@) == Some(0x6000u16),
        initial_table().get("R0"@) == Some(0u16),
        initial_table().get("R1"@) == Some(1u16),
        initial_table().get("R2"@) == Some(2u16),
        initial_table().get("R3"@) == Some(3u16),
        initial_table().get("R4"@) == Some(4u16),
        initial_table().get("R5"@) == Some(5u16),
        initial_table().get("R6"@) == Some(6u16),
        initial_table().get("R7"@) == Some(7u16),
        initial_table().get("R8"@) == Some(8u16),
        initial_table().get("R9"@) == Some(9u16),
        initial_table().get("R10"@) == Some(10u16),
        initial_table().get("R11"@) == Some(11u16),
        initial_table().get("R12"@) == Some(12u16),
        initial_table().get("R13"@) == Some(13u16),
        initial_table().get("R14"@) == Some(14u16),
        initial_table().get("R15"@) == Some(15u16),
{
    reveal_strlit("SP");
    reveal_strlit("LCL");
    reveal_strlit("ARG");
    reveal_strlit("THIS");
    reveal_strlit("THAT");
    reveal_strlit("SCREEN");
    reveal_strlit("KBD");
    reveal_strlit("R0");
    reveal_strlit("R1");
    reveal_strlit("R2");
    reveal_strlit("R3");
    reveal_strlit("R4");
    reveal_strlit("R5");
    reveal_strlit("R6");
    reveal_strlit("R7");
    reveal_strlit("R8");
    reveal_strlit("R9");
    reveal_strlit("R10");
    reveal_strlit("R11");
    reveal_strlit("R12");
    reveal_strlit("R13");
    reveal_strlit("R14");
    reveal_strlit("R15");
    // The names differ in length, in their first letter, or in a digit.
    assert("SP"@.len() == 2 && "LCL"@.len() == 3 && "ARG"@.len() == 3 && "KBD"@.len() == 3);
    assert("THIS"@.len() == 4 && "THAT"@.len() == 4 && "SCREEN"@.len() == 6);
    assert("R0"@.len() == 2 && "R1"@.len() == 2 && "R2"@.len() == 2 && "R3"@.len() == 2);
    assert("R4"@.len() == 2 && "R5"@.len() == 2 && "R6"@.len() == 2 && "R7"@.len() == 2);
    assert("R8"@.len() == 2 && "R9"@.len() == 2 && "R10"@.len() == 3 && "R11"@.len() == 3);
    assert("R12"@.len() == 3 && "R13"@.len() == 3 && "R14"@.len() == 3 && "R15"@.len() == 3);
    assert("SP"@[0] == 'S' && "LCL"@[0] == 'L' && "ARG"@[0] == 'A' && "KBD"@[0] == 'K');
    assert("THIS"@[2] == 'I' && "THAT"@[2] == 'A');
    assert("R0"@[0] == 'R' && "R0"@[1] == '0');
    assert("R1"@[0] == 'R' && "R1"@[1] == '1');
    assert("R2"@[0] == 'R' && "R2"@[1] == '2');
    assert("R3"@[0] == 'R' && "R3"@[1] == '3');
    assert("R4"@[0] == 'R' && "R4"@[1] == '4');
    assert("R5"@[0] == 'R' && "R5"@[1] == '5');
    assert("R6"@[0] == 'R' && "R6"@[1] == '6');
    assert("R7"@[0] == 'R' && "R7"@[1] == '7');
    assert("R8"@[0] == 'R' && "R8"@[1] == '8');
    assert("R9"@[0] == 'R' && "R9"@[1] == '9');
    assert("R10"@[0] == 'R' && "R10"@[2] == '0');
    assert("R11"@[0] == 'R' && "R11"@[2] == '1');
    assert("R12"@[0] == 'R' && "R12"@[2] == '2');
    assert("R13"@[0] == 'R' && "R13"@[2] == '3');
    assert("R14"@[0] == 'R' && "R14"@[2] == '4');
    assert("R15"@[0] == 'R' && "R15"@[2] == '5');
}

/// The first write wins: a symbol keeps the address that it was first
/// inserted with, whatever is inserted under its name later.
pub proof fn lemma_first_write_wins(
    table: SymbolTableView,
    name: Seq<char>,
    first: u16,
    second: u16,
)
    ensures
        table.insert(name, first).insert(name, second) == table.insert(name, first),
        !table.has(name) ==> table.insert(name, first).insert(name, second).get(name) == Some(
            first,
        ),
        table.has(name) ==> table.insert(name, first) == table,
        table.has(name) ==> table.insert_label(name) == table,
        table.has(name) ==> table.insert_variable(name) == table,
        table.insert(name, first).extends(table),
        table.insert_label(name).extends(table),
        table.insert_variable(name).extends(table),
{
}

impl View for SymbolTable {
    type V = SymbolTableView;

    closed spec fn view(&self) -> SymbolTableView {
        SymbolTableView {
            symbols: self.map@,
            rom_address: self.rom_address as nat,
            variable_address: self.variable_address as nat,
        }
    }
}

impl Default for SymbolTable {
    fn default() -> (table: SymbolTable)
        ensures
            table@ == empty_table(),
    {
        SymbolTable {
            map: StringHashMap::new(),
            rom_address: 0,
            variable_address: FIRST_VARIABLE_ADDRESS,
        }
    }
}

impl SymbolTable {
    /// The table that assembling a program starts with.
    pub fn new() -> (table: SymbolTable)
        ensures
            table@ == initial_table(),
    {
        let mut st = SymbolTable::default();
        st.insert_predefined(String::from_str("SP"), 0);
        st.insert_predefined(String::from_str("LCL"), 1);
        st.insert_predefined(String::from_str("ARG"), 2);
        st.insert_predefined(String::from_str("THIS"), 3);
        st.insert_predefined(String::from_str("THAT"), 4);
        st.insert_predefined(String::from_str("SCREEN"), 0x4000);
        st.insert_predefined(String::from_str("KBD"), 0x6000);
        st.insert_predefined(String::from_str("R0"), 0);
        st.insert_predefined(String::from_str("R1"), 1);
        st.insert_predefined(String::from_str("R2"), 2);
        st.insert_predefined(String::from_str("R3"), 3);
        st.insert_predefined(String::from_str("R4"), 4);
        st.insert_predefined(String::from_str("R5"), 5);
        st.insert_predefined(String::from_str("R6"), 6);
        st.insert_predefined(String::from_str("R7"), 7);
        st.insert_predefined(String::from_str("R8"), 8);
        st.insert_predefined(String::from_str("R9"), 9);
        st.insert_predefined(String::from_str("R10"), 10);
        st.insert_predefined(String::from_str("R11"), 11);
        st.insert_predefined(String::from_str("R12"), 12);
        st.insert_predefined(String::from_str("R13"), 13);
        st.insert_predefined(String::from_str("R14"), 14);
        st.insert_predefined(String::from_str("R15"), 15);
        st
    }

    /// Both counters are 16-bit numbers.
    pub proof fn lemma_counters_fit(&self)
        ensures
            self@.rom_address <= u16::MAX,
            self@.variable_address <= u16::MAX,
    {
    }

    /// The address of the next instruction.
    pub fn rom_address(&self) -> (address: u16)
        ensures
            address == self@.rom_address,
    {
        self.rom_address
    }

    /// The address that the next new variable gets.
    pub fn variable_address(&self) -> (address: u16)
        ensures
            address == self@.variable_address,
    {
        self.variable_address
    }

    /// Gives `name` the address `address`, unless `name` has one already.
    pub fn insert(&mut self, name: String, address: u16)
        ensures
            final(self)@ == old(self)@.insert(name@, address),
    {
        if !self.map.contains_key(name.as_str()) {
            self.map.insert(name, address);
        }
    }

    /// Whether `name` has an address.
    pub fn has(&self, name: &str) -> (found: bool)
        ensures
            found == self@.has(name@),
    {
        self.map.contains_key(name)
    }

    /// The address of `label`, if it has one.
    pub fn get(&self, label: String) -> (address: Option<u16>)
        ensures
            address == self@.get(label@),
    {
        match self.map.get(label.as_str()) {
            Some(found) => Some(*found),
            None => None,
        }
    }

    /// Counts one more instruction.
    pub fn increment_rom(&mut self)
        requires
            old(self)@.rom_address < u16::MAX,
        ensures
            final(self)@ == old(self)@.increment_rom(),
    {
        self.rom_address += 1
    }

    /// Gives `label` the next variable address, unless `label` has an
    /// address already.
    pub fn insert_variable(&mut self, label: String)
        requires
            old(self)@.has(label@) || old(self)@.variable_address < u16::MAX,
        ensures
            final(self)@ == old(self)@.insert_variable(label@),
    {
        if self.map.get(label.as_str()).is_some() {
            return ;
        }
        self.map.insert(label, self.variable_address);
        self.variable_address += 1;
    }

    /// Gives `label` the address of the next instruction, unless `label` has
    /// an address already.
    pub fn insert_label(&mut self, label: String)
        ensures
            final(self)@ == old(self)@.insert_label(label@),
    {
        self.insert(label, self.rom_address);
    }

    fn insert_predefined(&mut self, label: String, address: u16)
        ensures
            final(self)@ == (SymbolTableView {
                symbols: old(self)@.symbols.insert(label@, address),
                ..old(self)@
            }),
    {
        self.map.insert(label, address);
    }
}

} // verus!
