//! The two passes that turn a parsed program into one without symbols.
//!
//! The first pass gives every label the address of the instruction that
//! follows it. The second pass drops the label definitions and replaces every
//! symbolic address by a number: the address of its label or predefined
//! symbol, or a fresh variable address.

use vstd::prelude::*;
use crate::command::{Command, CommandView, PseudoCommand};
use crate::symbol_table::{initial_table, SymbolTable, SymbolTableView};

verus! {

/// Why a program cannot be resolved.
#[derive(Debug, Clone, Copy, PartialEq, Eq)]
pub enum ResolveError {
    /// The program has more instructions than 16-bit addresses can count.
    TooManyInstructions,
    /// The program needs a new variable and no 16-bit address is left.
    TooManyVariables,
}

/// How many of `commands` take a slot in the binary program.
pub open spec fn instruction_count(commands: Seq<CommandView>) -> nat
    decreases commands.len(),
{
    if commands.len() == 0 {
        0
    } else if commands.last().is_instruction() {
        instruction_count(commands.drop_last()) + 1
    } else {
        instruction_count(commands.drop_last())
    }
}

/// The table after the first pass over `commands`: every label definition
/// inserts its label at the address of the next instruction, and every other
/// command counts as one instruction.
pub open spec fn collect_labels(table: SymbolTableView, commands: Seq<CommandView>)
    -> SymbolTableView
    decreases commands.len(),
{
    if commands.len() == 0 {
        table
    } else {
        let before = collect_labels(table, commands.drop_last());
        match commands.last() {
            CommandView::LabelDefinition { label } => before.insert_label(label),
            _ => before.increment_rom(),
        }
    }
}

/// Where the second pass stands: the table, the commands written so far, and
/// whether a variable was needed when no address was left.
pub struct Resolution {
    pub table: SymbolTableView,
    pub commands: Seq<CommandView>,
    pub exhausted: bool,
}

/// The second pass on one command.
///
/// A label definition is dropped. A symbolic address becomes the address of
/// its symbol; a symbol without an address is first given the next variable
/// address. Any other command is kept as it is. Once the addresses are
/// exhausted nothing changes any more.
pub open spec fn resolve_next(state: Resolution, command: CommandView) -> Resolution {
    if state.exhausted {
        state
    } else {
        match command {
            CommandView::LabelDefinition { .. } => state,
            CommandView::SymbolicAddress { label } => {
                if state.table.has(label) {
                    Resolution {
                        commands: state.commands.push(
                            CommandView::AddressCommand { address: state.table.symbols[label] },
                        ),
                        ..state
                    }
                } else if state.table.variable_address >= u16::MAX {
                    Resolution { exhausted: true, ..state }
                } else {
                    Resolution {
                        table: state.table.insert_variable(label),
                        commands: state.commands.push(
                            CommandView::AddressCommand {
                                address: state.table.variable_address as u16,
                            },
                        ),
                        exhausted: false,
                    }
                }
            },
            resolved => Resolution { commands: state.commands.push(resolved), ..state },
        }
    }
}

/// The second pass over `commands`, starting from `table`.
pub open spec fn resolve(table: SymbolTableView, commands: Seq<CommandView>) -> Resolution
    decreases commands.len(),
{
    if commands.len() == 0 {
        Resolution { table, commands: Seq::empty(), exhausted: false }
    } else {
        resolve_next(resolve(table, commands.drop_last()), commands.last())
    }
}

/// The table of a program after its first pass: the predefined symbols and
/// the labels of the program.
pub open spec fn labelled_table(commands: Seq<CommandView>) -> SymbolTableView {
    collect_labels(initial_table(), commands)
}

/// Both passes over a program, starting from the table of predefined
/// symbols: the resolved commands, or the reason why there are none.
pub open spec fn resolve_program(commands: Seq<CommandView>) -> Result<
    Seq<CommandView>,
    ResolveError,
> {
    if instruction_count(commands) > u16::MAX {
        Err(ResolveError::TooManyInstructions)
    } else {
        let resolution = resolve(labelled_table(commands), commands);
        if resolution.exhausted {
            Err(ResolveError::TooManyVariables)
        } else {
            Ok(resolution.commands)
        }
    }
}

/// The slot of command `i` in the binary program: the number of
/// instructions before it.
pub open spec fn slot(commands: Seq<CommandView>, i: int) -> nat {
    instruction_count(commands.take(i))
}

/// The variables of a program in the order in which they first occur: the
/// symbols of its symbolic addresses that `table` does not hold.
pub open spec fn variables(table: SymbolTableView, commands: Seq<CommandView>) -> Seq<Seq<char>>
    decreases commands.len(),
{
    if commands.len() == 0 {
        Seq::empty()
    } else {
        let before = variables(table, commands.drop_last());
        match commands.last() {
            CommandView::SymbolicAddress { label } => {
                if table.has(label) || before.contains(label) {
                    before
                } else {
                    before.push(label)
                }
            },
            _ => before,
        }
    }
}

/// A part of a program has no more instructions than the whole.
pub proof fn lemma_instruction_count_of_prefix(commands: Seq<CommandView>, n: int)
    requires
        0 <= n <= commands.len(),
    ensures
        instruction_count(commands.take(n)) <= instruction_count(commands),
    decreases commands.len(),
{
    if n < commands.len() {
        assert(commands.drop_last().take(n) == commands.take(n));
        lemma_instruction_count_of_prefix(commands.drop_last(), n);
    } else {
        assert(commands.take(n) == commands);
    }
}

/// Once the addresses are exhausted, the rest of the program changes nothing.
pub proof fn lemma_exhausted_stays(table: SymbolTableView, commands: Seq<CommandView>, n: int)
    requires
        0 <= n <= commands.len(),
        resolve(table, commands.take(n)).exhausted,
    ensures
        resolve(table, commands) == resolve(table, commands.take(n)),
    decreases commands.len(),
{
    if n < commands.len() {
        assert(commands.drop_last().take(n) == commands.take(n));
        lemma_exhausted_stays(table, commands.drop_last(), n);
    } else {
        assert(commands.take(n) == commands);
    }
}

/// How many of `commands` take a slot in the binary program.
pub fn count_instructions(commands: &[Command]) -> (count: usize)
    ensures
        count == instruction_count(commands.deep_view()),
{
    let ghost program = commands.deep_view();
    let mut count: usize = 0;
    let mut i: usize = 0;
    while i < commands.len()
        invariant
            i <= commands.len(),
            count <= i,
            program == commands.deep_view(),
            count == instruction_count(program.take(i as int)),
        decreases commands.len() - i,
    {
        assert(program.take(i + 1).drop_last() == program.take(i as int));
        if commands[i].is_instruction() {
            count = count + 1;
        }
        i = i + 1;
    }
    assert(program.take(i as int) == program);
    count
}

/// The first pass: inserts every label of `commands` into `symbol_table`,
/// at the address of the instruction that follows its definition.
///
/// Fails, and leaves the table as it was, when the instructions cannot be
/// counted in 16 bits.
pub fn first_pass(commands: &[Command], symbol_table: &mut SymbolTable) -> (r: Result<
    (),
    ResolveError,
>)
    ensures
        r is Ok <==> old(symbol_table)@.rom_address + instruction_count(commands.deep_view())
            <= u16::MAX,
        r is Ok ==> final(symbol_table)@ == collect_labels(
            old(symbol_table)@,
            commands.deep_view(),
        ),
        r is Err ==> r == Err::<(), ResolveError>(ResolveError::TooManyInstructions),
        r is Err ==> final(symbol_table)@ == old(symbol_table)@,
{
    let ghost start = symbol_table@;
    let ghost program = commands.deep_view();
    proof {
        symbol_table.lemma_counters_fit();
    }
    let count = count_instructions(commands);
    if count > (u16::MAX - symbol_table.rom_address()) as usize {
        return Err(ResolveError::TooManyInstructions);
    }
    let mut i: usize = 0;
    while i < commands.len()
        invariant
            i <= commands.len(),
            program == commands.deep_view(),
            start.rom_address + instruction_count(program) <= u16::MAX,
            symbol_table@ == collect_labels(start, program.take(i as int)),
            symbol_table@.rom_address == start.rom_address + instruction_count(
                program.take(i as int),
            ),
        decreases commands.len() - i,
    {
        proof {
            assert(program.take(i + 1).drop_last() == program.take(i as int));
            lemma_instruction_count_of_prefix(program, i + 1);
        }
        match &commands[i] {
            Command::Pseudo(PseudoCommand::L { label }) => {
                symbol_table.insert_label(label.clone());
            },
            _ => {
                symbol_table.increment_rom();
            },
        }
        i = i + 1;
    }
    assert(program.take(i as int) == program);
    Ok(())
}

/// The second pass: the commands of the program without its label
/// definitions, each symbolic address replaced by the address of its symbol.
/// A symbol that `symbol_table` does not hold is a variable and gets the next
/// variable address.
///
/// Fails when a variable is needed and no address is left; the table then
/// holds what was inserted up to there.
pub fn second_pass(commands: Vec<Command>, symbol_table: &mut SymbolTable) -> (r: Result<
    Vec<Command>,
    ResolveError,
>)
    ensures
        final(symbol_table)@ == resolve(old(symbol_table)@, commands.deep_view()).table,
        match r {
            Ok(resolved) => {
                &&& !resolve(old(symbol_table)@, commands.deep_view()).exhausted
                &&& resolved.deep_view() == resolve(
                    old(symbol_table)@,
                    commands.deep_view(),
                ).commands
            },
            Err(e) => {
                &&& resolve(old(symbol_table)@, commands.deep_view()).exhausted
                &&& e == ResolveError::TooManyVariables
            },
        },
{
    let ghost start = symbol_table@;
    let ghost program = commands.deep_view();
    let mut resolved: Vec<Command> = Vec::new();
    for command in it: commands
        invariant
            start == old(symbol_table)@,
            program == commands.deep_view(),
            it.seq() == commands@,
            !resolve(start, program.take(it.index() as int)).exhausted,
            symbol_table@ == resolve(start, program.take(it.index() as int)).table,
            resolved.deep_view() == resolve(start, program.take(it.index() as int)).commands,
    {
        proof {
            assert(program.take(it.index() + 1).drop_last() == program.take(it.index() as int));
            symbol_table.lemma_counters_fit();
        }
        match command {
            Command::Pseudo(PseudoCommand::L { .. }) => {},
            Command::Pseudo(PseudoCommand::A { label }) => {
                let address = match symbol_table.get(label.clone()) {
                    Some(address) => address,
                    None => {
                        let address = symbol_table.variable_address();
                        if address == u16::MAX {
                            proof {
                                lemma_exhausted_stays(start, program, it.index() + 1);
                            }
                            return Err(ResolveError::TooManyVariables);
                        }
                        symbol_table.insert_variable(label);
                        address
                    },
                };
                resolved.push(Command::A { address });
            },
            other => {
                resolved.push(other);
            },
        }
    }
    assert(program.take(program.len() as int) == program);
    Ok(resolved)
}

/// A value is in a sequence when it is the last one or among those before.
proof fn lemma_contains_last<A>(s: Seq<A>, x: A)
    requires
        s.len() > 0,
    ensures
        s.contains(x) <==> s.drop_last().contains(x) || s.last() == x,
{
    if s.drop_last().contains(x) {
        let j = choose|j: int| 0 <= j < s.drop_last().len() && s.drop_last()[j] == x;
        assert(s[j] == x);
    }
    if s.contains(x) {
        let j = choose|j: int| 0 <= j < s.len() && s[j] == x;
        if j < s.len() - 1 {
            assert(s.drop_last()[j] == x);
        }
    }
}

/// The first pass takes no symbol away and changes no address; it counts the
/// instructions and leaves the variable address alone.
pub proof fn lemma_first_pass_extends(table: SymbolTableView, commands: Seq<CommandView>)
    ensures
        collect_labels(table, commands).extends(table),
        collect_labels(table, commands).rom_address == table.rom_address + instruction_count(
            commands,
        ),
        collect_labels(table, commands).variable_address == table.variable_address,
    decreases commands.len(),
{
    if commands.len() > 0 {
        lemma_first_pass_extends(table, commands.drop_last());
    }
}

/// After the first pass the table holds the symbols it held before and the
/// labels that the program defines, and no others.
pub proof fn lemma_first_pass_symbols(
    table: SymbolTableView,
    commands: Seq<CommandView>,
    name: Seq<char>,
)
    ensures
        collect_labels(table, commands).has(name) <==> table.has(name) || commands.contains(
            CommandView::LabelDefinition { label: name },
        ),
    decreases commands.len(),
{
    if commands.len() > 0 {
        lemma_first_pass_symbols(table, commands.drop_last(), name);
        lemma_contains_last(commands, CommandView::LabelDefinition { label: name });
    }
}

/// A label stands for the slot of the instruction that follows its
/// definition: with the instruction count at 0 before the program, a label
/// defined just before instruction `n` gets the address `n`.
///
/// This holds of the first definition of a label that the table does not
/// hold already; any other definition changes nothing.
pub proof fn lemma_label_address(
    table: SymbolTableView,
    commands: Seq<CommandView>,
    definition: int,
    label: Seq<char>,
)
    requires
        0 <= definition < commands.len(),
        commands[definition] == (CommandView::LabelDefinition { label }),
        !table.has(label),
        forall|j: int| 0 <= j < definition ==> commands[j] != commands[definition],
        table.rom_address + slot(commands, definition) <= u16::MAX,
    ensures
        collect_labels(table, commands).get(label) == Some(
            (table.rom_address + slot(commands, definition)) as u16,
        ),
    decreases commands.len(),
{
    let before = commands.drop_last();
    if definition == commands.len() - 1 {
        lemma_first_pass_extends(table, before);
        lemma_first_pass_symbols(table, before, label);
        if before.contains(commands[definition]) {
            let j = choose|j: int| 0 <= j < before.len() && before[j] == commands[definition];
            assert(commands[j] == commands[definition]);
        }
    } else {
        assert(before.take(definition) == commands.take(definition));
        lemma_label_address(table, before, definition, label);
    }
}

/// The second pass takes no symbol away and changes no address, and it
/// leaves the instruction count alone.
pub proof fn lemma_second_pass_extends(table: SymbolTableView, commands: Seq<CommandView>)
    ensures
        resolve(table, commands).table.extends(table),
        resolve(table, commands).table.rom_address == table.rom_address,
    decreases commands.len(),
{
    if commands.len() > 0 {
        lemma_second_pass_extends(table, commands.drop_last());
    }
}

/// A second pass that ends well went well all the way: no part of the
/// program exhausts the addresses, and what the pass has in hand after a
/// part of the program it keeps to the end.
pub proof fn lemma_second_pass_of_prefix(
    table: SymbolTableView,
    commands: Seq<CommandView>,
    n: int,
)
    requires
        0 <= n <= commands.len(),
        !resolve(table, commands).exhausted,
    ensures
        !resolve(table, commands.take(n)).exhausted,
        resolve(table, commands).table.extends(resolve(table, commands.take(n)).table),
        resolve(table, commands.take(n)).commands.is_prefix_of(
            resolve(table, commands).commands,
        ),
    decreases commands.len(),
{
    if n < commands.len() {
        assert(commands.drop_last().take(n) == commands.take(n));
        lemma_second_pass_of_prefix(table, commands.drop_last(), n);
    } else {
        assert(commands.take(n) == commands);
    }
}

/// The second pass writes one command for each instruction of the program,
/// and each of them is an address or a compute instruction.
pub proof fn lemma_second_pass_output(table: SymbolTableView, commands: Seq<CommandView>)
    requires
        !resolve(table, commands).exhausted,
    ensures
        resolve(table, commands).commands.len() == instruction_count(commands),
        forall|i: int|
            0 <= i < resolve(table, commands).commands.len() ==> (#[trigger] resolve(
                table,
                commands,
            ).commands[i]).is_resolved(),
    decreases commands.len(),
{
    if commands.len() > 0 {
        lemma_second_pass_output(table, commands.drop_last());
    }
}

/// What the second pass writes for command `i`, which stands at the slot of
/// that command: an address or a compute instruction as it is, and for a
/// symbolic address the address that the table holds for its symbol in the
/// end.
pub proof fn lemma_second_pass_at(table: SymbolTableView, commands: Seq<CommandView>, i: int)
    requires
        0 <= i < commands.len(),
        commands[i].is_instruction(),
        !resolve(table, commands).exhausted,
    ensures
        slot(commands, i) < resolve(table, commands).commands.len(),
        commands[i].is_resolved() ==> resolve(table, commands).commands[slot(commands, i) as int]
            == commands[i],
        commands[i] matches CommandView::SymbolicAddress { label } ==> {
            &&& resolve(table, commands).table.has(label)
            &&& resolve(table, commands).commands[slot(commands, i) as int]
                == CommandView::AddressCommand {
                address: resolve(table, commands).table.symbols[label],
            }
        },
    decreases commands.len(),
{
    let before = commands.drop_last();
    lemma_second_pass_output(table, commands);
    if i == commands.len() - 1 {
        lemma_second_pass_output(table, before);
    } else {
        assert(before.take(i) == commands.take(i));
        lemma_second_pass_at(table, before, i);
        lemma_second_pass_of_prefix(table, commands, commands.len() - 1);
    }
}

/// Variables get their addresses in the order in which they first occur:
/// the first one the variable address that the pass starts with, the second
/// one the next address, and so on. After the pass the table holds the
/// symbols it held before and the variables, and no others.
pub proof fn lemma_variable_addresses(table: SymbolTableView, commands: Seq<CommandView>)
    requires
        !resolve(table, commands).exhausted,
    ensures
        variables(table, commands).no_duplicates(),
        resolve(table, commands).table.variable_address == table.variable_address + variables(
            table,
            commands,
        ).len(),
        variables(table, commands).len() > 0 ==> resolve(table, commands).table.variable_address
            <= u16::MAX,
        forall|name: Seq<char>| #[trigger]
            resolve(table, commands).table.has(name) <==> table.has(name) || variables(
                table,
                commands,
            ).contains(name),
        forall|k: int|
            0 <= k < variables(table, commands).len() ==> resolve(table, commands).table.get(
                #[trigger] variables(table, commands)[k],
            ) == Some((table.variable_address + k) as u16),
    decreases commands.len(),
{
    if commands.len() > 0 {
        let before = commands.drop_last();
        let earlier = variables(table, before);
        let now = variables(table, commands);
        lemma_variable_addresses(table, before);
        if now != earlier {
            let held = resolve(table, before).table;
            assert forall|name: Seq<char>| #[trigger]
                resolve(table, commands).table.has(name) <==> table.has(name) || now.contains(
                    name,
                ) by {
                lemma_contains_last(now, name);
                assert(now.drop_last() == earlier);
                assert(held.has(name) <==> table.has(name) || earlier.contains(name));
            }
        }
    }
}

/// Every symbolic address of a label becomes the address of the instruction
/// that follows the label's definition: a label defined just before
/// instruction `n` is resolved to `n`, whether it is used before or after
/// its definition.
///
/// This holds of a label that is not a predefined symbol, and of its first
/// definition: a predefined symbol keeps its address, and a second
/// definition of a label changes nothing.
pub proof fn lemma_label_resolves_to_next_instruction(
    commands: Seq<CommandView>,
    definition: int,
    reference: int,
    label: Seq<char>,
)
    requires
        0 <= definition < commands.len(),
        0 <= reference < commands.len(),
        commands[definition] == (CommandView::LabelDefinition { label }),
        commands[reference] == (CommandView::SymbolicAddress { label }),
        !initial_table().has(label),
        forall|j: int| 0 <= j < definition ==> commands[j] != commands[definition],
        resolve_program(commands) is Ok,
    ensures
        slot(commands, definition) <= u16::MAX,
        slot(commands, reference) < resolve_program(commands)->Ok_0.len(),
        resolve_program(commands)->Ok_0[slot(commands, reference) as int]
            == (CommandView::AddressCommand { address: slot(commands, definition) as u16 }),
{
    let labelled = labelled_table(commands);
    lemma_instruction_count_of_prefix(commands, definition);
    lemma_label_address(initial_table(), commands, definition, label);
    lemma_second_pass_extends(labelled, commands);
    lemma_second_pass_at(labelled, commands, reference);
    assert(labelled.has(label));
}

/// Every symbolic address of a variable becomes the address of the variable,
/// and the variables are numbered from 16 in the order in which they first
/// occur: the first symbol that is neither predefined nor a label is
/// resolved to 16 wherever it is used, the second one to 17, and so on.
pub proof fn lemma_variable_resolves_in_order(
    commands: Seq<CommandView>,
    k: int,
    reference: int,
)
    requires
        resolve_program(commands) is Ok,
        0 <= k < variables(labelled_table(commands), commands).len(),
        0 <= reference < commands.len(),
        commands[reference] == (CommandView::SymbolicAddress {
            label: variables(labelled_table(commands), commands)[k],
        }),
    ensures
        16 + k <= u16::MAX,
        slot(commands, reference) < resolve_program(commands)->Ok_0.len(),
        resolve_program(commands)->Ok_0[slot(commands, reference) as int]
            == (CommandView::AddressCommand { address: (16 + k) as u16 }),
{
    let labelled = labelled_table(commands);
    lemma_first_pass_extends(initial_table(), commands);
    lemma_variable_addresses(labelled, commands);
    lemma_second_pass_at(labelled, commands, reference);
}

} // verus!
