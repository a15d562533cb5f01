//! Commands of the assembly language, and what each one reads as.

use vstd::prelude::*;

verus! {

/// One parsed line of a program.
#[derive(Debug)]
pub enum Command {
    /// A-command: `@value`, with the value a non-negative decimal number.
    A { address: u16 },
    /// C-command: `dest=comp;jump`.
    /// Either the dest or the jump field may be missing.
    /// Without dest there is no `=`; without jump there is no `;`.
    C { comp: String, dest: Option<String>, jump: Option<String> },
    /// A line that stands for no instruction of its own.
    Pseudo(PseudoCommand),
}

/// The two forms that are gone once a program is resolved.
#[derive(Debug)]
pub enum PseudoCommand {
    /// `@label`: an address written as a symbol.
    A { label: String },
    /// `(label)`: names the address of the instruction that follows.
    L { label: String },
}

/// What a command says, with its texts as sequences of characters.
pub enum CommandView {
    /// A resolved address.
    AddressCommand { address: u16 },
    /// An arithmetic or logic instruction with its three fields.
    ComputeCommand { comp: Seq<char>, dest: Option<Seq<char>>, jump: Option<Seq<char>> },
    /// Marks the address of the next instruction; takes no slot itself.
    LabelDefinition { label: Seq<char> },
    /// An address still written as a symbol.
    SymbolicAddress { label: Seq<char> },
}

impl CommandView {
    /// Whether the command takes a slot in the binary program.
    /// Every command but a label definition does.
    pub open spec fn is_instruction(self) -> bool {
        !(self is LabelDefinition)
    }

    /// Whether nothing is left to resolve: the command is an address or a
    /// compute instruction.
    pub open spec fn is_resolved(self) -> bool {
        self is AddressCommand || self is ComputeCommand
    }
}

impl View for PseudoCommand {
    type V = CommandView;

    open spec fn view(&self) -> CommandView {
        match self {
            PseudoCommand::A { label } => CommandView::SymbolicAddress { label: label@ },
            PseudoCommand::L { label } => CommandView::LabelDefinition { label: label@ },
        }
    }
}

impl View for Command {
    type V = CommandView;

    open spec fn view(&self) -> CommandView {
        match self {
            Command::A { address } => CommandView::AddressCommand { address: *address },
            Command::C { comp, dest, jump } => CommandView::ComputeCommand {
                comp: comp@,
                dest: dest.deep_view(),
                jump: jump.deep_view(),
            },
            Command::Pseudo(pseudo) => pseudo@,
        }
    }
}

impl DeepView for Command {
    type V = CommandView;

    open spec fn deep_view(&self) -> CommandView {
        self@
    }
}

impl Clone for PseudoCommand {
    fn clone(&self) -> (copy: Self)
        ensures
            copy@ == self@,
    {
        match self {
            PseudoCommand::A { label } => PseudoCommand::A { label: label.clone() },
            PseudoCommand::L { label } => PseudoCommand::L { label: label.clone() },
        }
    }
}

impl Clone for Command {
    fn clone(&self) -> (copy: Self)
        ensures
            copy@ == self@,
    {
        match self {
            Command::A { address } => Command::A { address: *address },
            Command::C { comp, dest, jump } => {
                let dest_copy = match dest {
                    Some(text) => Some(text.clone()),
                    None => None,
                };
                let jump_copy = match jump {
                    Some(text) => Some(text.clone()),
                    None => None,
                };
                Command::C { comp: comp.clone(), dest: dest_copy, jump: jump_copy }
            },
            Command::Pseudo(pseudo) => Command::Pseudo(pseudo.clone()),
        }
    }
}

impl Command {
    /// Whether the command takes a slot in the binary program.
    pub fn is_instruction(&self) -> (r: bool)
        ensures
            r == self@.is_instruction(),
    {
        match self {
            Command::Pseudo(PseudoCommand::L { .. }) => false,
            _ => true,
        }
    }
}

} // verus!
