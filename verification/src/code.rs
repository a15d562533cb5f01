//! The 16-bit word of each instruction and its text of binary digits.

use vstd::prelude::*;
use crate::command::{Command, CommandView};
use crate::text::{chars_of, spells};

verus! {

/// The three high bits that every compute instruction carries.
pub const COMPUTE_PREFIX: u16 = 0xE000;

/// Why a command has no word.
#[derive(Debug, Clone, Copy, PartialEq, Eq)]
pub enum EncodeError {
    /// The comp field is not in the table of computations.
    UnknownComp,
    /// The dest field is not in the table of destinations.
    UnknownDest,
    /// The jump field is not in the table of jumps.
    UnknownJump,
    /// The command is a label definition or a symbolic address, which
    /// resolving a program removes.
    Unresolved,
}

/// The machine word of one instruction.
#[derive(Debug)]
pub struct Code {
    value: u16,
}

impl View for Code {
    type V = u16;

    closed spec fn view(&self) -> u16 {
        self.value
    }
}

impl DeepView for Code {
    type V = u16;

    open spec fn deep_view(&self) -> u16 {
        self@
    }
}

/// The seven bits of a computation: the `a` bit, which picks between the A
/// register and the memory M, and six function bits.
pub open spec fn comp_bits(comp: Seq<char>) -> Option<u16> {
    if comp == "0"@ {
        Some(0b0_101010)
    } else if comp == "1"@ {
        Some(0b0_111111)
    } else if comp == "-1"@ {
        Some(0b0_111010)
    } else if comp == "D"@ {
        Some(0b0_001100)
    } else if comp == "A"@ {
        Some(0b0_110000)
    } else if comp == "!D"@ {
        Some(0b0_001101)
    } else if comp == "!A"@ {
        Some(0b0_110001)
    } else if comp == "-D"@ {
        Some(0b0_001111)
    } else if comp == "-A"@ {
        Some(0b0_110011)
    } else if comp == "D+1"@ {
        Some(0b0_011111)
    } else if comp == "A+1"@ {
        Some(0b0_110111)
    } else if comp == "D-1"@ {
        Some(0b0_001110)
    } else if comp == "A-1"@ {
        Some(0b0_110010)
    } else if comp == "D+A"@ {
        Some(0b0_000010)
    } else if comp == "D-A"@ {
        Some(0b0_010011)
    } else if comp == "A-D"@ {
        Some(0b0_000111)
    } else if comp == "D&A"@ {
        Some(0b0_000000)
    } else if comp == "D|A"@ {
        Some(0b0_010101)
    } else if comp == "M"@ {
        Some(0b1_110000)
    } else if comp == "!M"@ {
        Some(0b1_110001)
    } else if comp == "-M"@ {
        Some(0b1_110011)
    } else if comp == "M+1"@ {
        Some(0b1_110111)
    } else if comp == "M-1"@ {
        Some(0b1_110010)
    } else if comp == "D+M"@ {
        Some(0b1_000010)
    } else if comp == "D-M"@ {
        Some(0b1_010011)
    } else if comp == "M-D"@ {
        Some(0b1_000111)
    } else if comp == "D&M"@ {
        Some(0b1_000000)
    } else if comp == "D|M"@ {
        Some(0b1_010101)
    } else {
        None
    }
}

/// The three bits of a destination: A, D and M from high to low.
pub open spec fn dest_bits(dest: Seq<char>) -> Option<u16> {
    if dest == "M"@ {
        Some(1)
    } else if dest == "D"@ {
        Some(2)
    } else if dest == "MD"@ {
        Some(3)
    } else if dest == "A"@ {
        Some(4)
    } else if dest == "AM"@ {
        Some(5)
    } else if dest == "AD"@ {
        Some(6)
    } else if dest == "AMD"@ {
        Some(7)
    } else {
        None
    }
}

/// The three bits of a jump condition.
pub open spec fn jump_bits(jump: Seq<char>) -> Option<u16> {
    if jump == "JGT"@ {
        Some(1)
    } else if jump == "JEQ"@ {
        Some(2)
    } else if jump == "JGE"@ {
        Some(3)
    } else if jump == "JLT"@ {
        Some(4)
    } else if jump == "JNE"@ {
        Some(5)
    } else if jump == "JLE"@ {
        Some(6)
    } else if jump == "JMP"@ {
        Some(7)
    } else {
        None
    }
}

/// The destination bits of an instruction: a missing field leaves them 0.
pub open spec fn dest_field(dest: Option<Seq<char>>) -> Option<u16> {
    match dest {
        Some(text) => dest_bits(text),
        None => Some(0),
    }
}

/// The jump bits of an instruction: a missing field leaves them 0.
pub open spec fn jump_field(jump: Option<Seq<char>>) -> Option<u16> {
    match jump {
        Some(text) => jump_bits(text),
        None => Some(0),
    }
}

/// The word of a compute instruction: `111`, then the computation in bits
/// 12 to 6, the destination in bits 5 to 3 and the jump in bits 2 to 0.
/// The fields are looked up in that order, and the first one that is not in
/// its table gives the error.
pub open spec fn compute_word(
    comp: Seq<char>,
    dest: Option<Seq<char>>,
    jump: Option<Seq<char>>,
) -> Result<u16, EncodeError> {
    match comp_bits(comp) {
        None => Err(EncodeError::UnknownComp),
        Some(c) => match dest_field(dest) {
            None => Err(EncodeError::UnknownDest),
            Some(d) => match jump_field(jump) {
                None => Err(EncodeError::UnknownJump),
                Some(j) => Ok(COMPUTE_PREFIX | (c << 6) | (d << 3) | j),
            },
        },
    }
}

/// The word of a command: an address as it stands, a compute instruction by
/// its fields, nothing for a command that is not resolved.
pub open spec fn encode(command: CommandView) -> Result<u16, EncodeError> {
    match command {
        CommandView::AddressCommand { address } => Ok(address),
        CommandView::ComputeCommand { comp, dest, jump } => compute_word(comp, dest, jump),
        _ => Err(EncodeError::Unresolved),
    }
}

/// Whether the bit at `position` of `word` is set, bit 0 being the lowest.
pub open spec fn bit_is_set(word: u16, position: u16) -> bool {
    (word >> position) & 1 == 1
}

/// The sixteen binary digits of `word`, highest bit first.
pub open spec fn binary_digits(word: u16) -> Seq<char> {
    Seq::new(
        16,
        |i: int|
            if bit_is_set(word, (15 - i) as u16) {
                '1'
            } else {
                '0'
            },
    )
}

/// Encoding reads nothing but the text of a command: two commands that read
/// the same have the same word, and so the same binary digits, or fail for
/// the same reason.
pub proof fn lemma_encoding_is_determined(first: Command, second: Command)
    requires
        first@ == second@,
    ensures
        encode(first@) == encode(second@),
{
}

/// The fields of a compute instruction stand in its word where the
/// machine reads them: `111` in bits 15 to 13, the computation in bits 12
/// to 6, the destination in bits 5 to 3, the jump in bits 2 to 0.
pub proof fn lemma_compute_word_layout(
    comp: Seq<char>,
    dest: Option<Seq<char>>,
    jump: Option<Seq<char>>,
)
    requires
        compute_word(comp, dest, jump) is Ok,
    ensures
        compute_word(comp, dest, jump)->Ok_0 >> 13 == 0b111,
        (compute_word(comp, dest, jump)->Ok_0 >> 6) & 0b1111111 == comp_bits(comp)->Some_0,
        (compute_word(comp, dest, jump)->Ok_0 >> 3) & 0b111 == dest_field(dest)->Some_0,
        compute_word(comp, dest, jump)->Ok_0 & 0b111 == jump_field(jump)->Some_0,
{
    let c = comp_bits(comp)->Some_0;
    let d = dest_field(dest)->Some_0;
    let j = jump_field(jump)->Some_0;
    assert({
        let word = 0xE000u16 | (c << 6) | (d << 3) | j;
        &&& word >> 13 == 0b111
        &&& (word >> 6) & 0b1111111 == c
        &&& (word >> 3) & 0b111 == d
        &&& word & 0b111 == j
    }) by (bit_vector)
        requires
            c < 128 && d < 8 && j < 8,
    ;
}

/// The highest bit tells the two kinds of instruction apart: it is 0 in the
/// word of an address up to 32767 and 1 in the word of a compute
/// instruction.
pub proof fn lemma_highest_bit(command: CommandView)
    requires
        encode(command) is Ok,
    ensures
        command matches CommandView::AddressCommand { address } ==> (address <= 32767
            <==> !bit_is_set(encode(command)->Ok_0, 15)),
        command is ComputeCommand ==> bit_is_set(encode(command)->Ok_0, 15),
{
    match command {
        CommandView::AddressCommand { address } => {
            assert(address <= 32767 <==> (address >> 15) & 1 != 1) by (bit_vector);
        },
        CommandView::ComputeCommand { comp, dest, jump } => {
            let c = comp_bits(comp)->Some_0;
            let d = dest_field(dest)->Some_0;
            let j = jump_field(jump)->Some_0;
            assert(((0xE000u16 | (c << 6) | (d << 3) | j) >> 15) & 1 == 1) by (bit_vector);
        },
        _ => {},
    }
}

/// A word has sixteen binary digits, each of them `0` or `1`.
pub proof fn lemma_binary_digits(word: u16)
    ensures
        binary_digits(word).len() == 16,
        forall|i: int|
            0 <= i < 16 ==> (#[trigger] binary_digits(word)[i]) == '0' || binary_digits(word)[i]
                == '1',
{
}

/// A word is known by its binary digits: two words with the same digits are
/// the same word.
pub proof fn lemma_binary_digits_tell_words_apart(first: u16, second: u16)
    requires
        binary_digits(first) == binary_digits(second),
    ensures
        first == second,
{
    assert forall|position: u16| position < 16 implies bit_is_set(first, position) == bit_is_set(
        second,
        position,
    ) by {
        let i = 15 - position;
        assert(bit_is_set(first, position) <==> binary_digits(first)[i] == '1');
        assert(bit_is_set(second, position) <==> binary_digits(second)[i] == '1');
    }
    assert(first == second) by (bit_vector)
        requires
            bit_is_set(first, 0) == bit_is_set(second, 0),
            bit_is_set(first, 1) == bit_is_set(second, 1),
            bit_is_set(first, 2) == bit_is_set(second, 2),
            bit_is_set(first, 3) == bit_is_set(second, 3),
            bit_is_set(first, 4) == bit_is_set(second, 4),
            bit_is_set(first, 5) == bit_is_set(second, 5),
            bit_is_set(first, 6) == bit_is_set(second, 6),
            bit_is_set(first, 7) == bit_is_set(second, 7),
            bit_is_set(first, 8) == bit_is_set(second, 8),
            bit_is_set(first, 9) == bit_is_set(second, 9),
            bit_is_set(first, 10) == bit_is_set(second, 10),
            bit_is_set(first, 11) == bit_is_set(second, 11),
            bit_is_set(first, 12) == bit_is_set(second, 12),
            bit_is_set(first, 13) == bit_is_set(second, 13),
            bit_is_set(first, 14) == bit_is_set(second, 14),
            bit_is_set(first, 15) == bit_is_set(second, 15),
    ;
}

/// Sets the computation bits of `value`.
pub fn add_comp_part(value: &mut u16, comp: String) -> (r: Result<(), EncodeError>)
    ensures
        match comp_bits(comp@) {
            Some(bits) => r is Ok && *final(value) == *old(value) | (bits << 6),
            None => {
                &&& r == Err::<(), EncodeError>(EncodeError::UnknownComp)
                &&& *final(value) == *old(value)
            },
        },
{
    let chars = chars_of(comp.as_str());
    let field = chars.as_slice();
    let bits: u16 = if spells(field, "0") {
        0b0_101010
    } else if spells(field, "1") {
        0b0_111111
    } else if spells(field, "-1") {
        0b0_111010
    } else if spells(field, "D") {
        0b0_001100
    } else if spells(field, "A") {
        0b0_110000
    } else if spells(field, "!D") {
        0b0_001101
    } else if spells(field, "!A") {
        0b0_110001
    } else if spells(field, "-D") {
        0b0_001111
    } else if spells(field, "-A") {
        0b0_110011
    } else if spells(field, "D+1") {
        0b0_011111
    } else if spells(field, "A+1") {
        0b0_110111
    } else if spells(field, "D-1") {
        0b0_001110
    } else if spells(field, "A-1") {
        0b0_110010
    } else if spells(field, "D+A") {
        0b0_000010
    } else if spells(field, "D-A") {
        0b0_010011
    } else if spells(field, "A-D") {
        0b0_000111
    } else if spells(field, "D&A") {
        0b0_000000
    } else if spells(field, "D|A") {
        0b0_010101
    } else if spells(field, "M") {
        0b1_110000
    } else if spells(field, "!M") {
        0b1_110001
    } else if spells(field, "-M") {
        0b1_110011
    } else if spells(field, "M+1") {
        0b1_110111
    } else if spells(field, "M-1") {
        0b1_110010
    } else if spells(field, "D+M") {
        0b1_000010
    } else if spells(field, "D-M") {
        0b1_010011
    } else if spells(field, "M-D") {
        0b1_000111
    } else if spells(field, "D&M") {
        0b1_000000
    } else if spells(field, "D|M") {
        0b1_010101
    } else {
        return Err(EncodeError::UnknownComp);
    };
    *value = *value | (bits << 6);
    Ok(())
}

/// Sets the destination bits of `value`.
pub fn add_dest_part(value: &mut u16, dest: String) -> (r: Result<(), EncodeError>)
    ensures
        match dest_bits(dest@) {
            Some(bits) => r is Ok && *final(value) == *old(value) | (bits << 3),
            None => {
                &&& r == Err::<(), EncodeError>(EncodeError::UnknownDest)
                &&& *final(value) == *old(value)
            },
        },
{
    let chars = chars_of(dest.as_str());
    let field = chars.as_slice();
    let bits: u16 = if spells(field, "M") {
        1
    } else if spells(field, "D") {
        2
    } else if spells(field, "MD") {
        3
    } else if spells(field, "A") {
        4
    } else if spells(field, "AM") {
        5
    } else if spells(field, "AD") {
        6
    } else if spells(field, "AMD") {
        7
    } else {
        return Err(EncodeError::UnknownDest);
    };
    *value = *value | (bits << 3);
    Ok(())
}

/// Sets the jump bits of `value`.
pub fn add_jump_part(value: &mut u16, jump: String) -> (r: Result<(), EncodeError>)
    ensures
        match jump_bits(jump@) {
            Some(bits) => r is Ok && *final(value) == *old(value) | bits,
            None => {
                &&& r == Err::<(), EncodeError>(EncodeError::UnknownJump)
                &&& *final(value) == *old(value)
            },
        },
{
    let chars = chars_of(jump.as_str());
    let field = chars.as_slice();
    let bits: u16 = if spells(field, "JGT") {
        1
    } else if spells(field, "JEQ") {
        2
    } else if spells(field, "JGE") {
        3
    } else if spells(field, "JLT") {
        4
    } else if spells(field, "JNE") {
        5
    } else if spells(field, "JLE") {
        6
    } else if spells(field, "JMP") {
        7
    } else {
        return Err(EncodeError::UnknownJump);
    };
    *value = *value | bits;
    Ok(())
}

/// The word of the compute instruction with these fields.
pub fn value_from_c_command(comp: String, dest: Option<String>, jump: Option<String>) -> (r: Result<
    u16,
    EncodeError,
>)
    ensures
        r == compute_word(comp@, dest.deep_view(), jump.deep_view()),
{
    let mut value: u16 = COMPUTE_PREFIX;
    match add_comp_part(&mut value, comp) {
        Err(e) => {
            return Err(e);
        },
        Ok(()) => {},
    }
    let ghost with_comp = value;
    match dest {
        Some(dest) => {
            match add_dest_part(&mut value, dest) {
                Err(e) => {
                    return Err(e);
                },
                Ok(()) => {},
            }
        },
        None => {
            assert(with_comp | (0u16 << 3) == with_comp) by (bit_vector);
        },
    }
    let ghost with_dest = value;
    match jump {
        Some(jump) => {
            match add_jump_part(&mut value, jump) {
                Err(e) => {
                    return Err(e);
                },
                Ok(()) => {},
            }
        },
        None => {
            assert(with_dest | 0u16 == with_dest) by (bit_vector);
        },
    }
    Ok(value)
}

impl Code {
    /// The word of `command`.
    pub fn from(command: Command) -> (r: Result<Code, EncodeError>)
        ensures
            match r {
                Ok(code) => encode(command@) == Ok::<u16, EncodeError>(code@),
                Err(e) => encode(command@) == Err::<u16, EncodeError>(e),
            },
    {
        match command {
            Command::A { address } => Ok(Code { value: address }),
            Command::C { comp, dest, jump } => {
                match value_from_c_command(comp, dest, jump) {
                    Ok(value) => Ok(Code { value }),
                    Err(e) => Err(e),
                }
            },
            Command::Pseudo(_) => Err(EncodeError::Unresolved),
        }
    }

    /// The word as a number.
    pub fn value(&self) -> (word: u16)
        ensures
            word == self@,
    {
        self.value
    }

    /// The word as sixteen characters `0` or `1`, highest bit first.
    pub fn to_binary_string(&self) -> (digits: String)
        ensures
            digits@ == binary_digits(self@),
    {
        let mut digits = String::new();
        let mut i: u16 = 0;
        while i < 16
            invariant
                i <= 16,
                digits@ == binary_digits(self@).take(i as int),
            decreases 16 - i,
        {
            let position: u16 = 15 - i;
            if (self.value >> position) & 1 == 1 {
                digits.push('1');
            } else {
                digits.push('0');
            }
            i = i + 1;
        }
        digits
    }
}

} // verus!
