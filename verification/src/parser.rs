//! From one line of source text to a command.
//!
//! A line that starts with `@` is an address, written as a number or as a
//! symbol. A line that starts with `(` defines a label. Any other line is a
//! compute instruction `dest=comp;jump`, where `dest=` and `;jump` may each
//! be missing.

use vstd::prelude::*;
use crate::command::{Command, CommandView, PseudoCommand};
use crate::text::{chars_of, string_of};

verus! {

/// The largest address that an instruction can hold.
pub const MAX_ADDRESS: u16 = 32767;

/// Whether `c` is one of `0` to `9`.
pub open spec fn is_digit(c: char) -> bool {
    '0' <= c <= '9'
}

/// The number that the digit `c` stands for.
pub open spec fn digit_value(c: char) -> nat {
    (c as int - '0' as int) as nat
}

/// Whether `c` is an ASCII letter.
pub open spec fn is_letter(c: char) -> bool {
    'a' <= c <= 'z' || 'A' <= c <= 'Z'
}

/// Whether `c` may stand in a symbol: a letter, a digit, or one of
/// `_`, `.`, `$` and `:`.
pub open spec fn is_symbol_char(c: char) -> bool {
    is_letter(c) || is_digit(c) || c == '_' || c == '.' || c == '$' || c == ':'
}

/// Whether `token` is a number: one digit or more and nothing else.
pub open spec fn is_number(token: Seq<char>) -> bool {
    &&& token.len() > 0
    &&& forall|i: int| 0 <= i < token.len() ==> is_digit(#[trigger] token[i])
}

/// The value of a number in decimal notation.
pub open spec fn decimal_value(digits: Seq<char>) -> nat
    decreases digits.len(),
{
    if digits.len() == 0 {
        0
    } else {
        10 * decimal_value(digits.drop_last()) + digit_value(digits.last())
    }
}

/// Whether `token` is a symbol: one symbol character or more, the first of
/// them not a digit.
pub open spec fn is_symbol(token: Seq<char>) -> bool {
    &&& token.len() > 0
    &&& !is_digit(token[0])
    &&& forall|i: int| 0 <= i < token.len() ==> is_symbol_char(#[trigger] token[i])
}

/// What the token after `@` stands for: a number up to `MAX_ADDRESS` is an
/// address, a symbol is a symbolic address, and anything else is an error.
pub open spec fn address_of(token: Seq<char>) -> Option<CommandView> {
    if is_number(token) {
        if decimal_value(token) <= MAX_ADDRESS {
            Some(CommandView::AddressCommand { address: decimal_value(token) as u16 })
        } else {
            None
        }
    } else if is_symbol(token) {
        Some(CommandView::SymbolicAddress { label: token })
    } else {
        None
    }
}

/// The line without its first character.
pub open spec fn after_first(line: Seq<char>) -> Seq<char> {
    if line.len() == 0 {
        line
    } else {
        line.subrange(1, line.len() as int)
    }
}

/// An address line: the token after the first character decides.
pub open spec fn parse_address(line: Seq<char>) -> Option<CommandView> {
    address_of(after_first(line))
}

/// Where `c` first stands in `text`, or the length of `text` if it does not.
pub open spec fn first_position(text: Seq<char>, c: char) -> int
    decreases text.len(),
{
    if text.len() == 0 {
        0
    } else if text[0] == c {
        0
    } else {
        1 + first_position(text.drop_first(), c)
    }
}

/// A label line: the label is what stands between the first character and
/// the first `)` after it. Without a `)` the line is an error.
pub open spec fn parse_label(line: Seq<char>) -> Option<CommandView> {
    let body = after_first(line);
    let close = first_position(body, ')');
    if close < body.len() {
        Some(CommandView::LabelDefinition { label: body.take(close) })
    } else {
        None
    }
}

/// What reading a compute instruction has found so far.
pub struct Fields {
    /// The text before the latest `=`, if there was one.
    pub dest: Option<Seq<char>>,
    /// The text before the latest `;`, if there was one.
    pub comp: Option<Seq<char>>,
    /// The text since the latest `=` or `;`.
    pub buffer: Seq<char>,
}

/// Reads `text` from left to right: `=` makes the buffer the dest field and
/// `;` makes it the comp field, each starting a new buffer; any other
/// character joins the buffer.
pub open spec fn scan_fields(text: Seq<char>) -> Fields
    decreases text.len(),
{
    if text.len() == 0 {
        Fields { dest: None, comp: None, buffer: Seq::empty() }
    } else {
        let before = scan_fields(text.drop_last());
        let c = text.last();
        if c == '=' {
            Fields { dest: Some(before.buffer), buffer: Seq::empty(), ..before }
        } else if c == ';' {
            Fields { comp: Some(before.buffer), buffer: Seq::empty(), ..before }
        } else {
            Fields { buffer: before.buffer.push(c), ..before }
        }
    }
}

/// A compute line: with a `;` in it, the text after the last `=` or `;` is
/// the jump field; without, that text is the comp field and there is no
/// jump.
pub open spec fn parse_compute(line: Seq<char>) -> CommandView {
    let fields = scan_fields(line);
    match fields.comp {
        Some(comp) => CommandView::ComputeCommand {
            comp,
            dest: fields.dest,
            jump: Some(fields.buffer),
        },
        None => CommandView::ComputeCommand {
            comp: fields.buffer,
            dest: fields.dest,
            jump: None,
        },
    }
}

/// The command that `line` stands for, if it stands for one. An empty line
/// stands for none.
pub open spec fn parse_line(line: Seq<char>) -> Option<CommandView> {
    if line.len() == 0 {
        None
    } else if line[0] == '@' {
        parse_address(line)
    } else if line[0] == '(' {
        parse_label(line)
    } else {
        Some(parse_compute(line))
    }
}

/// The first digits of a number are worth no more than the number.
pub proof fn lemma_decimal_value_of_prefix(digits: Seq<char>, n: int)
    requires
        0 <= n <= digits.len(),
    ensures
        decimal_value(digits.take(n)) <= decimal_value(digits),
    decreases digits.len(),
{
    if n < digits.len() {
        assert(digits.drop_last().take(n) == digits.take(n));
        lemma_decimal_value_of_prefix(digits.drop_last(), n);
    } else {
        assert(digits.take(n) == digits);
    }
}

/// `first_position` finds the first place where `c` stands.
pub proof fn lemma_first_position(text: Seq<char>, c: char, n: int)
    requires
        0 <= n <= text.len(),
        forall|i: int| 0 <= i < n ==> text[i] != c,
        n < text.len() ==> text[n] == c,
    ensures
        first_position(text, c) == n,
    decreases text.len(),
{
    if n > 0 {
        lemma_first_position(text.drop_first(), c, n - 1);
    }
}

/// Whether `text` can be a field of a compute instruction: it holds
/// neither `=` nor `;`.
pub open spec fn is_field(text: Seq<char>) -> bool {
    forall|i: int| 0 <= i < text.len() ==> text[i] != '=' && text[i] != ';'
}

/// Reading on through a field adds it to the buffer.
proof fn lemma_scan_field(before: Seq<char>, field: Seq<char>)
    requires
        is_field(field),
    ensures
        scan_fields(before + field) == (Fields {
            buffer: scan_fields(before).buffer + field,
            ..scan_fields(before)
        }),
    decreases field.len(),
{
    if field.len() > 0 {
        assert((before + field).drop_last() == before + field.drop_last());
        lemma_scan_field(before, field.drop_last());
        assert(scan_fields(before).buffer + field == (scan_fields(before).buffer
            + field.drop_last()).push(field.last()));
    }
}

/// The four forms of a compute instruction, `comp`, `dest=comp`,
/// `comp;jump` and `dest=comp;jump`, are read as their fields.
pub proof fn lemma_compute_forms(dest: Seq<char>, comp: Seq<char>, jump: Seq<char>)
    requires
        is_field(dest),
        is_field(comp),
        is_field(jump),
    ensures
        parse_compute(comp) == (CommandView::ComputeCommand { comp, dest: None, jump: None }),
        parse_compute(dest + seq!['='] + comp) == (CommandView::ComputeCommand {
            comp,
            dest: Some(dest),
            jump: None,
        }),
        parse_compute(comp + seq![';'] + jump) == (CommandView::ComputeCommand {
            comp,
            dest: None,
            jump: Some(jump),
        }),
        parse_compute(dest + seq!['='] + comp + seq![';'] + jump) == (CommandView::ComputeCommand {
            comp,
            dest: Some(dest),
            jump: Some(jump),
        }),
{
    let nothing = Seq::<char>::empty();
    lemma_scan_field(nothing, comp);
    lemma_scan_field(nothing, dest);
    assert((dest + seq!['=']).drop_last() == dest);
    assert((comp + seq![';']).drop_last() == comp);
    lemma_scan_field(dest + seq!['='], comp);
    lemma_scan_field(comp + seq![';'], jump);
    assert((dest + seq!['='] + comp + seq![';']).drop_last() == dest + seq!['='] + comp);
    lemma_scan_field(dest + seq!['='] + comp + seq![';'], jump);
}

/// A label line `(label)` is read as its label, whatever follows the `)`;
/// a line without `)` after its first character is an error.
pub proof fn lemma_label_forms(label: Seq<char>, rest: Seq<char>)
    requires
        !label.contains(')'),
    ensures
        parse_label(seq!['('] + label + seq![')'] + rest) == Some(
            CommandView::LabelDefinition { label },
        ),
        parse_label(seq!['('] + label) is None,
{
    let closed = seq!['('] + label + seq![')'] + rest;
    let open = seq!['('] + label;
    assert(after_first(closed) == label + seq![')'] + rest);
    assert(after_first(open) == label);
    assert forall|i: int| 0 <= i < label.len() implies label[i] != ')' by {}
    lemma_first_position(label + seq![')'] + rest, ')', label.len() as int);
    lemma_first_position(label, ')', label.len() as int);
    assert((label + seq![')'] + rest).take(label.len() as int) == label);
}

/// An address that is read from a line is no larger than `MAX_ADDRESS`, and
/// the label of a symbolic address that is read from a line is a symbol.
pub proof fn lemma_parsed_address(line: Seq<char>)
    ensures
        parse_line(line) matches Some(CommandView::AddressCommand { address }) ==> address
            <= MAX_ADDRESS,
        parse_line(line) matches Some(CommandView::SymbolicAddress { label }) ==> is_symbol(label),
{
}

/// Whether `c` is one of `0` to `9`.
pub fn is_digit_char(c: char) -> (r: bool)
    ensures
        r == is_digit(c),
{
    '0' <= c && c <= '9'
}

/// Whether `c` may stand in a symbol.
pub fn is_symbol_character(c: char) -> (r: bool)
    ensures
        r == is_symbol_char(c),
{
    ('a' <= c && c <= 'z') || ('A' <= c && c <= 'Z') || is_digit_char(c) || c == '_' || c == '.'
        || c == '$' || c == ':'
}

/// The value of `token` if it is a number up to `MAX_ADDRESS`.
fn parse_number(token: &[char]) -> (value: Option<u16>)
    requires
        token@.len() > 0,
    ensures
        value == if is_number(token@) && decimal_value(token@) <= MAX_ADDRESS {
            Some(decimal_value(token@) as u16)
        } else {
            None
        },
{
    let mut value: u16 = 0;
    let mut i: usize = 0;
    while i < token.len()
        invariant
            i <= token.len(),
            value <= MAX_ADDRESS,
            value == decimal_value(token@.take(i as int)),
            forall|j: int| 0 <= j < i ==> is_digit(#[trigger] token@[j]),
        decreases token.len() - i,
    {
        let c = token[i];
        if !is_digit_char(c) {
            return None;
        }
        let digit: u16 = (c as u32 - '0' as u32) as u16;
        proof {
            assert(token@.take(i + 1).drop_last() == token@.take(i as int));
            lemma_decimal_value_of_prefix(token@, i + 1);
        }
        if value > (MAX_ADDRESS - digit) / 10 {
            return None;
        }
        value = 10 * value + digit;
        i = i + 1;
    }
    assert(token@.take(i as int) == token@);
    Some(value)
}

/// Whether `token` is a symbol.
fn check_symbol(token: &[char]) -> (r: bool)
    ensures
        r == is_symbol(token@),
{
    if token.len() == 0 || is_digit_char(token[0]) {
        return false;
    }
    let mut i: usize = 0;
    while i < token.len()
        invariant
            i <= token.len(),
            forall|j: int| 0 <= j < i ==> is_symbol_char(#[trigger] token@[j]),
        decreases token.len() - i,
    {
        if !is_symbol_character(token[i]) {
            return false;
        }
        i = i + 1;
    }
    true
}

/// Reads a line whose first character is `@`: what follows is a number up to
/// `MAX_ADDRESS`, which gives an address, or a symbol, which gives a
/// symbolic address. The first character itself is not looked at.
pub fn parse_a_command(line: &str) -> (r: Option<Command>)
    ensures
        r.deep_view() == parse_address(line@),
{
    let chars = chars_of(line);
    if chars.len() == 0 {
        return None;
    }
    let token = &chars.as_slice()[1..chars.len()];
    if token.len() > 0 && is_digit_char(token[0]) {
        match parse_number(token) {
            Some(address) => Some(Command::A { address }),
            None => None,
        }
    } else if check_symbol(token) {
        Some(Command::Pseudo(PseudoCommand::A { label: string_of(token) }))
    } else {
        None
    }
}

/// Reads a line whose first character is `(`: the label is what stands
/// between it and the first `)`. The first character itself is not looked
/// at, and neither is what follows the `)`.
pub fn parse_l_definition(line: &str) -> (r: Option<Command>)
    ensures
        r.deep_view() == parse_label(line@),
{
    let chars = chars_of(line);
    if chars.len() == 0 {
        return None;
    }
    let body = &chars.as_slice()[1..chars.len()];
    let mut close: usize = 0;
    while close < body.len() && body[close] != ')'
        invariant
            close <= body.len(),
            forall|j: int| 0 <= j < close ==> body@[j] != ')',
        decreases body.len() - close,
    {
        close = close + 1;
    }
    proof {
        lemma_first_position(body@, ')', close as int);
    }
    if close < body.len() {
        Some(Command::Pseudo(PseudoCommand::L { label: string_of(&body[0..close]) }))
    } else {
        None
    }
}

/// Reads a compute instruction `dest=comp;jump`, where `dest=` and `;jump`
/// may each be missing.
pub fn parse_c_command(line: &str) -> (r: Command)
    ensures
        r@ == parse_compute(line@),
{
    let mut dest: Option<String> = None;
    let mut comp: Option<String> = None;
    let mut buffer = String::new();
    for c in it: line.chars()
        invariant
            it.seq() == line@,
            dest.deep_view() == scan_fields(line@.take(it.index() as int)).dest,
            comp.deep_view() == scan_fields(line@.take(it.index() as int)).comp,
            buffer@ == scan_fields(line@.take(it.index() as int)).buffer,
    {
        assert(line@.take(it.index() + 1).drop_last() == line@.take(it.index() as int));
        if c == '=' {
            dest = Some(buffer);
            buffer = String::new();
        } else if c == ';' {
            comp = Some(buffer);
            buffer = String::new();
        } else {
            buffer.push(c);
        }
    }
    assert(line@.take(line@.len() as int) == line@);
    match comp {
        Some(comp) => Command::C { comp, dest, jump: Some(buffer) },
        None => Command::C { comp: buffer, dest, jump: None },
    }
}

/// The command that `line` stands for. The line is expected without
/// surrounding blanks.
///
/// There is none for an empty line, for `@` followed by anything but a
/// number up to `MAX_ADDRESS` or a symbol, and for `(` without a `)`.
pub fn parse(line: &str) -> (r: Option<Command>)
    ensures
        r.deep_view() == parse_line(line@),
{
    if line.is_empty() {
        return None;
    }
    match line.get_char(0) {
        '@' => parse_a_command(line),
        '(' => parse_l_definition(line),
        _ => Some(parse_c_command(line)),
    }
}

} // verus!
