//! A two-pass assembler for the Hack machine language.
//!
//! A program is text with one instruction, label definition or comment per
//! line. [`assemble`] turns it into the text of the binary program: one line
//! of sixteen binary digits for each instruction.

use vstd::prelude::*;
use crate::code::{binary_digits, encode, Code, EncodeError};
use crate::command::{Command, CommandView};
use crate::parser::{parse, parse_line};
use crate::resolver::{first_pass, resolve_program, second_pass, ResolveError};
use crate::symbol_table::SymbolTable;
use crate::source::{is_ignored, lemma_ignored_line, source_lines, source_lines_of, trim};

pub mod code;
pub mod command;
pub mod parser;
pub mod resolver;
pub mod source;
pub mod symbol_table;
pub mod text;

verus! {

/// Why a text is not a program.
#[derive(Debug, Clone, Copy, PartialEq, Eq)]
pub enum AssembleError {
    /// A line stands for no command. `line` counts the lines of the program
    /// from 0, without blank lines and comments.
    MalformedLine { line: usize },
    /// The program has too many instructions or variables.
    Resolve(ResolveError),
    /// An instruction has no word. `instruction` counts the instructions of
    /// the program from 0.
    Encode { instruction: usize, error: EncodeError },
}

/// The commands of `lines`, or the first line that stands for none.
pub open spec fn parse_lines(lines: Seq<Seq<char>>) -> Result<Seq<CommandView>, AssembleError>
    decreases lines.len(),
{
    if lines.len() == 0 {
        Ok(Seq::empty())
    } else {
        match parse_lines(lines.drop_last()) {
            Err(e) => Err(e),
            Ok(commands) => match parse_line(lines.last()) {
                Some(command) => Ok(commands.push(command)),
                None => Err(AssembleError::MalformedLine { line: (lines.len() - 1) as usize }),
            },
        }
    }
}

/// The words of `commands`, or the first command that has none.
pub open spec fn encode_all(commands: Seq<CommandView>) -> Result<Seq<u16>, AssembleError>
    decreases commands.len(),
{
    if commands.len() == 0 {
        Ok(Seq::empty())
    } else {
        match encode_all(commands.drop_last()) {
            Err(e) => Err(e),
            Ok(words) => match encode(commands.last()) {
                Ok(word) => Ok(words.push(word)),
                Err(error) => Err(
                    AssembleError::Encode { instruction: (commands.len() - 1) as usize, error },
                ),
            },
        }
    }
}

/// The text of a binary program: for each word its sixteen binary digits
/// and a line feed.
pub open spec fn listing(words: Seq<u16>) -> Seq<char>
    decreases words.len(),
{
    if words.len() == 0 {
        Seq::empty()
    } else {
        listing(words.drop_last()) + binary_digits(words.last()) + seq!['\n']
    }
}

/// The binary program that the source `text` stands for.
pub open spec fn assembled(text: Seq<char>) -> Result<Seq<char>, AssembleError> {
    match parse_lines(source_lines_of(text)) {
        Err(e) => Err(e),
        Ok(commands) => match resolve_program(commands) {
            Err(e) => Err(AssembleError::Resolve(e)),
            Ok(resolved) => match encode_all(resolved) {
                Err(e) => Err(e),
                Ok(words) => Ok(listing(words)),
            },
        },
    }
}

/// Once a line stands for no command, the lines after it do not matter.
pub proof fn lemma_parse_lines_fails_early(lines: Seq<Seq<char>>, n: int)
    requires
        0 <= n <= lines.len(),
        parse_lines(lines.take(n)) is Err,
    ensures
        parse_lines(lines) == parse_lines(lines.take(n)),
    decreases lines.len(),
{
    if n < lines.len() {
        assert(lines.drop_last().take(n) == lines.take(n));
        lemma_parse_lines_fails_early(lines.drop_last(), n);
    } else {
        assert(lines.take(n) == lines);
    }
}

/// Once a command has no word, the commands after it do not matter.
pub proof fn lemma_encode_all_fails_early(commands: Seq<CommandView>, n: int)
    requires
        0 <= n <= commands.len(),
        encode_all(commands.take(n)) is Err,
    ensures
        encode_all(commands) == encode_all(commands.take(n)),
    decreases commands.len(),
{
    if n < commands.len() {
        assert(commands.drop_last().take(n) == commands.take(n));
        lemma_encode_all_fails_early(commands.drop_last(), n);
    } else {
        assert(commands.take(n) == commands);
    }
}

/// Parsing goes line by line: either every line stands for a command, and
/// these are the commands in order; or the error names the first line that
/// stands for none.
pub proof fn lemma_parse_lines(lines: Seq<Seq<char>>)
    requires
        lines.len() <= usize::MAX,
    ensures
        match parse_lines(lines) {
            Ok(commands) => {
                &&& commands.len() == lines.len()
                &&& forall|i: int|
                    0 <= i < lines.len() ==> parse_line(#[trigger] lines[i]) == Some(commands[i])
            },
            Err(e) => {
                &&& e matches AssembleError::MalformedLine { line }
                &&& line < lines.len()
                &&& parse_line(lines[line as int]) is None
                &&& forall|i: int| 0 <= i < line ==> parse_line(#[trigger] lines[i]) is Some
            },
        },
    decreases lines.len(),
{
    if lines.len() > 0 {
        let before = lines.drop_last();
        lemma_parse_lines(before);
        // The lines before the last are the same in both.
        assert forall|i: int| 0 <= i < before.len() implies before[i] == lines[i] by {}
    }
}

/// Encoding goes command by command: either every command has a word, and
/// these are the words in order; or the error names the first command that
/// has none, and why.
pub proof fn lemma_encode_all(commands: Seq<CommandView>)
    requires
        commands.len() <= usize::MAX,
    ensures
        match encode_all(commands) {
            Ok(words) => {
                &&& words.len() == commands.len()
                &&& forall|i: int|
                    0 <= i < commands.len() ==> encode(#[trigger] commands[i]) == Ok::<
                        u16,
                        EncodeError,
                    >(words[i])
            },
            Err(e) => {
                &&& e matches AssembleError::Encode { instruction, error }
                &&& instruction < commands.len()
                &&& encode(commands[instruction as int]) == Err::<u16, EncodeError>(error)
                &&& forall|i: int| 0 <= i < instruction ==> encode(#[trigger] commands[i]) is Ok
            },
        },
    decreases commands.len(),
{
    if commands.len() > 0 {
        let before = commands.drop_last();
        lemma_encode_all(before);
        // The commands before the last are the same in both.
        assert forall|i: int| 0 <= i < before.len() implies before[i] == commands[i] by {}
    }
}

/// A binary program has one line of seventeen characters for each word:
/// the sixteen binary digits of the word and a line feed.
pub proof fn lemma_listing(words: Seq<u16>, i: int)
    requires
        0 <= i < words.len(),
    ensures
        listing(words).len() == 17 * words.len(),
        listing(words).subrange(17 * i, 17 * i + 16) == binary_digits(words[i]),
        listing(words)[17 * i + 16] == '\n',
    decreases words.len(),
{
    lemma_listing_len(words);
    lemma_listing_len(words.drop_last());
    if i < words.len() - 1 {
        lemma_listing(words.drop_last(), i);
    }
}

/// A binary program has seventeen characters for each word.
pub proof fn lemma_listing_len(words: Seq<u16>)
    ensures
        listing(words).len() == 17 * words.len(),
    decreases words.len(),
{
    if words.len() > 0 {
        lemma_listing_len(words.drop_last());
    }
}

/// Blank lines and comments do not change what a text assembles to: a line
/// that is empty or starts with `//`, white space aside, can be put in
/// between two lines, before the first or after the last.
pub proof fn lemma_blank_lines_and_comments_are_ignored(
    before: Seq<char>,
    line: Seq<char>,
    after: Seq<char>,
)
    requires
        !line.contains('\n'),
        is_ignored(trim(line)),
    ensures
        assembled(before + seq!['\n'] + line + seq!['\n'] + after) == assembled(
            before + seq!['\n'] + after,
        ),
        assembled(line + seq!['\n'] + after) == assembled(after),
        assembled(before + seq!['\n'] + line) == assembled(before),
{
    lemma_ignored_line(before, line, after);
}

/// The commands that `lines` stand for, in order; or the first line that
/// stands for none.
pub fn parse_text(lines: Vec<String>) -> (r: Result<Vec<Command>, AssembleError>)
    ensures
        match r {
            Ok(commands) => parse_lines(lines.deep_view()) == Ok::<
                Seq<CommandView>,
                AssembleError,
            >(commands.deep_view()),
            Err(e) => parse_lines(lines.deep_view()) == Err::<Seq<CommandView>, AssembleError>(e),
        },
{
    let ghost texts = lines.deep_view();
    let mut commands: Vec<Command> = Vec::new();
    let mut i: usize = 0;
    assert(commands.deep_view() == Seq::<CommandView>::empty());
    while i < lines.len()
        invariant
            i <= lines.len(),
            texts == lines.deep_view(),
            parse_lines(texts.take(i as int)) == Ok::<Seq<CommandView>, AssembleError>(
                commands.deep_view(),
            ),
        decreases lines.len() - i,
    {
        let ghost before = commands.deep_view();
        proof {
            assert(texts.take(i + 1).drop_last() == texts.take(i as int));
        }
        match parse(lines[i].as_str()) {
            Some(command) => {
                commands.push(command);
                assert(commands.deep_view() == before.push(command@));
            },
            None => {
                proof {
                    lemma_parse_lines_fails_early(texts, i + 1);
                }
                return Err(AssembleError::MalformedLine { line: i });
            },
        }
        i = i + 1;
    }
    assert(texts.take(i as int) == texts);
    Ok(commands)
}

/// The word of each of `commands`, in order; or the first command that has
/// none.
pub fn encode_program(commands: Vec<Command>) -> (r: Result<Vec<Code>, AssembleError>)
    ensures
        match r {
            Ok(codes) => encode_all(commands.deep_view()) == Ok::<Seq<u16>, AssembleError>(
                codes.deep_view(),
            ),
            Err(e) => encode_all(commands.deep_view()) == Err::<Seq<u16>, AssembleError>(e),
        },
{
    let ghost program = commands.deep_view();
    let mut codes: Vec<Code> = Vec::new();
    assert(codes.deep_view() == Seq::<u16>::empty());
    for command in it: commands
        invariant
            program == commands.deep_view(),
            it.seq() == commands@,
            codes.len() == it.index(),
            encode_all(program.take(it.index() as int)) == Ok::<Seq<u16>, AssembleError>(
                codes.deep_view(),
            ),
    {
        let ghost before = codes.deep_view();
        proof {
            assert(program.take(it.index() + 1).drop_last() == program.take(it.index() as int));
        }
        match Code::from(command) {
            Ok(code) => {
                codes.push(code);
                assert(codes.deep_view() == before.push(code@));
            },
            Err(error) => {
                proof {
                    lemma_encode_all_fails_early(program, it.index() + 1);
                }
                return Err(AssembleError::Encode { instruction: codes.len(), error });
            },
        }
    }
    assert(program.take(program.len() as int) == program);
    Ok(codes)
}

/// The text of a binary program: one line of sixteen binary digits for each
/// of `codes`.
pub fn binary_text(codes: &[Code]) -> (text: String)
    ensures
        text@ == listing(codes.deep_view()),
{
    let ghost words = codes.deep_view();
    let mut text = String::new();
    let mut i: usize = 0;
    while i < codes.len()
        invariant
            i <= codes.len(),
            words == codes.deep_view(),
            text@ == listing(words.take(i as int)),
        decreases codes.len() - i,
    {
        proof {
            assert(words.take(i + 1).drop_last() == words.take(i as int));
        }
        let digits = codes[i].to_binary_string();
        text.append(digits.as_str());
        text.push('\n');
        i = i + 1;
    }
    assert(words.take(i as int) == words);
    text
}

/// Assembles a program: the text of the binary program for the source text
/// `input`, or the reason why there is none.
///
/// Blank lines and lines that start with `//` are left out. The lines that
/// remain are parsed, the labels collected, the symbols resolved and each
/// instruction encoded. The first error ends the work: a line that stands
/// for no command comes before a program that cannot be resolved, and that
/// before an instruction that has no word.
pub fn assemble(input: String) -> (r: Result<String, AssembleError>)
    ensures
        match r {
            Ok(output) => assembled(input@) == Ok::<Seq<char>, AssembleError>(output@),
            Err(e) => assembled(input@) == Err::<Seq<char>, AssembleError>(e),
        },
{
    let lines = source_lines(input.as_str());
    let commands = match parse_text(lines) {
        Ok(commands) => commands,
        Err(e) => {
            return Err(e);
        },
    };
    let mut symbol_table = SymbolTable::new();
    match first_pass(commands.as_slice(), &mut symbol_table) {
        Ok(()) => {},
        Err(e) => {
            return Err(AssembleError::Resolve(e));
        },
    }
    let commands = match second_pass(commands, &mut symbol_table) {
        Ok(commands) => commands,
        Err(e) => {
            return Err(AssembleError::Resolve(e));
        },
    };
    let codes = match encode_program(commands) {
        Ok(codes) => codes,
        Err(e) => {
            return Err(e);
        },
    };
    Ok(binary_text(codes.as_slice()))
}

} // verus!
