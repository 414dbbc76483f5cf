//! Line classification: strip the comment, then try directive, instruction and label.
use vstd::prelude::*;
use crate::directive::{flag_spec, Flag, FlagModel};
use crate::instruction::{instruction_spec, recognized, Instruction, InstructionModel, Recognized};
use crate::label::{label_spec, Label};
use crate::text::{chars_of, find_char, first_of, trim, trim_bounds};

verus! {

/// The line up to its first `;`.
pub open spec fn before_comment(line: Seq<char>) -> Seq<char> {
    match first_of(line, ';') {
        Some(i) => line.subrange(0, i),
        None => line,
    }
}

/// The line without its comment and without surrounding whitespace.
pub open spec fn trim_line_spec(line: Seq<char>) -> Seq<char> {
    trim(before_comment(line), true)
}

/// Drops the comment that starts at the first `;`, then surrounding whitespace.
pub fn trim_line(line: &str) -> (r: &str)
    ensures
        r@ == trim_line_spec(line@),
{
    let v = chars_of(line);
    let n = v.len();
    assert(v@.subrange(0, n as int) == v@);
    let end = match find_char(&v, 0, n, ';') {
        Some(i) => i,
        None => n,
    };
    let (a, b) = trim_bounds(&v, 0, end, true);
    line.substring_char(a, b)
}

/// One classified source line.
#[derive(Debug)]
pub enum TokenType {
    Instruction(Instruction),
    Flag(Flag),
    Label(Label),
}

/// A classified line as a mathematical value.
pub enum TokenModel {
    Instruction(InstructionModel),
    Flag(FlagModel),
    Label(Seq<char>),
}

impl View for TokenType {
    type V = TokenModel;

    open spec fn view(&self) -> TokenModel {
        match self {
            TokenType::Instruction(i) => TokenModel::Instruction(i@),
            TokenType::Flag(f) => TokenModel::Flag(f@),
            TokenType::Label(l) => TokenModel::Label(l@),
        }
    }
}

/// What a source line is: blank (`NotThis`), malformed, or a token. A line that starts
/// with `.` is a directive or nothing; a line no recognizer takes is malformed.
pub open spec fn lex_spec(raw: Seq<char>) -> Recognized<TokenModel> {
    let line = trim_line_spec(raw);
    if line.len() == 0 {
        Recognized::NotThis
    } else {
        match flag_spec(line) {
            Recognized::Malformed => Recognized::Malformed,
            Recognized::Found(f) => Recognized::Found(TokenModel::Flag(f)),
            Recognized::NotThis => match instruction_spec(line) {
                Recognized::Malformed => Recognized::Malformed,
                Recognized::Found(i) => Recognized::Found(TokenModel::Instruction(i)),
                Recognized::NotThis => match label_spec(line) {
                    Recognized::Found(l) => Recognized::Found(TokenModel::Label(l)),
                    _ => Recognized::Malformed,
                },
            },
        }
    }
}

/// Classifies one raw source line: `Ok(None)` for a blank or comment-only line.
pub fn lex_line(raw: &str) -> (r: Result<Option<TokenType>, String>)
    ensures
        recognized(r) == lex_spec(raw@),
{
    let line = trim_line(raw);
    if line.is_empty() {
        return Ok(None);
    }
    match Flag::new(line) {
        Err(e) => {
            return Err(e);
        },
        Ok(Some(flag)) => {
            return Ok(Some(TokenType::Flag(flag)));
        },
        Ok(None) => {},
    }
    match Instruction::new(line) {
        Err(e) => {
            return Err(e);
        },
        Ok(Some(instruction)) => {
            return Ok(Some(TokenType::Instruction(instruction)));
        },
        Ok(None) => {},
    }
    match Label::new(line) {
        Ok(Some(label)) => Ok(Some(TokenType::Label(label))),
        _ => Err(String::from_str("line cannot be classified")),
    }
}

} // verus!
