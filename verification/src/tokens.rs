//! Tokens of an A2L file, as the tokenizer hands them to the parser.
use vstd::prelude::*;

verus! {

/// The kind of a token.
#[derive(Clone, Copy, Debug, PartialEq, Eq, Structural)]
pub enum A2lTokenType {
    Identifier,
    /// `/begin`
    Begin,
    /// `/end`
    End,
    /// An `/include` directive that was left in the tokens; the generic
    /// IF_DATA reader steps over it.
    Include,
    String,
    Number,
}

/// One token: its kind, its text, the file it came from (0 is the main
/// file, other numbers index the included files) and its line.
/// The text of a `String` token is the string's content, without quotes.
#[derive(Debug, PartialEq)]
pub struct A2lToken {
    pub ttype: A2lTokenType,
    pub text: String,
    pub fileid: usize,
    pub line: u32,
}

impl A2lToken {
    /// A copy of the token.
    pub fn duplicate(&self) -> (r: A2lToken)
        ensures
            r == *self,
    {
        A2lToken { ttype: self.ttype, text: self.text.clone(), fileid: self.fileid, line: self.line }
    }
}

} // verus!
