//! The parser state: a cursor over the tokens of an A2L file, and the
//! readers of single tokens that the IF_DATA parser is built on. Each reader
//! has a spec function over `Input` and `Cursor` that says what it does.
use vstd::prelude::*;
use vstd::string::StrSliceExecFns;

use crate::a2ml::A2mlTypeSpec;
use crate::number::{float_text_check, float_text_ok, int_in_range, parse_int_text};
use crate::tokens::{A2lToken, A2lTokenType};

verus! {

/// Where the parser is: the element being parsed, the file and line where it
/// starts and whether it is a block.
#[derive(Debug, PartialEq)]
pub struct ParseContext {
    pub element: String,
    pub fileid: usize,
    pub line: u32,
    pub inside_block: bool,
}

pub struct ContextV {
    pub element: Seq<char>,
    pub fileid: usize,
    pub line: u32,
    pub inside_block: bool,
}

impl View for ParseContext {
    type V = ContextV;

    open spec fn view(&self) -> ContextV {
        ContextV {
            element: self.element@,
            fileid: self.fileid,
            line: self.line,
            inside_block: self.inside_block,
        }
    }
}

/// The context of an element that starts with the token `t` and is called `tag`.
pub open spec fn context_from_token(tag: Seq<char>, t: A2lToken, is_block: bool) -> ContextV {
    ContextV { element: tag, fileid: t.fileid, line: t.line, inside_block: is_block }
}

impl ParseContext {
    /// A copy of the context.
    pub fn duplicate(&self) -> (r: ParseContext)
        ensures
            r@ == self@,
    {
        ParseContext {
            element: self.element.clone(),
            fileid: self.fileid,
            line: self.line,
            inside_block: self.inside_block,
        }
    }

    /// The context of the element called `tag` that starts with `token`.
    pub fn from_token(tag: &String, token: &A2lToken, is_block: bool) -> (r: ParseContext)
        ensures
            r@ == context_from_token(tag@, *token, is_block),
    {
        ParseContext {
            element: tag.clone(),
            fileid: token.fileid,
            line: token.line,
            inside_block: is_block,
        }
    }
}

/// The errors of the parser.
#[derive(Debug, PartialEq)]
pub enum ParseError {
    /// The input ended inside an element.
    UnexpectedEOF(ParseContext),
    /// A token of another kind than the expected one: the kind found, its
    /// text and the kind expected.
    UnexpectedTokenType(ParseContext, A2lTokenType, String, A2lTokenType),
    /// A number token whose text is not a number of the expected type.
    MalformedNumber(ParseContext, String),
    /// An identifier that is not an enumerator of the expected enumeration.
    InvalidEnumValue(ParseContext, String),
    /// A block that ends with `/end` and another tag than its own.
    IncorrectEndTag(ParseContext, String),
    /// A `/begin` that starts no tagged item.
    InvalidBegin(ParseContext),
    /// A string longer than allowed: the string, the limit and its length.
    StringTooLong(ParseContext, String, usize, usize),
}

pub enum ErrorV {
    UnexpectedEOF(ContextV),
    UnexpectedTokenType(ContextV, A2lTokenType, Seq<char>, A2lTokenType),
    MalformedNumber(ContextV, Seq<char>),
    InvalidEnumValue(ContextV, Seq<char>),
    IncorrectEndTag(ContextV, Seq<char>),
    InvalidBegin(ContextV),
    StringTooLong(ContextV, Seq<char>, usize, usize),
}

impl View for ParseError {
    type V = ErrorV;

    open spec fn view(&self) -> ErrorV {
        match self {
            ParseError::UnexpectedEOF(c) => ErrorV::UnexpectedEOF(c@),
            ParseError::UnexpectedTokenType(c, a, t, b) => ErrorV::UnexpectedTokenType(
                c@,
                *a,
                t@,
                *b,
            ),
            ParseError::MalformedNumber(c, t) => ErrorV::MalformedNumber(c@, t@),
            ParseError::InvalidEnumValue(c, t) => ErrorV::InvalidEnumValue(c@, t@),
            ParseError::IncorrectEndTag(c, t) => ErrorV::IncorrectEndTag(c@, t@),
            ParseError::InvalidBegin(c) => ErrorV::InvalidBegin(c@),
            ParseError::StringTooLong(c, t, m, l) => ErrorV::StringTooLong(c@, t@, *m, *l),
        }
    }
}

/// The part of the parser state that reading changes: the position of the
/// next token, the line of the token read last, and the last id handed out.
pub struct Cursor {
    pub pos: int,
    pub last_line: u32,
    pub next_id: u32,
}

/// The part of the parser state that reading does not change: the tokens
/// and the names of the files (index 0 is the main file).
pub struct Input {
    pub toks: Seq<A2lToken>,
    pub names: Seq<String>,
}

/// What a step of parsing comes to: a value and the cursor after it, an
/// error and the cursor where it arose, or a loop that never ends (a
/// repetition whose element succeeds without reading a token).
pub enum Step<T> {
    Done(T, Cursor),
    Fail(ErrorV, Cursor),
    Diverge,
}

pub open spec fn with_pos(c: Cursor, pos: int) -> Cursor {
    Cursor { pos: pos, ..c }
}

/// The cursor after handing out an id; ids wrap around.
pub open spec fn bump_id(c: Cursor) -> Cursor {
    Cursor {
        next_id: if c.next_id == u32::MAX {
            0
        } else {
            (c.next_id + 1) as u32
        },
        ..c
    }
}

impl Input {
    pub open spec fn peek(self, c: Cursor) -> Option<A2lToken> {
        if 0 <= c.pos < self.toks.len() {
            Some(self.toks[c.pos])
        } else {
            None
        }
    }

    /// How many lines the next token stands below the token read last (0 at
    /// the end of the input, or where it stands above it).
    pub open spec fn line_offset(self, c: Cursor) -> u32 {
        match self.peek(c) {
            Some(t) => if t.line >= c.last_line {
                (t.line - c.last_line) as u32
            } else {
                0
            },
            None => 0,
        }
    }

    pub open spec fn get_token(self, ctx: ContextV, c: Cursor) -> Step<A2lToken> {
        match self.peek(c) {
            Some(t) => Step::Done(t, Cursor { pos: c.pos + 1, last_line: t.line, ..c }),
            None => Step::Fail(ErrorV::UnexpectedEOF(ctx), c),
        }
    }

    pub open spec fn expect_token(self, ctx: ContextV, c: Cursor, tt: A2lTokenType) -> Step<
        A2lToken,
    > {
        match self.get_token(ctx, c) {
            Step::Done(t, c2) => if t.ttype == tt {
                Step::Done(t, c2)
            } else {
                Step::Fail(ErrorV::UnexpectedTokenType(ctx, t.ttype, t.text@, tt), c2)
            },
            Step::Fail(e, c2) => Step::Fail(e, c2),
            Step::Diverge => Step::Diverge,
        }
    }

    /// The text of the next token, which must be of kind `tt`.
    pub open spec fn expect_text(self, ctx: ContextV, c: Cursor, tt: A2lTokenType) -> Step<
        Seq<char>,
    > {
        match self.expect_token(ctx, c, tt) {
            Step::Done(t, c2) => Step::Done(t.text@, c2),
            Step::Fail(e, c2) => Step::Fail(e, c2),
            Step::Diverge => Step::Diverge,
        }
    }

    pub open spec fn get_string_maxlen(self, ctx: ContextV, c: Cursor, maxlen: usize) -> Step<
        Seq<char>,
    > {
        match self.expect_text(ctx, c, A2lTokenType::String) {
            Step::Done(s, c2) => if s.len() > maxlen {
                Step::Fail(ErrorV::StringTooLong(ctx, s, maxlen, s.len() as usize), c2)
            } else {
                Step::Done(s, c2)
            },
            other => other,
        }
    }

    /// A number token read as an integer in `lo..=hi`.
    pub open spec fn get_integer(self, ctx: ContextV, c: Cursor, lo: int, hi: int) -> Step<int> {
        match self.expect_text(ctx, c, A2lTokenType::Number) {
            Step::Done(s, c2) => match int_in_range(s, lo, hi) {
                Some(v) => Step::Done(v, c2),
                None => Step::Fail(ErrorV::MalformedNumber(ctx, s), c2),
            },
            Step::Fail(e, c2) => Step::Fail(e, c2),
            Step::Diverge => Step::Diverge,
        }
    }

    /// A number token read as a floating point literal; its text.
    pub open spec fn get_float(self, ctx: ContextV, c: Cursor) -> Step<Seq<char>> {
        match self.expect_text(ctx, c, A2lTokenType::Number) {
            Step::Done(s, c2) => if float_text_ok(s) {
                Step::Done(s, c2)
            } else {
                Step::Fail(ErrorV::MalformedNumber(ctx, s), c2)
            },
            other => other,
        }
    }

    /// The name of an included file; none for the main file.
    pub open spec fn incfile(self, fileid: usize) -> Option<Seq<char>> {
        if fileid == 0 || fileid >= self.names.len() {
            None
        } else {
            Some(self.names[fileid as int]@)
        }
    }

    /// The tag of a tagged item: an identifier, or `/begin` and an
    /// identifier; with the tag's token, whether it is a block and the line
    /// offset where it starts. Where there is none, the position is restored.
    pub open spec fn next_tag(self, ctx: ContextV, c: Cursor) -> (
        Option<(A2lToken, bool, u32)>,
        Cursor,
    ) {
        let start_offset = self.line_offset(c);
        let (is_block, c1) = match self.peek(c) {
            Some(t) => if t.ttype == A2lTokenType::Begin {
                (true, Cursor { pos: c.pos + 1, last_line: t.line, ..c })
            } else {
                (false, c)
            },
            None => (false, c),
        };
        match self.peek(c1) {
            Some(t) => {
                let c2 = Cursor { pos: c1.pos + 1, last_line: t.line, ..c1 };
                if t.ttype == A2lTokenType::Identifier {
                    (Some((t, is_block, start_offset)), c2)
                } else {
                    (None, with_pos(c2, c.pos))
                }
            },
            None => (None, with_pos(c1, c.pos)),
        }
    }
}

/// The parser's state over the tokens of one A2L file: the tokens, the file
/// names, the A2ML specifications for IF_DATA (one given by the program, one
/// read from the file), and the cursor.
pub struct ParserState {
    pub tokens: Vec<A2lToken>,
    pub filenames: Vec<String>,
    pub file_a2mlspec: Option<A2mlTypeSpec>,
    pub builtin_a2mlspec: Option<A2mlTypeSpec>,
    pub token_cursor: usize,
    pub last_token_line: u32,
    pub sequential_id: u32,
}

pub open spec fn token_agrees(r: Result<A2lToken, ParseError>, s: Step<A2lToken>, c: Cursor) -> bool {
    match s {
        Step::Done(t, c2) => r matches Ok(x) && x == t && c == c2,
        Step::Fail(e, c2) => r matches Err(x) && x@ == e && c == c2,
        Step::Diverge => false,
    }
}

pub open spec fn text_agrees(r: Result<String, ParseError>, s: Step<Seq<char>>, c: Cursor) -> bool {
    match s {
        Step::Done(t, c2) => r matches Ok(x) && x@ == t && c == c2,
        Step::Fail(e, c2) => r matches Err(x) && x@ == e && c == c2,
        Step::Diverge => false,
    }
}

pub open spec fn int_agrees(r: Result<i128, ParseError>, s: Step<int>, c: Cursor) -> bool {
    match s {
        Step::Done(t, c2) => r matches Ok(x) && x == t && c == c2,
        Step::Fail(e, c2) => r matches Err(x) && x@ == e && c == c2,
        Step::Diverge => false,
    }
}

impl ParserState {
    /// The cursor stands at a token or just after the last one.
    pub open spec fn wf(&self) -> bool {
        self.token_cursor <= self.tokens.len()
    }

    pub open spec fn input(&self) -> Input {
        Input { toks: self.tokens@, names: self.filenames@ }
    }

    pub open spec fn cursor(&self) -> Cursor {
        Cursor {
            pos: self.token_cursor as int,
            last_line: self.last_token_line,
            next_id: self.sequential_id,
        }
    }

    /// Everything but the cursor is the same in both states.
    pub open spec fn same_input(&self, other: ParserState) -> bool {
        &&& self.tokens == other.tokens
        &&& self.filenames == other.filenames
        &&& self.file_a2mlspec == other.file_a2mlspec
        &&& self.builtin_a2mlspec == other.builtin_a2mlspec
    }

    /// A parser at the start of the given tokens.
    pub fn new(
        tokens: Vec<A2lToken>,
        filenames: Vec<String>,
        file_a2mlspec: Option<A2mlTypeSpec>,
        builtin_a2mlspec: Option<A2mlTypeSpec>,
    ) -> (r: ParserState)
        ensures
            r.wf(),
            r.tokens == tokens,
            r.filenames == filenames,
            r.file_a2mlspec == file_a2mlspec,
            r.builtin_a2mlspec == builtin_a2mlspec,
            r.cursor() == (Cursor { pos: 0, last_line: 0, next_id: 0 }),
    {
        ParserState {
            tokens,
            filenames,
            file_a2mlspec,
            builtin_a2mlspec,
            token_cursor: 0,
            last_token_line: 0,
            sequential_id: 0,
        }
    }

    /// The next token, without reading it.
    pub fn peek_token(&self) -> (r: Option<&A2lToken>)
        requires
            self.wf(),
        ensures
            r is Some == self.input().peek(self.cursor()) is Some,
            r matches Some(t) ==> *t == self.input().peek(self.cursor())->0,
    {
        if self.token_cursor < self.tokens.len() {
            Some(&self.tokens[self.token_cursor])
        } else {
            None
        }
    }

    /// The kind of the next token, if there is one.
    pub fn peek_type(&self) -> (r: Option<A2lTokenType>)
        requires
            self.wf(),
        ensures
            r is Some == self.input().peek(self.cursor()) is Some,
            r matches Some(t) ==> t == self.input().peek(self.cursor())->0.ttype,
    {
        if self.token_cursor < self.tokens.len() {
            Some(self.tokens[self.token_cursor].ttype)
        } else {
            None
        }
    }

    pub fn get_tokenpos(&self) -> (r: usize)
        ensures
            r == self.token_cursor,
    {
        self.token_cursor
    }

    pub fn set_tokenpos(&mut self, pos: usize)
        requires
            pos <= old(self).tokens.len(),
        ensures
            final(self).wf(),
            final(self).same_input(*old(self)),
            final(self).cursor() == with_pos(old(self).cursor(), pos as int),
    {
        self.token_cursor = pos;
    }

    /// Steps back over the token read last.
    pub fn undo_get_token(&mut self)
        requires
            old(self).wf(),
            old(self).token_cursor > 0,
        ensures
            final(self).wf(),
            final(self).same_input(*old(self)),
            final(self).cursor() == with_pos(old(self).cursor(), old(self).token_cursor - 1),
    {
        self.token_cursor = self.token_cursor - 1;
    }

    pub fn get_current_line_offset(&self) -> (r: u32)
        requires
            self.wf(),
        ensures
            r == self.input().line_offset(self.cursor()),
    {
        if self.token_cursor < self.tokens.len() {
            let line = self.tokens[self.token_cursor].line;
            if line >= self.last_token_line {
                line - self.last_token_line
            } else {
                0
            }
        } else {
            0
        }
    }

    /// Reads the next token.
    pub fn get_token(&mut self, context: &ParseContext) -> (r: Result<A2lToken, ParseError>)
        requires
            old(self).wf(),
        ensures
            final(self).wf(),
            final(self).same_input(*old(self)),
            token_agrees(r, old(self).input().get_token(context@, old(self).cursor()), final(self).cursor()),
    {
        if self.token_cursor < self.tokens.len() {
            let t = self.tokens[self.token_cursor].duplicate();
            self.token_cursor = self.token_cursor + 1;
            self.last_token_line = t.line;
            Ok(t)
        } else {
            Err(ParseError::UnexpectedEOF(context.duplicate()))
        }
    }

    /// Reads the next token, which must be of kind `ttype`.
    pub fn expect_token(&mut self, context: &ParseContext, ttype: A2lTokenType) -> (r: Result<
        A2lToken,
        ParseError,
    >)
        requires
            old(self).wf(),
        ensures
            final(self).wf(),
            final(self).same_input(*old(self)),
            token_agrees(
                r,
                old(self).input().expect_token(context@, old(self).cursor(), ttype),
                final(self).cursor(),
            ),
    {
        let token = self.get_token(context)?;
        if token.ttype == ttype {
            Ok(token)
        } else {
            Err(
                ParseError::UnexpectedTokenType(
                    context.duplicate(),
                    token.ttype,
                    token.text.clone(),
                    ttype,
                ),
            )
        }
    }

    /// Reads the text of the next token, which must be of kind `ttype`.
    fn expect_text(&mut self, context: &ParseContext, ttype: A2lTokenType) -> (r: Result<
        String,
        ParseError,
    >)
        requires
            old(self).wf(),
        ensures
            final(self).wf(),
            final(self).same_input(*old(self)),
            text_agrees(
                r,
                old(self).input().expect_text(context@, old(self).cursor(), ttype),
                final(self).cursor(),
            ),
    {
        let token = self.expect_token(context, ttype)?;
        Ok(token.text)
    }

    pub fn get_identifier(&mut self, context: &ParseContext) -> (r: Result<String, ParseError>)
        requires
            old(self).wf(),
        ensures
            final(self).wf(),
            final(self).same_input(*old(self)),
            text_agrees(
                r,
                old(self).input().expect_text(context@, old(self).cursor(), A2lTokenType::Identifier),
                final(self).cursor(),
            ),
    {
        self.expect_text(context, A2lTokenType::Identifier)
    }

    pub fn get_string(&mut self, context: &ParseContext) -> (r: Result<String, ParseError>)
        requires
            old(self).wf(),
        ensures
            final(self).wf(),
            final(self).same_input(*old(self)),
            text_agrees(
                r,
                old(self).input().expect_text(context@, old(self).cursor(), A2lTokenType::String),
                final(self).cursor(),
            ),
    {
        self.expect_text(context, A2lTokenType::String)
    }

    /// Reads a string of at most `maxlen` characters.
    pub fn get_string_maxlen(&mut self, context: &ParseContext, maxlen: usize) -> (r: Result<
        String,
        ParseError,
    >)
        requires
            old(self).wf(),
        ensures
            final(self).wf(),
            final(self).same_input(*old(self)),
            text_agrees(
                r,
                old(self).input().get_string_maxlen(context@, old(self).cursor(), maxlen),
                final(self).cursor(),
            ),
    {
        let text = self.get_string(context)?;
        let len = text.as_str().unicode_len();
        if len > maxlen {
            Err(ParseError::StringTooLong(context.duplicate(), text, maxlen, len))
        } else {
            Ok(text)
        }
    }

    /// Reads a number token as an integer in `lo..=hi`.
    pub fn get_integer(&mut self, context: &ParseContext, lo: i128, hi: i128) -> (r: Result<
        i128,
        ParseError,
    >)
        requires
            old(self).wf(),
            i64::MIN <= lo <= hi <= u64::MAX,
        ensures
            final(self).wf(),
            final(self).same_input(*old(self)),
            int_agrees(
                r,
                old(self).input().get_integer(context@, old(self).cursor(), lo as int, hi as int),
                final(self).cursor(),
            ),
            r matches Ok(v) ==> lo <= v <= hi,
    {
        let text = self.expect_text(context, A2lTokenType::Number)?;
        match parse_int_text(text.as_str(), lo, hi) {
            Some(v) => Ok(v),
            None => Err(ParseError::MalformedNumber(context.duplicate(), text)),
        }
    }

    /// Reads a number token as a floating point literal and gives its text.
    pub fn get_float(&mut self, context: &ParseContext) -> (r: Result<String, ParseError>)
        requires
            old(self).wf(),
        ensures
            final(self).wf(),
            final(self).same_input(*old(self)),
            text_agrees(
                r,
                old(self).input().get_float(context@, old(self).cursor()),
                final(self).cursor(),
            ),
    {
        let text = self.expect_text(context, A2lTokenType::Number)?;
        if float_text_check(text.as_str()) {
            Ok(text)
        } else {
            Err(ParseError::MalformedNumber(context.duplicate(), text))
        }
    }

    /// The name of the file with the given id, unless it is the main file.
    pub fn get_incfilename(&self, fileid: usize) -> (r: Option<String>)
        ensures
            crate::a2ml::opt_string_view(r) == self.input().incfile(fileid),
    {
        if fileid == 0 || fileid >= self.filenames.len() {
            None
        } else {
            Some(self.filenames[fileid].clone())
        }
    }

    /// Hands out the next id.
    pub fn get_next_id(&mut self) -> (r: u32)
        requires
            old(self).wf(),
        ensures
            final(self).wf(),
            final(self).same_input(*old(self)),
            final(self).cursor() == bump_id(old(self).cursor()),
            r == final(self).sequential_id,
    {
        self.sequential_id = if self.sequential_id == u32::MAX {
            0
        } else {
            self.sequential_id + 1
        };
        self.sequential_id
    }

    /// Reads the tag of a tagged item, if one comes next (see `Input::next_tag`).
    pub fn get_next_tag(&mut self, context: &ParseContext) -> (r: Option<(A2lToken, bool, u32)>)
        requires
            old(self).wf(),
        ensures
            final(self).wf(),
            final(self).same_input(*old(self)),
            (r, final(self).cursor()) == old(self).input().next_tag(context@, old(self).cursor()),
    {
        let tokenpos = self.get_tokenpos();
        let start_offset = self.get_current_line_offset();
        let mut is_block = false;
        if let Some(A2lTokenType::Begin) = self.peek_type() {
            is_block = true;
            let _ = self.get_token(context);
        }
        match self.peek_type() {
            Some(A2lTokenType::Identifier) => {
                match self.get_token(context) {
                    Ok(token) => Some((token, is_block, start_offset)),
                    Err(_) => None,
                }
            },
            Some(_) => {
                let _ = self.get_token(context);
                self.set_tokenpos(tokenpos);
                None
            },
            None => {
                self.set_tokenpos(tokenpos);
                None
            },
        }
    }
}

} // verus!
