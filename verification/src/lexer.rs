//! The lexical scanner. A `Lexer` owns the source text and a scan cursor;
//! each call to `next` skips whitespace and comments and then produces one
//! classified `Token`, or reports the end of the input, or fails on an
//! unterminated string literal. The whole scan is specified by
//! `next_token_spec` (one lexical unit) and `scan_spec` (the full stream),
//! so the token sequence is a function of the source text alone.

use vstd::prelude::*;
use vstd::string::StrSliceExecFns;
use vstd::string::StringExecFns;

use crate::numeric::is_numeric_literal;
use crate::numeric::spec_is_numeric_literal;
use crate::text::SeekKind;
use crate::text::count_line_breaks;
use crate::text::is_word_terminator;
use crate::text::lemma_count_le_len;
use crate::text::lemma_count_monotone;
use crate::text::lemma_count_no_breaks;
use crate::text::lemma_count_split;
use crate::text::lemma_count_take_step;
use crate::text::lemma_seek;
use crate::text::lemma_seek_step;
use crate::text::seek;
use crate::text::seek_stop;
use crate::text::str_eq;

verus! {

/// The closed set of token kinds.
#[derive(Clone, Copy, Debug, PartialEq, Eq, Structural)]
pub enum TokenType {
    // Single-character tokens.
    LeftParen,
    RightParen,
    LeftBrace,
    RightBrace,
    Comma,
    Dot,
    Minus,
    Plus,
    Semicolon,
    Slash,
    Star,
    // One or two character tokens.
    Bang,
    BangEqual,
    Equal,
    EqualEqual,
    Greater,
    GreaterEqual,
    Less,
    LessEqual,
    // Literals.
    Identifier,
    String,
    Number,
    // Keywords.
    And,
    Class,
    Else,
    False,
    Fun,
    For,
    If,
    Nil,
    Or,
    Print,
    Return,
    Super,
    This,
    True,
    Var,
    While,
    Keyword,
    // Error.
    Error,
}

/// The error kinds the front end can report.
#[derive(Clone, Copy, Debug, PartialEq, Eq)]
pub enum RoxError {
    /// The source buffer could not be obtained.
    IOError,
    /// A string literal was still open when the input ended.
    UnterminatedString { line: usize },
    /// The input ended where an operand was required.
    UnexpectedEndOfInput,
    /// A specific token was required but something else (or the end of the
    /// input, `found == None`) was there.
    ExpectedToken { expected: TokenType, found: Option<TokenType> },
    /// Expression nesting went past the fixed depth bound.
    RecursionLimitExceeded,
}

/// One lexical unit: its kind, the exact source substring it was scanned
/// from, and the (0-based) line its first character stands on.
#[derive(Clone, Debug, PartialEq, Eq)]
pub struct Token {
    pub token_type: TokenType,
    pub lexeme: String,
    pub line: usize,
}

/// The mathematical value of a `Token`.
pub ghost struct TokenModel {
    pub token_type: TokenType,
    pub lexeme: Seq<char>,
    pub line: nat,
}

impl View for Token {
    type V = TokenModel;

    open spec fn view(&self) -> TokenModel {
        TokenModel {
            token_type: self.token_type,
            lexeme: self.lexeme@,
            line: self.line as nat,
        }
    }
}

impl TokenType {
    /// The display name of a token kind.
    pub open spec fn spec_name(self) -> Seq<char> {
        match self {
            TokenType::LeftParen => "LeftParen"@,
            TokenType::RightParen => "RightParen"@,
            TokenType::LeftBrace => "LeftBrace"@,
            TokenType::RightBrace => "RightBrace"@,
            TokenType::Comma => "Comma"@,
            TokenType::Dot => "Dot"@,
            TokenType::Minus => "Minus"@,
            TokenType::Plus => "Plus"@,
            TokenType::Semicolon => "Semicolon"@,
            TokenType::Slash => "Slash"@,
            TokenType::Star => "Star"@,
            TokenType::Bang => "Bang"@,
            TokenType::BangEqual => "BangEqual"@,
            TokenType::Equal => "Equal"@,
            TokenType::EqualEqual => "EqualEqual"@,
            TokenType::Greater => "Greater"@,
            TokenType::GreaterEqual => "GreaterEqual"@,
            TokenType::Less => "Less"@,
            TokenType::LessEqual => "LessEqual"@,
            TokenType::Identifier => "Identifier"@,
            TokenType::String => "String"@,
            TokenType::Number => "Number"@,
            TokenType::And => "And"@,
            TokenType::Class => "Class"@,
            TokenType::Else => "Else"@,
            TokenType::False => "False"@,
            TokenType::Fun => "Fun"@,
            TokenType::For => "For"@,
            TokenType::If => "If"@,
            TokenType::Nil => "Nil"@,
            TokenType::Or => "Or"@,
            TokenType::Print => "Print"@,
            TokenType::Return => "Return"@,
            TokenType::Super => "Super"@,
            TokenType::This => "This"@,
            TokenType::True => "True"@,
            TokenType::Var => "Var"@,
            TokenType::While => "While"@,
            TokenType::Keyword => "Keyword"@,
            TokenType::Error => "Error"@,
        }
    }

    /// The display name of a token kind, for callers that print tokens.
    pub fn name(self) -> (r: &'static str)
        ensures
            r@ == self.spec_name(),
    {
        match self {
            TokenType::LeftParen => "LeftParen",
            TokenType::RightParen => "RightParen",
            TokenType::LeftBrace => "LeftBrace",
            TokenType::RightBrace => "RightBrace",
            TokenType::Comma => "Comma",
            TokenType::Dot => "Dot",
            TokenType::Minus => "Minus",
            TokenType::Plus => "Plus",
            TokenType::Semicolon => "Semicolon",
            TokenType::Slash => "Slash",
            TokenType::Star => "Star",
            TokenType::Bang => "Bang",
            TokenType::BangEqual => "BangEqual",
            TokenType::Equal => "Equal",
            TokenType::EqualEqual => "EqualEqual",
            TokenType::Greater => "Greater",
            TokenType::GreaterEqual => "GreaterEqual",
            TokenType::Less => "Less",
            TokenType::LessEqual => "LessEqual",
            TokenType::Identifier => "Identifier",
            TokenType::String => "String",
            TokenType::Number => "Number",
            TokenType::And => "And",
            TokenType::Class => "Class",
            TokenType::Else => "Else",
            TokenType::False => "False",
            TokenType::Fun => "Fun",
            TokenType::For => "For",
            TokenType::If => "If",
            TokenType::Nil => "Nil",
            TokenType::Or => "Or",
            TokenType::Print => "Print",
            TokenType::Return => "Return",
            TokenType::Super => "Super",
            TokenType::This => "This",
            TokenType::True => "True",
            TokenType::Var => "Var",
            TokenType::While => "While",
            TokenType::Keyword => "Keyword",
            TokenType::Error => "Error",
        }
    }
}

/// The fixed keyword set.
pub open spec fn spec_is_keyword(w: Seq<char>) -> bool {
    ||| w == "and"@ || w == "class"@ || w == "else"@ || w == "false"@
    ||| w == "for"@ || w == "fun"@ || w == "if"@ || w == "nil"@
    ||| w == "or"@ || w == "return"@ || w == "super"@ || w == "this"@
    ||| w == "true"@ || w == "var"@ || w == "while"@ || w == "print"@
}

/// Decides membership in the fixed keyword set.
pub fn is_keyword(w: &str) -> (b: bool)
    ensures
        b == spec_is_keyword(w@),
{
    str_eq(w, "and") || str_eq(w, "class") || str_eq(w, "else") || str_eq(w, "false")
        || str_eq(w, "for") || str_eq(w, "fun") || str_eq(w, "if") || str_eq(w, "nil")
        || str_eq(w, "or") || str_eq(w, "return") || str_eq(w, "super") || str_eq(w, "this")
        || str_eq(w, "true") || str_eq(w, "var") || str_eq(w, "while") || str_eq(w, "print")
}

/// How a bare word is classified: a numeric literal, a keyword, or an
/// identifier, tried in that order.
pub open spec fn classify_word(w: Seq<char>) -> TokenType {
    if spec_is_numeric_literal(w) {
        TokenType::Number
    } else if spec_is_keyword(w) {
        TokenType::Keyword
    } else {
        TokenType::Identifier
    }
}

/// The outcome of scanning one lexical unit.
pub ghost enum ScanStep {
    /// Only whitespace and comments remained.
    Finished,
    /// A string literal starting on `line` was never closed.
    Failed { line: nat },
    /// A token was produced. `start` is the index of its first character,
    /// `next_pos` and `next_line` are the cursor and line counter after it.
    Emitted { token: TokenModel, start: int, next_pos: int, next_line: nat },
}

/// A single-character token at `pos`.
pub open spec fn emit_single(k: TokenType, s: Seq<char>, pos: int, line: nat) -> ScanStep {
    ScanStep::Emitted {
        token: TokenModel { token_type: k, lexeme: s.subrange(pos, pos + 1), line },
        start: pos,
        next_pos: pos + 1,
        next_line: line,
    }
}

/// An operator at `pos` that joins with a following `=` into a two-character
/// token, or stands alone.
pub open spec fn emit_operator(
    s: Seq<char>,
    pos: int,
    line: nat,
    joined: TokenType,
    alone: TokenType,
) -> ScanStep {
    if pos + 1 < s.len() && s[pos + 1] == '=' {
        ScanStep::Emitted {
            token: TokenModel { token_type: joined, lexeme: s.subrange(pos, pos + 2), line },
            start: pos,
            next_pos: pos + 2,
            next_line: line,
        }
    } else {
        emit_single(alone, s, pos, line)
    }
}

/// Scans one lexical unit of `s` starting at `pos` on line `line`:
/// whitespace and line comments are skipped, every other input starts a
/// token, except that an unterminated string literal fails the scan.
pub open spec fn next_token_spec(s: Seq<char>, pos: int, line: nat) -> ScanStep
    decreases s.len() - pos,
        via next_token_spec_decreases
{
    if !(0 <= pos < s.len()) {
        ScanStep::Finished
    } else {
        let c = s[pos];
        if c == '(' {
            emit_single(TokenType::LeftParen, s, pos, line)
        } else if c == ')' {
            emit_single(TokenType::RightParen, s, pos, line)
        } else if c == '{' {
            emit_single(TokenType::LeftBrace, s, pos, line)
        } else if c == '}' {
            emit_single(TokenType::RightBrace, s, pos, line)
        } else if c == ',' {
            emit_single(TokenType::Comma, s, pos, line)
        } else if c == '.' {
            emit_single(TokenType::Dot, s, pos, line)
        } else if c == '-' {
            emit_single(TokenType::Minus, s, pos, line)
        } else if c == '+' {
            emit_single(TokenType::Plus, s, pos, line)
        } else if c == ';' {
            emit_single(TokenType::Semicolon, s, pos, line)
        } else if c == '*' {
            emit_single(TokenType::Star, s, pos, line)
        } else if c == '=' {
            emit_operator(s, pos, line, TokenType::EqualEqual, TokenType::Equal)
        } else if c == '<' {
            emit_operator(s, pos, line, TokenType::LessEqual, TokenType::Less)
        } else if c == '>' {
            emit_operator(s, pos, line, TokenType::GreaterEqual, TokenType::Greater)
        } else if c == '!' {
            emit_operator(s, pos, line, TokenType::BangEqual, TokenType::Bang)
        } else if c == '/' {
            if pos + 1 < s.len() && s[pos + 1] == '/' {
                // A line comment: skip to the next line break and go on.
                next_token_spec(s, seek(s, pos + 2, SeekKind::LineBreak), line)
            } else {
                emit_single(TokenType::Slash, s, pos, line)
            }
        } else if c == '"' {
            let q = seek(s, pos + 1, SeekKind::Quote);
            if q == s.len() {
                ScanStep::Failed { line }
            } else {
                ScanStep::Emitted {
                    token: TokenModel {
                        token_type: TokenType::String,
                        lexeme: s.subrange(pos, q + 1),
                        line,
                    },
                    start: pos,
                    next_pos: q + 1,
                    next_line: (line + count_line_breaks(s.subrange(pos, q + 1))) as nat,
                }
            }
        } else if c == ' ' || c == '\t' || c == '\n' {
            next_token_spec(
                s,
                pos + 1,
                if c == '\n' {
                    (line + 1) as nat
                } else {
                    line
                },
            )
        } else {
            let e = seek(s, pos, SeekKind::WordEnd);
            let w = s.subrange(pos, e);
            ScanStep::Emitted {
                token: TokenModel { token_type: classify_word(w), lexeme: w, line },
                start: pos,
                next_pos: e,
                next_line: line,
            }
        }
    }
}

#[via_fn]
proof fn next_token_spec_decreases(s: Seq<char>, pos: int, line: nat) {
    if 0 <= pos < s.len() && s[pos] == '/' && pos + 1 < s.len() && s[pos + 1] == '/' {
        lemma_seek(s, pos + 2, SeekKind::LineBreak);
    }
}

/// A scan step never moves the cursor backwards, and an emitted token sits
/// between the old cursor and the new one.
pub proof fn lemma_next_token_advances(s: Seq<char>, pos: int, line: nat)
    requires
        0 <= pos <= s.len(),
    ensures
        next_token_spec(s, pos, line) matches ScanStep::Emitted { token, start, next_pos, .. }
            ==> pos <= start && start < next_pos && next_pos <= s.len(),
    decreases s.len() - pos,
{
    if 0 <= pos < s.len() {
        let c = s[pos];
        if c == '/' && pos + 1 < s.len() && s[pos + 1] == '/' {
            lemma_seek(s, pos + 2, SeekKind::LineBreak);
            lemma_next_token_advances(s, seek(s, pos + 2, SeekKind::LineBreak), line);
        } else if c == '"' {
            lemma_seek(s, pos + 1, SeekKind::Quote);
        } else if c == ' ' || c == '\t' || c == '\n' {
            lemma_next_token_advances(
                s,
                pos + 1,
                if c == '\n' {
                    (line + 1) as nat
                } else {
                    line
                },
            );
        } else if !(c == '(' || c == ')' || c == '{' || c == '}' || c == ',' || c == '.' || c == '-'
            || c == '+' || c == ';' || c == '*' || c == '=' || c == '<' || c == '>' || c == '!'
            || c == '/') {
            lemma_seek(s, pos, SeekKind::WordEnd);
            assert(!seek_stop(SeekKind::WordEnd, c));
            lemma_seek_step(s, pos, SeekKind::WordEnd);
        }
    }
}

/// Line tracking: when the line counter equals the number of line breaks
/// before the cursor, an emitted token records exactly the number of line
/// breaks before its first character, and the counter keeps that property
/// at the position after the token.
pub proof fn lemma_line_tracking(s: Seq<char>, pos: int, line: nat)
    requires
        0 <= pos <= s.len(),
        line == count_line_breaks(s.take(pos)),
    ensures
        next_token_spec(s, pos, line) matches ScanStep::Emitted {
            token,
            start,
            next_pos,
            next_line,
        } ==> token.line == count_line_breaks(s.take(start)) && next_line == count_line_breaks(
            s.take(next_pos),
        ),
    decreases s.len() - pos,
{
    if 0 <= pos < s.len() {
        let c = s[pos];
        if c == '/' && pos + 1 < s.len() && s[pos + 1] == '/' {
            let e = seek(s, pos + 2, SeekKind::LineBreak);
            lemma_seek(s, pos + 2, SeekKind::LineBreak);
            lemma_count_take_step(s, pos);
            lemma_count_take_step(s, pos + 1);
            assert forall|j: int| pos + 2 <= j < e implies s[j] != '\n' by {
                assert(!seek_stop(SeekKind::LineBreak, s[j]));
            }
            lemma_count_no_breaks(s, pos + 2, e);
            lemma_line_tracking(s, e, line);
        } else if c == '/' {
            lemma_count_take_step(s, pos);
        } else if c == '"' {
            let q = seek(s, pos + 1, SeekKind::Quote);
            lemma_seek(s, pos + 1, SeekKind::Quote);
            if q < s.len() {
                lemma_count_split(s, pos, q + 1);
            }
        } else if c == ' ' || c == '\t' || c == '\n' {
            lemma_count_take_step(s, pos);
            lemma_line_tracking(
                s,
                pos + 1,
                if c == '\n' {
                    (line + 1) as nat
                } else {
                    line
                },
            );
        } else if c == '(' || c == ')' || c == '{' || c == '}' || c == ',' || c == '.' || c == '-'
            || c == '+' || c == ';' || c == '*' {
            lemma_count_take_step(s, pos);
        } else if c == '=' || c == '<' || c == '>' || c == '!' {
            lemma_count_take_step(s, pos);
            if pos + 1 < s.len() && s[pos + 1] == '=' {
                lemma_count_take_step(s, pos + 1);
            }
        } else {
            let e = seek(s, pos, SeekKind::WordEnd);
            lemma_seek(s, pos, SeekKind::WordEnd);
            assert forall|j: int| pos <= j < e implies s[j] != '\n' by {
                assert(!seek_stop(SeekKind::WordEnd, s[j]));
            }
            lemma_count_no_breaks(s, pos, e);
        }
    }
}

/// Tokens come in non-decreasing line order: when one scan step emits a
/// token and the next scan step emits another, the second token's line is
/// never smaller than the first one's.
pub proof fn lemma_token_lines_non_decreasing(s: Seq<char>, pos: int, line: nat)
    requires
        0 <= pos <= s.len(),
        line == count_line_breaks(s.take(pos)),
    ensures
        next_token_spec(s, pos, line) matches ScanStep::Emitted {
            token: first,
            next_pos,
            next_line,
            ..
        } ==> (next_token_spec(s, next_pos, next_line) matches ScanStep::Emitted {
            token: second,
            ..
        } ==> first.line <= second.line),
{
    match next_token_spec(s, pos, line) {
        ScanStep::Emitted { start: start1, next_pos, next_line, .. } => {
            lemma_next_token_advances(s, pos, line);
            lemma_line_tracking(s, pos, line);
            match next_token_spec(s, next_pos, next_line) {
                ScanStep::Emitted { start: start2, .. } => {
                    lemma_next_token_advances(s, next_pos, next_line);
                    lemma_line_tracking(s, next_pos, next_line);
                    lemma_count_monotone(s, start1, start2);
                },
                _ => {},
            }
        },
        _ => {},
    }
}

/// Re-scanning identical source text from a fresh scanner yields an
/// identical outcome: the token stream is a function of the text alone,
/// with no hidden state.
pub proof fn lemma_rescan_identical(s1: Seq<char>, s2: Seq<char>)
    requires
        s1 == s2,
    ensures
        tokens_of(s1) == tokens_of(s2),
{
}

/// The full token stream of `s` from `pos` on: the sequence of all emitted
/// tokens, or the line of the unterminated string literal that stopped the
/// scan.
pub open spec fn scan_spec(s: Seq<char>, pos: int, line: nat) -> Result<Seq<TokenModel>, nat>
    decreases s.len() - pos,
        via scan_spec_decreases
{
    match next_token_spec(s, pos, line) {
        ScanStep::Finished => Ok(Seq::empty()),
        ScanStep::Failed { line: l } => Err(l),
        ScanStep::Emitted { token, start, next_pos, next_line } => {
            match scan_spec(s, next_pos, next_line) {
                Ok(rest) => Ok(seq![token] + rest),
                Err(l) => Err(l),
            }
        },
    }
}

#[via_fn]
proof fn scan_spec_decreases(s: Seq<char>, pos: int, line: nat) {
    if 0 <= pos <= s.len() {
        lemma_next_token_advances(s, pos, line);
    }
}

/// The token stream of a whole source text.
pub open spec fn tokens_of(s: Seq<char>) -> Result<Seq<TokenModel>, nat> {
    scan_spec(s, 0, 0)
}

fn is_terminator_char(c: char) -> (b: bool)
    ensures
        b == is_word_terminator(c),
{
    c == ' ' || c == '\t' || c == '\n' || c == '(' || c == ')' || c == '{' || c == '}' || c == ','
        || c == '-' || c == '+' || c == ';' || c == '*' || c == '/' || c == '=' || c == '<' || c
        == '>' || c == '!' || c == '"'
}

/// The scanner: the source text, a cursor, and the current (0-based) line.
pub struct Lexer {
    source: String,
    pointer: usize,
    current_line: usize,
}

impl Lexer {
    /// The characters of the source text.
    pub closed spec fn src(self) -> Seq<char> {
        self.source@
    }

    /// The scan cursor: the index of the next character to look at.
    pub closed spec fn pos(self) -> int {
        self.pointer as int
    }

    /// The current line counter.
    pub closed spec fn line(self) -> nat {
        self.current_line as nat
    }

    /// Well-formedness: the cursor is inside the text and the line counter
    /// equals the number of line breaks before the cursor.
    pub open spec fn wf(self) -> bool {
        &&& 0 <= self.pos() <= self.src().len()
        &&& self.src().len() <= usize::MAX
        &&& self.line() == count_line_breaks(self.src().take(self.pos()))
    }

    /// Builds a fresh scanner over `source`, with the cursor at the start.
    pub fn new(source: String) -> (r: Lexer)
        ensures
            r.wf(),
            r.src() == source@,
            r.pos() == 0,
            r.line() == 0,
    {
        let _n: usize = source.as_str().unicode_len();
        proof {
            assert(source@.take(0) =~= Seq::<char>::empty());
        }
        Lexer { source, pointer: 0, current_line: 0 }
    }

    /// Bounds-checked lookahead one character past the cursor; past the end
    /// of the text it reports `None` instead of failing.
    pub fn peek_one_char(&self) -> (r: Option<char>)
        ensures
            match r {
                Some(c) => self.pos() + 1 < self.src().len() && c == self.src()[self.pos() + 1],
                None => self.pos() + 1 >= self.src().len(),
            },
    {
        let n: usize = self.source.as_str().unicode_len();
        if self.pointer < n {
            let nxt: usize = self.pointer + 1;
            if nxt < n {
                return Some(self.source.as_str().get_char(nxt));
            }
        }
        None
    }

    /// Takes the single character at the cursor as a token of kind `kind`.
    fn take_single(&mut self, kind: TokenType) -> (t: Token)
        requires
            old(self).wf(),
            old(self).pos() < old(self).src().len(),
            old(self).src()[old(self).pos()] != '\n',
        ensures
            final(self).wf(),
            final(self).src() == old(self).src(),
            final(self).pos() == old(self).pos() + 1,
            final(self).line() == old(self).line(),
            t@ == (TokenModel {
                token_type: kind,
                lexeme: old(self).src().subrange(old(self).pos(), old(self).pos() + 1),
                line: old(self).line(),
            }),
    {
        let lex_str = self.source.as_str().substring_char(self.pointer, self.pointer + 1);
        let t = Token {
            token_type: kind,
            lexeme: String::from_str(lex_str),
            line: self.current_line,
        };
        proof {
            lemma_count_take_step(self.source@, self.pointer as int);
        }
        self.pointer += 1;
        t
    }

    /// Takes the operator at the cursor, joining it with a following `=`
    /// into the two-character kind when one is there.
    fn take_operator(&mut self, joined: TokenType, alone: TokenType) -> (t: Token)
        requires
            old(self).wf(),
            old(self).pos() < old(self).src().len(),
            old(self).src()[old(self).pos()] != '\n',
        ensures
            final(self).wf(),
            final(self).src() == old(self).src(),
            old(self).pos() < final(self).pos(),
            (emit_operator(
                old(self).src(),
                old(self).pos(),
                old(self).line(),
                joined,
                alone,
            ) matches ScanStep::Emitted { token, start, next_pos, next_line } && t@ == token
                && final(self).pos() == next_pos && final(self).line() == next_line),
    {
        let p = self.peek_one_char();
        let is_joined = match p {
            Some(c) => c == '=',
            None => false,
        };
        if is_joined {
            let lex_str = self.source.as_str().substring_char(self.pointer, self.pointer + 2);
            let t = Token {
                token_type: joined,
                lexeme: String::from_str(lex_str),
                line: self.current_line,
            };
            proof {
                lemma_count_take_step(self.source@, self.pointer as int);
                lemma_count_take_step(self.source@, self.pointer as int + 1);
            }
            self.pointer += 2;
            t
        } else {
            self.take_single(alone)
        }
    }

    /// Scans past whitespace and comments and produces the next token:
    /// `Ok(Some(t))` for a token, `Ok(None)` at the end of the input, and an
    /// `UnterminatedString` error for a string literal that is still open
    /// when the input ends. The outcome is exactly `next_token_spec` at the
    /// old cursor.
    #[verifier::loop_isolation(false)]
    pub fn next(&mut self) -> (r: Result<Option<Token>, RoxError>)
        requires
            old(self).wf(),
        ensures
            final(self).wf(),
            final(self).src() == old(self).src(),
            old(self).pos() <= final(self).pos(),
            ({
                let step = next_token_spec(old(self).src(), old(self).pos(), old(self).line());
                match step {
                    ScanStep::Finished => r == Ok::<Option<Token>, RoxError>(None)
                        && final(self).pos() == final(self).src().len(),
                    ScanStep::Failed { line } => r == Err::<Option<Token>, RoxError>(
                        RoxError::UnterminatedString { line: line as usize },
                    ) && final(self).pos() == final(self).src().len(),
                    ScanStep::Emitted { token, start, next_pos, next_line } => (r matches Ok(o)
                        && o matches Some(t) && t@ == token) && final(self).pos() == next_pos
                        && final(self).line() == next_line && old(self).pos() < next_pos,
                }
            }),
    {
        let ghost s: Seq<char> = self.source@;
        let ghost p0: int = self.pointer as int;
        let ghost l0: nat = self.current_line as nat;
        let n: usize = self.source.as_str().unicode_len();
        loop
            invariant
                self.wf(),
                self.source@ == s,
                n as nat == s.len(),
                0 <= p0 <= self.pointer as int,
                next_token_spec(s, self.pointer as int, self.current_line as nat)
                    == next_token_spec(s, p0, l0),
            decreases s.len() - self.pointer,
        {
            if self.pointer >= n {
                return Ok(None);
            }
            let c = self.source.as_str().get_char(self.pointer);
            if c == '(' {
                return Ok(Some(self.take_single(TokenType::LeftParen)));
            } else if c == ')' {
                return Ok(Some(self.take_single(TokenType::RightParen)));
            } else if c == '{' {
                return Ok(Some(self.take_single(TokenType::LeftBrace)));
            } else if c == '}' {
                return Ok(Some(self.take_single(TokenType::RightBrace)));
            } else if c == ',' {
                return Ok(Some(self.take_single(TokenType::Comma)));
            } else if c == '.' {
                return Ok(Some(self.take_single(TokenType::Dot)));
            } else if c == '-' {
                return Ok(Some(self.take_single(TokenType::Minus)));
            } else if c == '+' {
                return Ok(Some(self.take_single(TokenType::Plus)));
            } else if c == ';' {
                return Ok(Some(self.take_single(TokenType::Semicolon)));
            } else if c == '*' {
                return Ok(Some(self.take_single(TokenType::Star)));
            } else if c == '=' {
                return Ok(Some(self.take_operator(TokenType::EqualEqual, TokenType::Equal)));
            } else if c == '<' {
                return Ok(Some(self.take_operator(TokenType::LessEqual, TokenType::Less)));
            } else if c == '>' {
                return Ok(Some(self.take_operator(TokenType::GreaterEqual, TokenType::Greater)));
            } else if c == '!' {
                return Ok(Some(self.take_operator(TokenType::BangEqual, TokenType::Bang)));
            } else if c == '/' {
                let p = self.peek_one_char();
                let second_slash = match p {
                    Some(c2) => c2 == '/',
                    None => false,
                };
                if second_slash {
                    let ghost pc: int = self.pointer as int;
                    let ghost lc: nat = self.current_line as nat;
                    proof {
                        lemma_seek(s, pc + 2, SeekKind::LineBreak);
                        lemma_count_take_step(s, pc);
                        lemma_count_take_step(s, pc + 1);
                    }
                    self.pointer += 2;
                    while self.pointer < n && self.source.as_str().get_char(self.pointer) != '\n'
                        invariant
                            self.wf(),
                            self.source@ == s,
                            pc + 2 <= self.pointer as int <= s.len(),
                            self.current_line as nat == lc,
                            seek(s, pc + 2, SeekKind::LineBreak) == seek(
                                s,
                                self.pointer as int,
                                SeekKind::LineBreak,
                            ),
                        decreases s.len() - self.pointer,
                    {
                        proof {
                            lemma_seek_step(s, self.pointer as int, SeekKind::LineBreak);
                            lemma_count_take_step(s, self.pointer as int);
                        }
                        self.pointer += 1;
                    }
                } else {
                    return Ok(Some(self.take_single(TokenType::Slash)));
                }
            } else if c == ' ' || c == '\t' || c == '\n' {
                proof {
                    lemma_count_take_step(s, self.pointer as int);
                    lemma_count_le_len(s.take(self.pointer as int));
                }
                if c == '\n' {
                    self.current_line += 1;
                }
                self.pointer += 1;
            } else if c == '"' {
                let start: usize = self.pointer;
                let token_line: usize = self.current_line;
                let ghost q: int = seek(s, start as int + 1, SeekKind::Quote);
                proof {
                    lemma_seek(s, start as int + 1, SeekKind::Quote);
                    lemma_count_take_step(s, start as int);
                }
                self.pointer += 1;
                loop
                    invariant
                        self.wf(),
                        self.source@ == s,
                        n as nat == s.len(),
                        0 <= p0 <= start as int,
                        (start as int) < s.len(),
                        start as int + 1 <= self.pointer as int <= s.len(),
                        s[start as int] == '"',
                        token_line as nat == count_line_breaks(s.take(start as int)),
                        q == seek(s, self.pointer as int, SeekKind::Quote),
                        next_token_spec(s, start as int, token_line as nat) == next_token_spec(
                            s,
                            p0,
                            l0,
                        ),
                    decreases s.len() - self.pointer,
                {
                    if self.pointer >= n {
                        return Err(RoxError::UnterminatedString { line: token_line });
                    }
                    let cc = self.source.as_str().get_char(self.pointer);
                    if cc == '"' {
                        let lex_str = self.source.as_str().substring_char(start, self.pointer + 1);
                        let t = Token {
                            token_type: TokenType::String,
                            lexeme: String::from_str(lex_str),
                            line: token_line,
                        };
                        proof {
                            lemma_count_take_step(s, self.pointer as int);
                        }
                        self.pointer += 1;
                        proof {
                            lemma_count_split(s, start as int, self.pointer as int);
                        }
                        return Ok(Some(t));
                    }
                    proof {
                        lemma_seek_step(s, self.pointer as int, SeekKind::Quote);
                        lemma_count_take_step(s, self.pointer as int);
                        lemma_count_le_len(s.take(self.pointer as int));
                    }
                    if cc == '\n' {
                        self.current_line += 1;
                    }
                    self.pointer += 1;
                }
            } else {
                let start: usize = self.pointer;
                let token_line: usize = self.current_line;
                let ghost e: int = seek(s, start as int, SeekKind::WordEnd);
                proof {
                    assert(!is_word_terminator(c));
                    lemma_seek(s, start as int, SeekKind::WordEnd);
                    lemma_seek_step(s, start as int, SeekKind::WordEnd);
                    lemma_count_take_step(s, start as int);
                }
                self.pointer += 1;
                while self.pointer < n && !is_terminator_char(
                    self.source.as_str().get_char(self.pointer),
                )
                    invariant
                        self.wf(),
                        self.source@ == s,
                        (start as int) < self.pointer as int <= s.len(),
                        self.current_line == token_line,
                        e == seek(s, self.pointer as int, SeekKind::WordEnd),
                    decreases s.len() - self.pointer,
                {
                    proof {
                        lemma_seek_step(s, self.pointer as int, SeekKind::WordEnd);
                        lemma_count_take_step(s, self.pointer as int);
                    }
                    self.pointer += 1;
                }
                let w = self.source.as_str().substring_char(start, self.pointer);
                let token_type = if is_numeric_literal(w) {
                    TokenType::Number
                } else if is_keyword(w) {
                    TokenType::Keyword
                } else {
                    TokenType::Identifier
                };
                let t = Token { token_type, lexeme: String::from_str(w), line: token_line };
                return Ok(Some(t));
            }
        }
    }
}

} // verus!
