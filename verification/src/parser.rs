//! The recursive-descent expression parser. A `Parser` owns the token
//! stream produced by a `Lexer` and climbs six precedence levels, from
//! equality at the bottom to unary operators and primaries at the top. Each
//! binary level loops, folding operands into left-nested `Binary` nodes, so
//! chains such as `1 - 2 - 3` associate to the left. Each executable level
//! returns exactly what the spec-level grammar (`parse_expression_spec` and
//! friends) says for the same tokens, position and nesting depth.

use vstd::prelude::*;

use crate::lexer::Lexer;
use crate::lexer::RoxError;
use crate::lexer::Token;
use crate::lexer::TokenModel;
use crate::lexer::TokenType;
use crate::lexer::scan_spec;

verus! {

/// The bound on expression nesting depth. Nesting past this bound fails
/// with `RecursionLimitExceeded` instead of running the call stack out.
pub const MAX_NESTING_DEPTH: usize = 64;

/// An expression tree. Every node exclusively owns its children; the
/// grammar is acyclic, so the tree is too.
#[derive(Debug, PartialEq, Eq)]
pub enum Expr {
    Binary { left: Box<Expr>, op: TokenType, right: Box<Expr> },
    Unary { op: TokenType, right: Box<Expr> },
    Literal { value: String },
    Grouping { expr: Box<Expr> },
}

/// The mathematical value of an expression tree: the same shape, with each
/// literal carried as its character sequence.
pub ghost enum ExprModel {
    Binary { left: Box<ExprModel>, op: TokenType, right: Box<ExprModel> },
    Unary { op: TokenType, right: Box<ExprModel> },
    Literal { value: Seq<char> },
    Grouping { expr: Box<ExprModel> },
}

impl Expr {
    /// The mathematical value of this tree.
    pub open spec fn model(self) -> ExprModel
        decreases self,
    {
        match self {
            Expr::Binary { left, op, right } => ExprModel::Binary {
                left: Box::new((*left).model()),
                op,
                right: Box::new((*right).model()),
            },
            Expr::Unary { op, right } => ExprModel::Unary {
                op,
                right: Box::new((*right).model()),
            },
            Expr::Literal { value } => ExprModel::Literal { value: value@ },
            Expr::Grouping { expr } => ExprModel::Grouping { expr: Box::new((*expr).model()) },
        }
    }
}

/// The outcome of a spec-level parse: a tree and the position just past it,
/// or an error.
pub ghost enum ParseStep {
    Parsed { expr: ExprModel, next: int },
    Failed { err: RoxError },
}

/// expression := equality
pub open spec fn parse_expression_spec(toks: Seq<TokenModel>, pos: int, depth: int) -> ParseStep
    decreases toks.len() - pos, 7int,
{
    parse_equality_spec(toks, pos, depth)
}

/// equality := comparison ( ("!=" | "==") comparison )*
pub open spec fn parse_equality_spec(toks: Seq<TokenModel>, pos: int, depth: int) -> ParseStep
    decreases toks.len() - pos, 6int,
{
    match parse_comparison_spec(toks, pos, depth) {
        ParseStep::Parsed { expr, next } => {
            if pos < next <= toks.len() {
                parse_equality_rest_spec(toks, next, expr, depth)
            } else {
                // A parse never stands still, so this branch is never taken.
                ParseStep::Parsed { expr, next }
            }
        },
        f => f,
    }
}

pub open spec fn parse_equality_rest_spec(
    toks: Seq<TokenModel>,
    pos: int,
    left: ExprModel,
    depth: int,
) -> ParseStep
    decreases toks.len() - pos, 6int,
{
    if 0 <= pos < toks.len() && (toks[pos].token_type == TokenType::BangEqual
        || toks[pos].token_type == TokenType::EqualEqual) {
        match parse_comparison_spec(toks, pos + 1, depth) {
            ParseStep::Parsed { expr, next } => {
                let folded = ExprModel::Binary {
                    left: Box::new(left),
                    op: toks[pos].token_type,
                    right: Box::new(expr),
                };
                if pos < next <= toks.len() {
                    parse_equality_rest_spec(toks, next, folded, depth)
                } else {
                    ParseStep::Parsed { expr: folded, next }
                }
            },
            f => f,
        }
    } else {
        ParseStep::Parsed { expr: left, next: pos }
    }
}

/// comparison := term ( (">" | ">=" | "<" | "<=") term )*
pub open spec fn parse_comparison_spec(toks: Seq<TokenModel>, pos: int, depth: int) -> ParseStep
    decreases toks.len() - pos, 5int,
{
    match parse_term_spec(toks, pos, depth) {
        ParseStep::Parsed { expr, next } => {
            if pos < next <= toks.len() {
                parse_comparison_rest_spec(toks, next, expr, depth)
            } else {
                // A parse never stands still, so this branch is never taken.
                ParseStep::Parsed { expr, next }
            }
        },
        f => f,
    }
}

pub open spec fn parse_comparison_rest_spec(
    toks: Seq<TokenModel>,
    pos: int,
    left: ExprModel,
    depth: int,
) -> ParseStep
    decreases toks.len() - pos, 5int,
{
    if 0 <= pos < toks.len() && (toks[pos].token_type == TokenType::Greater
        || toks[pos].token_type == TokenType::GreaterEqual || toks[pos].token_type
        == TokenType::Less || toks[pos].token_type == TokenType::LessEqual) {
        match parse_term_spec(toks, pos + 1, depth) {
            ParseStep::Parsed { expr, next } => {
                let folded = ExprModel::Binary {
                    left: Box::new(left),
                    op: toks[pos].token_type,
                    right: Box::new(expr),
                };
                if pos < next <= toks.len() {
                    parse_comparison_rest_spec(toks, next, folded, depth)
                } else {
                    ParseStep::Parsed { expr: folded, next }
                }
            },
            f => f,
        }
    } else {
        ParseStep::Parsed { expr: left, next: pos }
    }
}

/// term := factor ( ("-" | "+") factor )*
pub open spec fn parse_term_spec(toks: Seq<TokenModel>, pos: int, depth: int) -> ParseStep
    decreases toks.len() - pos, 4int,
{
    match parse_factor_spec(toks, pos, depth) {
        ParseStep::Parsed { expr, next } => {
            if pos < next <= toks.len() {
                parse_term_rest_spec(toks, next, expr, depth)
            } else {
                // A parse never stands still, so this branch is never taken.
                ParseStep::Parsed { expr, next }
            }
        },
        f => f,
    }
}

pub open spec fn parse_term_rest_spec(
    toks: Seq<TokenModel>,
    pos: int,
    left: ExprModel,
    depth: int,
) -> ParseStep
    decreases toks.len() - pos, 4int,
{
    if 0 <= pos < toks.len() && (toks[pos].token_type == TokenType::Minus
        || toks[pos].token_type == TokenType::Plus) {
        match parse_factor_spec(toks, pos + 1, depth) {
            ParseStep::Parsed { expr, next } => {
                let folded = ExprModel::Binary {
                    left: Box::new(left),
                    op: toks[pos].token_type,
                    right: Box::new(expr),
                };
                if pos < next <= toks.len() {
                    parse_term_rest_spec(toks, next, folded, depth)
                } else {
                    ParseStep::Parsed { expr: folded, next }
                }
            },
            f => f,
        }
    } else {
        ParseStep::Parsed { expr: left, next: pos }
    }
}

/// factor := unary ( ("/" | "*") unary )*
pub open spec fn parse_factor_spec(toks: Seq<TokenModel>, pos: int, depth: int) -> ParseStep
    decreases toks.len() - pos, 3int,
{
    match parse_unary_spec(toks, pos, depth) {
        ParseStep::Parsed { expr, next } => {
            if pos < next <= toks.len() {
                parse_factor_rest_spec(toks, next, expr, depth)
            } else {
                // A parse never stands still, so this branch is never taken.
                ParseStep::Parsed { expr, next }
            }
        },
        f => f,
    }
}

pub open spec fn parse_factor_rest_spec(
    toks: Seq<TokenModel>,
    pos: int,
    left: ExprModel,
    depth: int,
) -> ParseStep
    decreases toks.len() - pos, 3int,
{
    if 0 <= pos < toks.len() && (toks[pos].token_type == TokenType::Slash
        || toks[pos].token_type == TokenType::Star) {
        match parse_unary_spec(toks, pos + 1, depth) {
            ParseStep::Parsed { expr, next } => {
                let folded = ExprModel::Binary {
                    left: Box::new(left),
                    op: toks[pos].token_type,
                    right: Box::new(expr),
                };
                if pos < next <= toks.len() {
                    parse_factor_rest_spec(toks, next, folded, depth)
                } else {
                    ParseStep::Parsed { expr: folded, next }
                }
            },
            f => f,
        }
    } else {
        ParseStep::Parsed { expr: left, next: pos }
    }
}

/// unary := ("!" | "-") unary | primary
pub open spec fn parse_unary_spec(toks: Seq<TokenModel>, pos: int, depth: int) -> ParseStep
    decreases toks.len() - pos, 2int,
{
    if !(0 <= pos < toks.len()) {
        ParseStep::Failed { err: RoxError::UnexpectedEndOfInput }
    } else if toks[pos].token_type == TokenType::Bang || toks[pos].token_type
        == TokenType::Minus {
        if depth >= MAX_NESTING_DEPTH as int {
            ParseStep::Failed { err: RoxError::RecursionLimitExceeded }
        } else {
            match parse_unary_spec(toks, pos + 1, depth + 1) {
                ParseStep::Parsed { expr, next } => ParseStep::Parsed {
                    expr: ExprModel::Unary { op: toks[pos].token_type, right: Box::new(expr) },
                    next,
                },
                f => f,
            }
        }
    } else {
        parse_primary_spec(toks, pos, depth)
    }
}

/// primary := "(" expression ")" | any other single token, as a literal
pub open spec fn parse_primary_spec(toks: Seq<TokenModel>, pos: int, depth: int) -> ParseStep
    decreases toks.len() - pos, 1int,
{
    if !(0 <= pos < toks.len()) {
        ParseStep::Failed { err: RoxError::UnexpectedEndOfInput }
    } else if toks[pos].token_type == TokenType::LeftParen {
        if depth >= MAX_NESTING_DEPTH as int {
            ParseStep::Failed { err: RoxError::RecursionLimitExceeded }
        } else {
            match parse_expression_spec(toks, pos + 1, depth + 1) {
                ParseStep::Parsed { expr, next } => {
                    if 0 <= next < toks.len() && toks[next].token_type == TokenType::RightParen {
                        ParseStep::Parsed {
                            expr: ExprModel::Grouping { expr: Box::new(expr) },
                            next: next + 1,
                        }
                    } else {
                        ParseStep::Failed {
                            err: RoxError::ExpectedToken {
                                expected: TokenType::RightParen,
                                found: if 0 <= next < toks.len() {
                                    Some(toks[next].token_type)
                                } else {
                                    None
                                },
                            },
                        }
                    }
                },
                f => f,
            }
        }
    } else {
        ParseStep::Parsed {
            expr: ExprModel::Literal { value: toks[pos].lexeme },
            next: pos + 1,
        }
    }
}

/// The token models of a token sequence.
pub open spec fn models_of(ts: Seq<Token>) -> Seq<TokenModel> {
    ts.map_values(|t: Token| t@)
}

proof fn lemma_models_push(ts: Seq<Token>, t: Token)
    ensures
        models_of(ts.push(t)) == models_of(ts) + seq![t@],
{
    assert(models_of(ts.push(t)) =~= models_of(ts) + seq![t@]);
}

/// What prefixing already-scanned tokens does to the outcome of the
/// remaining scan.
spec fn scan_prepend(ts: Seq<TokenModel>, r: Result<Seq<TokenModel>, nat>) -> Result<
    Seq<TokenModel>,
    nat,
> {
    match r {
        Ok(rest) => Ok(ts + rest),
        Err(l) => Err(l),
    }
}

/// The parser: the scanned token stream and a cursor with one token of
/// lookahead.
pub struct Parser {
    tokens: Vec<Token>,
    position: usize,
}

impl Parser {
    /// The models of the tokens the parser works on.
    pub closed spec fn toks(self) -> Seq<TokenModel> {
        models_of(self.tokens@)
    }

    /// The cursor: the index of the next token to look at.
    pub closed spec fn pos(self) -> int {
        self.position as int
    }

    /// Well-formedness: the cursor is within the token stream.
    pub open spec fn wf(self) -> bool {
        0 <= self.pos() <= self.toks().len()
    }

    /// Drains `lexer` and builds a parser over the scanned tokens, or
    /// reports the scan error.
    #[verifier::loop_isolation(false)]
    pub fn new(lexer: &mut Lexer) -> (r: Result<Parser, RoxError>)
        requires
            old(lexer).wf(),
        ensures
            final(lexer).wf(),
            final(lexer).src() == old(lexer).src(),
            ({
                let scanned = scan_spec(old(lexer).src(), old(lexer).pos(), old(lexer).line());
                match scanned {
                    Ok(models) => (r matches Ok(p) && p.wf() && p.toks() == models && p.pos()
                        == 0),
                    Err(line) => r == Err::<Parser, RoxError>(
                        RoxError::UnterminatedString { line: line as usize },
                    ),
                }
            }),
    {
        let mut tokens: Vec<Token> = Vec::new();
        let ghost s: Seq<char> = old(lexer).src();
        loop
            invariant
                lexer.wf(),
                lexer.src() == s,
                scan_prepend(
                    models_of(tokens@),
                    scan_spec(s, lexer.pos(), lexer.line()),
                ) == scan_spec(s, old(lexer).pos(), old(lexer).line()),
            decreases s.len() - lexer.pos(),
        {
            let ghost prev: Seq<Token> = tokens@;
            match lexer.next() {
                Ok(Some(t)) => {
                    proof {
                        lemma_models_push(prev, t);
                        let rest = scan_spec(s, lexer.pos(), lexer.line())->Ok_0;
                        assert(models_of(prev) + (seq![t@] + rest) =~= (models_of(prev) + seq![t@])
                            + rest);
                    }
                    tokens.push(t);
                },
                Ok(None) => {
                    proof {
                        assert(models_of(tokens@) + Seq::<TokenModel>::empty() =~= models_of(
                            tokens@,
                        ));
                    }
                    return Ok(Parser { tokens, position: 0 });
                },
                Err(e) => {
                    return Err(e);
                },
            }
        }
    }

    /// expression := equality. The public entry point, at nesting depth 0.
    pub fn parse_expression(&mut self) -> (r: Result<Expr, RoxError>)
        requires
            old(self).wf(),
        ensures
            final(self).wf(),
            final(self).toks() == old(self).toks(),
            old(self).pos() <= final(self).pos(),
            ({
                let step = parse_expression_spec(old(self).toks(), old(self).pos(), 0);
                match step {
                    ParseStep::Parsed { expr, next } => (r matches Ok(e) && e.model() == expr)
                        && final(self).pos() == next,
                    ParseStep::Failed { err } => r matches Err(e2) && e2 == err,
                }
            }),
    {
        self.expr(0)
    }

    /// expression := equality
    pub fn expr(&mut self, depth: usize) -> (r: Result<Expr, RoxError>)
        requires
            old(self).wf(),
        ensures
            final(self).wf(),
            final(self).toks() == old(self).toks(),
            old(self).pos() <= final(self).pos(),
            ({
                let step = parse_expression_spec(old(self).toks(), old(self).pos(), depth as int);
                match step {
                    ParseStep::Parsed { expr, next } => (r matches Ok(e) && e.model() == expr)
                        && final(self).pos() == next && old(self).pos() < next,
                    ParseStep::Failed { err } => r matches Err(e2) && e2 == err,
                }
            }),
        decreases self.toks().len() - self.pos(), 7int,
    {
        self.equality(depth)
    }

    /// equality := comparison ( ("!=" | "==") comparison )*
    #[verifier::loop_isolation(false)]
    pub fn equality(&mut self, depth: usize) -> (r: Result<Expr, RoxError>)
        requires
            old(self).wf(),
        ensures
            final(self).wf(),
            final(self).toks() == old(self).toks(),
            old(self).pos() <= final(self).pos(),
            ({
                let step = parse_equality_spec(old(self).toks(), old(self).pos(), depth as int);
                match step {
                    ParseStep::Parsed { expr, next } => (r matches Ok(e) && e.model() == expr)
                        && final(self).pos() == next && old(self).pos() < next,
                    ParseStep::Failed { err } => r matches Err(e2) && e2 == err,
                }
            }),
        decreases self.toks().len() - self.pos(), 6int,
    {
        let mut acc = match self.comparison(depth) {
            Ok(e) => e,
            Err(err) => {
                return Err(err);
            },
        };
        loop
            invariant
                self.wf(),
                self.toks() == old(self).toks(),
                old(self).pos() < self.pos() <= self.toks().len(),
                parse_equality_rest_spec(old(self).toks(), self.pos(), acc.model(), depth as int)
                    == parse_equality_spec(old(self).toks(), old(self).pos(), depth as int),
            decreases self.toks().len() - self.pos(),
        {
            if self.position >= self.tokens.len() {
                return Ok(acc);
            }
            let tt = self.tokens[self.position].token_type;
            if !(tt == TokenType::BangEqual || tt == TokenType::EqualEqual) {
                return Ok(acc);
            }
            self.position += 1;
            let right = match self.comparison(depth) {
                Ok(e) => e,
                Err(err) => {
                    return Err(err);
                },
            };
            acc = Expr::Binary { left: Box::new(acc), op: tt, right: Box::new(right) };
        }
    }

    /// comparison := term ( (">" | ">=" | "<" | "<=") term )*
    #[verifier::loop_isolation(false)]
    pub fn comparison(&mut self, depth: usize) -> (r: Result<Expr, RoxError>)
        requires
            old(self).wf(),
        ensures
            final(self).wf(),
            final(self).toks() == old(self).toks(),
            old(self).pos() <= final(self).pos(),
            ({
                let step = parse_comparison_spec(old(self).toks(), old(self).pos(), depth as int);
                match step {
                    ParseStep::Parsed { expr, next } => (r matches Ok(e) && e.model() == expr)
                        && final(self).pos() == next && old(self).pos() < next,
                    ParseStep::Failed { err } => r matches Err(e2) && e2 == err,
                }
            }),
        decreases self.toks().len() - self.pos(), 5int,
    {
        let mut acc = match self.term(depth) {
            Ok(e) => e,
            Err(err) => {
                return Err(err);
            },
        };
        loop
            invariant
                self.wf(),
                self.toks() == old(self).toks(),
                old(self).pos() < self.pos() <= self.toks().len(),
                parse_comparison_rest_spec(
                    old(self).toks(),
                    self.pos(),
                    acc.model(),
                    depth as int,
                ) == parse_comparison_spec(old(self).toks(), old(self).pos(), depth as int),
            decreases self.toks().len() - self.pos(),
        {
            if self.position >= self.tokens.len() {
                return Ok(acc);
            }
            let tt = self.tokens[self.position].token_type;
            if !(tt == TokenType::Greater || tt == TokenType::GreaterEqual || tt == TokenType::Less
                || tt == TokenType::LessEqual) {
                return Ok(acc);
            }
            self.position += 1;
            let right = match self.term(depth) {
                Ok(e) => e,
                Err(err) => {
                    return Err(err);
                },
            };
            acc = Expr::Binary { left: Box::new(acc), op: tt, right: Box::new(right) };
        }
    }

    /// term := factor ( ("-" | "+") factor )*
    #[verifier::loop_isolation(false)]
    pub fn term(&mut self, depth: usize) -> (r: Result<Expr, RoxError>)
        requires
            old(self).wf(),
        ensures
            final(self).wf(),
            final(self).toks() == old(self).toks(),
            old(self).pos() <= final(self).pos(),
            ({
                let step = parse_term_spec(old(self).toks(), old(self).pos(), depth as int);
                match step {
                    ParseStep::Parsed { expr, next } => (r matches Ok(e) && e.model() == expr)
                        && final(self).pos() == next && old(self).pos() < next,
                    ParseStep::Failed { err } => r matches Err(e2) && e2 == err,
                }
            }),
        decreases self.toks().len() - self.pos(), 4int,
    {
        let mut acc = match self.factor(depth) {
            Ok(e) => e,
            Err(err) => {
                return Err(err);
            },
        };
        loop
            invariant
                self.wf(),
                self.toks() == old(self).toks(),
                old(self).pos() < self.pos() <= self.toks().len(),
                parse_term_rest_spec(old(self).toks(), self.pos(), acc.model(), depth as int)
                    == parse_term_spec(old(self).toks(), old(self).pos(), depth as int),
            decreases self.toks().len() - self.pos(),
        {
            if self.position >= self.tokens.len() {
                return Ok(acc);
            }
            let tt = self.tokens[self.position].token_type;
            if !(tt == TokenType::Minus || tt == TokenType::Plus) {
                return Ok(acc);
            }
            self.position += 1;
            let right = match self.factor(depth) {
                Ok(e) => e,
                Err(err) => {
                    return Err(err);
                },
            };
            acc = Expr::Binary { left: Box::new(acc), op: tt, right: Box::new(right) };
        }
    }

    /// factor := unary ( ("/" | "*") unary )*
    #[verifier::loop_isolation(false)]
    pub fn factor(&mut self, depth: usize) -> (r: Result<Expr, RoxError>)
        requires
            old(self).wf(),
        ensures
            final(self).wf(),
            final(self).toks() == old(self).toks(),
            old(self).pos() <= final(self).pos(),
            ({
                let step = parse_factor_spec(old(self).toks(), old(self).pos(), depth as int);
                match step {
                    ParseStep::Parsed { expr, next } => (r matches Ok(e) && e.model() == expr)
                        && final(self).pos() == next && old(self).pos() < next,
                    ParseStep::Failed { err } => r matches Err(e2) && e2 == err,
                }
            }),
        decreases self.toks().len() - self.pos(), 3int,
    {
        let mut acc = match self.unary(depth) {
            Ok(e) => e,
            Err(err) => {
                return Err(err);
            },
        };
        loop
            invariant
                self.wf(),
                self.toks() == old(self).toks(),
                old(self).pos() < self.pos() <= self.toks().len(),
                parse_factor_rest_spec(old(self).toks(), self.pos(), acc.model(), depth as int)
                    == parse_factor_spec(old(self).toks(), old(self).pos(), depth as int),
            decreases self.toks().len() - self.pos(),
        {
            if self.position >= self.tokens.len() {
                return Ok(acc);
            }
            let tt = self.tokens[self.position].token_type;
            if !(tt == TokenType::Slash || tt == TokenType::Star) {
                return Ok(acc);
            }
            self.position += 1;
            let right = match self.unary(depth) {
                Ok(e) => e,
                Err(err) => {
                    return Err(err);
                },
            };
            acc = Expr::Binary { left: Box::new(acc), op: tt, right: Box::new(right) };
        }
    }

    /// unary := ("!" | "-") unary | primary. The operand token is consumed
    /// at exactly one place, so nothing is consumed twice.
    pub fn unary(&mut self, depth: usize) -> (r: Result<Expr, RoxError>)
        requires
            old(self).wf(),
        ensures
            final(self).wf(),
            final(self).toks() == old(self).toks(),
            old(self).pos() <= final(self).pos(),
            ({
                let step = parse_unary_spec(old(self).toks(), old(self).pos(), depth as int);
                match step {
                    ParseStep::Parsed { expr, next } => (r matches Ok(e) && e.model() == expr)
                        && final(self).pos() == next && old(self).pos() < next,
                    ParseStep::Failed { err } => r matches Err(e2) && e2 == err,
                }
            }),
        decreases self.toks().len() - self.pos(), 2int,
    {
        if self.position >= self.tokens.len() {
            return Err(RoxError::UnexpectedEndOfInput);
        }
        let tt = self.tokens[self.position].token_type;
        if tt == TokenType::Bang || tt == TokenType::Minus {
            if depth >= MAX_NESTING_DEPTH {
                return Err(RoxError::RecursionLimitExceeded);
            }
            self.position += 1;
            let right = match self.unary(depth + 1) {
                Ok(e) => e,
                Err(err) => {
                    return Err(err);
                },
            };
            Ok(Expr::Unary { op: tt, right: Box::new(right) })
        } else {
            self.primary(depth)
        }
    }

    /// primary := "(" expression ")" | any other single token, as a
    /// literal. A grouping requires the closing parenthesis and fails with
    /// `ExpectedToken` when something else, or the end of the input, is
    /// there instead.
    pub fn primary(&mut self, depth: usize) -> (r: Result<Expr, RoxError>)
        requires
            old(self).wf(),
        ensures
            final(self).wf(),
            final(self).toks() == old(self).toks(),
            old(self).pos() <= final(self).pos(),
            ({
                let step = parse_primary_spec(old(self).toks(), old(self).pos(), depth as int);
                match step {
                    ParseStep::Parsed { expr, next } => (r matches Ok(e) && e.model() == expr)
                        && final(self).pos() == next && old(self).pos() < next,
                    ParseStep::Failed { err } => r matches Err(e2) && e2 == err,
                }
            }),
        decreases self.toks().len() - self.pos(), 1int,
    {
        if self.position >= self.tokens.len() {
            return Err(RoxError::UnexpectedEndOfInput);
        }
        let tt = self.tokens[self.position].token_type;
        if tt == TokenType::LeftParen {
            if depth >= MAX_NESTING_DEPTH {
                return Err(RoxError::RecursionLimitExceeded);
            }
            self.position += 1;
            let inner = match self.expr(depth + 1) {
                Ok(e) => e,
                Err(err) => {
                    return Err(err);
                },
            };
            if self.position >= self.tokens.len() {
                return Err(
                    RoxError::ExpectedToken { expected: TokenType::RightParen, found: None },
                );
            }
            let ft = self.tokens[self.position].token_type;
            if ft == TokenType::RightParen {
                self.position += 1;
                Ok(Expr::Grouping { expr: Box::new(inner) })
            } else {
                Err(RoxError::ExpectedToken { expected: TokenType::RightParen, found: Some(ft) })
            }
        } else {
            let lexeme = self.tokens[self.position].lexeme.clone();
            self.position += 1;
            Ok(Expr::Literal { value: lexeme })
        }
    }
}

} // verus!
