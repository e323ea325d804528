//! Recursive-descent parsing of one expression from a token sequence.
//!
//! Grammar, from the loosest binding to the tightest; the binary levels are
//! left-associative:
//!
//! ```text
//! expression -> equality
//! equality   -> comparison ( ( "!=" | "==" ) comparison )*
//! comparison -> term ( ( ">" | ">=" | "<" | "<=" ) term )*
//! term       -> factor ( ( "-" | "+" ) factor )*
//! factor     -> unary ( ( "/" | "*" ) unary )*
//! unary      -> ( "!" | "-" ) unary | primary
//! primary    -> NUMBER | STRING | "true" | "false" | "nil" | "(" expression ")"
//! ```
use vstd::prelude::*;

use crate::expr::{BinaryOp, Expr, Literal, UnaryOp};
use crate::text::{decimal, decimal_chars, string_of};
use crate::token::{Token, TokenType};

verus! {

/// A syntax error, as human-readable text.
#[derive(Debug, PartialEq)]
pub struct ParserError(pub String);

// ---------------------------------------------------------------------------
// The grammar over token sequences
// ---------------------------------------------------------------------------

/// A token sequence the parser accepts: not empty, and ending with `Eof`.
pub open spec fn valid_tokens(ts: Seq<Token>) -> bool {
    ts.len() > 0 && ts.last().ty == TokenType::Eof
}

/// A position the parser can stand on: within the sequence, and not past
/// its first `Eof`.
pub open spec fn valid_pos(ts: Seq<Token>, p: int) -> bool {
    0 <= p < ts.len() && forall|i: int| 0 <= i < p ==> (#[trigger] ts[i]).ty != TokenType::Eof
}

/// The token at `p` has kind `ty` (an `Eof` token never matches).
pub open spec fn at_kind(ts: Seq<Token>, p: int, ty: TokenType) -> bool {
    0 <= p < ts.len() && ts[p].ty != TokenType::Eof && ts[p].ty == ty
}

/// Where a parse failed, and the description of what was expected there.
pub struct Fault {
    pub pos: int,
    pub expected: Seq<char>,
}

pub open spec fn expect_expression() -> Seq<char> {
    "Expect expression"@
}

pub open spec fn expect_closing_paren() -> Seq<char> {
    "expect ')' after expression"@
}

/// The infix operator a token kind stands for.
pub open spec fn binary_op_of(ty: TokenType) -> Option<BinaryOp> {
    match ty {
        TokenType::Plus => Some(BinaryOp::Plus),
        TokenType::Minus => Some(BinaryOp::Minus),
        TokenType::Star => Some(BinaryOp::Star),
        TokenType::Slash => Some(BinaryOp::Slash),
        TokenType::EqualEqual => Some(BinaryOp::EqualEqual),
        TokenType::BangEqual => Some(BinaryOp::BangEqual),
        TokenType::Greater => Some(BinaryOp::Greater),
        TokenType::GreaterEqual => Some(BinaryOp::GreaterEqual),
        TokenType::Less => Some(BinaryOp::Less),
        TokenType::LessEqual => Some(BinaryOp::LessEqual),
        _ => None,
    }
}

/// The prefix operator a token kind stands for.
pub open spec fn unary_op_of(ty: TokenType) -> Option<UnaryOp> {
    match ty {
        TokenType::Bang => Some(UnaryOp::Bang),
        TokenType::Minus => Some(UnaryOp::Minus),
        _ => None,
    }
}

/// The operators of each binary level: 0 is factor, 1 term, 2 comparison
/// and 3 equality.
pub open spec fn level_has(level: nat, ty: TokenType) -> bool {
    if level == 0 {
        ty == TokenType::Slash || ty == TokenType::Star
    } else if level == 1 {
        ty == TokenType::Minus || ty == TokenType::Plus
    } else if level == 2 {
        ty == TokenType::Greater || ty == TokenType::GreaterEqual || ty == TokenType::Less || ty
            == TokenType::LessEqual
    } else {
        ty == TokenType::BangEqual || ty == TokenType::EqualEqual
    }
}

/// `expression` at position `p`: the tree and the position after it, or the
/// fault that stopped it.
pub open spec fn expression_at(ts: Seq<Token>, p: int) -> Result<(Expr, int), Fault>
    decreases ts.len() - p, 10nat,
{
    binary_at(ts, p, 3)
}

/// One operand of binary level `level`: the next tighter level.
pub open spec fn operand_at(ts: Seq<Token>, p: int, level: nat) -> Result<(Expr, int), Fault>
    decreases ts.len() - p, 2 * level + 2,
{
    if level == 0 {
        unary_at(ts, p)
    } else {
        binary_at(ts, p, (level - 1) as nat)
    }
}

/// Binary level `level` at `p`: one operand, then the operators of the level
/// folded to the left. (A successful operand always ends after `p` and within
/// the sequence, by `lemma_operand_valid`; the test makes the termination of
/// the definition evident.)
pub open spec fn binary_at(ts: Seq<Token>, p: int, level: nat) -> Result<(Expr, int), Fault>
    decreases ts.len() - p, 2 * level + 3,
{
    match operand_at(ts, p, level) {
        Err(f) => Err(f),
        Ok((e, q)) => if p < q <= ts.len() {
            binary_rest(ts, e, q, level)
        } else {
            Ok((e, q))
        },
    }
}

/// The rest of binary level `level` at `q`, with `left` parsed before it.
pub open spec fn binary_rest(ts: Seq<Token>, left: Expr, q: int, level: nat) -> Result<
    (Expr, int),
    Fault,
>
    decreases ts.len() - q, 2 * level + 3,
{
    if 0 <= q < ts.len() && ts[q].ty != TokenType::Eof && level_has(level, ts[q].ty) {
        let op = binary_op_of(ts[q].ty)->0;
        match operand_at(ts, q + 1, level) {
            Err(f) => Err(f),
            Ok((right, r)) => {
                let e = Expr::Binary(Box::new(left), op, Box::new(right));
                if q < r <= ts.len() {
                    binary_rest(ts, e, r, level)
                } else {
                    Ok((e, r))
                }
            },
        }
    } else {
        Ok((left, q))
    }
}

/// `unary` at `p`.
pub open spec fn unary_at(ts: Seq<Token>, p: int) -> Result<(Expr, int), Fault>
    decreases ts.len() - p, 1nat,
{
    if 0 <= p < ts.len() && ts[p].ty != TokenType::Eof && unary_op_of(ts[p].ty) is Some {
        match unary_at(ts, p + 1) {
            Err(f) => Err(f),
            Ok((e, q)) => Ok((Expr::Unary(unary_op_of(ts[p].ty)->0, Box::new(e)), q)),
        }
    } else {
        primary_at(ts, p)
    }
}

/// The literal production a token kind matches.
pub open spec fn literal_of(ty: TokenType) -> Option<Literal> {
    match ty {
        TokenType::False => Some(Literal::False),
        TokenType::True => Some(Literal::True),
        TokenType::Nil => Some(Literal::Nil),
        TokenType::Number => Some(Literal::Number),
        TokenType::String => Some(Literal::String),
        _ => None,
    }
}

/// `primary` at `p`.
pub open spec fn primary_at(ts: Seq<Token>, p: int) -> Result<(Expr, int), Fault>
    decreases ts.len() - p, 0nat,
{
    if !(0 <= p < ts.len()) {
        Err(Fault { pos: p, expected: expect_expression() })
    } else if literal_of(ts[p].ty) is Some {
        Ok((Expr::Literal(literal_of(ts[p].ty)->0), p + 1))
    } else if ts[p].ty == TokenType::LParan {
        match expression_at(ts, p + 1) {
            Err(f) => Err(f),
            Ok((e, q)) => if at_kind(ts, q, TokenType::RParan) {
                Ok((Expr::Grouping(Box::new(e)), q + 1))
            } else {
                Err(Fault { pos: q, expected: expect_closing_paren() })
            },
        }
    } else {
        Err(Fault { pos: p, expected: expect_expression() })
    }
}

/// The text of the error for fault `f`: the line of the offending token and,
/// unless the input has ended there, its lexeme.
pub open spec fn fault_text(ts: Seq<Token>, f: Fault) -> Seq<char> {
    let t = ts[f.pos];
    if t.ty == TokenType::Eof {
        "token line "@ + decimal(t.line as nat) + " at end, error "@ + f.expected
    } else {
        "token line "@ + decimal(t.line as nat) + ", lexeme: "@ + t.lexeme@ + ", error "@
            + f.expected
    }
}

/// The kinds that begin a statement.
pub open spec fn starts_statement(ty: TokenType) -> bool {
    ||| ty == TokenType::Class
    ||| ty == TokenType::Fun
    ||| ty == TokenType::Var
    ||| ty == TokenType::For
    ||| ty == TokenType::If
    ||| ty == TokenType::While
    ||| ty == TokenType::Print
    ||| ty == TokenType::Return
}

/// From `p` on, the first position that ends the input, follows a `;`, or
/// begins a statement.
pub open spec fn sync_scan(ts: Seq<Token>, p: int) -> int
    decreases ts.len() - p,
{
    if !(0 < p < ts.len()) || ts[p].ty == TokenType::Eof {
        p
    } else if ts[p - 1].ty == TokenType::SemiColon || starts_statement(ts[p].ty) {
        p
    } else {
        sync_scan(ts, p + 1)
    }
}

/// Where recovery from a fault at `p` leaves the parser: at least one token
/// is discarded (unless the input has ended), then tokens up to a statement
/// boundary.
pub open spec fn synchronized(ts: Seq<Token>, p: int) -> int {
    if ts[p].ty == TokenType::Eof {
        sync_scan(ts, p)
    } else {
        sync_scan(ts, p + 1)
    }
}

/// What a parse from `p` gives: the tree, or the error text.
pub open spec fn parse_spec(ts: Seq<Token>, p: int) -> Result<Expr, Seq<char>> {
    match expression_at(ts, p) {
        Ok((e, q)) => Ok(e),
        Err(f) => Err(fault_text(ts, f)),
    }
}

// ---------------------------------------------------------------------------
// Every parse moves forward and stays on valid positions
// ---------------------------------------------------------------------------

/// What holds of a parse result from a valid position `p`.
pub open spec fn stays_valid(ts: Seq<Token>, p: int, r: Result<(Expr, int), Fault>) -> bool {
    match r {
        Ok((e, q)) => p < q && valid_pos(ts, q),
        Err(f) => p <= f.pos && valid_pos(ts, f.pos),
    }
}

/// A position past a token other than `Eof` is valid too.
proof fn lemma_step_valid(ts: Seq<Token>, p: int)
    requires
        valid_tokens(ts),
        valid_pos(ts, p),
        ts[p].ty != TokenType::Eof,
    ensures
        valid_pos(ts, p + 1),
{
    assert forall|i: int| 0 <= i < p + 1 implies (#[trigger] ts[i]).ty != TokenType::Eof by {
        if i < p {
            assert(ts[i].ty != TokenType::Eof);
        }
    }
}

/// An expression parsed from a valid position ends at a later valid position,
/// or fails at a valid position at or after it.
pub proof fn lemma_expression_valid(ts: Seq<Token>, p: int)
    requires
        valid_tokens(ts),
        valid_pos(ts, p),
    ensures
        stays_valid(ts, p, expression_at(ts, p)),
    decreases ts.len() - p, 10nat,
{
    lemma_binary_valid(ts, p, 3);
}

/// The same for an operand of a binary level.
pub proof fn lemma_operand_valid(ts: Seq<Token>, p: int, level: nat)
    requires
        valid_tokens(ts),
        valid_pos(ts, p),
    ensures
        stays_valid(ts, p, operand_at(ts, p, level)),
    decreases ts.len() - p, 2 * level + 2,
{
    if level == 0 {
        lemma_unary_valid(ts, p);
    } else {
        lemma_binary_valid(ts, p, (level - 1) as nat);
    }
}

/// The same for a binary level.
pub proof fn lemma_binary_valid(ts: Seq<Token>, p: int, level: nat)
    requires
        valid_tokens(ts),
        valid_pos(ts, p),
    ensures
        stays_valid(ts, p, binary_at(ts, p, level)),
    decreases ts.len() - p, 2 * level + 3,
{
    lemma_operand_valid(ts, p, level);
    if let Ok((e, q)) = operand_at(ts, p, level) {
        lemma_rest_valid(ts, e, q, level);
    }
}

/// The same for the rest of a binary level, which may also end where it starts.
pub proof fn lemma_rest_valid(ts: Seq<Token>, left: Expr, q: int, level: nat)
    requires
        valid_tokens(ts),
        valid_pos(ts, q),
    ensures
        match binary_rest(ts, left, q, level) {
            Ok((e, r)) => q <= r && valid_pos(ts, r),
            Err(f) => q <= f.pos && valid_pos(ts, f.pos),
        },
    decreases ts.len() - q, 2 * level + 3,
{
    if ts[q].ty != TokenType::Eof && level_has(level, ts[q].ty) {
        lemma_step_valid(ts, q);
        lemma_operand_valid(ts, q + 1, level);
        if let Ok((right, r)) = operand_at(ts, q + 1, level) {
            let op = binary_op_of(ts[q].ty)->0;
            lemma_rest_valid(ts, Expr::Binary(Box::new(left), op, Box::new(right)), r, level);
        }
    }
}

/// The same for `unary`.
pub proof fn lemma_unary_valid(ts: Seq<Token>, p: int)
    requires
        valid_tokens(ts),
        valid_pos(ts, p),
    ensures
        stays_valid(ts, p, unary_at(ts, p)),
    decreases ts.len() - p, 1nat,
{
    if ts[p].ty != TokenType::Eof && unary_op_of(ts[p].ty) is Some {
        lemma_step_valid(ts, p);
        lemma_unary_valid(ts, p + 1);
    } else {
        lemma_primary_valid(ts, p);
    }
}

/// The same for `primary`.
pub proof fn lemma_primary_valid(ts: Seq<Token>, p: int)
    requires
        valid_tokens(ts),
        valid_pos(ts, p),
    ensures
        stays_valid(ts, p, primary_at(ts, p)),
    decreases ts.len() - p, 0nat,
{
    if literal_of(ts[p].ty) is Some {
        lemma_step_valid(ts, p);
    } else if ts[p].ty == TokenType::LParan {
        lemma_step_valid(ts, p);
        lemma_expression_valid(ts, p + 1);
        if let Ok((e, q)) = expression_at(ts, p + 1) {
            if at_kind(ts, q, TokenType::RParan) {
                lemma_step_valid(ts, q);
            }
        }
    }
}

/// A failure at the start of an operand is the failure of every binary
/// level that begins there.
proof fn lemma_operand_failure(ts: Seq<Token>, p: int, level: nat)
    requires
        unary_at(ts, p) is Err,
    ensures
        binary_at(ts, p, level) == unary_at(ts, p),
    decreases level,
{
    if level > 0 {
        lemma_operand_failure(ts, p, (level - 1) as nat);
    }
}

/// A group whose `(` is followed by an expression but not by the `)` that
/// closes it makes the parse fail, at the token where `)` was expected.
pub proof fn lemma_unclosed_group(ts: Seq<Token>, p: int)
    requires
        valid_tokens(ts),
        valid_pos(ts, p),
        ts[p].ty == TokenType::LParan,
        expression_at(ts, p + 1) is Ok,
        !at_kind(ts, (expression_at(ts, p + 1)->Ok_0).1, TokenType::RParan),
    ensures
        expression_at(ts, p) == Err::<(Expr, int), Fault>(
            Fault { pos: (expression_at(ts, p + 1)->Ok_0).1, expected: expect_closing_paren() },
        ),
        parse_spec(ts, p) == Err::<Expr, Seq<char>>(
            fault_text(
                ts,
                Fault {
                    pos: (expression_at(ts, p + 1)->Ok_0).1,
                    expected: expect_closing_paren(),
                },
            ),
        ),
{
    lemma_operand_failure(ts, p, 3);
}

// ---------------------------------------------------------------------------
// The parser
// ---------------------------------------------------------------------------

/// A parser over a token sequence, with a cursor on the next token to read.
pub struct Parser {
    tokens: Vec<Token>,
    current: usize,
}

/// The operator that `token` stands for where the grammar routes it to a
/// binary level.
pub fn parse_binary_op(token: &Token) -> (r: Result<BinaryOp, ParserError>)
    ensures
        match binary_op_of(token.ty) {
            Some(op) => r == Ok::<BinaryOp, ParserError>(op),
            None => r matches Err(e) && e.0@ == "should be binaryOp"@,
        },
{
    let binary_op = match token.ty {
        TokenType::Plus => BinaryOp::Plus,
        TokenType::Minus => BinaryOp::Minus,
        TokenType::Star => BinaryOp::Star,
        TokenType::Slash => BinaryOp::Slash,
        TokenType::EqualEqual => BinaryOp::EqualEqual,
        TokenType::BangEqual => BinaryOp::BangEqual,
        TokenType::Greater => BinaryOp::Greater,
        TokenType::GreaterEqual => BinaryOp::GreaterEqual,
        TokenType::Less => BinaryOp::Less,
        TokenType::LessEqual => BinaryOp::LessEqual,
        _ => {
            return Err(ParserError(String::from_str("should be binaryOp")));
        },
    };
    Ok(binary_op)
}

/// The operator that `token` stands for where the grammar routes it to
/// `unary`.
pub fn parse_unary_op(token: &Token) -> (r: Result<UnaryOp, ParserError>)
    ensures
        match unary_op_of(token.ty) {
            Some(op) => r == Ok::<UnaryOp, ParserError>(op),
            None => r matches Err(e) && e.0@ == "should be unaryOp"@,
        },
{
    let unary_op = match token.ty {
        TokenType::Bang => UnaryOp::Bang,
        TokenType::Minus => UnaryOp::Minus,
        _ => {
            return Err(ParserError(String::from_str("should be unaryOp")));
        },
    };
    Ok(unary_op)
}

/// `r` and the cursor `cur` after a call are what the grammar result `g`
/// says.
pub open spec fn outcome(
    ts: Seq<Token>,
    g: Result<(Expr, int), Fault>,
    r: Result<Expr, ParserError>,
    cur: int,
) -> bool {
    match g {
        Ok((e, q)) => r == Ok::<Expr, ParserError>(e) && cur == q,
        Err(f) => r matches Err(pe) && pe.0@ == fault_text(ts, f) && cur == f.pos,
    }
}

impl Parser {
    /// The token sequence.
    pub closed spec fn tokens_view(&self) -> Seq<Token> {
        self.tokens@
    }

    /// The position of the next token to read.
    pub closed spec fn position(&self) -> int {
        self.current as int
    }

    /// The parser's invariant: the tokens end with `Eof`, and the cursor
    /// stands on a token, not past the first `Eof`.
    pub closed spec fn wf(&self) -> bool {
        valid_tokens(self.tokens@) && valid_pos(self.tokens@, self.current as int)
    }

    /// A parser at the start of `tokens`, which must end with `Eof`.
    pub fn new(tokens: Vec<Token>) -> (r: Parser)
        requires
            valid_tokens(tokens@),
        ensures
            r.wf(),
            r.tokens_view() == tokens@,
            r.position() == 0,
    {
        Parser { tokens, current: 0 }
    }

    /// Parses one expression from the cursor on. On success the cursor stands
    /// after it; on a syntax error the parser recovers to the next statement
    /// boundary and returns the error.
    pub fn parse(&mut self) -> (r: Result<Expr, ParserError>)
        requires
            old(self).wf(),
        ensures
            final(self).wf(),
            final(self).tokens_view() == old(self).tokens_view(),
            match expression_at(old(self).tokens_view(), old(self).position()) {
                Ok((e, q)) => r == Ok::<Expr, ParserError>(e) && final(self).position() == q,
                Err(f) => r matches Err(pe) && pe.0@ == fault_text(old(self).tokens_view(), f)
                    && final(self).position() == synchronized(old(self).tokens_view(), f.pos),
            },
    {
        match self.expression() {
            Ok(e) => Ok(e),
            Err(e) => {
                self.synchronize();
                Err(e)
            },
        }
    }

    fn expression(&mut self) -> (r: Result<Expr, ParserError>)
        requires
            old(self).wf(),
        ensures
            final(self).wf(),
            final(self).tokens@ == old(self).tokens@,
            outcome(
                old(self).tokens@,
                expression_at(old(self).tokens@, old(self).current as int),
                r,
                final(self).current as int,
            ),
        decreases old(self).tokens@.len() - old(self).current, 10nat,
    {
        self.equality()
    }

    fn equality(&mut self) -> (r: Result<Expr, ParserError>)
        requires
            old(self).wf(),
        ensures
            final(self).wf(),
            final(self).tokens@ == old(self).tokens@,
            outcome(
                old(self).tokens@,
                binary_at(old(self).tokens@, old(self).current as int, 3),
                r,
                final(self).current as int,
            ),
        decreases old(self).tokens@.len() - old(self).current, 9nat,
    {
        let ghost ts = self.tokens@;
        let ghost p = self.current as int;
        proof {
            lemma_operand_valid(ts, p, 3);
        }
        let mut expr = match self.comparison() {
            Ok(e) => e,
            Err(e) => {
                return Err(e);
            },
        };
        while self.matches(&[TokenType::BangEqual, TokenType::EqualEqual])
            invariant
                self.wf(),
                self.tokens@ == ts,
                old(self).tokens@ == ts,
                old(self).current == p,
                p < self.current,
                binary_rest(ts, expr, self.current as int, 3) == binary_at(ts, p, 3),
            decreases ts.len() - self.current,
        {
            let operator = self.previous();
            let binary_op = match parse_binary_op(operator) {
                Ok(op) => op,
                Err(e) => {
                    return Err(e);
                },
            };
            proof {
                lemma_operand_valid(ts, self.current as int, 3);
            }
            let right = match self.comparison() {
                Ok(e) => e,
                Err(e) => {
                    return Err(e);
                },
            };
            expr = Expr::Binary(Box::new(expr), binary_op, Box::new(right));
        }
        Ok(expr)
    }

    fn comparison(&mut self) -> (r: Result<Expr, ParserError>)
        requires
            old(self).wf(),
        ensures
            final(self).wf(),
            final(self).tokens@ == old(self).tokens@,
            outcome(
                old(self).tokens@,
                binary_at(old(self).tokens@, old(self).current as int, 2),
                r,
                final(self).current as int,
            ),
        decreases old(self).tokens@.len() - old(self).current, 7nat,
    {
        let ghost ts = self.tokens@;
        let ghost p = self.current as int;
        proof {
            lemma_operand_valid(ts, p, 2);
        }
        let mut expr = match self.term() {
            Ok(e) => e,
            Err(e) => {
                return Err(e);
            },
        };
        while self.matches(&[
                TokenType::Greater,
                TokenType::GreaterEqual,
                TokenType::Less,
                TokenType::LessEqual,
            ])
            invariant
                self.wf(),
                self.tokens@ == ts,
                old(self).tokens@ == ts,
                old(self).current == p,
                p < self.current,
                binary_rest(ts, expr, self.current as int, 2) == binary_at(ts, p, 2),
            decreases ts.len() - self.current,
        {
            let operator = self.previous();
            let binary_op = match parse_binary_op(operator) {
                Ok(op) => op,
                Err(e) => {
                    return Err(e);
                },
            };
            proof {
                lemma_operand_valid(ts, self.current as int, 2);
            }
            let right = match self.term() {
                Ok(e) => e,
                Err(e) => {
                    return Err(e);
                },
            };
            expr = Expr::Binary(Box::new(expr), binary_op, Box::new(right));
        }
        Ok(expr)
    }

    fn term(&mut self) -> (r: Result<Expr, ParserError>)
        requires
            old(self).wf(),
        ensures
            final(self).wf(),
            final(self).tokens@ == old(self).tokens@,
            outcome(
                old(self).tokens@,
                binary_at(old(self).tokens@, old(self).current as int, 1),
                r,
                final(self).current as int,
            ),
        decreases old(self).tokens@.len() - old(self).current, 5nat,
    {
        let ghost ts = self.tokens@;
        let ghost p = self.current as int;
        proof {
            lemma_operand_valid(ts, p, 1);
        }
        let mut expr = match self.factor() {
            Ok(e) => e,
            Err(e) => {
                return Err(e);
            },
        };
        while self.matches(&[TokenType::Minus, TokenType::Plus])
            invariant
                self.wf(),
                self.tokens@ == ts,
                old(self).tokens@ == ts,
                old(self).current == p,
                p < self.current,
                binary_rest(ts, expr, self.current as int, 1) == binary_at(ts, p, 1),
            decreases ts.len() - self.current,
        {
            let operator = self.previous();
            let binary_op = match parse_binary_op(operator) {
                Ok(op) => op,
                Err(e) => {
                    return Err(e);
                },
            };
            proof {
                lemma_operand_valid(ts, self.current as int, 1);
            }
            let right = match self.factor() {
                Ok(e) => e,
                Err(e) => {
                    return Err(e);
                },
            };
            expr = Expr::Binary(Box::new(expr), binary_op, Box::new(right));
        }
        Ok(expr)
    }

    fn factor(&mut self) -> (r: Result<Expr, ParserError>)
        requires
            old(self).wf(),
        ensures
            final(self).wf(),
            final(self).tokens@ == old(self).tokens@,
            outcome(
                old(self).tokens@,
                binary_at(old(self).tokens@, old(self).current as int, 0),
                r,
                final(self).current as int,
            ),
        decreases old(self).tokens@.len() - old(self).current, 3nat,
    {
        let ghost ts = self.tokens@;
        let ghost p = self.current as int;
        proof {
            lemma_operand_valid(ts, p, 0);
        }
        let mut expr = match self.unary() {
            Ok(e) => e,
            Err(e) => {
                return Err(e);
            },
        };
        while self.matches(&[TokenType::Slash, TokenType::Star])
            invariant
                self.wf(),
                self.tokens@ == ts,
                old(self).tokens@ == ts,
                old(self).current == p,
                p < self.current,
                binary_rest(ts, expr, self.current as int, 0) == binary_at(ts, p, 0),
            decreases ts.len() - self.current,
        {
            let operator = self.previous();
            let binary_op = match parse_binary_op(operator) {
                Ok(op) => op,
                Err(e) => {
                    return Err(e);
                },
            };
            proof {
                lemma_operand_valid(ts, self.current as int, 0);
            }
            let right = match self.unary() {
                Ok(e) => e,
                Err(e) => {
                    return Err(e);
                },
            };
            expr = Expr::Binary(Box::new(expr), binary_op, Box::new(right));
        }
        Ok(expr)
    }

    fn unary(&mut self) -> (r: Result<Expr, ParserError>)
        requires
            old(self).wf(),
        ensures
            final(self).wf(),
            final(self).tokens@ == old(self).tokens@,
            outcome(
                old(self).tokens@,
                unary_at(old(self).tokens@, old(self).current as int),
                r,
                final(self).current as int,
            ),
        decreases old(self).tokens@.len() - old(self).current, 1nat,
    {
        if self.matches(&[TokenType::Bang, TokenType::Minus]) {
            let operator = self.previous();
            let unary_op = match parse_unary_op(operator) {
                Ok(op) => op,
                Err(e) => {
                    return Err(e);
                },
            };
            let right = match self.unary() {
                Ok(e) => e,
                Err(e) => {
                    return Err(e);
                },
            };
            return Ok(Expr::Unary(unary_op, Box::new(right)));
        }
        self.primary()
    }

    fn primary(&mut self) -> (r: Result<Expr, ParserError>)
        requires
            old(self).wf(),
        ensures
            final(self).wf(),
            final(self).tokens@ == old(self).tokens@,
            outcome(
                old(self).tokens@,
                primary_at(old(self).tokens@, old(self).current as int),
                r,
                final(self).current as int,
            ),
        decreases old(self).tokens@.len() - old(self).current, 0nat,
    {
        if self.matches(&[TokenType::False]) {
            return Ok(Expr::Literal(Literal::False));
        }
        if self.matches(&[TokenType::True]) {
            return Ok(Expr::Literal(Literal::True));
        }
        if self.matches(&[TokenType::Nil]) {
            return Ok(Expr::Literal(Literal::Nil));
        }
        if self.matches(&[TokenType::Number]) {
            return Ok(Expr::Literal(Literal::Number));
        }
        if self.matches(&[TokenType::String]) {
            return Ok(Expr::Literal(Literal::String));
        }
        if self.matches(&[TokenType::LParan]) {
            let expr = match self.expression() {
                Ok(e) => e,
                Err(e) => {
                    return Err(e);
                },
            };
            match self.consume(TokenType::RParan, "expect ')' after expression") {
                Ok(()) => {},
                Err(e) => {
                    return Err(e);
                },
            }
            return Ok(Expr::Grouping(Box::new(expr)));
        }
        Err(self.error("Expect expression"))
    }

    /// The error for the token at the cursor, with the description `message`
    /// of what was expected there.
    fn error(&self, message: &str) -> (r: ParserError)
        requires
            self.wf(),
        ensures
            r.0@ == fault_text(
                self.tokens@,
                Fault { pos: self.current as int, expected: message@ },
            ),
    {
        let next_token = self.peek();
        let mut text = String::from_str("token line ");
        let line = string_of(decimal_chars(next_token.line).as_slice());
        text.append(line.as_str());
        match next_token.ty {
            TokenType::Eof => {
                text.append(" at end, error ");
            },
            _ => {
                text.append(", lexeme: ");
                let lexeme = string_of(next_token.lexeme.as_slice());
                text.append(lexeme.as_str());
                text.append(", error ");
            },
        }
        text.append(message);
        ParserError(text)
    }

    /// Reads the next token where its kind is one of `types`.
    fn matches(&mut self, types: &[TokenType]) -> (r: bool)
        requires
            old(self).wf(),
        ensures
            final(self).wf(),
            final(self).tokens@ == old(self).tokens@,
            r == exists|i: int|
                0 <= i < types@.len() && at_kind(
                    old(self).tokens@,
                    old(self).current as int,
                    #[trigger] types@[i],
                ),
            final(self).current == old(self).current + if r {
                1int
            } else {
                0int
            },
    {
        let mut k: usize = 0;
        while k < types.len()
            invariant
                self.wf(),
                self.tokens@ == old(self).tokens@,
                self.current == old(self).current,
                k <= types@.len(),
                forall|i: int|
                    0 <= i < k ==> !at_kind(self.tokens@, self.current as int, #[trigger] types@[i]),
            decreases types@.len() - k,
        {
            if self.check(&types[k]) {
                self.advance();
                return true;
            }
            k = k + 1;
        }
        false
    }

    fn check(&self, ty: &TokenType) -> (r: bool)
        requires
            self.wf(),
        ensures
            r == at_kind(self.tokens@, self.current as int, *ty),
    {
        if self.is_at_end() {
            return false;
        }
        self.peek().ty == *ty
    }

    /// Moves past the next token, unless the input has ended.
    fn advance(&mut self)
        requires
            old(self).wf(),
        ensures
            final(self).wf(),
            final(self).tokens@ == old(self).tokens@,
            final(self).current == if old(self).tokens@[old(self).current as int].ty
                == TokenType::Eof {
                old(self).current as int
            } else {
                old(self).current + 1
            },
    {
        if !self.is_at_end() {
            proof {
                lemma_step_valid(self.tokens@, self.current as int);
                assert(self.tokens@.len() == self.tokens.len());
            }
            self.current = self.current + 1;
        }
    }

    fn peek(&self) -> (r: &Token)
        requires
            self.wf(),
        ensures
            *r == self.tokens@[self.current as int],
    {
        &self.tokens[self.current]
    }

    fn previous(&self) -> (r: &Token)
        requires
            self.wf(),
            self.current >= 1,
        ensures
            *r == self.tokens@[self.current - 1],
    {
        &self.tokens[self.current - 1]
    }

    fn is_at_end(&self) -> (r: bool)
        requires
            self.wf(),
        ensures
            r == (self.tokens@[self.current as int].ty == TokenType::Eof),
    {
        self.peek().ty == TokenType::Eof
    }

    /// Reads the next token where it has kind `ty`; otherwise the error
    /// `message`.
    fn consume(&mut self, ty: TokenType, message: &str) -> (r: Result<(), ParserError>)
        requires
            old(self).wf(),
        ensures
            final(self).wf(),
            final(self).tokens@ == old(self).tokens@,
            if at_kind(old(self).tokens@, old(self).current as int, ty) {
                r is Ok && final(self).current == old(self).current + 1
            } else {
                r matches Err(e) && e.0@ == fault_text(
                    old(self).tokens@,
                    Fault { pos: old(self).current as int, expected: message@ },
                ) && final(self).current == old(self).current
            },
    {
        if self.check(&ty) {
            self.advance();
            return Ok(());
        }
        Err(self.error(message))
    }

    /// Discards tokens up to the next statement boundary: always the next
    /// token (unless the input has ended), then up to the token after a `;`
    /// or one that begins a statement.
    fn synchronize(&mut self)
        requires
            old(self).wf(),
        ensures
            final(self).wf(),
            final(self).tokens@ == old(self).tokens@,
            final(self).current == synchronized(old(self).tokens@, old(self).current as int),
    {
        let ghost ts = self.tokens@;
        self.advance();
        while !self.is_at_end()
            invariant
                self.wf(),
                self.tokens@ == ts,
                old(self).tokens@ == ts,
                self.current >= 1 || ts[self.current as int].ty == TokenType::Eof,
                sync_scan(ts, self.current as int) == synchronized(ts, old(self).current as int),
            decreases ts.len() - self.current,
        {
            if self.previous().ty == TokenType::SemiColon {
                return;
            }
            match self.peek().ty {
                TokenType::Class => return ,
                TokenType::Fun => return ,
                TokenType::Var => return ,
                TokenType::For => return ,
                TokenType::If => return ,
                TokenType::While => return ,
                TokenType::Print => return ,
                TokenType::Return => return ,
                _ => {
                    self.advance();
                },
            }
        }
    }
}

} // verus!
