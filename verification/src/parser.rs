//! The parser: recursive descent over a fixed precedence ladder, from a
//! token sequence to one expression tree.
//!
//! The mathematical model is a family of mutually recursive functions,
//! one per grammar rule, each mapping a position in the token sequence to
//! the parsed subtree's model and the position just past it, or to the
//! parse error. `Parser::parse` is proved to return exactly what the
//! model says.

use vstd::prelude::*;

use crate::error::{Error, ErrorV};
use crate::expr::{BinaryExpr, Expr, ExprV, GroupingExpr, LiteralExpr, UnaryExpr};
use crate::scanner::token_views;
use crate::token::{Literal, LiteralV, Token, TokenType, TokenV};

verus! {

/// The decimal spelling of `n`, most significant digit first.
pub open spec fn dec_digits(n: int) -> Seq<char>
    decreases n,
{
    if n < 10 {
        seq![digit_char(n)]
    } else {
        dec_digits(n / 10).push(digit_char(n % 10))
    }
}

/// The character for one decimal digit.
pub open spec fn digit_char(d: int) -> char {
    if d == 0 {
        '0'
    } else if d == 1 {
        '1'
    } else if d == 2 {
        '2'
    } else if d == 3 {
        '3'
    } else if d == 4 {
        '4'
    } else if d == 5 {
        '5'
    } else if d == 6 {
        '6'
    } else if d == 7 {
        '7'
    } else if d == 8 {
        '8'
    } else {
        '9'
    }
}

/// The diagnostic text for a token that failed to match: the token's
/// line, then ` at end` for the end-of-input marker or the offending
/// lexeme in backquotes, then the description.
pub open spec fn expect_msg(t: TokenV, what: Seq<char>) -> Seq<char> {
    if t.kind == TokenType::Eof {
        dec_digits(t.line as int) + " at end. "@ + what
    } else {
        dec_digits(t.line as int) + " at `"@ + t.lexeme + "`. "@ + what
    }
}

/// What the parser demands of the scanner's output: at least the
/// end-of-input marker, standing last, and a literal payload on every
/// token whose kind carries one.
pub open spec fn tokens_wf(toks: Seq<TokenV>) -> bool {
    &&& toks.len() >= 1
    &&& toks[toks.len() - 1].kind == TokenType::Eof
    &&& forall|i: int|
        0 <= i < toks.len() ==> ((#[trigger] toks[i].kind == TokenType::Number || toks[i].kind
            == TokenType::Str) ==> toks[i].literal is Some)
}

pub open spec fn is_equality_op(k: TokenType) -> bool {
    k == TokenType::BangEqual || k == TokenType::EqualEqual
}

pub open spec fn is_comparison_op(k: TokenType) -> bool {
    k == TokenType::Greater || k == TokenType::GreaterEqual || k == TokenType::Less || k
        == TokenType::LessEqual
}

pub open spec fn is_term_op(k: TokenType) -> bool {
    k == TokenType::Plus || k == TokenType::Minus
}

pub open spec fn is_factor_op(k: TokenType) -> bool {
    k == TokenType::Slash || k == TokenType::Star
}

pub open spec fn is_unary_op(k: TokenType) -> bool {
    k == TokenType::Bang || k == TokenType::Minus
}

/// The position a sub-parse resumed at, bounded into the token
/// sequence; the bound never bites, since every rule moves forward and
/// stays inside the sequence.
pub open spec fn step_pos(lo: int, p: int, n: int) -> int {
    if lo <= p <= n {
        p
    } else {
        lo
    }
}

/// `expression`: a comma-sequence of equality expressions; of each
/// comma-separated operand only the last one's tree is kept.
pub open spec fn parse_expression_spec(toks: Seq<TokenV>, pos: int) -> Result<(ExprV, int), ErrorV>
    decreases toks.len() - pos, 12int,
    when 0 <= pos
{
    match parse_equality_spec(toks, pos) {
        Ok((e, p)) => parse_comma_tail_spec(toks, step_pos(pos, p, toks.len() as int), e),
        Err(e) => Err(e),
    }
}

/// The comma loop: while a comma stands here, parse another equality
/// expression and keep only that one.
pub open spec fn parse_comma_tail_spec(toks: Seq<TokenV>, pos: int, e: ExprV) -> Result<
    (ExprV, int),
    ErrorV,
>
    decreases toks.len() - pos, 11int,
    when 0 <= pos
{
    if pos < toks.len() && toks[pos].kind == TokenType::Comma {
        match parse_equality_spec(toks, pos + 1) {
            Ok((e2, p2)) => parse_comma_tail_spec(toks, step_pos(pos + 1, p2, toks.len() as int), e2),
            Err(er) => Err(er),
        }
    } else {
        Ok((e, pos))
    }
}

/// `equality`: a comparison, then a left-leaning fold of `!=` / `==`.
pub open spec fn parse_equality_spec(toks: Seq<TokenV>, pos: int) -> Result<(ExprV, int), ErrorV>
    decreases toks.len() - pos, 10int,
    when 0 <= pos
{
    match parse_comparison_spec(toks, pos) {
        Ok((e, p)) => parse_eq_tail_spec(toks, step_pos(pos, p, toks.len() as int), e),
        Err(e) => Err(e),
    }
}

pub open spec fn parse_eq_tail_spec(toks: Seq<TokenV>, pos: int, e: ExprV) -> Result<
    (ExprV, int),
    ErrorV,
>
    decreases toks.len() - pos, 9int,
    when 0 <= pos
{
    if pos < toks.len() && is_equality_op(toks[pos].kind) {
        match parse_comparison_spec(toks, pos + 1) {
            Ok((r, p2)) => parse_eq_tail_spec(
                toks,
                step_pos(pos + 1, p2, toks.len() as int),
                ExprV::Binary(Box::new(e), toks[pos], Box::new(r)),
            ),
            Err(er) => Err(er),
        }
    } else {
        Ok((e, pos))
    }
}

/// `comparison`: a term, then a left-leaning fold of `>` `>=` `<` `<=`.
pub open spec fn parse_comparison_spec(toks: Seq<TokenV>, pos: int) -> Result<(ExprV, int), ErrorV>
    decreases toks.len() - pos, 8int,
    when 0 <= pos
{
    match parse_term_spec(toks, pos) {
        Ok((e, p)) => parse_cmp_tail_spec(toks, step_pos(pos, p, toks.len() as int), e),
        Err(e) => Err(e),
    }
}

pub open spec fn parse_cmp_tail_spec(toks: Seq<TokenV>, pos: int, e: ExprV) -> Result<
    (ExprV, int),
    ErrorV,
>
    decreases toks.len() - pos, 7int,
    when 0 <= pos
{
    if pos < toks.len() && is_comparison_op(toks[pos].kind) {
        match parse_term_spec(toks, pos + 1) {
            Ok((r, p2)) => parse_cmp_tail_spec(
                toks,
                step_pos(pos + 1, p2, toks.len() as int),
                ExprV::Binary(Box::new(e), toks[pos], Box::new(r)),
            ),
            Err(er) => Err(er),
        }
    } else {
        Ok((e, pos))
    }
}

/// `term`: a factor, then a left-leaning fold of `+` / `-`.
pub open spec fn parse_term_spec(toks: Seq<TokenV>, pos: int) -> Result<(ExprV, int), ErrorV>
    decreases toks.len() - pos, 6int,
    when 0 <= pos
{
    match parse_factor_spec(toks, pos) {
        Ok((e, p)) => parse_term_tail_spec(toks, step_pos(pos, p, toks.len() as int), e),
        Err(e) => Err(e),
    }
}

pub open spec fn parse_term_tail_spec(toks: Seq<TokenV>, pos: int, e: ExprV) -> Result<
    (ExprV, int),
    ErrorV,
>
    decreases toks.len() - pos, 5int,
    when 0 <= pos
{
    if pos < toks.len() && is_term_op(toks[pos].kind) {
        match parse_factor_spec(toks, pos + 1) {
            Ok((r, p2)) => parse_term_tail_spec(
                toks,
                step_pos(pos + 1, p2, toks.len() as int),
                ExprV::Binary(Box::new(e), toks[pos], Box::new(r)),
            ),
            Err(er) => Err(er),
        }
    } else {
        Ok((e, pos))
    }
}

/// `factor`: a unary, then a left-leaning fold of `/` / `*`.
pub open spec fn parse_factor_spec(toks: Seq<TokenV>, pos: int) -> Result<(ExprV, int), ErrorV>
    decreases toks.len() - pos, 4int,
    when 0 <= pos
{
    match parse_unary_spec(toks, pos) {
        Ok((e, p)) => parse_factor_tail_spec(toks, step_pos(pos, p, toks.len() as int), e),
        Err(e) => Err(e),
    }
}

pub open spec fn parse_factor_tail_spec(toks: Seq<TokenV>, pos: int, e: ExprV) -> Result<
    (ExprV, int),
    ErrorV,
>
    decreases toks.len() - pos, 3int,
    when 0 <= pos
{
    if pos < toks.len() && is_factor_op(toks[pos].kind) {
        match parse_unary_spec(toks, pos + 1) {
            Ok((r, p2)) => parse_factor_tail_spec(
                toks,
                step_pos(pos + 1, p2, toks.len() as int),
                ExprV::Binary(Box::new(e), toks[pos], Box::new(r)),
            ),
            Err(er) => Err(er),
        }
    } else {
        Ok((e, pos))
    }
}

/// `unary`: `!` or `-` applied to another unary, or a primary.
pub open spec fn parse_unary_spec(toks: Seq<TokenV>, pos: int) -> Result<(ExprV, int), ErrorV>
    decreases toks.len() - pos, 2int,
    when 0 <= pos
{
    if pos < toks.len() && is_unary_op(toks[pos].kind) {
        match parse_unary_spec(toks, pos + 1) {
            Ok((r, p)) => Ok((ExprV::Unary(toks[pos], Box::new(r)), p)),
            Err(e) => Err(e),
        }
    } else {
        parse_primary_spec(toks, pos)
    }
}

/// `primary`: the literal keywords `false` / `true` / `nil` map to their
/// dedicated literal values; a `Number` or `Str` token carries its
/// payload into a leaf; `(` begins a grouping that must close with `)`;
/// anything else is a parse error expecting an expression.
pub open spec fn parse_primary_spec(toks: Seq<TokenV>, pos: int) -> Result<(ExprV, int), ErrorV>
    decreases toks.len() - pos, 1int,
    when 0 <= pos
{
    if !(0 <= pos < toks.len()) {
        Err(ErrorV::ParseError(Seq::empty()))
    } else {
        let t = toks[pos];
        if t.kind == TokenType::False {
            Ok((ExprV::Literal(Some(LiteralV::Identifier("False"@))), pos + 1))
        } else if t.kind == TokenType::True {
            Ok((ExprV::Literal(Some(LiteralV::Identifier("True"@))), pos + 1))
        } else if t.kind == TokenType::Nil {
            Ok((ExprV::Literal(Some(LiteralV::Identifier("null"@))), pos + 1))
        } else if t.kind == TokenType::Number || t.kind == TokenType::Str {
            Ok((ExprV::Literal(Some(t.literal->0)), pos + 1))
        } else if t.kind == TokenType::LeftParen {
            match parse_expression_spec(toks, pos + 1) {
                Ok((e, p)) => {
                    if 0 <= p < toks.len() && toks[p].kind == TokenType::RightParen {
                        Ok((ExprV::Grouping(Box::new(e)), p + 1))
                    } else {
                        Err(
                            ErrorV::ParseError(
                                expect_msg(toks[p], "Expect `)` after expression."@),
                            ),
                        )
                    }
                },
                Err(e) => Err(e),
            }
        } else {
            Err(ErrorV::ParseError(expect_msg(t, "Expect expression."@)))
        }
    }
}

/// What parsing a whole token sequence yields: the one expression the
/// grammar derives from the front of the sequence, trailing tokens
/// ignored, or the first parse error.
pub open spec fn parse_spec(toks: Seq<TokenV>) -> Result<ExprV, ErrorV> {
    match parse_expression_spec(toks, 0) {
        Ok((e, _)) => Ok(e),
        Err(e) => Err(e),
    }
}

/// The statement kinds at which error recovery restarts.
pub open spec fn is_sync_kind(k: TokenType) -> bool {
    k == TokenType::Class || k == TokenType::Fun || k == TokenType::Var || k == TokenType::For || k
        == TokenType::If || k == TokenType::While || k == TokenType::Print || k
        == TokenType::Return
}

/// Where discarding tokens stops once recovery is under way: at the
/// end-of-input marker, just past a `;`, or at a statement-starting
/// keyword.
pub open spec fn sync_from(toks: Seq<TokenV>, pos: int) -> int
    decreases toks.len() - pos,
    when 0 <= pos
{
    if !(0 <= pos < toks.len()) || toks[pos].kind == TokenType::Eof {
        pos
    } else if 0 <= pos - 1 < toks.len() && toks[pos - 1].kind == TokenType::Semicolon {
        pos
    } else if is_sync_kind(toks[pos].kind) {
        pos
    } else {
        sync_from(toks, pos + 1)
    }
}

/// Where `synchronize` leaves the cursor: one token is always discarded,
/// then tokens are discarded up to a statement boundary.
pub open spec fn sync_spec(toks: Seq<TokenV>, pos: int) -> int {
    if 0 <= pos < toks.len() && toks[pos].kind != TokenType::Eof {
        sync_from(toks, pos + 1)
    } else {
        pos
    }
}

/// The string for one decimal digit.
fn digit_to_str(d: usize) -> (r: &'static str)
    requires
        d < 10,
    ensures
        r@ == seq![digit_char(d as int)],
{
    proof {
        reveal_strlit("0");
        reveal_strlit("1");
        reveal_strlit("2");
        reveal_strlit("3");
        reveal_strlit("4");
        reveal_strlit("5");
        reveal_strlit("6");
        reveal_strlit("7");
        reveal_strlit("8");
        reveal_strlit("9");
    }
    let r = if d == 0 {
        "0"
    } else if d == 1 {
        "1"
    } else if d == 2 {
        "2"
    } else if d == 3 {
        "3"
    } else if d == 4 {
        "4"
    } else if d == 5 {
        "5"
    } else if d == 6 {
        "6"
    } else if d == 7 {
        "7"
    } else if d == 8 {
        "8"
    } else {
        "9"
    };
    proof {
        assert(r@ =~= seq![digit_char(d as int)]);
    }
    r
}

/// The decimal spelling of `n`.
fn usize_to_string(n: usize) -> (r: String)
    ensures
        r@ == dec_digits(n as int),
    decreases n,
{
    if n < 10 {
        digit_to_str(n).to_owned()
    } else {
        let mut s = usize_to_string(n / 10);
        s.append(digit_to_str(n % 10));
        proof {
            assert(dec_digits((n / 10) as int).push(digit_char((n % 10) as int)) =~= dec_digits(
                (n / 10) as int,
            ) + seq![digit_char((n % 10) as int)]);
        }
        s
    }
}

/// Builds the diagnostic text for a token that failed to match.
fn expect_message(t: &Token, what: &str) -> (r: String)
    ensures
        r@ == expect_msg(t@, what@),
{
    let mut s = usize_to_string(t.line);
    if t.token_type == TokenType::Eof {
        s.append(" at end. ");
        s.append(what);
    } else {
        s.append(" at `");
        s.append(t.lexeme.as_str());
        s.append("`. ");
        s.append(what);
    }
    s
}

/// The parser. It owns the token sequence it was handed and one cursor
/// into it; the cursor never passes the end-of-input marker.
pub struct Parser {
    pub tokens: Vec<Token>,
    pub current: usize,
}

impl Parser {
    /// The token sequence is acceptable and the cursor stands on a token.
    pub open spec fn wf(&self) -> bool {
        &&& tokens_wf(token_views(self.tokens@))
        &&& (self.current as int) < self.tokens@.len()
    }

    pub fn new(tokens: Vec<Token>) -> (r: Parser)
        requires
            tokens_wf(token_views(tokens@)),
        ensures
            r.wf(),
            r.tokens == tokens,
            r.current == 0usize,
    {
        Self { tokens, current: 0 }
    }

    /// The token under the cursor.
    fn peek(&self) -> (r: Token)
        requires
            self.wf(),
        ensures
            r == self.tokens@[self.current as int],
    {
        self.tokens[self.current].clone()
    }

    /// The token just consumed.
    fn previous(&self) -> (r: Token)
        requires
            self.wf(),
            1 <= self.current,
        ensures
            r == self.tokens@[self.current as int - 1],
    {
        self.tokens[self.current - 1].clone()
    }

    /// The kind of the token under the cursor.
    fn peek_kind(&self) -> (k: TokenType)
        requires
            self.wf(),
        ensures
            k == token_views(self.tokens@)[self.current as int].kind,
    {
        self.peek().token_type
    }

    /// Whether the cursor has reached the end-of-input marker.
    fn is_at_end(&self) -> (r: bool)
        requires
            self.wf(),
        ensures
            r == (token_views(self.tokens@)[self.current as int].kind == TokenType::Eof),
    {
        self.peek_kind() == TokenType::Eof
    }

    /// Whether the current token has the given kind; always false at the
    /// end-of-input marker.
    fn check(&self, ttype: &TokenType) -> (r: bool)
        requires
            self.wf(),
        ensures
            r == ({
                let k = token_views(self.tokens@)[self.current as int].kind;
                k != TokenType::Eof && k == *ttype
            }),
    {
        if self.is_at_end() {
            return false;
        }
        self.peek_kind() == *ttype
    }

    /// Consumes the current token, which must not be the end-of-input
    /// marker, and returns it.
    fn advance(&mut self) -> (r: Token)
        requires
            old(self).wf(),
            token_views(old(self).tokens@)[old(self).current as int].kind != TokenType::Eof,
        ensures
            final(self).wf(),
            final(self).tokens == old(self).tokens,
            final(self).current as int == old(self).current as int + 1,
            r == old(self).tokens@[old(self).current as int],
    {
        let r = self.peek();
        let n = self.tokens.len();
        proof {
            assert((self.current as int) < n as int);
        }
        self.current = self.current + 1;
        r
    }

    /// Consumes the current token if it has the given kind.
    fn match_type(&mut self, ttype: TokenType) -> (r: bool)
        requires
            old(self).wf(),
        ensures
            final(self).wf(),
            final(self).tokens == old(self).tokens,
            r == ({
                let k = token_views(old(self).tokens@)[old(self).current as int].kind;
                k != TokenType::Eof && k == ttype
            }),
            final(self).current as int == old(self).current as int + (if r {
                1int
            } else {
                0int
            }),
    {
        if self.check(&ttype) {
            self.advance();
            true
        } else {
            false
        }
    }

    /// Demands a token of the given kind: consumes and returns it, or
    /// reports the diagnostic built from the current token and fails.
    fn consume(&mut self, ttype: TokenType, err_msg: &str) -> (r: Result<Token, Error>)
        requires
            old(self).wf(),
        ensures
            final(self).wf(),
            final(self).tokens == old(self).tokens,
            ({
                let tv = token_views(old(self).tokens@);
                let cur = old(self).current as int;
                if tv[cur].kind != TokenType::Eof && tv[cur].kind == ttype {
                    &&& r matches Ok(t) && t == old(self).tokens@[cur]
                    &&& final(self).current as int == cur + 1
                } else {
                    &&& r matches Err(e) && e@ == ErrorV::ParseError(
                        expect_msg(tv[cur], err_msg@),
                    )
                    &&& final(self).current == old(self).current
                }
            }),
    {
        if self.check(&ttype) {
            return Ok(self.advance());
        }
        let token = self.peek();
        let msg = expect_message(&token, err_msg);
        Err(Error::ParseError(msg))
    }
}

impl Parser {
    /// `expression`: a comma-sequence of equality expressions, keeping
    /// only the last operand's tree. Returns exactly what the model
    /// `parse_expression_spec` says at the old cursor.
    fn expression(&mut self) -> (r: Result<Expr, Error>)
        requires
            old(self).wf(),
        ensures
            final(self).wf(),
            final(self).tokens == old(self).tokens,
            match r {
                Ok(e) => parse_expression_spec(
                    token_views(old(self).tokens@),
                    old(self).current as int,
                ) == Ok::<(ExprV, int), ErrorV>((e@, final(self).current as int)) && old(
                    self,
                ).current < final(self).current,
                Err(er) => parse_expression_spec(
                    token_views(old(self).tokens@),
                    old(self).current as int,
                ) == Err::<(ExprV, int), ErrorV>(er@),
            },
        decreases self.tokens@.len() - self.current, 12int,
    {
        let ghost tv = token_views(old(self).tokens@);
        let ghost pos0 = old(self).current as int;
        let mut expr = match self.equality() {
            Ok(e) => e,
            Err(er) => {
                return Err(er);
            },
        };
        while self.at_comma()
            invariant
                self.wf(),
                self.tokens == old(self).tokens,
                tv == token_views(self.tokens@),
                pos0 == old(self).current as int,
                pos0 < self.current as int,
                parse_expression_spec(tv, pos0) == parse_comma_tail_spec(
                    tv,
                    self.current as int,
                    expr@,
                ),
            decreases tv.len() - self.current as int,
        {
            self.advance();
            expr = match self.equality() {
                Ok(e) => e,
                Err(er) => {
                    return Err(er);
                },
            };
        }
        Ok(expr)
    }

    /// Whether the current token is a comma.
    fn at_comma(&self) -> (r: bool)
        requires
            self.wf(),
        ensures
            r == (token_views(self.tokens@)[self.current as int].kind == TokenType::Comma),
    {
        self.peek_kind() == TokenType::Comma
    }

    /// `equality`: a comparison, then a left-leaning fold of `!=` / `==`.
    fn equality(&mut self) -> (r: Result<Expr, Error>)
        requires
            old(self).wf(),
        ensures
            final(self).wf(),
            final(self).tokens == old(self).tokens,
            match r {
                Ok(e) => parse_equality_spec(
                    token_views(old(self).tokens@),
                    old(self).current as int,
                ) == Ok::<(ExprV, int), ErrorV>((e@, final(self).current as int)) && old(
                    self,
                ).current < final(self).current,
                Err(er) => parse_equality_spec(
                    token_views(old(self).tokens@),
                    old(self).current as int,
                ) == Err::<(ExprV, int), ErrorV>(er@),
            },
        decreases self.tokens@.len() - self.current, 10int,
    {
        let ghost tv = token_views(old(self).tokens@);
        let ghost pos0 = old(self).current as int;
        let mut expr = match self.comparison() {
            Ok(e) => e,
            Err(er) => {
                return Err(er);
            },
        };
        while self.at_equality_op()
            invariant
                self.wf(),
                self.tokens == old(self).tokens,
                tv == token_views(self.tokens@),
                pos0 == old(self).current as int,
                pos0 < self.current as int,
                parse_equality_spec(tv, pos0) == parse_eq_tail_spec(
                    tv,
                    self.current as int,
                    expr@,
                ),
            decreases tv.len() - self.current as int,
        {
            let operator = self.advance();
            match self.comparison() {
                Ok(right) => {
                    expr = Expr::Binary(BinaryExpr::new(expr, operator, right));
                },
                Err(er) => {
                    return Err(er);
                },
            }
        }
        Ok(expr)
    }

    /// Whether the current token is `!=` or `==`.
    fn at_equality_op(&self) -> (r: bool)
        requires
            self.wf(),
        ensures
            r == is_equality_op(token_views(self.tokens@)[self.current as int].kind),
    {
        let k = self.peek_kind();
        k == TokenType::BangEqual || k == TokenType::EqualEqual
    }

    /// `comparison`: a term, then a left-leaning fold of `>` `>=` `<` `<=`.
    fn comparison(&mut self) -> (r: Result<Expr, Error>)
        requires
            old(self).wf(),
        ensures
            final(self).wf(),
            final(self).tokens == old(self).tokens,
            match r {
                Ok(e) => parse_comparison_spec(
                    token_views(old(self).tokens@),
                    old(self).current as int,
                ) == Ok::<(ExprV, int), ErrorV>((e@, final(self).current as int)) && old(
                    self,
                ).current < final(self).current,
                Err(er) => parse_comparison_spec(
                    token_views(old(self).tokens@),
                    old(self).current as int,
                ) == Err::<(ExprV, int), ErrorV>(er@),
            },
        decreases self.tokens@.len() - self.current, 8int,
    {
        let ghost tv = token_views(old(self).tokens@);
        let ghost pos0 = old(self).current as int;
        let mut expr = match self.term() {
            Ok(e) => e,
            Err(er) => {
                return Err(er);
            },
        };
        while self.at_comparison_op()
            invariant
                self.wf(),
                self.tokens == old(self).tokens,
                tv == token_views(self.tokens@),
                pos0 == old(self).current as int,
                pos0 < self.current as int,
                parse_comparison_spec(tv, pos0) == parse_cmp_tail_spec(
                    tv,
                    self.current as int,
                    expr@,
                ),
            decreases tv.len() - self.current as int,
        {
            let operator = self.advance();
            match self.term() {
                Ok(right) => {
                    expr = Expr::Binary(BinaryExpr::new(expr, operator, right));
                },
                Err(er) => {
                    return Err(er);
                },
            }
        }
        Ok(expr)
    }

    /// Whether the current token is `>`, `>=`, `<` or `<=`.
    fn at_comparison_op(&self) -> (r: bool)
        requires
            self.wf(),
        ensures
            r == is_comparison_op(token_views(self.tokens@)[self.current as int].kind),
    {
        let k = self.peek_kind();
        k == TokenType::Greater || k == TokenType::GreaterEqual || k == TokenType::Less || k
            == TokenType::LessEqual
    }

    /// `term`: a factor, then a left-leaning fold of `+` / `-`.
    fn term(&mut self) -> (r: Result<Expr, Error>)
        requires
            old(self).wf(),
        ensures
            final(self).wf(),
            final(self).tokens == old(self).tokens,
            match r {
                Ok(e) => parse_term_spec(token_views(old(self).tokens@), old(self).current as int)
                    == Ok::<(ExprV, int), ErrorV>((e@, final(self).current as int)) && old(
                    self,
                ).current < final(self).current,
                Err(er) => parse_term_spec(
                    token_views(old(self).tokens@),
                    old(self).current as int,
                ) == Err::<(ExprV, int), ErrorV>(er@),
            },
        decreases self.tokens@.len() - self.current, 6int,
    {
        let ghost tv = token_views(old(self).tokens@);
        let ghost pos0 = old(self).current as int;
        let mut expr = match self.factor() {
            Ok(e) => e,
            Err(er) => {
                return Err(er);
            },
        };
        while self.at_term_op()
            invariant
                self.wf(),
                self.tokens == old(self).tokens,
                tv == token_views(self.tokens@),
                pos0 == old(self).current as int,
                pos0 < self.current as int,
                parse_term_spec(tv, pos0) == parse_term_tail_spec(tv, self.current as int, expr@),
            decreases tv.len() - self.current as int,
        {
            let operator = self.advance();
            match self.factor() {
                Ok(right) => {
                    expr = Expr::Binary(BinaryExpr::new(expr, operator, right));
                },
                Err(er) => {
                    return Err(er);
                },
            }
        }
        Ok(expr)
    }

    /// Whether the current token is `+` or `-`.
    fn at_term_op(&self) -> (r: bool)
        requires
            self.wf(),
        ensures
            r == is_term_op(token_views(self.tokens@)[self.current as int].kind),
    {
        let k = self.peek_kind();
        k == TokenType::Plus || k == TokenType::Minus
    }

    /// `factor`: a unary, then a left-leaning fold of `/` / `*`.
    fn factor(&mut self) -> (r: Result<Expr, Error>)
        requires
            old(self).wf(),
        ensures
            final(self).wf(),
            final(self).tokens == old(self).tokens,
            match r {
                Ok(e) => parse_factor_spec(
                    token_views(old(self).tokens@),
                    old(self).current as int,
                ) == Ok::<(ExprV, int), ErrorV>((e@, final(self).current as int)) && old(
                    self,
                ).current < final(self).current,
                Err(er) => parse_factor_spec(
                    token_views(old(self).tokens@),
                    old(self).current as int,
                ) == Err::<(ExprV, int), ErrorV>(er@),
            },
        decreases self.tokens@.len() - self.current, 4int,
    {
        let ghost tv = token_views(old(self).tokens@);
        let ghost pos0 = old(self).current as int;
        let mut expr = match self.unary() {
            Ok(e) => e,
            Err(er) => {
                return Err(er);
            },
        };
        while self.at_factor_op()
            invariant
                self.wf(),
                self.tokens == old(self).tokens,
                tv == token_views(self.tokens@),
                pos0 == old(self).current as int,
                pos0 < self.current as int,
                parse_factor_spec(tv, pos0) == parse_factor_tail_spec(
                    tv,
                    self.current as int,
                    expr@,
                ),
            decreases tv.len() - self.current as int,
        {
            let operator = self.advance();
            match self.unary() {
                Ok(right) => {
                    expr = Expr::Binary(BinaryExpr::new(expr, operator, right));
                },
                Err(er) => {
                    return Err(er);
                },
            }
        }
        Ok(expr)
    }

    /// Whether the current token is `/` or `*`.
    fn at_factor_op(&self) -> (r: bool)
        requires
            self.wf(),
        ensures
            r == is_factor_op(token_views(self.tokens@)[self.current as int].kind),
    {
        let k = self.peek_kind();
        k == TokenType::Slash || k == TokenType::Star
    }

    /// `unary`: `!` or `-` applied to another unary, or a primary.
    fn unary(&mut self) -> (r: Result<Expr, Error>)
        requires
            old(self).wf(),
        ensures
            final(self).wf(),
            final(self).tokens == old(self).tokens,
            match r {
                Ok(e) => parse_unary_spec(token_views(old(self).tokens@), old(self).current as int)
                    == Ok::<(ExprV, int), ErrorV>((e@, final(self).current as int)) && old(
                    self,
                ).current < final(self).current,
                Err(er) => parse_unary_spec(
                    token_views(old(self).tokens@),
                    old(self).current as int,
                ) == Err::<(ExprV, int), ErrorV>(er@),
            },
        decreases self.tokens@.len() - self.current, 2int,
    {
        if self.match_type(TokenType::Bang) || self.match_type(TokenType::Minus) {
            let operator = self.previous();
            match self.unary() {
                Ok(right) => {
                    return Ok(Expr::Unary(UnaryExpr::new(operator, right)));
                },
                Err(er) => {
                    return Err(er);
                },
            }
        }
        self.primary()
    }

    /// `primary`: literal keywords, `Number` / `Str` literals, or a
    /// parenthesized grouping; anything else is a parse error expecting
    /// an expression at the offending token.
    fn primary(&mut self) -> (r: Result<Expr, Error>)
        requires
            old(self).wf(),
        ensures
            final(self).wf(),
            final(self).tokens == old(self).tokens,
            match r {
                Ok(e) => parse_primary_spec(
                    token_views(old(self).tokens@),
                    old(self).current as int,
                ) == Ok::<(ExprV, int), ErrorV>((e@, final(self).current as int)) && old(
                    self,
                ).current < final(self).current,
                Err(er) => parse_primary_spec(
                    token_views(old(self).tokens@),
                    old(self).current as int,
                ) == Err::<(ExprV, int), ErrorV>(er@),
            },
        decreases self.tokens@.len() - self.current, 1int,
    {
        if self.match_type(TokenType::False) {
            return Ok(Expr::Literal(LiteralExpr::new(Some(Literal::Identifier(
                "False".to_owned(),
            )))));
        }
        if self.match_type(TokenType::True) {
            return Ok(Expr::Literal(LiteralExpr::new(Some(Literal::Identifier(
                "True".to_owned(),
            )))));
        }
        if self.match_type(TokenType::Nil) {
            return Ok(Expr::Literal(LiteralExpr::new(Some(Literal::Identifier(
                "null".to_owned(),
            )))));
        }
        if self.match_type(TokenType::Number) || self.match_type(TokenType::Str) {
            let prev = self.previous();
            let lit = prev.literal.unwrap();
            return Ok(Expr::Literal(LiteralExpr::new(Some(lit))));
        }
        if self.match_type(TokenType::LeftParen) {
            let expr = match self.expression() {
                Ok(e) => e,
                Err(er) => {
                    return Err(er);
                },
            };
            match self.consume(TokenType::RightParen, "Expect `)` after expression.") {
                Ok(_) => {
                    return Ok(Expr::Grouping(GroupingExpr::new(expr)));
                },
                Err(er) => {
                    return Err(er);
                },
            }
        }
        let token = self.peek();
        let msg = expect_message(&token, "Expect expression.");
        Err(Error::ParseError(msg))
    }

    /// Parses the one expression the grammar derives from the front of
    /// the token sequence, trailing tokens ignored, or fails with the
    /// first parse error, exactly as the model `parse_spec` says.
    pub fn parse(&mut self) -> (r: Result<Expr, Error>)
        requires
            old(self).wf(),
            old(self).current == 0usize,
        ensures
            final(self).wf(),
            final(self).tokens == old(self).tokens,
            match r {
                Ok(e) => parse_spec(token_views(old(self).tokens@)) == Ok::<ExprV, ErrorV>(e@),
                Err(er) => parse_spec(token_views(old(self).tokens@)) == Err::<ExprV, ErrorV>(
                    er@,
                ),
            },
    {
        match self.expression() {
            Ok(e) => Ok(e),
            Err(er) => Err(er),
        }
    }

    /// Error recovery for a future statement grammar: discards the
    /// current token, then discards further tokens until just past a `;`
    /// or at a statement-starting keyword, or the end of input.
    fn synchronize(&mut self)
        requires
            old(self).wf(),
        ensures
            final(self).wf(),
            final(self).tokens == old(self).tokens,
            final(self).current as int == sync_spec(
                token_views(old(self).tokens@),
                old(self).current as int,
            ),
    {
        let ghost tv = token_views(old(self).tokens@);
        let ghost pos0 = old(self).current as int;
        if self.is_at_end() {
            return ;
        }
        self.advance();
        while !self.is_at_end()
            invariant
                self.wf(),
                self.tokens == old(self).tokens,
                tv == token_views(self.tokens@),
                pos0 == old(self).current as int,
                1 <= self.current,
                sync_from(tv, pos0 + 1) == sync_from(tv, self.current as int),
                sync_spec(tv, pos0) == sync_from(tv, pos0 + 1),
            decreases tv.len() - self.current as int,
        {
            if self.previous().token_type == TokenType::Semicolon {
                return ;
            }
            match self.peek_kind() {
                TokenType::Class | TokenType::Fun | TokenType::Var | TokenType::For
                    | TokenType::If | TokenType::While | TokenType::Print | TokenType::Return => {
                    return ;
                },
                _ => {},
            }
            self.advance();
        }
    }
}

/// What the scanner hands over, the parser accepts: a successful scan
/// always ends in exactly one `Eof` marker standing last, and every
/// `Number` or `Str` token carries its literal payload.
pub proof fn lemma_scan_feeds_parser(src: Seq<char>, pos: int, line: int)
    requires
        0 <= pos,
    ensures
        match crate::scanner::scan_spec(src, pos, line) {
            Ok(ts) => tokens_wf(ts),
            Err(_) => true,
        },
    decreases src.len() - pos,
{
    if pos >= src.len() {
    } else {
        match crate::scanner::scan_step(src, pos, line) {
            crate::scanner::ScanStep::Tok(t, p, l) => {
                crate::scanner::lemma_scan_step_advances(src, pos, line);
                lemma_scan_feeds_parser(src, p, l);
                if let Ok(rest) = crate::scanner::scan_spec(src, p, l) {
                    let ts = seq![t] + rest;
                    assert(ts.len() >= 1);
                    assert(ts[ts.len() - 1] == rest[rest.len() - 1]);
                    assert forall|i: int| 0 <= i < ts.len() implies ((#[trigger] ts[i].kind
                        == TokenType::Number || ts[i].kind == TokenType::Str) ==> ts[i].literal
                        is Some) by {
                        if i == 0 {
                            assert(ts[0] == t);
                        } else {
                            assert(ts[i] == rest[i - 1]);
                        }
                    }
                }
            },
            crate::scanner::ScanStep::Skip(p, l) => {
                crate::scanner::lemma_scan_step_advances(src, pos, line);
                lemma_scan_feeds_parser(src, p, l);
            },
            crate::scanner::ScanStep::Fail(_) => {},
        }
    }
}

} // verus!
