use vstd::prelude::*;
use crate::token::{Token, TokenModel, TokenType};
use crate::ast::{Expr, ExprModel, Object, ObjectModel, object_of};
use crate::scanner::views;

verus! {

/// Which structural expectation was violated.
#[derive(Clone, Copy, Debug, PartialEq, Eq, Structural)]
pub enum ParseMessage {
    ExpectExpression,
    ExpectRightParen,
}

/// A parse failure: the offending token and what was expected there.
pub struct ParseError {
    pub token: Token,
    pub message: ParseMessage,
}

impl View for ParseError {
    type V = (TokenModel, ParseMessage);

    open spec fn view(&self) -> (TokenModel, ParseMessage) {
        (self.token@, self.message)
    }
}

/// A token sequence as the scanner delivers it: not empty, ended by end-of-input.
pub open spec fn tokens_wf(t: Seq<TokenModel>) -> bool {
    t.len() > 0 && t.last().kind == TokenType::EOF
}

/// Whether the token at `p` is of kind `k`; the end-of-input token matches nothing.
pub open spec fn check(t: Seq<TokenModel>, p: int, k: TokenType) -> bool {
    0 <= p < t.len() && t[p].kind != TokenType::EOF && t[p].kind == k
}

/// The operators of each binary level: 4 equality, 3 comparison, 2 term, 1 factor.
pub open spec fn is_op(level: nat, k: TokenType) -> bool {
    if level == 4 {
        k == TokenType::BANG_EQUAL || k == TokenType::EQUAL_EQUAL
    } else if level == 3 {
        k == TokenType::GREATER || k == TokenType::GREATER_EQUAL || k == TokenType::LESS || k
            == TokenType::LESS_EQUAL
    } else if level == 2 {
        k == TokenType::MINUS || k == TokenType::PLUS
    } else {
        k == TokenType::SLASH || k == TokenType::STAR
    }
}

pub open spec fn check_op(t: Seq<TokenModel>, p: int, level: nat) -> bool {
    0 <= p < t.len() && t[p].kind != TokenType::EOF && is_op(level, t[p].kind)
}

/// The outcome of parsing a rule at a position: the tree and the position after it, or the failure.
pub type Parsed = Result<(ExprModel, int), (TokenModel, ParseMessage)>;

/// Parses binary level `level` (1 to 4) at `p`: an operand, then a left fold of
/// operator-operand pairs. The position check always holds (`lemma_binary_moves_on`).
pub open spec fn parse_binary(t: Seq<TokenModel>, p: int, level: nat) -> Parsed
    decreases t.len() - p, 2 * level + 3,
{
    let first = if level <= 1 {
        parse_unary(t, p)
    } else {
        parse_binary(t, p, (level - 1) as nat)
    };
    match first {
        Ok((left, q)) => if p <= q <= t.len() {
            binary_rest(t, q, level, left)
        } else {
            first
        },
        Err(e) => Err(e),
    }
}

/// Continues a left fold at `p` with the tree built so far. The position check
/// always holds (`lemma_binary_moves_on`).
pub open spec fn binary_rest(t: Seq<TokenModel>, p: int, level: nat, left: ExprModel) -> Parsed
    decreases t.len() - p, 2 * level + 2,
{
    if check_op(t, p, level) {
        let right = if level <= 1 {
            parse_unary(t, p + 1)
        } else {
            parse_binary(t, p + 1, (level - 1) as nat)
        };
        match right {
            Ok((r, q)) => if p < q <= t.len() {
                binary_rest(t, q, level, ExprModel::Binary(Box::new(left), t[p], Box::new(r)))
            } else {
                right
            },
            Err(e) => Err(e),
        }
    } else {
        Ok((left, p))
    }
}

/// unary -> ("!" | "-") unary | primary
pub open spec fn parse_unary(t: Seq<TokenModel>, p: int) -> Parsed
    decreases t.len() - p, 1nat,
{
    if check(t, p, TokenType::BANG) || check(t, p, TokenType::MINUS) {
        match parse_unary(t, p + 1) {
            Ok((r, q)) => Ok((ExprModel::Unary(t[p], Box::new(r)), q)),
            Err(e) => Err(e),
        }
    } else {
        parse_primary(t, p)
    }
}

/// primary -> NUMBER | STRING | "true" | "false" | "nil" | "(" expression ")"
pub open spec fn parse_primary(t: Seq<TokenModel>, p: int) -> Parsed
    decreases t.len() - p, 0nat,
{
    if check(t, p, TokenType::FALSE) {
        Ok((ExprModel::Literal(ObjectModel::Bool(false)), p + 1))
    } else if check(t, p, TokenType::TRUE) {
        Ok((ExprModel::Literal(ObjectModel::Bool(true)), p + 1))
    } else if check(t, p, TokenType::NIL) {
        Ok((ExprModel::Literal(ObjectModel::Nil), p + 1))
    } else if check(t, p, TokenType::NUMBER) || check(t, p, TokenType::STRING) {
        Ok((ExprModel::Literal(object_of(t[p].literal)), p + 1))
    } else if check(t, p, TokenType::LEFT_PAREN) {
        match parse_binary(t, p + 1, 4) {
            Ok((e, q)) => if check(t, q, TokenType::RIGHT_PAREN) {
                Ok((ExprModel::Grouping(Box::new(e)), q + 1))
            } else {
                Err((t[q], ParseMessage::ExpectRightParen))
            },
            Err(e) => Err(e),
        }
    } else {
        Err((t[p], ParseMessage::ExpectExpression))
    }
}

/// expression -> equality
pub open spec fn parse_expression(t: Seq<TokenModel>, p: int) -> Parsed {
    parse_binary(t, p, 4)
}

/// What a successful parse at `p` promises: it consumed at least one token, and the
/// end-of-input token is still ahead.
pub open spec fn moves_on(r: Parsed, t: Seq<TokenModel>, p: int) -> bool {
    r is Ok ==> p < r->Ok_0.1 < t.len()
}

proof fn lemma_non_eof_has_next(t: Seq<TokenModel>, p: int)
    requires
        tokens_wf(t),
        0 <= p < t.len(),
        t[p].kind != TokenType::EOF,
    ensures
        p + 1 < t.len(),
{
}

/// Each binary level consumes at least one token when it succeeds, and never the last.
pub proof fn lemma_binary_moves_on(t: Seq<TokenModel>, p: int, level: nat)
    requires
        tokens_wf(t),
        0 <= p < t.len(),
        1 <= level <= 4,
    ensures
        moves_on(parse_binary(t, p, level), t, p),
    decreases t.len() - p, 2 * level + 3,
{
    let first = if level <= 1 {
        parse_unary(t, p)
    } else {
        parse_binary(t, p, (level - 1) as nat)
    };
    if level <= 1 {
        lemma_unary_moves_on(t, p);
    } else {
        lemma_binary_moves_on(t, p, (level - 1) as nat);
    }
    if let Ok((left, q)) = first {
        lemma_rest_moves_on(t, q, level, left);
    }
}

proof fn lemma_rest_moves_on(t: Seq<TokenModel>, p: int, level: nat, left: ExprModel)
    requires
        tokens_wf(t),
        0 <= p < t.len(),
        1 <= level <= 4,
    ensures
        binary_rest(t, p, level, left) is Ok ==> p <= binary_rest(t, p, level, left)->Ok_0.1 < t.len(),
    decreases t.len() - p, 2 * level + 2,
{
    if check_op(t, p, level) {
        lemma_non_eof_has_next(t, p);
        let right = if level <= 1 {
            parse_unary(t, p + 1)
        } else {
            parse_binary(t, p + 1, (level - 1) as nat)
        };
        if level <= 1 {
            lemma_unary_moves_on(t, p + 1);
        } else {
            lemma_binary_moves_on(t, p + 1, (level - 1) as nat);
        }
        if let Ok((r, q)) = right {
            lemma_rest_moves_on(t, q, level, ExprModel::Binary(Box::new(left), t[p], Box::new(r)));
        }
    }
}

proof fn lemma_unary_moves_on(t: Seq<TokenModel>, p: int)
    requires
        tokens_wf(t),
        0 <= p < t.len(),
    ensures
        moves_on(parse_unary(t, p), t, p),
    decreases t.len() - p, 1nat,
{
    if check(t, p, TokenType::BANG) || check(t, p, TokenType::MINUS) {
        lemma_non_eof_has_next(t, p);
        lemma_unary_moves_on(t, p + 1);
    } else {
        lemma_primary_moves_on(t, p);
    }
}

proof fn lemma_primary_moves_on(t: Seq<TokenModel>, p: int)
    requires
        tokens_wf(t),
        0 <= p < t.len(),
    ensures
        moves_on(parse_primary(t, p), t, p),
    decreases t.len() - p, 0nat,
{
    if t[p].kind != TokenType::EOF {
        lemma_non_eof_has_next(t, p);
    }
    if check(t, p, TokenType::LEFT_PAREN) {
        lemma_binary_moves_on(t, p + 1, 4);
        if let Ok((e, q)) = parse_binary(t, p + 1, 4) {
            if check(t, q, TokenType::RIGHT_PAREN) {
                lemma_non_eof_has_next(t, q);
            }
        }
    }
}

/// A group whose expression runs into the end of input fails there, expecting `)`,
/// and yields no tree.
pub proof fn lemma_unclosed_group(t: Seq<TokenModel>, p: int)
    requires
        check(t, p, TokenType::LEFT_PAREN),
        parse_binary(t, p + 1, 4) is Ok,
        0 <= parse_binary(t, p + 1, 4)->Ok_0.1 < t.len(),
        t[parse_binary(t, p + 1, 4)->Ok_0.1].kind == TokenType::EOF,
    ensures
        parse_primary(t, p) == Err::<(ExprModel, int), _>(
            (t[parse_binary(t, p + 1, 4)->Ok_0.1], ParseMessage::ExpectRightParen),
        ),
{
}

/// What an executable parse result stands for.
pub open spec fn parsed_as(r: Result<(Expr, usize), ParseError>) -> Parsed {
    match r {
        Ok((e, q)) => Ok((e.model(), q as int)),
        Err(e) => Err(e@),
    }
}

/// What a successful parse at `p` promises of its end position.
pub open spec fn advanced(r: Result<(Expr, usize), ParseError>, t: Seq<TokenModel>, p: int) -> bool {
    match r {
        Ok((_, q)) => p < q < t.len(),
        Err(_) => true,
    }
}

fn is_op_kind(level: usize, k: TokenType) -> (r: bool)
    ensures
        r == is_op(level as nat, k),
{
    if level == 4 {
        k == TokenType::BANG_EQUAL || k == TokenType::EQUAL_EQUAL
    } else if level == 3 {
        k == TokenType::GREATER || k == TokenType::GREATER_EQUAL || k == TokenType::LESS || k
            == TokenType::LESS_EQUAL
    } else if level == 2 {
        k == TokenType::MINUS || k == TokenType::PLUS
    } else {
        k == TokenType::SLASH || k == TokenType::STAR
    }
}

fn check_kind(tokens: &Vec<Token>, p: usize, k: TokenType) -> (r: bool)
    requires
        p < tokens@.len(),
    ensures
        r == check(views(tokens@), p as int, k),
{
    tokens[p].token_type != TokenType::EOF && tokens[p].token_type == k
}

fn binary(tokens: &Vec<Token>, pos: usize, level: usize) -> (r: Result<(Expr, usize), ParseError>)
    requires
        tokens_wf(views(tokens@)),
        pos < tokens@.len(),
        1 <= level <= 4,
    ensures
        parsed_as(r) == parse_binary(views(tokens@), pos as int, level as nat),
        advanced(r, views(tokens@), pos as int),
    decreases tokens@.len() - pos, 2 * level + 3,
{
    let ghost t = views(tokens@);
    let first = if level <= 1 {
        unary(tokens, pos)
    } else {
        binary(tokens, pos, level - 1)
    };
    let (mut expr, mut cur) = match first {
        Ok(x) => x,
        Err(e) => return Err(e),
    };
    let ghost total = parse_binary(t, pos as int, level as nat);
    assert(total == binary_rest(t, cur as int, level as nat, expr.model()));
    while tokens[cur].token_type != TokenType::EOF && is_op_kind(level, tokens[cur].token_type)
        invariant
            t == views(tokens@),
            tokens_wf(t),
            1 <= level <= 4,
            pos < cur < tokens@.len(),
            total == parse_binary(t, pos as int, level as nat),
            total == binary_rest(t, cur as int, level as nat, expr.model()),
        decreases tokens@.len() - cur,
    {
        assert(t[cur as int] == tokens@[cur as int]@);
        let len = tokens.len();
        assert(cur + 1 < len);
        let operator = tokens[cur].clone();
        let right = if level <= 1 {
            unary(tokens, cur + 1)
        } else {
            binary(tokens, cur + 1, level - 1)
        };
        match right {
            Ok((r, q)) => {
                let ghost left = expr.model();
                expr = Expr::Binary { left: Box::new(expr), operator, right: Box::new(r) };
                assert(expr.model() == ExprModel::Binary(Box::new(left), t[cur as int], Box::new(r.model())));
                cur = q;
            },
            Err(e) => return Err(e),
        }
    }
    Ok((expr, cur))
}

fn unary(tokens: &Vec<Token>, pos: usize) -> (r: Result<(Expr, usize), ParseError>)
    requires
        tokens_wf(views(tokens@)),
        pos < tokens@.len(),
    ensures
        parsed_as(r) == parse_unary(views(tokens@), pos as int),
        advanced(r, views(tokens@), pos as int),
    decreases tokens@.len() - pos, 1nat,
{
    let ghost t = views(tokens@);
    if check_kind(tokens, pos, TokenType::BANG) || check_kind(tokens, pos, TokenType::MINUS) {
        assert(t[pos as int] == tokens@[pos as int]@);
        let len = tokens.len();
        assert(pos + 1 < len);
        let operator = tokens[pos].clone();
        match unary(tokens, pos + 1) {
            Ok((r, q)) => {
                let e = Expr::Unary { operator, right: Box::new(r) };
                assert(e.model() == ExprModel::Unary(t[pos as int], Box::new(r.model())));
                Ok((e, q))
            },
            Err(e) => Err(e),
        }
    } else {
        primary(tokens, pos)
    }
}

fn primary(tokens: &Vec<Token>, pos: usize) -> (r: Result<(Expr, usize), ParseError>)
    requires
        tokens_wf(views(tokens@)),
        pos < tokens@.len(),
    ensures
        parsed_as(r) == parse_primary(views(tokens@), pos as int),
        advanced(r, views(tokens@), pos as int),
    decreases tokens@.len() - pos, 0nat,
{
    let ghost t = views(tokens@);
    assert(t[pos as int] == tokens@[pos as int]@);
    let len = tokens.len();
    assert(t.last() == tokens@[len - 1]@);
    if check_kind(tokens, pos, TokenType::FALSE) {
        Ok((Expr::Literal { value: Object::Bool(false) }, pos + 1))
    } else if check_kind(tokens, pos, TokenType::TRUE) {
        Ok((Expr::Literal { value: Object::Bool(true) }, pos + 1))
    } else if check_kind(tokens, pos, TokenType::NIL) {
        Ok((Expr::Literal { value: Object::Nil }, pos + 1))
    } else if check_kind(tokens, pos, TokenType::NUMBER) || check_kind(tokens, pos, TokenType::STRING) {
        Ok((Expr::Literal { value: tokens[pos].literal.to_object() }, pos + 1))
    } else if check_kind(tokens, pos, TokenType::LEFT_PAREN) {
        match binary(tokens, pos + 1, 4) {
            Ok((e, q)) => {
                if check_kind(tokens, q, TokenType::RIGHT_PAREN) {
                    let g = Expr::Grouping { expression: Box::new(e) };
                    assert(g.model() == ExprModel::Grouping(Box::new(e.model())));
                    Ok((g, q + 1))
                } else {
                    Err(ParseError { token: tokens[q].clone(), message: ParseMessage::ExpectRightParen })
                }
            },
            Err(e) => Err(e),
        }
    } else {
        Err(ParseError { token: tokens[pos].clone(), message: ParseMessage::ExpectExpression })
    }
}

pub open spec fn starts_statement(k: TokenType) -> bool {
    k == TokenType::BOX || k == TokenType::FUN || k == TokenType::LET || k == TokenType::FOR || k
        == TokenType::IF || k == TokenType::WHILE || k == TokenType::PRINT || k == TokenType::RETURN
}

/// Where recovery that has reached `q` stops: at the end of input, just after a
/// semicolon, or before a token that begins a statement.
pub open spec fn sync_from(t: Seq<TokenModel>, q: int) -> int
    decreases t.len() - q,
{
    if !(0 <= q < t.len()) || t[q].kind == TokenType::EOF {
        q
    } else if q >= 1 && t[q - 1].kind == TokenType::SEMICOLON {
        q
    } else if starts_statement(t[q].kind) {
        q
    } else {
        sync_from(t, q + 1)
    }
}

/// Where recovery that starts at `p` stops: it first steps over the offending token.
pub open spec fn sync_end(t: Seq<TokenModel>, p: int) -> int {
    if t[p].kind == TokenType::EOF {
        p
    } else {
        sync_from(t, p + 1)
    }
}

/// A parser over a token sequence, with the position reached.
pub struct Parser {
    tokens: Vec<Token>,
    current: usize,
}

impl Parser {
    pub closed spec fn toks(&self) -> Seq<TokenModel> {
        views(self.tokens@)
    }

    pub closed spec fn cur(&self) -> int {
        self.current as int
    }

    pub closed spec fn wf(&self) -> bool {
        tokens_wf(views(self.tokens@)) && self.current < self.tokens@.len()
    }

    /// A parser at the first of `tokens`, which must end with the end-of-input token.
    pub fn new(tokens: Vec<Token>) -> (r: Parser)
        requires
            tokens_wf(views(tokens@)),
        ensures
            r.wf(),
            r.toks() == views(tokens@),
            r.cur() == 0,
    {
        Parser { tokens, current: 0 }
    }

    /// Parses one expression at the current position. Tokens after it are left in place.
    pub fn parse(&mut self) -> (r: Result<Expr, ParseError>)
        requires
            old(self).wf(),
        ensures
            final(self).wf(),
            final(self).toks() == old(self).toks(),
            match parse_expression(old(self).toks(), old(self).cur()) {
                Ok((e, q)) => r is Ok && r->Ok_0.model() == e && final(self).cur() == q,
                Err(x) => r is Err && r->Err_0@ == x && final(self).cur() == old(self).cur(),
            },
    {
        match binary(&self.tokens, self.current, 4) {
            Ok((e, q)) => {
                self.current = q;
                Ok(e)
            },
            Err(e) => Err(e),
        }
    }

    /// Whether the current token is the end-of-input token.
    pub fn is_at_end(&self) -> (r: bool)
        requires
            self.wf(),
        ensures
            r == (self.toks()[self.cur()].kind == TokenType::EOF),
    {
        proof {
            assert(self.toks()[self.cur()] == self.tokens@[self.cur()]@);
        }
        self.tokens[self.current].token_type == TokenType::EOF
    }

    /// Whether the current token is of kind `k` (never at the end of input).
    pub fn check(&self, k: TokenType) -> (r: bool)
        requires
            self.wf(),
        ensures
            r == check(self.toks(), self.cur(), k),
    {
        check_kind(&self.tokens, self.current, k)
    }

    /// The current token.
    pub fn peek(&self) -> (r: &Token)
        requires
            self.wf(),
        ensures
            r@ == self.toks()[self.cur()],
    {
        &self.tokens[self.current]
    }

    /// The token before the current one.
    pub fn previous(&self) -> (r: &Token)
        requires
            self.wf(),
            self.cur() >= 1,
        ensures
            r@ == self.toks()[self.cur() - 1],
    {
        &self.tokens[self.current - 1]
    }

    /// Steps over the current token unless it is the end of input.
    pub fn advance(&mut self)
        requires
            old(self).wf(),
        ensures
            final(self).wf(),
            final(self).toks() == old(self).toks(),
            final(self).cur() == if old(self).toks()[old(self).cur()].kind == TokenType::EOF {
                old(self).cur()
            } else {
                old(self).cur() + 1
            },
    {
        if !self.is_at_end() {
            let len = self.tokens.len();
            assert(self.toks().last() == self.tokens@[len - 1]@);
            self.current = self.current + 1;
        }
    }

    /// Recovers after an error: discards tokens up to the next statement boundary.
    pub fn sync(&mut self)
        requires
            old(self).wf(),
        ensures
            final(self).wf(),
            final(self).toks() == old(self).toks(),
            final(self).cur() == sync_end(old(self).toks(), old(self).cur()),
    {
        self.advance();
        while !self.is_at_end()
            invariant
                self.wf(),
                self.toks() == old(self).toks(),
                self.cur() >= 1 || self.toks()[self.cur()].kind == TokenType::EOF,
                sync_from(self.toks(), self.cur()) == sync_end(old(self).toks(), old(self).cur()),
            decreases self.toks().len() - self.cur(),
        {
            if self.previous().token_type == TokenType::SEMICOLON {
                return;
            }
            let k = self.peek().token_type;
            if k == TokenType::BOX || k == TokenType::FUN || k == TokenType::LET || k == TokenType::FOR
                || k == TokenType::IF || k == TokenType::WHILE || k == TokenType::PRINT || k
                == TokenType::RETURN {
                return;
            }
            self.advance();
        }
    }
}

} // verus!
