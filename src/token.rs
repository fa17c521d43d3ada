use vstd::prelude::*;

verus! {

/// The kinds of lexical units.
#[allow(non_camel_case_types)]
#[derive(Clone, Copy, Debug, PartialEq, Eq, Structural)]
pub enum TokenType {
    LEFT_PAREN,
    RIGHT_PAREN,
    LEFT_BRACE,
    RIGHT_BRACE,
    COMMA,
    DOT,
    MINUS,
    PLUS,
    SEMICOLON,
    SLASH,
    STAR,
    BANG,
    BANG_EQUAL,
    EQUAL,
    EQUAL_EQUAL,
    GREATER,
    GREATER_EQUAL,
    LESS,
    LESS_EQUAL,
    IDENTIFIER,
    STRING,
    NUMBER,
    BOX,
    ELSE,
    FUN,
    FOR,
    IF,
    OR,
    PRINT,
    RETURN,
    SUPER,
    SELF,
    TRUE,
    FALSE,
    AND,
    LET,
    WHILE,
    NIL,
    EOF,
}

/// The display name of a token kind.
pub open spec fn kind_text(k: TokenType) -> Seq<char> {
    match k {
        TokenType::LEFT_PAREN => "("@,
        TokenType::RIGHT_PAREN => ")"@,
        TokenType::LEFT_BRACE => "{"@,
        TokenType::RIGHT_BRACE => "}"@,
        TokenType::COMMA => ","@,
        TokenType::DOT => "."@,
        TokenType::MINUS => "-"@,
        TokenType::PLUS => "+"@,
        TokenType::SEMICOLON => ";"@,
        TokenType::SLASH => "/"@,
        TokenType::STAR => "*"@,
        TokenType::BANG => "!"@,
        TokenType::BANG_EQUAL => "!="@,
        TokenType::EQUAL => "="@,
        TokenType::EQUAL_EQUAL => "=="@,
        TokenType::GREATER => ">"@,
        TokenType::GREATER_EQUAL => ">="@,
        TokenType::LESS => "<"@,
        TokenType::LESS_EQUAL => "<="@,
        TokenType::IDENTIFIER => "identifier"@,
        TokenType::STRING => "String"@,
        TokenType::NUMBER => "Number"@,
        TokenType::BOX => "box"@,
        TokenType::ELSE => "else"@,
        TokenType::FUN => "fun"@,
        TokenType::FOR => "for"@,
        TokenType::IF => "if"@,
        TokenType::OR => "or"@,
        TokenType::PRINT => "print"@,
        TokenType::RETURN => "return"@,
        TokenType::SUPER => "super"@,
        TokenType::SELF => "self"@,
        TokenType::TRUE => "true"@,
        TokenType::FALSE => "false"@,
        TokenType::AND => "and"@,
        TokenType::LET => "let"@,
        TokenType::WHILE => "while"@,
        TokenType::NIL => "nil"@,
        TokenType::EOF => "EOF"@,
    }
}

impl TokenType {
    pub fn to_string(&self) -> (r: String)
        ensures
            r@ == kind_text(*self),
    {
        let s: &str = match self {
            TokenType::LEFT_PAREN => "(",
            TokenType::RIGHT_PAREN => ")",
            TokenType::LEFT_BRACE => "{",
            TokenType::RIGHT_BRACE => "}",
            TokenType::COMMA => ",",
            TokenType::DOT => ".",
            TokenType::MINUS => "-",
            TokenType::PLUS => "+",
            TokenType::SEMICOLON => ";",
            TokenType::SLASH => "/",
            TokenType::STAR => "*",
            TokenType::BANG => "!",
            TokenType::BANG_EQUAL => "!=",
            TokenType::EQUAL => "=",
            TokenType::EQUAL_EQUAL => "==",
            TokenType::GREATER => ">",
            TokenType::GREATER_EQUAL => ">=",
            TokenType::LESS => "<",
            TokenType::LESS_EQUAL => "<=",
            TokenType::IDENTIFIER => "identifier",
            TokenType::STRING => "String",
            TokenType::NUMBER => "Number",
            TokenType::BOX => "box",
            TokenType::ELSE => "else",
            TokenType::FUN => "fun",
            TokenType::FOR => "for",
            TokenType::IF => "if",
            TokenType::OR => "or",
            TokenType::PRINT => "print",
            TokenType::RETURN => "return",
            TokenType::SUPER => "super",
            TokenType::SELF => "self",
            TokenType::TRUE => "true",
            TokenType::FALSE => "false",
            TokenType::AND => "and",
            TokenType::LET => "let",
            TokenType::WHILE => "while",
            TokenType::NIL => "nil",
            TokenType::EOF => "EOF",
        };
        String::from_str(s)
    }
}

/// A number literal, kept as the exact decimal digits written in the source:
/// the digits before the point and those after it (empty when there is no point).
pub struct Number {
    pub whole: String,
    pub fraction: String,
}

impl Number {
    pub open spec fn wf(&self) -> bool {
        self.whole@.len() > 0 && all_digits(self.whole@) && all_digits(self.fraction@)
    }
}

pub open spec fn is_digit(c: char) -> bool {
    '0' <= c && c <= '9'
}

pub open spec fn all_digits(s: Seq<char>) -> bool {
    forall|i: int| 0 <= i < s.len() ==> is_digit(#[trigger] s[i])
}

/// The value a literal token carries.
pub enum LiteralValue {
    Number(Number),
    String(String),
    Nil,
}

/// The mathematical content of a literal.
pub enum LiteralModel {
    Number(Seq<char>, Seq<char>),
    Str(Seq<char>),
    Nil,
}

impl View for LiteralValue {
    type V = LiteralModel;

    open spec fn view(&self) -> LiteralModel {
        match self {
            LiteralValue::Number(n) => LiteralModel::Number(n.whole@, n.fraction@),
            LiteralValue::String(s) => LiteralModel::Str(s@),
            LiteralValue::Nil => LiteralModel::Nil,
        }
    }
}

/// One lexical unit: its kind, its source text, its decoded value and the line it began on.
pub struct Token {
    pub token_type: TokenType,
    pub literal: LiteralValue,
    pub line: usize,
    pub lexeme: String,
}

/// The mathematical content of a token.
pub struct TokenModel {
    pub kind: TokenType,
    pub literal: LiteralModel,
    pub line: nat,
    pub lexeme: Seq<char>,
}

impl View for Token {
    type V = TokenModel;

    open spec fn view(&self) -> TokenModel {
        TokenModel {
            kind: self.token_type,
            literal: self.literal@,
            line: self.line as nat,
            lexeme: self.lexeme@,
        }
    }
}

/// Relies on String::push: the character is appended at the end.
#[verifier::external_body]
pub(crate) fn push_char(s: &mut String, c: char)
    ensures
        final(s)@ == old(s)@.push(c),
{
    s.push(c)
}

/// Builds a string holding the characters `v[from..to]`.
pub(crate) fn string_of(v: &Vec<char>, from: usize, to: usize) -> (r: String)
    requires
        from <= to <= v@.len(),
    ensures
        r@ == v@.subrange(from as int, to as int),
{
    let mut r = String::new();
    let mut i: usize = from;
    while i < to
        invariant
            from <= i <= to <= v@.len(),
            r@ == v@.subrange(from as int, i as int),
        decreases to - i,
    {
        push_char(&mut r, v[i]);
        i = i + 1;
        assert(r@ =~= v@.subrange(from as int, i as int));
    }
    r
}

impl Clone for Number {
    fn clone(&self) -> (r: Number)
        ensures
            r@ == self@,
    {
        Number { whole: self.whole.clone(), fraction: self.fraction.clone() }
    }
}

impl View for Number {
    type V = (Seq<char>, Seq<char>);

    open spec fn view(&self) -> (Seq<char>, Seq<char>) {
        (self.whole@, self.fraction@)
    }
}

impl Clone for LiteralValue {
    fn clone(&self) -> (r: LiteralValue)
        ensures
            r@ == self@,
    {
        match self {
            LiteralValue::Number(n) => LiteralValue::Number(n.clone()),
            LiteralValue::String(s) => LiteralValue::String(s.clone()),
            LiteralValue::Nil => LiteralValue::Nil,
        }
    }
}

impl Clone for Token {
    fn clone(&self) -> (r: Token)
        ensures
            r@ == self@,
    {
        Token {
            token_type: self.token_type,
            literal: self.literal.clone(),
            line: self.line,
            lexeme: self.lexeme.clone(),
        }
    }
}

impl Token {
    pub fn new(token_type: TokenType, literal: LiteralValue, line: usize, lexeme: String) -> (r: Token)
        ensures
            r.token_type == token_type,
            r.literal == literal,
            r.line == line,
            r.lexeme == lexeme,
    {
        Token { token_type, literal, line, lexeme }
    }
}

} // verus!
