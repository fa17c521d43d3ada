use vstd::prelude::*;
use crate::token::{TokenType, TokenModel, LiteralModel, LiteralValue, Number, Token, is_digit, push_char, string_of};

verus! {

/// What went wrong while scanning.
#[derive(Clone, Copy, Debug, PartialEq, Eq, Structural)]
pub enum LexErrorKind {
    UnexpectedCharacter,
    UnterminatedString,
    UnterminatedComment,
}

/// A lexical diagnostic: the line it is reported on and what went wrong.
#[derive(Clone, Copy, Debug, PartialEq, Eq, Structural)]
pub struct LexError {
    pub line: usize,
    pub kind: LexErrorKind,
}

pub open spec fn is_alpha(c: char) -> bool {
    ('a' <= c && c <= 'z') || ('A' <= c && c <= 'Z')
}

pub open spec fn is_ident_char(c: char) -> bool {
    is_digit(c) || is_alpha(c) || c == '_'
}

/// First position at or after `i` that does not hold a digit.
pub open spec fn digits_end(src: Seq<char>, i: int) -> int
    decreases src.len() - i,
{
    if 0 <= i < src.len() && is_digit(src[i]) {
        digits_end(src, i + 1)
    } else {
        i
    }
}

/// First position at or after `i` that cannot continue an identifier.
pub open spec fn ident_end(src: Seq<char>, i: int) -> int
    decreases src.len() - i,
{
    if 0 <= i < src.len() && is_ident_char(src[i]) {
        ident_end(src, i + 1)
    } else {
        i
    }
}

/// First position at or after `i` that holds `c`, or the end of the text.
pub open spec fn find_char(src: Seq<char>, i: int, c: char) -> int
    decreases src.len() - i,
{
    if 0 <= i < src.len() && src[i] != c {
        find_char(src, i + 1, c)
    } else {
        i
    }
}

/// First position at or after `i` where `*/` begins, or the end of the text.
pub open spec fn comment_close(src: Seq<char>, i: int) -> int
    decreases src.len() - i,
{
    if 0 <= i < src.len() && !(src[i] == '*' && i + 1 < src.len() && src[i + 1] == '/') {
        comment_close(src, i + 1)
    } else {
        i
    }
}

/// The number of line breaks in `src[a..b]`.
pub open spec fn newlines(src: Seq<char>, a: int, b: int) -> nat
    decreases b - a,
{
    if a < b {
        newlines(src, a, b - 1) + if src[b - 1] == '\n' { 1nat } else { 0nat }
    } else {
        0
    }
}

/// The end of a number literal whose first digit stands just before `i`:
/// more digits, then a fraction only where a digit follows the point.
pub open spec fn number_end(src: Seq<char>, i: int) -> int {
    let d = digits_end(src, i);
    if d + 1 < src.len() && src[d] == '.' && is_digit(src[d + 1]) {
        digits_end(src, d + 1)
    } else {
        d
    }
}

/// The reserved word spelled by `s`, if any.
pub open spec fn keyword_of(s: Seq<char>) -> Option<TokenType> {
    if s == "and"@ {
        Some(TokenType::AND)
    } else if s == "box"@ {
        Some(TokenType::BOX)
    } else if s == "else"@ {
        Some(TokenType::ELSE)
    } else if s == "false"@ {
        Some(TokenType::FALSE)
    } else if s == "for"@ {
        Some(TokenType::FOR)
    } else if s == "fun"@ {
        Some(TokenType::FUN)
    } else if s == "if"@ {
        Some(TokenType::IF)
    } else if s == "let"@ {
        Some(TokenType::LET)
    } else if s == "nil"@ {
        Some(TokenType::NIL)
    } else if s == "or"@ {
        Some(TokenType::OR)
    } else if s == "print"@ {
        Some(TokenType::PRINT)
    } else if s == "return"@ {
        Some(TokenType::RETURN)
    } else if s == "self"@ {
        Some(TokenType::SELF)
    } else if s == "super"@ {
        Some(TokenType::SUPER)
    } else if s == "true"@ {
        Some(TokenType::TRUE)
    } else if s == "while"@ {
        Some(TokenType::WHILE)
    } else {
        None
    }
}

pub open spec fn word_kind(s: Seq<char>) -> TokenType {
    match keyword_of(s) {
        Some(k) => k,
        None => TokenType::IDENTIFIER,
    }
}

/// The kind of a one-character token.
pub open spec fn single_kind(c: char) -> Option<TokenType> {
    if c == '(' {
        Some(TokenType::LEFT_PAREN)
    } else if c == ')' {
        Some(TokenType::RIGHT_PAREN)
    } else if c == '{' {
        Some(TokenType::LEFT_BRACE)
    } else if c == '}' {
        Some(TokenType::RIGHT_BRACE)
    } else if c == ',' {
        Some(TokenType::COMMA)
    } else if c == ';' {
        Some(TokenType::SEMICOLON)
    } else if c == '.' {
        Some(TokenType::DOT)
    } else if c == '-' {
        Some(TokenType::MINUS)
    } else if c == '+' {
        Some(TokenType::PLUS)
    } else if c == '*' {
        Some(TokenType::STAR)
    } else {
        None
    }
}

/// For `!`, `<`, `>` and `=`: the kind alone and the kind followed by `=`.
pub open spec fn pair_kinds(c: char) -> Option<(TokenType, TokenType)> {
    if c == '!' {
        Some((TokenType::BANG, TokenType::BANG_EQUAL))
    } else if c == '<' {
        Some((TokenType::LESS, TokenType::LESS_EQUAL))
    } else if c == '>' {
        Some((TokenType::GREATER, TokenType::GREATER_EQUAL))
    } else if c == '=' {
        Some((TokenType::EQUAL, TokenType::EQUAL_EQUAL))
    } else {
        None
    }
}

/// What one scanning step at a position yields.
pub struct Step {
    pub token: Option<TokenModel>,
    pub error: Option<LexError>,
    pub next: int,
    pub line: int,
}

pub open spec fn plain_token(src: Seq<char>, kind: TokenType, a: int, b: int, line: int) -> TokenModel {
    TokenModel { kind, literal: LiteralModel::Nil, line: line as nat, lexeme: src.subrange(a, b) }
}

pub open spec fn emit(t: TokenModel, next: int, line: int) -> Step {
    Step { token: Some(t), error: None, next, line }
}

pub open spec fn skip(next: int, line: int) -> Step {
    Step { token: None, error: None, next, line }
}

/// One step of the scanner on the character at `i`, the current line being `line`.
pub open spec fn step(src: Seq<char>, i: int, line: int) -> Step {
    let c = src[i];
    if single_kind(c) is Some {
        emit(plain_token(src, single_kind(c)->0, i, i + 1, line), i + 1, line)
    } else if pair_kinds(c) is Some {
        if i + 1 < src.len() && src[i + 1] == '=' {
            emit(plain_token(src, (pair_kinds(c)->0).1, i, i + 2, line), i + 2, line)
        } else {
            emit(plain_token(src, (pair_kinds(c)->0).0, i, i + 1, line), i + 1, line)
        }
    } else if c == '/' {
        if i + 1 < src.len() && src[i + 1] == '/' {
            let j = find_char(src, i + 2, '\n');
            if j < src.len() {
                skip(j + 1, line + 1)
            } else {
                skip(j, line)
            }
        } else if i + 1 < src.len() && src[i + 1] == '*' {
            let j = comment_close(src, i + 2);
            if j < src.len() {
                skip(j + 2, line + newlines(src, i + 2, j))
            } else {
                Step {
                    token: None,
                    error: Some(LexError { line: line as usize, kind: LexErrorKind::UnterminatedComment }),
                    next: j,
                    line: line + newlines(src, i + 2, j),
                }
            }
        } else {
            emit(plain_token(src, TokenType::SLASH, i, i + 1, line), i + 1, line)
        }
    } else if c == ' ' || c == '\r' || c == '\t' {
        skip(i + 1, line)
    } else if c == '\n' {
        skip(i + 1, line + 1)
    } else if c == '"' {
        let j = find_char(src, i + 1, '"');
        let end_line = line + newlines(src, i + 1, j);
        if j < src.len() {
            emit(
                TokenModel {
                    kind: TokenType::STRING,
                    literal: LiteralModel::Str(src.subrange(i + 1, j)),
                    line: line as nat,
                    lexeme: src.subrange(i, j + 1),
                },
                j + 1,
                end_line,
            )
        } else {
            Step {
                token: None,
                error: Some(LexError { line: end_line as usize, kind: LexErrorKind::UnterminatedString }),
                next: j,
                line: end_line,
            }
        }
    } else if is_digit(c) {
        let d = digits_end(src, i + 1);
        let j = number_end(src, i + 1);
        let fraction = if j == d { Seq::empty() } else { src.subrange(d + 1, j) };
        emit(
            TokenModel {
                kind: TokenType::NUMBER,
                literal: LiteralModel::Number(src.subrange(i, d), fraction),
                line: line as nat,
                lexeme: src.subrange(i, j),
            },
            j,
            line,
        )
    } else if is_alpha(c) {
        let j = ident_end(src, i + 1);
        emit(plain_token(src, word_kind(src.subrange(i, j)), i, j, line), j, line)
    } else {
        Step {
            token: None,
            error: Some(LexError { line: line as usize, kind: LexErrorKind::UnexpectedCharacter }),
            next: i + 1,
            line,
        }
    }
}

pub open spec fn opt_seq<T>(o: Option<T>) -> Seq<T> {
    match o {
        Some(x) => seq![x],
        None => Seq::empty(),
    }
}

/// The tokens and diagnostics that scanning `src` from position `i`, on line `line`, yields.
/// Every step consumes at least one character and stays within the text.
pub open spec fn scan_from(src: Seq<char>, i: int, line: int) -> (Seq<TokenModel>, Seq<LexError>)
    decreases src.len() - i,
{
    if 0 <= i < src.len() {
        let s = step(src, i, line);
        if i < s.next <= src.len() {
            let rest = scan_from(src, s.next, s.line);
            (opt_seq(s.token) + rest.0, opt_seq(s.error) + rest.1)
        } else {
            (Seq::empty(), Seq::empty())
        }
    } else {
        (
            seq![TokenModel { kind: TokenType::EOF, literal: LiteralModel::Nil, line: line as nat, lexeme: Seq::empty() }],
            Seq::empty(),
        )
    }
}

/// The tokens and diagnostics of a whole source text.
pub open spec fn scan(src: Seq<char>) -> (Seq<TokenModel>, Seq<LexError>) {
    scan_from(src, 0, 1)
}

pub open spec fn all_digits_in(src: Seq<char>, a: int, b: int) -> bool {
    forall|k: int| a <= k < b ==> is_digit(#[trigger] src[k])
}

proof fn lemma_find_char_bounds(src: Seq<char>, i: int, c: char)
    requires
        0 <= i <= src.len(),
    ensures
        i <= find_char(src, i, c) <= src.len(),
        find_char(src, i, c) < src.len() ==> src[find_char(src, i, c)] == c,
    decreases src.len() - i,
{
    if i < src.len() && src[i] != c {
        lemma_find_char_bounds(src, i + 1, c);
    }
}

proof fn lemma_comment_close_bounds(src: Seq<char>, i: int)
    requires
        0 <= i <= src.len(),
    ensures
        i <= comment_close(src, i) <= src.len(),
        comment_close(src, i) < src.len() ==> comment_close(src, i) + 1 < src.len(),
    decreases src.len() - i,
{
    if i < src.len() && !(src[i] == '*' && i + 1 < src.len() && src[i + 1] == '/') {
        lemma_comment_close_bounds(src, i + 1);
    }
}

proof fn lemma_digits_end_bounds(src: Seq<char>, i: int)
    requires
        0 <= i <= src.len(),
    ensures
        i <= digits_end(src, i) <= src.len(),
    decreases src.len() - i,
{
    if i < src.len() && is_digit(src[i]) {
        lemma_digits_end_bounds(src, i + 1);
    }
}

proof fn lemma_ident_end_bounds(src: Seq<char>, i: int)
    requires
        0 <= i <= src.len(),
    ensures
        i <= ident_end(src, i) <= src.len(),
    decreases src.len() - i,
{
    if i < src.len() && is_ident_char(src[i]) {
        lemma_ident_end_bounds(src, i + 1);
    }
}

/// Every scanning step consumes at least one character and stays within the text,
/// so `scan_from` always takes its first branch inside the text.
pub proof fn lemma_step_advances(src: Seq<char>, i: int, line: int)
    requires
        0 <= i < src.len(),
    ensures
        i < step(src, i, line).next <= src.len(),
{
    if i + 2 <= src.len() {
        lemma_find_char_bounds(src, i + 2, '\n');
        lemma_comment_close_bounds(src, i + 2);
    }
    lemma_find_char_bounds(src, i + 1, '"');
    lemma_digits_end_bounds(src, i + 1);
    let d = digits_end(src, i + 1);
    if d + 1 < src.len() {
        lemma_digits_end_bounds(src, d + 1);
    }
    lemma_ident_end_bounds(src, i + 1);
}

/// A line comment, from `//` through the line break that ends it, yields no token
/// and no diagnostic: scanning goes on after the break, one line further.
pub proof fn lemma_line_comment_skipped(src: Seq<char>, i: int, line: int)
    requires
        0 <= i,
        i + 1 < src.len(),
        src[i] == '/',
        src[i + 1] == '/',
        find_char(src, i + 2, '\n') < src.len(),
    ensures
        scan_from(src, i, line) == scan_from(src, find_char(src, i + 2, '\n') + 1, line + 1),
{
    lemma_find_char_bounds(src, i + 2, '\n');
    let rest = scan_from(src, find_char(src, i + 2, '\n') + 1, line + 1);
    assert(rest.0 =~= Seq::<TokenModel>::empty() + rest.0);
    assert(rest.1 =~= Seq::<LexError>::empty() + rest.1);
}

/// A closed block comment yields no token and no diagnostic: scanning goes on after
/// its `*/`, with the line breaks inside it counted.
pub proof fn lemma_block_comment_skipped(src: Seq<char>, i: int, line: int)
    requires
        0 <= i,
        i + 1 < src.len(),
        src[i] == '/',
        src[i + 1] == '*',
        comment_close(src, i + 2) < src.len(),
    ensures
        scan_from(src, i, line) == scan_from(
            src,
            comment_close(src, i + 2) + 2,
            line + newlines(src, i + 2, comment_close(src, i + 2)),
        ),
{
    lemma_comment_close_bounds(src, i + 2);
    let j = comment_close(src, i + 2);
    let rest = scan_from(src, j + 2, line + newlines(src, i + 2, j));
    assert(rest.0 =~= Seq::<TokenModel>::empty() + rest.0);
    assert(rest.1 =~= Seq::<LexError>::empty() + rest.1);
}

/// A block comment that is never closed runs to the end of the text and yields one
/// diagnostic, on the line where the comment opened; only the end-of-input token follows.
pub proof fn lemma_unclosed_block_comment(src: Seq<char>, i: int, line: int)
    requires
        0 <= i,
        i + 1 < src.len(),
        src[i] == '/',
        src[i + 1] == '*',
        comment_close(src, i + 2) >= src.len(),
    ensures
        scan_from(src, i, line).1 == seq![LexError { line: line as usize, kind: LexErrorKind::UnterminatedComment }],
        scan_from(src, i, line).0.len() == 1,
        scan_from(src, i, line).0[0].kind == TokenType::EOF,
{
    lemma_comment_close_bounds(src, i + 2);
    let j = comment_close(src, i + 2);
    assert(j == src.len());
    let rest = scan_from(src, j, line + newlines(src, i + 2, j));
    assert(scan_from(src, i, line).0 =~= rest.0);
}

/// At `!`, `<`, `>` or `=` followed by `=`, the two characters form one token.
pub proof fn lemma_maximal_munch(src: Seq<char>, i: int, line: int)
    requires
        0 <= i,
        i + 1 < src.len(),
        pair_kinds(src[i]) is Some,
        src[i + 1] == '=',
    ensures
        scan_from(src, i, line).0 == seq![plain_token(src, (pair_kinds(src[i])->0).1, i, i + 2, line)]
            + scan_from(src, i + 2, line).0,
{
}

/// A number stops before a point that no digit follows; the point is then a token of its own.
pub proof fn lemma_number_before_bare_dot(src: Seq<char>, i: int, line: int)
    requires
        0 <= i < src.len(),
        is_digit(src[i]),
        digits_end(src, i + 1) < src.len(),
        src[digits_end(src, i + 1)] == '.',
        !(digits_end(src, i + 1) + 1 < src.len() && is_digit(src[digits_end(src, i + 1) + 1])),
    ensures
        ({
            let d = digits_end(src, i + 1);
            &&& scan_from(src, i, line).0 == seq![
                TokenModel {
                    kind: TokenType::NUMBER,
                    literal: LiteralModel::Number(src.subrange(i, d), Seq::empty()),
                    line: line as nat,
                    lexeme: src.subrange(i, d),
                },
            ] + scan_from(src, d, line).0
            &&& scan_from(src, d, line).0[0] == plain_token(src, TokenType::DOT, d, d + 1, line)
        }),
{
    lemma_digits_end_bounds(src, i + 1);
    let d = digits_end(src, i + 1);
    assert(number_end(src, i + 1) == d);
    assert(src[d] == '.');
    assert(single_kind(src[d]) == Some(TokenType::DOT));
}

pub open spec fn views(s: Seq<Token>) -> Seq<TokenModel> {
    s.map_values(|t: Token| t@)
}

fn is_digit_char(c: char) -> (r: bool)
    ensures
        r == is_digit(c),
{
    '0' <= c && c <= '9'
}

fn is_alpha_char(c: char) -> (r: bool)
    ensures
        r == is_alpha(c),
{
    ('a' <= c && c <= 'z') || ('A' <= c && c <= 'Z')
}

/// Whether `src[from..to]` spells `w`.
fn matches_word(src: &Vec<char>, from: usize, to: usize, w: &str) -> (r: bool)
    requires
        from <= to <= src@.len(),
    ensures
        r == (src@.subrange(from as int, to as int) == w@),
{
    let n = w.unicode_len();
    if to - from != n {
        return false;
    }
    let mut k: usize = 0;
    while k < n
        invariant
            n == w@.len(),
            to - from == n,
            from <= to <= src@.len(),
            k <= n,
            forall|m: int| 0 <= m < k ==> src@[from + m] == w@[m],
        decreases n - k,
    {
        if src[from + k] != w.get_char(k) {
            assert(src@.subrange(from as int, to as int)[k as int] != w@[k as int]);
            return false;
        }
        k = k + 1;
    }
    assert(src@.subrange(from as int, to as int) =~= w@);
    true
}

/// The reserved word spelled by `src[from..to]`, if any.
fn keyword_type(src: &Vec<char>, from: usize, to: usize) -> (r: Option<TokenType>)
    requires
        from <= to <= src@.len(),
    ensures
        r == keyword_of(src@.subrange(from as int, to as int)),
{
    if matches_word(src, from, to, "and") {
        Some(TokenType::AND)
    } else if matches_word(src, from, to, "box") {
        Some(TokenType::BOX)
    } else if matches_word(src, from, to, "else") {
        Some(TokenType::ELSE)
    } else if matches_word(src, from, to, "false") {
        Some(TokenType::FALSE)
    } else if matches_word(src, from, to, "for") {
        Some(TokenType::FOR)
    } else if matches_word(src, from, to, "fun") {
        Some(TokenType::FUN)
    } else if matches_word(src, from, to, "if") {
        Some(TokenType::IF)
    } else if matches_word(src, from, to, "let") {
        Some(TokenType::LET)
    } else if matches_word(src, from, to, "nil") {
        Some(TokenType::NIL)
    } else if matches_word(src, from, to, "or") {
        Some(TokenType::OR)
    } else if matches_word(src, from, to, "print") {
        Some(TokenType::PRINT)
    } else if matches_word(src, from, to, "return") {
        Some(TokenType::RETURN)
    } else if matches_word(src, from, to, "self") {
        Some(TokenType::SELF)
    } else if matches_word(src, from, to, "super") {
        Some(TokenType::SUPER)
    } else if matches_word(src, from, to, "true") {
        Some(TokenType::TRUE)
    } else if matches_word(src, from, to, "while") {
        Some(TokenType::WHILE)
    } else {
        None
    }
}

/// The scanner: a source text, the position reached, the current line and the
/// diagnostics recorded so far.
pub struct Lox {
    source: Vec<char>,
    start_pos: usize,
    current_pos: usize,
    gotten_error: bool,
    line: usize,
    errors: Vec<LexError>,
}

impl Lox {
    pub closed spec fn src(&self) -> Seq<char> {
        self.source@
    }

    pub closed spec fn pos(&self) -> int {
        self.current_pos as int
    }

    pub closed spec fn start(&self) -> int {
        self.start_pos as int
    }

    pub closed spec fn line_no(&self) -> int {
        self.line as int
    }

    pub closed spec fn errs(&self) -> Seq<LexError> {
        self.errors@
    }

    pub closed spec fn wf(&self) -> bool {
        &&& self.start_pos <= self.current_pos <= self.source@.len() < usize::MAX
        &&& self.line <= self.current_pos + 1
        &&& self.gotten_error == (self.errors@.len() > 0)
    }

    /// A scanner at the start of `source`, on line 1.
    pub fn new(source: &str) -> (r: Lox)
        requires
            source@.len() < usize::MAX,
        ensures
            r.wf(),
            r.src() == source@,
            r.pos() == 0,
            r.start() == 0,
            r.line_no() == 1,
            r.errs() == Seq::<LexError>::empty(),
    {
        let n = source.unicode_len();
        let mut chars: Vec<char> = Vec::new();
        let mut i: usize = 0;
        while i < n
            invariant
                n == source@.len(),
                i <= n,
                chars@ == source@.subrange(0, i as int),
            decreases n - i,
        {
            chars.push(source.get_char(i));
            i = i + 1;
            assert(chars@ =~= source@.subrange(0, i as int));
        }
        assert(chars@ =~= source@);
        Lox { source: chars, start_pos: 0, current_pos: 0, gotten_error: false, line: 1, errors: Vec::new() }
    }

    /// Whether any diagnostic has been recorded.
    pub fn had_error(&self) -> (r: bool)
        requires
            self.wf(),
        ensures
            r == (self.errs().len() > 0),
    {
        self.gotten_error
    }

    /// The diagnostics recorded so far, in order.
    pub fn errors(&self) -> (r: &Vec<LexError>)
        ensures
            r@ == self.errs(),
    {
        &self.errors
    }

    /// Records a diagnostic.
    pub fn error(&mut self, line: usize, kind: LexErrorKind)
        requires
            old(self).wf(),
        ensures
            final(self).wf(),
            final(self).errs() == old(self).errs().push(LexError { line, kind }),
            final(self).src() == old(self).src(),
            final(self).pos() == old(self).pos(),
            final(self).start() == old(self).start(),
            final(self).line_no() == old(self).line_no(),
    {
        self.gotten_error = true;
        self.errors.push(LexError { line, kind });
    }

    /// The character `k` places ahead of the current position, if any.
    pub fn peek_by(&self, k: usize) -> (r: Option<char>)
        requires
            self.wf(),
        ensures
            r == (if self.pos() + k < self.src().len() {
                Some(self.src()[self.pos() + k])
            } else {
                None::<char>
            }),
    {
        if k < self.source.len() - self.current_pos {
            Some(self.source[self.current_pos + k])
        } else {
            None
        }
    }

    /// Consumes and returns the current character, if any.
    pub fn advance(&mut self) -> (r: Option<char>)
        requires
            old(self).wf(),
        ensures
            final(self).wf(),
            r == (if old(self).pos() < old(self).src().len() {
                Some(old(self).src()[old(self).pos()])
            } else {
                None::<char>
            }),
            final(self).pos() == (if old(self).pos() < old(self).src().len() {
                old(self).pos() + 1
            } else {
                old(self).pos()
            }),
            final(self).src() == old(self).src(),
            final(self).start() == old(self).start(),
            final(self).line_no() == old(self).line_no(),
            final(self).errs() == old(self).errs(),
    {
        if self.current_pos < self.source.len() {
            self.current_pos = self.current_pos + 1;
            Some(self.source[self.current_pos - 1])
        } else {
            None
        }
    }

    /// Consumes `n` characters and returns the first of them.
    pub fn advance_by(&mut self, n: usize) -> (r: Option<char>)
        requires
            old(self).wf(),
            n > 0,
            old(self).pos() + n <= old(self).src().len(),
        ensures
            final(self).wf(),
            r == Some(old(self).src()[old(self).pos()]),
            final(self).pos() == old(self).pos() + n,
            final(self).src() == old(self).src(),
            final(self).start() == old(self).start(),
            final(self).line_no() == old(self).line_no(),
            final(self).errs() == old(self).errs(),
    {
        self.current_pos = self.current_pos + n;
        Some(self.source[self.current_pos - n])
    }

    /// Consumes the current character where it is `expect`.
    pub fn matching(&mut self, expect: char) -> (r: bool)
        requires
            old(self).wf(),
        ensures
            final(self).wf(),
            r == (old(self).pos() < old(self).src().len() && old(self).src()[old(self).pos()] == expect),
            final(self).pos() == (if r { old(self).pos() + 1 } else { old(self).pos() }),
            final(self).src() == old(self).src(),
            final(self).start() == old(self).start(),
            final(self).line_no() == old(self).line_no(),
            final(self).errs() == old(self).errs(),
    {
        if self.current_pos < self.source.len() && self.source[self.current_pos] == expect {
            self.current_pos = self.current_pos + 1;
            true
        } else {
            false
        }
    }

    /// Reads the rest of an identifier or reserved word that began at the start position.
    pub fn scan_identifier(&mut self) -> (r: TokenType)
        requires
            old(self).wf(),
            old(self).start() < old(self).pos(),
        ensures
            final(self).pos() >= old(self).pos(),
            final(self).wf(),
            final(self).pos() == ident_end(old(self).src(), old(self).pos()),
            r == word_kind(old(self).src().subrange(old(self).start(), final(self).pos())),
            final(self).src() == old(self).src(),
            final(self).start() == old(self).start(),
            final(self).line_no() == old(self).line_no(),
            final(self).errs() == old(self).errs(),
    {
        let ghost p0 = self.current_pos as int;
        while self.current_pos < self.source.len()
            && (is_digit_char(self.source[self.current_pos]) || is_alpha_char(self.source[self.current_pos])
                || self.source[self.current_pos] == '_')
            invariant
                self.wf(),
                self.start_pos < p0 <= self.current_pos,
                ident_end(self.source@, self.current_pos as int) == ident_end(self.source@, p0),
                self.source@ == old(self).source@,
                self.start_pos == old(self).start_pos,
                self.errors@ == old(self).errors@,
                self.gotten_error == old(self).gotten_error,
                self.line == old(self).line,
            decreases self.source@.len() - self.current_pos,
        {
            self.current_pos = self.current_pos + 1;
        }
        match keyword_type(&self.source, self.start_pos, self.current_pos) {
            Some(k) => k,
            None => TokenType::IDENTIFIER,
        }
    }

    /// Reads the rest of a string literal whose opening quote is at the start position,
    /// returning its contents, or records an error where the text ends first.
    pub fn scan_string(&mut self) -> (r: Option<String>)
        requires
            old(self).wf(),
        ensures
            final(self).pos() >= old(self).pos(),
            final(self).wf(),
            ({
                let j = find_char(old(self).src(), old(self).pos(), '"');
                let l = old(self).line_no() + newlines(old(self).src(), old(self).pos(), j);
                &&& final(self).line_no() == l
                &&& if j < old(self).src().len() {
                    &&& final(self).pos() == j + 1
                    &&& r is Some
                    &&& r->0@ == old(self).src().subrange(old(self).pos(), j)
                    &&& final(self).errs() == old(self).errs()
                } else {
                    &&& final(self).pos() == j
                    &&& r is None
                    &&& final(self).errs() == old(self).errs().push(
                        LexError { line: l as usize, kind: LexErrorKind::UnterminatedString },
                    )
                }
            }),
            final(self).src() == old(self).src(),
            final(self).start() == old(self).start(),
    {
        let ghost p0 = self.current_pos as int;
        let ghost l0 = self.line as int;
        let from = self.current_pos;
        while self.current_pos < self.source.len() && self.source[self.current_pos] != '"'
            invariant
                self.wf(),
                self.start_pos <= from == p0 <= self.current_pos,
                find_char(self.source@, self.current_pos as int, '"') == find_char(self.source@, p0, '"'),
                self.source@ == old(self).source@,
                self.start_pos == old(self).start_pos,
                self.errors@ == old(self).errors@,
                self.gotten_error == old(self).gotten_error,
                self.line == l0 + newlines(self.source@, p0, self.current_pos as int),
            decreases self.source@.len() - self.current_pos,
        {
            if self.source[self.current_pos] == '\n' {
                self.line = self.line + 1;
            }
            self.current_pos = self.current_pos + 1;
        }
        if self.current_pos < self.source.len() {
            let text = string_of(&self.source, from, self.current_pos);
            self.current_pos = self.current_pos + 1;
            Some(text)
        } else {
            let line = self.line;
            self.error(line, LexErrorKind::UnterminatedString);
            None
        }
    }

    /// Reads the rest of a number literal whose first digit is at the start position:
    /// more digits, then a point and digits only where a digit follows the point.
    pub fn scan_number(&mut self) -> (r: Number)
        requires
            old(self).wf(),
            old(self).start() + 1 == old(self).pos(),
            is_digit(old(self).src()[old(self).start()]),
        ensures
            final(self).pos() >= old(self).pos(),
            final(self).wf(),
            r.wf(),
            final(self).pos() == number_end(old(self).src(), old(self).pos()),
            ({
                let src = old(self).src();
                let d = digits_end(src, old(self).pos());
                &&& r.whole@ == src.subrange(old(self).start(), d)
                &&& r.fraction@ == if final(self).pos() == d {
                    Seq::<char>::empty()
                } else {
                    src.subrange(d + 1, final(self).pos())
                }
            }),
            final(self).src() == old(self).src(),
            final(self).start() == old(self).start(),
            final(self).line_no() == old(self).line_no(),
            final(self).errs() == old(self).errs(),
    {
        let ghost p0 = self.current_pos as int;
        while self.current_pos < self.source.len() && is_digit_char(self.source[self.current_pos])
            invariant
                self.wf(),
                self.start_pos < p0 <= self.current_pos,
                digits_end(self.source@, self.current_pos as int) == digits_end(self.source@, p0),
                self.source@ == old(self).source@,
                self.start_pos == old(self).start_pos,
                self.errors@ == old(self).errors@,
                self.gotten_error == old(self).gotten_error,
                self.line == old(self).line,
                all_digits_in(self.source@, self.start_pos as int, self.current_pos as int),
            decreases self.source@.len() - self.current_pos,
        {
            self.current_pos = self.current_pos + 1;
        }
        let d = self.current_pos;
        let whole = string_of(&self.source, self.start_pos, d);
        let mut fraction = String::new();
        if d + 1 < self.source.len() && self.source[d] == '.' && is_digit_char(self.source[d + 1]) {
            self.current_pos = d + 1;
            while self.current_pos < self.source.len() && is_digit_char(self.source[self.current_pos])
                invariant
                    self.wf(),
                    d < self.current_pos,
                    digits_end(self.source@, self.current_pos as int) == digits_end(self.source@, d + 1),
                    d == digits_end(self.source@, p0),
                    all_digits_in(self.source@, old(self).start_pos as int, d as int),
                    self.source@ == old(self).source@,
                    self.start_pos == old(self).start_pos,
                    self.errors@ == old(self).errors@,
                    self.gotten_error == old(self).gotten_error,
                    self.line == old(self).line,
                    all_digits_in(self.source@, d + 1, self.current_pos as int),
                decreases self.source@.len() - self.current_pos,
            {
                self.current_pos = self.current_pos + 1;
            }
            fraction = string_of(&self.source, d + 1, self.current_pos);
            assert(self.current_pos > d + 1);
        }
        Number { whole, fraction }
    }

    /// Skips a line comment whose `//` ends just before the current position,
    /// together with the line break that ends it.
    fn skip_line_comment(&mut self)
        requires
            old(self).wf(),
        ensures
            final(self).pos() >= old(self).pos(),
            final(self).wf(),
            ({
                let j = find_char(old(self).src(), old(self).pos(), '\n');
                if j < old(self).src().len() {
                    final(self).pos() == j + 1 && final(self).line_no() == old(self).line_no() + 1
                } else {
                    final(self).pos() == j && final(self).line_no() == old(self).line_no()
                }
            }),
            final(self).src() == old(self).src(),
            final(self).start() == old(self).start(),
            final(self).errs() == old(self).errs(),
    {
        let ghost p0 = self.current_pos as int;
        while self.current_pos < self.source.len() && self.source[self.current_pos] != '\n'
            invariant
                self.wf(),
                self.start_pos <= p0 <= self.current_pos,
                find_char(self.source@, self.current_pos as int, '\n') == find_char(self.source@, p0, '\n'),
                self.source@ == old(self).source@,
                self.start_pos == old(self).start_pos,
                self.errors@ == old(self).errors@,
                self.gotten_error == old(self).gotten_error,
                self.line == old(self).line,
            decreases self.source@.len() - self.current_pos,
        {
            self.current_pos = self.current_pos + 1;
        }
        if self.current_pos < self.source.len() {
            self.current_pos = self.current_pos + 1;
            self.line = self.line + 1;
        }
    }

    /// Skips a block comment whose `/*` ends just before the current position,
    /// or records an error on the line where it opened when it is never closed.
    fn skip_block_comment(&mut self, start_line: usize)
        requires
            old(self).wf(),
        ensures
            final(self).pos() >= old(self).pos(),
            final(self).wf(),
            ({
                let j = comment_close(old(self).src(), old(self).pos());
                let l = old(self).line_no() + newlines(old(self).src(), old(self).pos(), j);
                &&& final(self).line_no() == l
                &&& if j < old(self).src().len() {
                    final(self).pos() == j + 2 && final(self).errs() == old(self).errs()
                } else {
                    &&& final(self).pos() == j
                    &&& final(self).errs() == old(self).errs().push(
                        LexError { line: start_line, kind: LexErrorKind::UnterminatedComment },
                    )
                }
            }),
            final(self).src() == old(self).src(),
            final(self).start() == old(self).start(),
    {
        let ghost p0 = self.current_pos as int;
        let ghost l0 = self.line as int;
        while self.current_pos < self.source.len() && !(self.source[self.current_pos] == '*'
            && self.current_pos + 1 < self.source.len() && self.source[self.current_pos + 1] == '/')
            invariant
                self.wf(),
                self.start_pos <= p0 <= self.current_pos,
                comment_close(self.source@, self.current_pos as int) == comment_close(self.source@, p0),
                self.source@ == old(self).source@,
                self.start_pos == old(self).start_pos,
                self.errors@ == old(self).errors@,
                self.gotten_error == old(self).gotten_error,
                self.line == l0 + newlines(self.source@, p0, self.current_pos as int),
            decreases self.source@.len() - self.current_pos,
        {
            if self.source[self.current_pos] == '\n' {
                self.line = self.line + 1;
            }
            self.current_pos = self.current_pos + 1;
        }
        if self.current_pos < self.source.len() {
            self.advance_by(2);
        } else {
            self.error(start_line, LexErrorKind::UnterminatedComment);
        }
    }

    /// Appends a token spanning from the start position to the current one.
    fn add_token(&self, list: &mut Vec<Token>, token_type: TokenType, literal: LiteralValue, line: usize)
        requires
            self.wf(),
        ensures
            views(final(list)@) == views(old(list)@).push(
                TokenModel {
                    kind: token_type,
                    literal: literal@,
                    line: line as nat,
                    lexeme: self.src().subrange(self.start(), self.pos()),
                },
            ),
    {
        let lexeme = string_of(&self.source, self.start_pos, self.current_pos);
        let ghost lit = literal@;
        list.push(Token { token_type, literal, line, lexeme });
        assert(views(list@) =~= views(old(list)@).push(
            TokenModel { kind: token_type, literal: lit, line: line as nat, lexeme: lexeme@ },
        ));
    }

    /// Takes one step of scanning at the current position, as `step` describes it.
    #[verifier::rlimit(50)]
    fn scan_token(&mut self, list: &mut Vec<Token>)
        requires
            old(self).wf(),
            old(self).pos() < old(self).src().len(),
        ensures
            ({
                let st = step(old(self).src(), old(self).pos(), old(self).line_no());
                &&& final(self).pos() == st.next
                &&& final(self).line_no() == st.line
                &&& views(final(list)@) == views(old(list)@) + opt_seq(st.token)
                &&& final(self).errs() == old(self).errs() + opt_seq(st.error)
            }),
            final(self).pos() > old(self).pos(),
            final(self).wf(),
            final(self).src() == old(self).src(),
    {
        let ghost i = self.current_pos as int;
        let ghost l0 = self.line as int;
        let ghost st = step(self.source@, i, l0);
        let ghost list0 = views(list@);
        let ghost errs0 = self.errors@;
        self.start_pos = self.current_pos;
        let line = self.line;
        let a = self.advance().unwrap();
        match a {
            '(' => self.add_token(list, TokenType::LEFT_PAREN, LiteralValue::Nil, line),
            ')' => self.add_token(list, TokenType::RIGHT_PAREN, LiteralValue::Nil, line),
            '{' => self.add_token(list, TokenType::LEFT_BRACE, LiteralValue::Nil, line),
            '}' => self.add_token(list, TokenType::RIGHT_BRACE, LiteralValue::Nil, line),
            ',' => self.add_token(list, TokenType::COMMA, LiteralValue::Nil, line),
            ';' => self.add_token(list, TokenType::SEMICOLON, LiteralValue::Nil, line),
            '.' => self.add_token(list, TokenType::DOT, LiteralValue::Nil, line),
            '-' => self.add_token(list, TokenType::MINUS, LiteralValue::Nil, line),
            '+' => self.add_token(list, TokenType::PLUS, LiteralValue::Nil, line),
            '*' => self.add_token(list, TokenType::STAR, LiteralValue::Nil, line),
            '!' => {
                let k = if self.matching('=') { TokenType::BANG_EQUAL } else { TokenType::BANG };
                self.add_token(list, k, LiteralValue::Nil, line);
            },
            '<' => {
                let k = if self.matching('=') { TokenType::LESS_EQUAL } else { TokenType::LESS };
                self.add_token(list, k, LiteralValue::Nil, line);
            },
            '>' => {
                let k = if self.matching('=') {
                    TokenType::GREATER_EQUAL
                } else {
                    TokenType::GREATER
                };
                self.add_token(list, k, LiteralValue::Nil, line);
            },
            '=' => {
                let k = if self.matching('=') { TokenType::EQUAL_EQUAL } else { TokenType::EQUAL };
                self.add_token(list, k, LiteralValue::Nil, line);
            },
            '/' => {
                if self.matching('/') {
                    self.skip_line_comment();
                } else if self.matching('*') {
                    self.skip_block_comment(line);
                } else {
                    self.add_token(list, TokenType::SLASH, LiteralValue::Nil, line);
                }
            },
            ' ' | '\r' | '\t' => {},
            '\n' => {
                self.line = self.line + 1;
            },
            '"' => {
                if let Some(text) = self.scan_string() {
                    self.add_token(list, TokenType::STRING, LiteralValue::String(text), line);
                }
            },
            _ => {
                if is_digit_char(a) {
                    let n = self.scan_number();
                    self.add_token(list, TokenType::NUMBER, LiteralValue::Number(n), line);
                } else if is_alpha_char(a) {
                    let k = self.scan_identifier();
                    self.add_token(list, k, LiteralValue::Nil, line);
                } else {
                    self.error(line, LexErrorKind::UnexpectedCharacter);
                }
            },
        }
        proof {
            assert(views(list@) =~= list0 + opt_seq(st.token));
            assert(self.errors@ =~= errs0 + opt_seq(st.error));
        }
    }

    /// Scans from the current position to the end of the text: the tokens found,
    /// ended by one end-of-input token; each diagnostic is recorded and scanning goes on.
    pub fn get_token_list(&mut self) -> (r: Vec<Token>)
        requires
            old(self).wf(),
        ensures
            final(self).wf(),
            views(r@) == scan_from(old(self).src(), old(self).pos(), old(self).line_no()).0,
            final(self).errs() == old(self).errs() + scan_from(
                old(self).src(),
                old(self).pos(),
                old(self).line_no(),
            ).1,
            final(self).src() == old(self).src(),
            final(self).pos() == old(self).src().len(),
    {
        let mut list: Vec<Token> = Vec::new();
        let ghost src = self.source@;
        let ghost all = scan_from(src, self.current_pos as int, self.line as int);
        assert(views(list@) =~= Seq::<TokenModel>::empty());
        assert(all.0 =~= views(list@) + all.0);
        assert(old(self).errors@ + all.1 =~= self.errors@ + all.1);
        while self.current_pos < self.source.len()
            invariant
                self.wf(),
                self.source@ == src,
                views(list@) + scan_from(src, self.current_pos as int, self.line as int).0 == all.0,
                self.errors@ + scan_from(src, self.current_pos as int, self.line as int).1
                    == old(self).errors@ + all.1,
            decreases src.len() - self.current_pos,
        {
            let ghost i = self.current_pos as int;
            let ghost l0 = self.line as int;
            let ghost st = step(src, i, l0);
            let ghost list0 = views(list@);
            let ghost errs0 = self.errors@;
            self.scan_token(&mut list);
            proof {
                let rest = scan_from(src, st.next, st.line);
                assert(scan_from(src, i, l0) == (opt_seq(st.token) + rest.0, opt_seq(st.error) + rest.1));
                assert(list0 + opt_seq(st.token) + rest.0 =~= list0 + (opt_seq(st.token) + rest.0));
                assert(errs0 + opt_seq(st.error) + rest.1 =~= errs0 + (opt_seq(st.error) + rest.1));
            }
        }
        let ghost list0 = views(list@);
        list.push(Token {
            token_type: TokenType::EOF,
            literal: LiteralValue::Nil,
            line: self.line,
            lexeme: String::new(),
        });
        assert(views(list@) =~= list0 + scan_from(src, self.current_pos as int, self.line as int).0);
        assert(self.errors@ =~= self.errors@ + scan_from(src, self.current_pos as int, self.line as int).1);
        list
    }
}

/// Scans a whole source text: its tokens, ended by one end-of-input token, and
/// every diagnostic, in order.
pub fn scan_all(source: &str) -> (r: (Vec<Token>, Vec<LexError>))
    requires
        source@.len() < usize::MAX,
    ensures
        views(r.0@) == scan(source@).0,
        r.1@ == scan(source@).1,
{
    let mut lox = Lox::new(source);
    let tokens = lox.get_token_list();
    assert(lox.errs() =~= scan(source@).1);
    (tokens, lox.errors)
}

} // verus!
