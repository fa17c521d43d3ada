use vstd::prelude::*;
use crate::ast::{Expr, ExprModel, Object, ObjectModel};
use crate::token::{LiteralModel, LiteralValue, Number, Token, TokenModel, kind_text};

verus! {

/// The digits before the point without superfluous leading zeros (one digit stays).
pub open spec fn trim_leading_zeros(w: Seq<char>) -> Seq<char>
    decreases w.len(),
{
    if w.len() > 1 && w[0] == '0' {
        trim_leading_zeros(w.drop_first())
    } else {
        w
    }
}

/// The digits after the point without trailing zeros.
pub open spec fn trim_trailing_zeros(f: Seq<char>) -> Seq<char>
    decreases f.len(),
{
    if f.len() > 0 && f.last() == '0' {
        trim_trailing_zeros(f.drop_last())
    } else {
        f
    }
}

/// The shortest decimal spelling of a number literal: no leading zeros, no
/// trailing zeros after the point, and no point where no fraction is left.
pub open spec fn number_text(w: Seq<char>, f: Seq<char>) -> Seq<char> {
    let a = trim_leading_zeros(w);
    let b = trim_trailing_zeros(f);
    if b.len() == 0 {
        a
    } else {
        a + "."@ + b
    }
}

/// The canonical text of a literal value.
pub open spec fn object_text(o: ObjectModel) -> Seq<char> {
    match o {
        ObjectModel::Number(w, f) => number_text(w, f),
        ObjectModel::Str(s) => s,
        ObjectModel::Nil => "nil"@,
        ObjectModel::Bool(b) => if b {
            "true"@
        } else {
            "false"@
        },
    }
}

/// `(name part1 part2 ...)`: the parts each preceded by a space.
pub open spec fn paren(name: Seq<char>, parts: Seq<Seq<char>>) -> Seq<char> {
    "("@ + name + joined(parts) + ")"@
}

pub open spec fn joined(parts: Seq<Seq<char>>) -> Seq<char>
    decreases parts.len(),
{
    if parts.len() == 0 {
        Seq::empty()
    } else {
        joined(parts.drop_last()) + " "@ + parts.last()
    }
}

/// The fully parenthesized prefix rendering of a tree.
pub open spec fn print(e: ExprModel) -> Seq<char>
    decreases e,
{
    match e {
        ExprModel::Binary(l, op, r) => paren(op.lexeme, seq![print(*l), print(*r)]),
        ExprModel::Grouping(g) => paren("group"@, seq![print(*g)]),
        ExprModel::Literal(o) => object_text(o),
        ExprModel::Unary(op, r) => paren(op.lexeme, seq![print(*r)]),
    }
}

/// Renders trees as fully parenthesized prefix text.
pub struct AstPrinter {}

fn trimmed_whole(w: &String) -> (r: String)
    ensures
        r@ == trim_leading_zeros(w@),
{
    let s = w.as_str();
    let n = s.unicode_len();
    let mut k: usize = 0;
    assert(w@.subrange(0, n as int) =~= w@);
    while k + 1 < n && s.get_char(k) == '0'
        invariant
            s@ == w@,
            n == w@.len(),
            k <= n,
            k < n || n == 0,
            trim_leading_zeros(w@.subrange(k as int, n as int)) == trim_leading_zeros(w@),
        decreases n - k,
    {
        assert(w@.subrange(k as int, n as int).drop_first() =~= w@.subrange(k + 1, n as int));
        k = k + 1;
    }
    String::from_str(s.substring_char(k, n))
}

fn trimmed_fraction(f: &String) -> (r: String)
    ensures
        r@ == trim_trailing_zeros(f@),
{
    let s = f.as_str();
    let n = s.unicode_len();
    let mut e: usize = n;
    assert(f@.subrange(0, n as int) =~= f@);
    while e > 0 && s.get_char(e - 1) == '0'
        invariant
            s@ == f@,
            n == f@.len(),
            e <= n,
            trim_trailing_zeros(f@.subrange(0, e as int)) == trim_trailing_zeros(f@),
        decreases e,
    {
        assert(f@.subrange(0, e as int).drop_last() =~= f@.subrange(0, e - 1));
        e = e - 1;
    }
    String::from_str(s.substring_char(0, e))
}

impl Number {
    /// The shortest decimal spelling of this number.
    pub fn to_string(&self) -> (r: String)
        ensures
            r@ == number_text(self.whole@, self.fraction@),
    {
        let a = trimmed_whole(&self.whole);
        let b = trimmed_fraction(&self.fraction);
        if b.as_str().unicode_len() == 0 {
            a
        } else {
            let mut r = a;
            r.append(".");
            r.append(b.as_str());
            r
        }
    }
}

/// The text of a token's literal: numbers and strings as in a tree, `Nil` when absent.
pub open spec fn literal_text(l: LiteralModel) -> Seq<char> {
    match l {
        LiteralModel::Number(w, f) => number_text(w, f),
        LiteralModel::Str(s) => s,
        LiteralModel::Nil => "Nil"@,
    }
}

/// `kind lexeme literal`, separated by single spaces.
pub open spec fn token_text(t: TokenModel) -> Seq<char> {
    kind_text(t.kind) + " "@ + t.lexeme + " "@ + literal_text(t.literal)
}

impl LiteralValue {
    pub fn to_string(&self) -> (r: String)
        ensures
            r@ == literal_text(self@),
    {
        match self {
            LiteralValue::Number(n) => n.to_string(),
            LiteralValue::String(s) => s.clone(),
            LiteralValue::Nil => String::from_str("Nil"),
        }
    }
}

impl Token {
    pub fn to_string(&self) -> (r: String)
        ensures
            r@ == token_text(self@),
    {
        let mut r = self.token_type.to_string();
        r.append(" ");
        r.append(self.lexeme.as_str());
        r.append(" ");
        let lit = self.literal.to_string();
        r.append(lit.as_str());
        r
    }
}

impl Object {
    /// The canonical text of this value.
    pub fn to_string(&self) -> (r: String)
        ensures
            r@ == object_text(self@),
    {
        match self {
            Object::Number(n) => n.to_string(),
            Object::Str(s) => s.clone(),
            Object::Nil => String::from_str("nil"),
            Object::Bool(b) => if *b {
                String::from_str("true")
            } else {
                String::from_str("false")
            },
        }
    }
}

/// One operation over trees: a capability for each kind of node.
pub trait Visitor<T> {
    fn visit_binary(&mut self, binary: &Expr) -> T
        requires
            binary is Binary,
    ;

    fn visit_grouping(&mut self, grouping: &Expr) -> T
        requires
            grouping is Grouping,
    ;

    fn visit_literal(&mut self, literal: &Expr) -> T
        requires
            literal is Literal,
    ;

    fn visit_unary(&mut self, unary: &Expr) -> T
        requires
            unary is Unary,
    ;
}

impl Visitor<String> for AstPrinter {
    fn visit_binary(&mut self, binary: &Expr) -> (r: String)
        ensures
            r@ == print(binary.model()),
        decreases binary, 0nat,
    {
        match binary {
            Expr::Binary { left, operator, right } => {
                let l = self.visit_expr(left);
                let r = self.visit_expr(right);
                let parts = vec![l, r];
                assert(parts@.map_values(|p: String| p@) =~= seq![print(left.model()), print(right.model())]);
                self.parenthesize(operator.lexeme.as_str(), parts)
            },
            _ => String::new(),
        }
    }

    fn visit_grouping(&mut self, grouping: &Expr) -> (r: String)
        ensures
            r@ == print(grouping.model()),
        decreases grouping, 0nat,
    {
        match grouping {
            Expr::Grouping { expression } => {
                let inner = self.visit_expr(expression);
                let parts = vec![inner];
                assert(parts@.map_values(|p: String| p@) =~= seq![print(expression.model())]);
                self.parenthesize("group", parts)
            },
            _ => String::new(),
        }
    }

    fn visit_literal(&mut self, literal: &Expr) -> (r: String)
        ensures
            r@ == print(literal.model()),
        decreases literal, 0nat,
    {
        match literal {
            Expr::Literal { value } => value.to_string(),
            _ => String::new(),
        }
    }

    fn visit_unary(&mut self, unary: &Expr) -> (r: String)
        ensures
            r@ == print(unary.model()),
        decreases unary, 0nat,
    {
        match unary {
            Expr::Unary { operator, right } => {
                let inner = self.visit_expr(right);
                let parts = vec![inner];
                assert(parts@.map_values(|p: String| p@) =~= seq![print(right.model())]);
                self.parenthesize(operator.lexeme.as_str(), parts)
            },
            _ => String::new(),
        }
    }
}

impl AstPrinter {
    /// Renders any tree, dispatching on its variant.
    pub fn visit_expr(&mut self, expr: &Expr) -> (r: String)
        ensures
            r@ == print(expr.model()),
        decreases expr, 1nat,
    {
        match expr {
            Expr::Binary { .. } => self.visit_binary(expr),
            Expr::Grouping { .. } => self.visit_grouping(expr),
            Expr::Literal { .. } => self.visit_literal(expr),
            Expr::Unary { .. } => self.visit_unary(expr),
        }
    }

    /// `(name part1 part2 ...)`.
    fn parenthesize(&mut self, name: &str, parts: Vec<String>) -> (r: String)
        ensures
            r@ == paren(name@, parts@.map_values(|p: String| p@)),
    {
        let ghost ps = parts@.map_values(|p: String| p@);
        let mut result = String::from_str("(");
        result.append(name);
        let mut i: usize = 0;
        while i < parts.len()
            invariant
                i <= parts@.len(),
                ps == parts@.map_values(|p: String| p@),
                result@ == "("@ + name@ + joined(ps.subrange(0, i as int)),
            decreases parts@.len() - i,
        {
            result.append(" ");
            result.append(parts[i].as_str());
            assert(ps.subrange(0, i + 1).drop_last() =~= ps.subrange(0, i as int));
            i = i + 1;
        }
        assert(ps.subrange(0, i as int) =~= ps);
        result.append(")");
        result
    }
}

} // verus!
