//! The syntax tree and the runtime value model.
use vstd::prelude::*;

use crate::scanner::Token;

verus! {

/// A number of the language: the 64-bit IEEE-754 encoding of a double.
#[derive(Debug, Clone, Copy)]
pub struct Number {
    pub bits: u64,
}

pub open spec fn sign_mask() -> int {
    0x8000_0000_0000_0000
}

/// Encodings above that of infinity, with or without the sign bit, are NaN.
pub open spec fn is_nan(n: Number) -> bool {
    n.bits as int % sign_mask() > 0x7ff0_0000_0000_0000
}

/// The position of a non-NaN double on the number line, up to scaling: both
/// zeros map to 0 and the order of doubles is the order of their keys.
pub open spec fn order_key(n: Number) -> int {
    if (n.bits as int) < sign_mask() {
        n.bits as int
    } else {
        -(n.bits as int - sign_mask())
    }
}

/// IEEE-754 equality: NaN equals nothing, and the two zeros are equal.
pub open spec fn num_eq(a: Number, b: Number) -> bool {
    !is_nan(a) && !is_nan(b) && order_key(a) == order_key(b)
}

/// IEEE-754 `<`: false whenever NaN is involved.
pub open spec fn num_lt(a: Number, b: Number) -> bool {
    !is_nan(a) && !is_nan(b) && order_key(a) < order_key(b)
}

/// IEEE-754 `<=`: false whenever NaN is involved.
pub open spec fn num_le(a: Number, b: Number) -> bool {
    !is_nan(a) && !is_nan(b) && order_key(a) <= order_key(b)
}

/// IEEE-754 negation flips the sign bit and nothing else.
pub open spec fn num_neg(a: Number) -> Number {
    Number {
        bits: if (a.bits as int) < sign_mask() {
            (a.bits as int + sign_mask()) as u64
        } else {
            (a.bits as int - sign_mask()) as u64
        },
    }
}

impl Number {
    pub fn equals(&self, other: &Number) -> (r: bool)
        ensures
            r == num_eq(*self, *other),
    {
        let a_nan = self.bits % 0x8000_0000_0000_0000 > 0x7ff0_0000_0000_0000;
        let b_nan = other.bits % 0x8000_0000_0000_0000 > 0x7ff0_0000_0000_0000;
        if a_nan || b_nan {
            return false;
        }
        let a_neg = self.bits >= 0x8000_0000_0000_0000;
        let b_neg = other.bits >= 0x8000_0000_0000_0000;
        let a_mag = self.bits % 0x8000_0000_0000_0000;
        let b_mag = other.bits % 0x8000_0000_0000_0000;
        if a_mag == 0 && b_mag == 0 {
            true
        } else {
            a_neg == b_neg && a_mag == b_mag
        }
    }

    pub fn less_than(&self, other: &Number) -> (r: bool)
        ensures
            r == num_lt(*self, *other),
    {
        let a_nan = self.bits % 0x8000_0000_0000_0000 > 0x7ff0_0000_0000_0000;
        let b_nan = other.bits % 0x8000_0000_0000_0000 > 0x7ff0_0000_0000_0000;
        if a_nan || b_nan {
            return false;
        }
        let a_neg = self.bits >= 0x8000_0000_0000_0000;
        let b_neg = other.bits >= 0x8000_0000_0000_0000;
        let a_mag = self.bits % 0x8000_0000_0000_0000;
        let b_mag = other.bits % 0x8000_0000_0000_0000;
        if a_neg && b_neg {
            b_mag < a_mag
        } else if a_neg {
            a_mag != 0 || b_mag != 0
        } else if b_neg {
            false
        } else {
            a_mag < b_mag
        }
    }

    pub fn at_most(&self, other: &Number) -> (r: bool)
        ensures
            r == num_le(*self, *other),
    {
        if self.less_than(other) {
            true
        } else {
            self.equals(other)
        }
    }

    pub fn negated(&self) -> (r: Number)
        ensures
            r == num_neg(*self),
    {
        if self.bits < 0x8000_0000_0000_0000 {
            Number { bits: self.bits + 0x8000_0000_0000_0000 }
        } else {
            Number { bits: self.bits - 0x8000_0000_0000_0000 }
        }
    }
}

/// The four arithmetic operations that the host performs on doubles.
#[derive(Debug, Clone, Copy, PartialEq, Eq, Structural)]
pub enum ArithOp {
    Sum,
    Difference,
    Product,
    Quotient,
}

/// Double-precision arithmetic, supplied by the embedding program: reading a
/// number literal, the four operations, and the decimal text of a number.
pub trait Arithmetic {
    fn parse_number(&self, lexeme: &str) -> Number;

    fn apply(&self, op: ArithOp, left: Number, right: Number) -> Number;

    fn render(&self, n: Number) -> String;
}

#[derive(Clone)]
pub enum Value {
    Number(Number),
    String(String),
    Boolean(bool),
    Nil,
}

/// What a value is, with text as its characters.
pub enum ValueModel {
    Number(Number),
    Text(Seq<char>),
    Boolean(bool),
    Nil,
}

impl View for Value {
    type V = ValueModel;

    open spec fn view(&self) -> ValueModel {
        match self {
            Value::Number(n) => ValueModel::Number(*n),
            Value::String(s) => ValueModel::Text(s@),
            Value::Boolean(b) => ValueModel::Boolean(*b),
            Value::Nil => ValueModel::Nil,
        }
    }
}

/// The printed text of a value; `None` for a number, which the host renders.
pub open spec fn render_spec(v: ValueModel) -> Option<Seq<char>> {
    match v {
        ValueModel::Number(_) => None,
        ValueModel::Text(s) => Some(s),
        ValueModel::Boolean(b) => Some(if b { "true"@ } else { "false"@ }),
        ValueModel::Nil => Some("nil"@),
    }
}

impl Value {
    /// The printed text of the value: strings raw, booleans as `true` or
    /// `false`, nil as `nil`, numbers as the host renders them.
    pub fn render<A: Arithmetic>(&self, arith: &A) -> (r: String)
        ensures
            render_spec(self@) matches Some(t) ==> r@ == t,
    {
        match self {
            Value::Number(n) => arith.render(*n),
            Value::String(s) => s.clone(),
            Value::Boolean(b) => {
                if *b {
                    String::from_str("true")
                } else {
                    String::from_str("false")
                }
            },
            Value::Nil => String::from_str("nil"),
        }
    }

    /// An equal copy of the value.
    pub fn duplicate(&self) -> (r: Value)
        ensures
            r == *self,
    {
        match self {
            Value::Number(n) => Value::Number(*n),
            Value::String(s) => Value::String(s.clone()),
            Value::Boolean(b) => Value::Boolean(*b),
            Value::Nil => Value::Nil,
        }
    }
}

pub enum Expr {
    Assign { name: Token, value: Box<Expr> },
    Binary { left: Box<Expr>, operator: Token, right: Box<Expr> },
    Call { callee: Box<Expr>, paren: Token, arguments: Vec<Expr> },
    Get { object: Box<Expr>, name: Token },
    Grouping { expression: Box<Expr> },
    Literal { value: Value },
    Logical { left: Box<Expr>, operator: Token, right: Box<Expr> },
    SetField { object: Box<Expr>, name: Token, value: Box<Expr> },
    Super { keyword: Token, method: Token },
    This { keyword: Token },
    Unary { operator: Token, right: Box<Expr> },
    Variable { name: Token },
}

pub enum Stmt {
    Block { statements: Vec<Stmt> },
    Class { name: Token, superclass: Option<Expr>, methods: Vec<Stmt> },
    Expression { expression: Expr },
    Function { name: Token, params: Vec<Token>, body: Vec<Stmt> },
    If { condition: Expr, then_branch: Box<Stmt>, else_branch: Option<Box<Stmt>> },
    Print { expression: Expr },
    Return { keyword: Token, value: Option<Expr> },
    Var { name: Token, initializer: Option<Expr> },
    While { condition: Expr, body: Box<Stmt> },
}

} // verus!
