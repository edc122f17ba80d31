//! A single flat scope from variable names to values.
use vstd::prelude::*;

use crate::ast::{Value, ValueModel};
use crate::scanner::Token;

verus! {

/// A failure while evaluating a statement.
pub enum RuntimeError {
    /// A variable was read or assigned before any declaration.
    UndefinedVariable { name: String, line: u32 },
    /// Unary `-` on an operand that is not a number.
    InvalidOperand,
    /// A comparison, `-`, `*` or `/` on an operand that is not a number.
    OperandsMustBeNumbers,
    /// `+` on operands that are neither two numbers nor two strings.
    InvalidPlusOperands,
    /// An operator token that no expression of its shape takes.
    UnknownOperator,
    /// A construct outside the implemented subset of the language.
    NotImplemented,
}

pub open spec fn undefined_message(name: Seq<char>) -> Seq<char> {
    "Undefined variable '"@ + name + "'."@
}

/// The text reported for an error.
pub open spec fn message_spec(e: RuntimeError) -> Seq<char> {
    match e {
        RuntimeError::UndefinedVariable { name, .. } => undefined_message(name@),
        RuntimeError::InvalidOperand => "Not a valid operand"@,
        RuntimeError::OperandsMustBeNumbers => "Operands must be numbers."@,
        RuntimeError::InvalidPlusOperands => "Invalid operator for operands"@,
        RuntimeError::UnknownOperator => "Unknown operator."@,
        RuntimeError::NotImplemented => "Not implemented."@,
    }
}

impl RuntimeError {
    /// The text reported for the error.
    pub fn message(&self) -> (r: String)
        ensures
            self matches RuntimeError::UndefinedVariable { name, .. } ==> r@ == undefined_message(
                name@,
            ),
            self is OperandsMustBeNumbers ==> r@ == "Operands must be numbers."@,
            self is InvalidOperand ==> r@ == "Not a valid operand"@,
            self is InvalidPlusOperands ==> r@ == "Invalid operator for operands"@,
            self is NotImplemented ==> r@ == "Not implemented."@,
            r@ == message_spec(*self),
    {
        match self {
            RuntimeError::UndefinedVariable { name, line: _ } => {
                let mut s = String::from_str("Undefined variable '");
                s.append(name.as_str());
                s.append("'.");
                s
            },
            RuntimeError::InvalidOperand => String::from_str("Not a valid operand"),
            RuntimeError::OperandsMustBeNumbers => String::from_str("Operands must be numbers."),
            RuntimeError::InvalidPlusOperands => String::from_str("Invalid operator for operands"),
            RuntimeError::UnknownOperator => String::from_str("Unknown operator."),
            RuntimeError::NotImplemented => String::from_str("Not implemented."),
        }
    }

    /// The error naming the variable of `name`.
    pub fn undefined(name: &Token) -> (r: RuntimeError)
        ensures
            r == (RuntimeError::UndefinedVariable { name: name.lexeme, line: name.line }),
    {
        RuntimeError::UndefinedVariable { name: name.lexeme.clone(), line: name.line }
    }
}

pub struct Environment {
    names: Vec<String>,
    values: Vec<Value>,
}

impl View for Environment {
    type V = Map<Seq<char>, ValueModel>;

    closed spec fn view(&self) -> Map<Seq<char>, ValueModel> {
        Map::new(
            |k: Seq<char>| exists|i: int| 0 <= i < self.names@.len() && self.names@[i]@ == k,
            |k: Seq<char>|
                self.values@[choose|i: int| 0 <= i < self.names@.len() && self.names@[i]@ == k]@,
        )
    }
}

impl Environment {
    /// Names are unique, and each has its value at the same index.
    pub closed spec fn wf(&self) -> bool {
        &&& self.names@.len() == self.values@.len()
        &&& forall|i: int, j: int|
            0 <= i < self.names@.len() && 0 <= j < self.names@.len() && self.names@[i]@
                == self.names@[j]@ ==> i == j
    }

    proof fn lemma_lookup(&self, i: int)
        requires
            self.wf(),
            0 <= i < self.names@.len(),
        ensures
            self@.contains_key(self.names@[i]@),
            self@[self.names@[i]@] == self.values@[i]@,
    {
        let k = self.names@[i]@;
        assert(exists|j: int| 0 <= j < self.names@.len() && self.names@[j]@ == k);
        let c = choose|j: int| 0 <= j < self.names@.len() && self.names@[j]@ == k;
        assert(c == i);
    }

    pub fn new() -> (r: Self)
        ensures
            r.wf(),
            r@ == Map::<Seq<char>, ValueModel>::empty(),
    {
        let r = Self { names: Vec::new(), values: Vec::new() };
        assert(r@ =~= Map::<Seq<char>, ValueModel>::empty());
        r
    }

    /// Index of `name`, if it is bound.
    fn find(&self, name: &String) -> (r: Option<usize>)
        requires
            self.wf(),
        ensures
            r matches Some(i) ==> i < self.names@.len() && self.names@[i as int]@ == name@,
            r is None ==> !self@.contains_key(name@),
    {
        let mut i: usize = 0;
        while i < self.names.len()
            invariant
                self.wf(),
                i <= self.names@.len(),
                forall|j: int| 0 <= j < i ==> self.names@[j]@ != name@,
            decreases self.names@.len() - i,
        {
            if self.names[i] == *name {
                return Some(i);
            }
            i = i + 1;
        }
        None
    }

    /// Binds `name` to `value`, replacing any earlier binding.
    pub fn define(&mut self, name: String, value: Value)
        requires
            old(self).wf(),
        ensures
            final(self).wf(),
            final(self)@ == old(self)@.insert(name@, value@),
    {
        let ghost k = name@;
        let ghost v = value@;
        match self.find(&name) {
            Some(i) => {
                self.values.set(i, value);
                proof {
                    assert forall|kk: Seq<char>|
                        #![auto]
                        self@.contains_key(kk) == old(self)@.insert(k, v).contains_key(kk) by {
                        if old(self)@.insert(k, v).contains_key(kk) && kk != k {
                            let j = choose|j: int|
                                0 <= j < old(self).names@.len() && old(self).names@[j]@ == kk;
                            assert(self.names@[j]@ == kk);
                        }
                        if kk == k {
                            assert(self.names@[i as int]@ == kk);
                        }
                    }
                    assert forall|kk: Seq<char>| #[trigger]
                        self@.contains_key(kk) implies self@[kk] == old(self)@.insert(
                        k,
                        v,
                    )[kk] by {
                        let j = choose|j: int| 0 <= j < self.names@.len() && self.names@[j]@ == kk;
                        self.lemma_lookup(j);
                        if j != i {
                            old(self).lemma_lookup(j);
                        }
                    }
                    assert(self@ =~= old(self)@.insert(k, v));
                }
            },
            None => {
                self.names.push(name);
                self.values.push(value);
                proof {
                    let n = old(self).names@.len() as int;
                    assert forall|kk: Seq<char>|
                        #![auto]
                        self@.contains_key(kk) == old(self)@.insert(k, v).contains_key(kk) by {
                        if old(self)@.insert(k, v).contains_key(kk) && kk != k {
                            let j = choose|j: int|
                                0 <= j < old(self).names@.len() && old(self).names@[j]@ == kk;
                            assert(self.names@[j]@ == kk);
                        }
                        if kk == k {
                            assert(self.names@[n]@ == kk);
                        }
                        if self@.contains_key(kk) && kk != k {
                            let j = choose|j: int| 0 <= j < self.names@.len() && self.names@[j]@ == kk;
                            assert(old(self).names@[j]@ == kk);
                        }
                    }
                    assert forall|kk: Seq<char>| #[trigger]
                        self@.contains_key(kk) implies self@[kk] == old(self)@.insert(
                        k,
                        v,
                    )[kk] by {
                        let j = choose|j: int| 0 <= j < self.names@.len() && self.names@[j]@ == kk;
                        self.lemma_lookup(j);
                        if j != n {
                            old(self).lemma_lookup(j);
                        }
                    }
                    assert(self@ =~= old(self)@.insert(k, v));
                }
            },
        }
    }

    /// A copy of the value bound to `name`'s lexeme.
    pub fn get(&self, name: &Token) -> (r: Result<Value, RuntimeError>)
        requires
            self.wf(),
        ensures
            self@.contains_key(name.lexeme@) ==> (r matches Ok(v) && v@ == self@[name.lexeme@]),
            !self@.contains_key(name.lexeme@) ==> r == Err::<Value, RuntimeError>(
                RuntimeError::UndefinedVariable { name: name.lexeme, line: name.line },
            ),
    {
        match self.find(&name.lexeme) {
            Some(i) => {
                proof {
                    self.lemma_lookup(i as int);
                }
                Ok(self.values[i].duplicate())
            },
            None => Err(RuntimeError::undefined(name)),
        }
    }

    /// Rebinds an already bound name and hands the value back.
    pub fn assign(&mut self, name: Token, value: Value) -> (r: Result<Value, RuntimeError>)
        requires
            old(self).wf(),
        ensures
            final(self).wf(),
            old(self)@.contains_key(name.lexeme@) ==> r == Ok::<Value, RuntimeError>(value)
                && final(self)@ == old(self)@.insert(name.lexeme@, value@),
            !old(self)@.contains_key(name.lexeme@) ==> r == Err::<Value, RuntimeError>(
                RuntimeError::UndefinedVariable { name: name.lexeme, line: name.line },
            ) && final(self)@ == old(self)@,
    {
        match self.find(&name.lexeme) {
            Some(i) => {
                proof {
                    old(self).lemma_lookup(i as int);
                }
                let copy = value.duplicate();
                self.define(name.lexeme, copy);
                Ok(value)
            },
            None => Err(RuntimeError::undefined(&name)),
        }
    }
}

} // verus!
