//! Tree-walking evaluation of statements against an environment.
use vstd::prelude::*;

use crate::ast::{
    num_eq, num_le, num_lt, num_neg, render_spec, ArithOp, Arithmetic, Expr, Number, Stmt, Value,
    ValueModel,
};
use crate::environment::{Environment, RuntimeError};
use crate::scanner::TokenType;

verus! {

/// Nil and false are falsy; every other value is truthy.
pub open spec fn truthy(v: ValueModel) -> bool {
    match v {
        ValueModel::Nil => false,
        ValueModel::Boolean(b) => b,
        _ => true,
    }
}

/// Equality of values: natural equality within a kind, false across kinds.
pub open spec fn values_equal(a: ValueModel, b: ValueModel) -> bool {
    match (a, b) {
        (ValueModel::Text(x), ValueModel::Text(y)) => x == y,
        (ValueModel::Number(x), ValueModel::Number(y)) => num_eq(x, y),
        (ValueModel::Boolean(x), ValueModel::Boolean(y)) => x == y,
        (ValueModel::Nil, ValueModel::Nil) => true,
        _ => false,
    }
}

pub open spec fn unary_spec(op: TokenType, v: ValueModel) -> Result<ValueModel, RuntimeError> {
    match op {
        TokenType::Bang => Ok(ValueModel::Boolean(!truthy(v))),
        TokenType::Minus => match v {
            ValueModel::Number(n) => Ok(ValueModel::Number(num_neg(n))),
            _ => Err(RuntimeError::InvalidOperand),
        },
        _ => Err(RuntimeError::UnknownOperator),
    }
}

/// The result of a binary operator on two values; `None` where it is the
/// host's double arithmetic on two numbers.
pub open spec fn binary_spec(op: TokenType, l: ValueModel, r: ValueModel) -> Option<
    Result<ValueModel, RuntimeError>,
> {
    match op {
        TokenType::Greater | TokenType::GreaterEqual | TokenType::Less | TokenType::LessEqual => {
            match (l, r) {
                (ValueModel::Number(a), ValueModel::Number(b)) => Some(
                    Ok(
                        ValueModel::Boolean(
                            match op {
                                TokenType::Greater => num_lt(b, a),
                                TokenType::GreaterEqual => num_le(b, a),
                                TokenType::Less => num_lt(a, b),
                                _ => num_le(a, b),
                            },
                        ),
                    ),
                ),
                _ => Some(Err(RuntimeError::OperandsMustBeNumbers)),
            }
        },
        TokenType::Minus | TokenType::Slash | TokenType::Star => match (l, r) {
            (ValueModel::Number(_), ValueModel::Number(_)) => None,
            _ => Some(Err(RuntimeError::OperandsMustBeNumbers)),
        },
        TokenType::Plus => match (l, r) {
            (ValueModel::Text(a), ValueModel::Text(b)) => Some(Ok(ValueModel::Text(a + b))),
            (ValueModel::Number(_), ValueModel::Number(_)) => None,
            _ => Some(Err(RuntimeError::InvalidPlusOperands)),
        },
        TokenType::BangEqual => Some(Ok(ValueModel::Boolean(!values_equal(l, r)))),
        TokenType::EqualEqual => Some(Ok(ValueModel::Boolean(values_equal(l, r)))),
        _ => Some(Err(RuntimeError::UnknownOperator)),
    }
}

/// Whether two values are of the same kind.
pub open spec fn same_kind(a: ValueModel, b: ValueModel) -> bool {
    match (a, b) {
        (ValueModel::Number(_), ValueModel::Number(_)) => true,
        (ValueModel::Text(_), ValueModel::Text(_)) => true,
        (ValueModel::Boolean(_), ValueModel::Boolean(_)) => true,
        (ValueModel::Nil, ValueModel::Nil) => true,
        _ => false,
    }
}

/// Equality is total: `==` and `!=` never fail on any two values, values of
/// differing kinds are unequal, and nil equals nil.
pub proof fn lemma_equality_total(a: ValueModel, b: ValueModel)
    ensures
        binary_spec(TokenType::EqualEqual, a, b) == Some(
            Ok::<ValueModel, RuntimeError>(ValueModel::Boolean(values_equal(a, b))),
        ),
        binary_spec(TokenType::BangEqual, a, b) == Some(
            Ok::<ValueModel, RuntimeError>(ValueModel::Boolean(!values_equal(a, b))),
        ),
        !same_kind(a, b) ==> binary_spec(TokenType::EqualEqual, a, b) == Some(
            Ok::<ValueModel, RuntimeError>(ValueModel::Boolean(false)),
        ),
        binary_spec(TokenType::EqualEqual, ValueModel::Nil, ValueModel::Nil) == Some(
            Ok::<ValueModel, RuntimeError>(ValueModel::Boolean(true)),
        ),
{
}

pub open spec fn result_view(r: Result<Value, RuntimeError>) -> Result<ValueModel, RuntimeError> {
    match r {
        Ok(v) => Ok(v@),
        Err(e) => Err(e),
    }
}

/// Evaluation of `e` in `env`: its result and the environment after it.
/// `None` where the result depends on the host's double arithmetic.
pub open spec fn eval_spec(e: Expr, env: Map<Seq<char>, ValueModel>) -> Option<
    (Result<ValueModel, RuntimeError>, Map<Seq<char>, ValueModel>),
>
    decreases e,
{
    match e {
        Expr::Literal { value } => Some((Ok(value@), env)),
        Expr::Grouping { expression } => eval_spec(*expression, env),
        Expr::Variable { name } => if env.contains_key(name.lexeme@) {
            Some((Ok(env[name.lexeme@]), env))
        } else {
            Some(
                (
                    Err(RuntimeError::UndefinedVariable { name: name.lexeme, line: name.line }),
                    env,
                ),
            )
        },
        Expr::Assign { name, value } => match eval_spec(*value, env) {
            Some((Ok(v), env1)) => if env1.contains_key(name.lexeme@) {
                Some((Ok(v), env1.insert(name.lexeme@, v)))
            } else {
                Some(
                    (
                        Err(RuntimeError::UndefinedVariable { name: name.lexeme, line: name.line }),
                        env1,
                    ),
                )
            },
            other => other,
        },
        Expr::Unary { operator, right } => match eval_spec(*right, env) {
            Some((Ok(v), env1)) => Some((unary_spec(operator.token_type, v), env1)),
            other => other,
        },
        Expr::Binary { left, operator, right } => match eval_spec(*left, env) {
            Some((Ok(lv), env1)) => match eval_spec(*right, env1) {
                Some((Ok(rv), env2)) => match binary_spec(operator.token_type, lv, rv) {
                    Some(res) => Some((res, env2)),
                    None => None,
                },
                other => other,
            },
            other => other,
        },
        _ => Some((Err(RuntimeError::NotImplemented), env)),
    }
}

/// One answer of the host's arithmetic: the operation asked, its operands,
/// and the number it gave.
pub struct HostAnswer {
    pub op: ArithOp,
    pub left: Number,
    pub right: Number,
    pub result: Number,
}

/// The arithmetic operation of a binary operator token.
pub open spec fn arith_op_of(k: TokenType) -> ArithOp {
    match k {
        TokenType::Minus => ArithOp::Difference,
        TokenType::Slash => ArithOp::Quotient,
        TokenType::Star => ArithOp::Product,
        _ => ArithOp::Sum,
    }
}

/// Evaluation of `e` in `env` when the host's arithmetic answers, in order,
/// with `answers`: the result, the environment after it, and the answers
/// left. Each operation on two numbers takes the next answer, which must be
/// for that operation and those operands; `None` where it is not. Every
/// other step is as the operators and the environment say.
pub open spec fn eval_with(
    e: Expr,
    env: Map<Seq<char>, ValueModel>,
    answers: Seq<HostAnswer>,
) -> Option<(Result<ValueModel, RuntimeError>, Map<Seq<char>, ValueModel>, Seq<HostAnswer>)>
    decreases e,
{
    match e {
        Expr::Literal { value } => Some((Ok(value@), env, answers)),
        Expr::Grouping { expression } => eval_with(*expression, env, answers),
        Expr::Variable { name } => if env.contains_key(name.lexeme@) {
            Some((Ok(env[name.lexeme@]), env, answers))
        } else {
            Some(
                (
                    Err(RuntimeError::UndefinedVariable { name: name.lexeme, line: name.line }),
                    env,
                    answers,
                ),
            )
        },
        Expr::Assign { name, value } => match eval_with(*value, env, answers) {
            Some((Ok(x), env1, n1)) => if env1.contains_key(name.lexeme@) {
                Some((Ok(x), env1.insert(name.lexeme@, x), n1))
            } else {
                Some(
                    (
                        Err(RuntimeError::UndefinedVariable { name: name.lexeme, line: name.line }),
                        env1,
                        n1,
                    ),
                )
            },
            other => other,
        },
        Expr::Unary { operator, right } => match eval_with(*right, env, answers) {
            Some((Ok(x), env1, n1)) => Some((unary_spec(operator.token_type, x), env1, n1)),
            other => other,
        },
        Expr::Binary { left, operator, right } => match eval_with(*left, env, answers) {
            Some((Ok(a), env1, n1)) => match eval_with(*right, env1, n1) {
                Some((Ok(b), env2, n2)) => match binary_spec(operator.token_type, a, b) {
                    Some(m) => Some((m, env2, n2)),
                    None => match (a, b) {
                        (ValueModel::Number(x), ValueModel::Number(y)) => if n2.len() > 0
                            && n2[0].op == arith_op_of(operator.token_type) && n2[0].left == x
                            && n2[0].right == y {
                            Some((Ok(ValueModel::Number(n2[0].result)), env2, n2.drop_first()))
                        } else {
                            None
                        },
                        _ => None,
                    },
                },
                other => other,
            },
            other => other,
        },
        _ => Some((Err(RuntimeError::NotImplemented), env, answers)),
    }
}

/// Execution of `s` in `env`: the value it prints, if any, or its error, and
/// the environment after it. `None` where that depends on the host's double
/// arithmetic.
pub open spec fn exec_spec(s: Stmt, env: Map<Seq<char>, ValueModel>) -> Option<
    (Result<Option<ValueModel>, RuntimeError>, Map<Seq<char>, ValueModel>),
> {
    match s {
        Stmt::Expression { expression } => match eval_spec(expression, env) {
            Some((Ok(_), env1)) => Some((Ok(None), env1)),
            Some((Err(e), env1)) => Some((Err(e), env1)),
            None => None,
        },
        Stmt::Print { expression } => match eval_spec(expression, env) {
            Some((Ok(v), env1)) => Some((Ok(Some(v)), env1)),
            Some((Err(e), env1)) => Some((Err(e), env1)),
            None => None,
        },
        Stmt::Var { name, initializer } => match initializer {
            None => Some((Ok(None), env.insert(name.lexeme@, ValueModel::Nil))),
            Some(init) => match eval_spec(init, env) {
                Some((Ok(v), env1)) => Some((Ok(None), env1.insert(name.lexeme@, v))),
                Some((Err(e), env1)) => Some((Err(e), env1)),
                None => None,
            },
        },
        _ => Some((Err(RuntimeError::NotImplemented), env)),
    }
}

/// Execution of `s` in `env` when the host's arithmetic answers with
/// `answers`: the value printed, if any, or the error, and the environment
/// after it; `None` where the answers do not fit.
pub open spec fn exec_with(s: Stmt, env: Map<Seq<char>, ValueModel>, answers: Seq<HostAnswer>) -> Option<
    (Result<Option<ValueModel>, RuntimeError>, Map<Seq<char>, ValueModel>),
> {
    match s {
        Stmt::Expression { expression } => match eval_with(expression, env, answers) {
            Some((Ok(_), env1, _)) => Some((Ok(None), env1)),
            Some((Err(e), env1, _)) => Some((Err(e), env1)),
            None => None,
        },
        Stmt::Print { expression } => match eval_with(expression, env, answers) {
            Some((Ok(x), env1, _)) => Some((Ok(Some(x)), env1)),
            Some((Err(e), env1, _)) => Some((Err(e), env1)),
            None => None,
        },
        Stmt::Var { name, initializer } => match initializer {
            None => Some((Ok(None), env.insert(name.lexeme@, ValueModel::Nil))),
            Some(init) => match eval_with(init, env, answers) {
                Some((Ok(x), env1, _)) => Some((Ok(None), env1.insert(name.lexeme@, x))),
                Some((Err(e), env1, _)) => Some((Err(e), env1)),
                None => None,
            },
        },
        _ => Some((Err(RuntimeError::NotImplemented), env)),
    }
}

/// Whether the outcome of `interpret` agrees with the modelled one: the same
/// error, no output, or the printed line of the value (for a number, the
/// host's text).
pub open spec fn outcome_agrees(
    r: Result<Option<String>, RuntimeError>,
    m: Result<Option<ValueModel>, RuntimeError>,
) -> bool {
    match m {
        Ok(None) => r == Ok::<Option<String>, RuntimeError>(None),
        Ok(Some(v)) => r matches Ok(Some(t)) && (render_spec(v) matches Some(text) ==> t@ == text),
        Err(e) => r == Err::<Option<String>, RuntimeError>(e),
    }
}

pub struct Interpreter {
    pub environment: Environment,
}

impl Interpreter {
    pub fn new() -> (r: Self)
        ensures
            r.environment.wf(),
            r.environment@ == Map::<Seq<char>, ValueModel>::empty(),
    {
        Interpreter { environment: Environment::new() }
    }

    /// Executes one statement. A print statement hands back its line of
    /// output; a runtime error is handed back rather than raised, and the
    /// caller goes on with the next statement.
    pub fn interpret<A: Arithmetic>(&mut self, stmt: Stmt, arith: &A) -> (r: Result<
        Option<String>,
        RuntimeError,
    >)
        requires
            old(self).environment.wf(),
        ensures
            final(self).environment.wf(),
            exec_spec(stmt, old(self).environment@) matches Some((m, env1)) ==> (
                final(self).environment@ == env1 && outcome_agrees(r, m)),
            exists|nums: Seq<HostAnswer>|
                #[trigger] exec_with(stmt, old(self).environment@, nums) matches Some((m, env1))
                    && env1 == final(self).environment@ && outcome_agrees(r, m),
    {
        let ghost env0 = self.environment@;
        let ghost whole = stmt;
        let ghost none = Seq::<HostAnswer>::empty();
        match stmt {
            Stmt::Expression { expression } => {
                let ghost e = expression;
                let (res, t) = self.evaluate(expression, arith);
                proof {
                    assert(t@ + none =~= t@);
                    assert(eval_with(e, env0, t@ + none) is Some);
                    assert(exec_with(whole, env0, t@) == Some((exec_with(whole, env0, t@)->Some_0.0, self.environment@)));
                }
                match res {
                    Ok(_) => Ok(None),
                    Err(e) => Err(e),
                }
            },
            Stmt::Print { expression } => {
                let ghost e = expression;
                let (res, t) = self.evaluate(expression, arith);
                proof {
                    assert(t@ + none =~= t@);
                    assert(eval_with(e, env0, t@ + none) is Some);
                    assert(exec_with(whole, env0, t@) == Some((exec_with(whole, env0, t@)->Some_0.0, self.environment@)));
                }
                match res {
                    Ok(val) => Ok(Some(val.render(arith))),
                    Err(e) => Err(e),
                }
            },
            Stmt::Var { name, initializer } => {
                let ghost trace: Seq<HostAnswer>;
                let val = match initializer {
                    Some(expr) => {
                        let ghost e = expr;
                        let (res, t) = self.evaluate(expr, arith);
                        proof {
                            assert(t@ + none =~= t@);
                            assert(eval_with(e, env0, t@ + none) is Some);
                            trace = t@;
                        }
                        res
                    },
                    None => {
                        proof {
                            trace = none;
                        }
                        Ok(Value::Nil)
                    },
                };
                match val {
                    Ok(v) => {
                        self.environment.define(name.lexeme, v);
                        proof {
                            assert(exec_with(whole, env0, trace) == Some((exec_with(whole, env0, trace)->Some_0.0, self.environment@)));
                        }
                        Ok(None)
                    },
                    Err(e) => {
                        proof {
                            assert(exec_with(whole, env0, trace) == Some((exec_with(whole, env0, trace)->Some_0.0, self.environment@)));
                        }
                        Err(e)
                    },
                }
            },
            _ => {
                proof {
                    assert(exec_with(whole, env0, none) == Some((exec_with(whole, env0, none)->Some_0.0, self.environment@)));
                }
                Err(RuntimeError::NotImplemented)
            },
        }
    }

    /// Evaluates an expression; the ghost part of the result is the host's
    /// arithmetic answers, each with the operation and operands it was for,
    /// in order.
    fn evaluate<A: Arithmetic>(&mut self, expr: Expr, arith: &A) -> (r: (
        Result<Value, RuntimeError>,
        Ghost<Seq<HostAnswer>>,
    ))
        requires
            old(self).environment.wf(),
        ensures
            final(self).environment.wf(),
            eval_spec(expr, old(self).environment@) matches Some((m, env1)) ==> (result_view(r.0)
                == m && final(self).environment@ == env1),
            forall|rest: Seq<HostAnswer>|
                #[trigger] eval_with(expr, old(self).environment@, r.1@ + rest) == Some(
                    (
                    result_view(r.0),
                    final(self).environment@,
                    rest,
                ),
                ),
        decreases expr,
    {
        let ghost env0 = self.environment@;
        let ghost whole = expr;
        let ghost none = Seq::<HostAnswer>::empty();
        proof {
            assert forall|rest: Seq<HostAnswer>| none + rest == rest by {
                assert(none + rest =~= rest);
            }
        }
        match expr {
            Expr::Assign { name, value } => {
                let ghost sub = *value;
                let (val, t) = self.evaluate(*value, arith);
                let res = match val {
                    Ok(v) => self.environment.assign(name, v),
                    Err(e) => Err(e),
                };
                proof {
                    assert forall|rest: Seq<HostAnswer>|
                        #[trigger] eval_with(whole, env0, t@ + rest) == Some(
                            (
                            result_view(res),
                            self.environment@,
                            rest,
                        ),
                        ) by {
                        assert(eval_with(sub, env0, t@ + rest) is Some);
                    }
                }
                (res, t)
            },
            Expr::Variable { name } => {
                let res = self.environment.get(&name);
                proof {
                    assert forall|rest: Seq<HostAnswer>|
                        #[trigger] eval_with(whole, env0, none + rest) == Some(
                            (
                            result_view(res),
                            self.environment@,
                            rest,
                        ),
                        ) by {
                        assert(none + rest == rest);
                    }
                }
                (res, Ghost(none))
            },
            Expr::Literal { value } => {
                proof {
                    assert forall|rest: Seq<HostAnswer>|
                        #[trigger] eval_with(whole, env0, none + rest) == Some(
                            (
                            result_view(Ok::<Value, RuntimeError>(value)),
                            self.environment@,
                            rest,
                        ),
                        ) by {
                        assert(none + rest == rest);
                    }
                }
                (Ok(value), Ghost(none))
            },
            Expr::Grouping { expression } => {
                let ghost sub = *expression;
                let (res, t) = self.evaluate(*expression, arith);
                proof {
                    assert forall|rest: Seq<HostAnswer>|
                        #[trigger] eval_with(whole, env0, t@ + rest) == Some(
                            (
                            result_view(res),
                            self.environment@,
                            rest,
                        ),
                        ) by {
                        assert(eval_with(sub, env0, t@ + rest) is Some);
                    }
                }
                (res, t)
            },
            Expr::Unary { operator, right } => {
                let ghost sub = *right;
                let (res, t) = self.evaluate(*right, arith);
                let out = match res {
                    Ok(right) => match operator.token_type {
                        TokenType::Bang => Ok(Value::Boolean(!self.is_truthy(right))),
                        TokenType::Minus => match right {
                            Value::Number(num) => Ok(Value::Number(num.negated())),
                            _ => Err(RuntimeError::InvalidOperand),
                        },
                        _ => Err(RuntimeError::UnknownOperator),
                    },
                    Err(e) => Err(e),
                };
                proof {
                    assert forall|rest: Seq<HostAnswer>|
                        #[trigger] eval_with(whole, env0, t@ + rest) == Some(
                            (
                            result_view(out),
                            self.environment@,
                            rest,
                        ),
                        ) by {
                        assert(eval_with(sub, env0, t@ + rest) is Some);
                    }
                }
                (out, t)
            },
            Expr::Binary { left, operator, right } => {
                let ghost lsub = *left;
                let ghost rsub = *right;
                let (lres, lt) = self.evaluate(*left, arith);
                let ghost env1 = self.environment@;
                let left = match lres {
                    Ok(v) => v,
                    Err(e) => {
                        proof {
                            assert forall|rest: Seq<HostAnswer>|
                                #[trigger] eval_with(whole, env0, lt@ + rest) == Some(
                                    (
                                    result_view(Err::<Value, RuntimeError>(e)),
                                    self.environment@,
                                    rest,
                                ),
                                ) by {
                                assert(eval_with(lsub, env0, lt@ + rest) is Some);
                            }
                        }
                        return (Err(e), lt);
                    },
                };
                let (rres, rt) = self.evaluate(*right, arith);
                let right = match rres {
                    Ok(v) => v,
                    Err(e) => {
                        proof {
                            assert forall|rest: Seq<HostAnswer>|
                                #[trigger] eval_with(whole, env0, (lt@ + rt@) + rest) == Some(
                                    (
                                    result_view(Err::<Value, RuntimeError>(e)),
                                    self.environment@,
                                    rest,
                                ),
                                ) by {
                                assert((lt@ + rt@) + rest =~= lt@ + (rt@ + rest));
                                assert(eval_with(lsub, env0, lt@ + (rt@ + rest)) is Some);
                                assert(eval_with(rsub, env1, rt@ + rest) is Some);
                            }
                        }
                        return (Err(e), Ghost(lt@ + rt@));
                    },
                };
                let ghost a = left@;
                let ghost b = right@;
                let op = operator.token_type;
                let out = self.binary(op, left, right, arith);
                let ghost ans = HostAnswer {
                    op: arith_op_of(op),
                    left: a->Number_0,
                    right: b->Number_0,
                    result: out->Ok_0->Number_0,
                };
                let ghost drawn = if binary_spec(op, a, b) is None {
                    lt@ + rt@ + seq![ans]
                } else {
                    lt@ + rt@
                };
                proof {
                    assert forall|rest: Seq<HostAnswer>|
                        #[trigger] eval_with(whole, env0, drawn + rest) == Some(
                            (
                            result_view(out),
                            self.environment@,
                            rest,
                        ),
                        ) by {
                        let tail = if binary_spec(op, a, b) is None {
                            seq![ans] + rest
                        } else {
                            rest
                        };
                        assert(drawn + rest =~= lt@ + (rt@ + tail));
                        assert(eval_with(lsub, env0, lt@ + (rt@ + tail)) is Some);
                        assert(eval_with(rsub, env1, rt@ + tail) is Some);
                        if binary_spec(op, a, b) is None {
                            assert(a is Number && b is Number);
                            assert(tail[0] == ans);
                            assert(tail.drop_first() =~= rest);
                        }
                    }
                }
                (out, Ghost(drawn))
            },
            _ => {
                proof {
                    assert forall|rest: Seq<HostAnswer>|
                        #[trigger] eval_with(whole, env0, none + rest) == Some(
                            (
                            result_view(Err::<Value, RuntimeError>(RuntimeError::NotImplemented)),
                            self.environment@,
                            rest,
                        ),
                        ) by {
                        assert(none + rest == rest);
                    }
                }
                (Err(RuntimeError::NotImplemented), Ghost(none))
            },
        }
    }

    /// Applies a binary operator to two evaluated operands.
    pub fn binary<A: Arithmetic>(
        &self,
        op: TokenType,
        left: Value,
        right: Value,
        arith: &A,
    ) -> (r: Result<Value, RuntimeError>)
        ensures
            binary_spec(op, left@, right@) matches Some(m) ==> result_view(r) == m,
            binary_spec(op, left@, right@) is None ==> r matches Ok(Value::Number(_)),
    {
        match op {
            TokenType::Greater | TokenType::GreaterEqual | TokenType::Less | TokenType::LessEqual => {
                match (left, right) {
                    (Value::Number(a), Value::Number(b)) => {
                        let res = match op {
                            TokenType::Greater => b.less_than(&a),
                            TokenType::GreaterEqual => b.at_most(&a),
                            TokenType::Less => a.less_than(&b),
                            _ => a.at_most(&b),
                        };
                        Ok(Value::Boolean(res))
                    },
                    _ => Err(RuntimeError::OperandsMustBeNumbers),
                }
            },
            TokenType::Minus | TokenType::Slash | TokenType::Star => match (left, right) {
                (Value::Number(a), Value::Number(b)) => {
                    let aop = match op {
                        TokenType::Minus => ArithOp::Difference,
                        TokenType::Slash => ArithOp::Quotient,
                        _ => ArithOp::Product,
                    };
                    Ok(Value::Number(arith.apply(aop, a, b)))
                },
                _ => Err(RuntimeError::OperandsMustBeNumbers),
            },
            TokenType::Plus => match (left, right) {
                (Value::String(lstr), Value::String(rstr)) => {
                    let mut s = lstr;
                    s.append(rstr.as_str());
                    Ok(Value::String(s))
                },
                (Value::Number(a), Value::Number(b)) => Ok(
                    Value::Number(arith.apply(ArithOp::Sum, a, b)),
                ),
                _ => Err(RuntimeError::InvalidPlusOperands),
            },
            TokenType::BangEqual => Ok(Value::Boolean(!self.is_equal(left, right))),
            TokenType::EqualEqual => Ok(Value::Boolean(self.is_equal(left, right))),
            _ => Err(RuntimeError::UnknownOperator),
        }
    }

    pub fn is_equal(&self, left: Value, right: Value) -> (r: bool)
        ensures
            r == values_equal(left@, right@),
    {
        match (left, right) {
            (Value::String(lstr), Value::String(rstr)) => lstr == rstr,
            (Value::Number(lnum), Value::Number(rnum)) => lnum.equals(&rnum),
            (Value::Boolean(lbool), Value::Boolean(rbool)) => lbool == rbool,
            (Value::Nil, Value::Nil) => true,
            (_, _) => false,
        }
    }

    pub fn is_truthy(&self, val: Value) -> (r: bool)
        ensures
            r == truthy(val@),
    {
        match val {
            Value::Nil => false,
            Value::Boolean(boolean) => boolean,
            _ => true,
        }
    }
}

} // verus!
