//! Recursive-descent parsing of a token sequence into statements, with
//! recovery at statement boundaries after a syntax error.
use vstd::prelude::*;

use crate::ast::{Arithmetic, Expr, Stmt, Value, ValueModel};
use crate::environment::RuntimeError;
use crate::interpreter::{eval_spec, exec_spec};
use crate::scanner::{Token, TokenType};
use crate::Lox;

verus! {

pub open spec fn is_equality_op(t: TokenType) -> bool {
    t == TokenType::BangEqual || t == TokenType::EqualEqual
}

pub open spec fn is_comparison_op(t: TokenType) -> bool {
    t == TokenType::Greater || t == TokenType::GreaterEqual || t == TokenType::Less || t
        == TokenType::LessEqual
}

pub open spec fn is_term_op(t: TokenType) -> bool {
    t == TokenType::Minus || t == TokenType::Plus
}

pub open spec fn is_factor_op(t: TokenType) -> bool {
    t == TokenType::Slash || t == TokenType::Star
}

pub open spec fn is_binary_op(t: TokenType) -> bool {
    is_equality_op(t) || is_comparison_op(t) || is_term_op(t) || is_factor_op(t)
}

/// A primary expression: a literal, a variable, or a parenthesized expression.
pub open spec fn primary_shape(e: Expr) -> bool
    decreases e, 0nat,
{
    match e {
        Expr::Literal { .. } => true,
        Expr::Variable { name } => name.token_type == TokenType::Identifier,
        Expr::Grouping { expression } => expression_shape(*expression),
        _ => false,
    }
}

/// `!` or `-` applied to a unary expression, or a primary one.
pub open spec fn unary_shape(e: Expr) -> bool
    decreases e, 1nat,
{
    match e {
        Expr::Unary { operator, right } => (operator.token_type == TokenType::Bang
            || operator.token_type == TokenType::Minus) && unary_shape(*right),
        _ => primary_shape(e),
    }
}

/// `*` and `/` over unary operands, grouped to the left.
pub open spec fn factor_shape(e: Expr) -> bool
    decreases e, 2nat,
{
    match e {
        Expr::Binary { left, operator, right } => if is_factor_op(operator.token_type) {
            factor_shape(*left) && unary_shape(*right)
        } else {
            unary_shape(e)
        },
        _ => unary_shape(e),
    }
}

/// `+` and `-` over factors, grouped to the left.
pub open spec fn term_shape(e: Expr) -> bool
    decreases e, 3nat,
{
    match e {
        Expr::Binary { left, operator, right } => if is_term_op(operator.token_type) {
            term_shape(*left) && factor_shape(*right)
        } else {
            factor_shape(e)
        },
        _ => factor_shape(e),
    }
}

/// Comparisons over terms, grouped to the left.
pub open spec fn comparison_shape(e: Expr) -> bool
    decreases e, 4nat,
{
    match e {
        Expr::Binary { left, operator, right } => if is_comparison_op(operator.token_type) {
            comparison_shape(*left) && term_shape(*right)
        } else {
            term_shape(e)
        },
        _ => term_shape(e),
    }
}

/// `==` and `!=` over comparisons, grouped to the left.
pub open spec fn equality_shape(e: Expr) -> bool
    decreases e, 5nat,
{
    match e {
        Expr::Binary { left, operator, right } => if is_equality_op(operator.token_type) {
            equality_shape(*left) && comparison_shape(*right)
        } else {
            comparison_shape(e)
        },
        _ => comparison_shape(e),
    }
}

/// An expression as the grammar builds it: an assignment to a variable,
/// grouped to the right, or an equality.
pub open spec fn expression_shape(e: Expr) -> bool
    decreases e, 6nat,
{
    match e {
        Expr::Assign { name, value } => name.token_type == TokenType::Identifier
            && expression_shape(*value),
        _ => equality_shape(e),
    }
}

/// A factor holds no `+` or `-` at its top.
pub proof fn lemma_factor_top(e: Expr)
    requires
        factor_shape(e),
    ensures
        !(e matches Expr::Binary { operator, .. } && is_term_op(operator.token_type)),
{
    if let Expr::Binary { operator, .. } = e {
        if is_term_op(operator.token_type) {
            assert(!is_factor_op(operator.token_type));
            assert(!primary_shape(e));
            assert(!unary_shape(e));
        }
    }
}

/// Below every operator level, an expression with no operator at its top is
/// judged as a primary expression.
pub proof fn lemma_plain_shape(e: Expr)
    requires
        !(e is Binary),
        !(e is Unary),
    ensures
        unary_shape(e) == primary_shape(e),
        factor_shape(e) == primary_shape(e),
        term_shape(e) == primary_shape(e),
        comparison_shape(e) == primary_shape(e),
        equality_shape(e) == primary_shape(e),
        !(e is Assign) ==> expression_shape(e) == primary_shape(e),
{
    assert(unary_shape(e) == primary_shape(e));
    assert(factor_shape(e) == unary_shape(e));
    assert(term_shape(e) == factor_shape(e));
    assert(comparison_shape(e) == term_shape(e));
    assert(equality_shape(e) == comparison_shape(e));
}

/// Each precedence level takes in the tighter ones.
pub proof fn lemma_shapes_widen(e: Expr)
    ensures
        primary_shape(e) ==> unary_shape(e),
        unary_shape(e) ==> factor_shape(e),
        factor_shape(e) ==> term_shape(e),
        term_shape(e) ==> comparison_shape(e),
        comparison_shape(e) ==> equality_shape(e),
        equality_shape(e) ==> expression_shape(e),
{
    match e {
        Expr::Binary { operator, .. } => {
            let t = operator.token_type;
            assert(!primary_shape(e));
            assert(!unary_shape(e));
            if !is_factor_op(t) {
                assert(!factor_shape(e));
                if !is_term_op(t) {
                    assert(!term_shape(e));
                    if !is_comparison_op(t) {
                        assert(!comparison_shape(e));
                    }
                }
            }
        },
        Expr::Unary { .. } => {
            assert(!primary_shape(e));
        },
        _ => {
            lemma_plain_shape(e);
        },
    }
}

/// Operators of one precedence level group to the left: in a term whose top
/// operator is `+` or `-`, the right operand is a factor, so it has no `+` or
/// `-` at its top (`a - b - c` is `(a - b) - c`).
pub proof fn lemma_terms_group_left(left: Expr, operator: crate::scanner::Token, right: Expr)
    requires
        is_term_op(operator.token_type),
        term_shape(Expr::Binary { left: Box::new(left), operator, right: Box::new(right) }),
    ensures
        term_shape(left),
        !(right matches Expr::Binary { operator, .. } && is_term_op(operator.token_type)),
{
    lemma_factor_top(right);
}

/// The operands of a parsed binary or unary expression are parsed
/// expressions, and its operator is one the evaluator knows.
proof fn lemma_operator_parts(e: Expr)
    requires
        expression_shape(e),
    ensures
        e matches Expr::Binary { left, operator, right } ==> is_binary_op(operator.token_type)
            && expression_shape(*left) && expression_shape(*right),
        e matches Expr::Unary { operator, right } ==> (operator.token_type == TokenType::Bang
            || operator.token_type == TokenType::Minus) && expression_shape(*right),
        e matches Expr::Grouping { expression } ==> expression_shape(*expression),
        e is Literal || e is Variable || e is Grouping || e is Binary || e is Unary || e is Assign,
{
    match e {
        Expr::Binary { left, operator, right } => {
            let t = operator.token_type;
            let (l, r) = (*left, *right);
            lemma_shapes_widen(l);
            lemma_shapes_widen(r);
            assert(equality_shape(e));
            if is_equality_op(t) {
                assert(equality_shape(l) && comparison_shape(r));
            } else {
                assert(comparison_shape(e));
                if is_comparison_op(t) {
                    assert(comparison_shape(l) && term_shape(r));
                } else {
                    assert(term_shape(e));
                    if is_term_op(t) {
                        assert(term_shape(l) && factor_shape(r));
                    } else {
                        assert(factor_shape(e));
                        if is_factor_op(t) {
                            assert(factor_shape(l) && unary_shape(r));
                        } else {
                            assert(!primary_shape(e));
                            assert(!unary_shape(e));
                        }
                    }
                }
            }
        },
        Expr::Unary { operator, right } => {
            assert(equality_shape(e));
            assert(comparison_shape(e));
            assert(term_shape(e));
            assert(factor_shape(e));
            assert(unary_shape(e));
            lemma_shapes_widen(*right);
        },
        Expr::Assign { .. } => {},
        _ => {
            lemma_plain_shape(e);
        },
    }
}

/// Trees that the parser builds stay inside the implemented subset: their
/// evaluation never fails as not implemented or with an unknown operator.
pub proof fn lemma_parsed_expr_supported(e: Expr, env: Map<Seq<char>, ValueModel>)
    requires
        expression_shape(e),
    ensures
        eval_spec(e, env) matches Some((Err(err), _)) ==> !(err is NotImplemented)
            && !(err is UnknownOperator),
    decreases e,
{
    lemma_operator_parts(e);
    match e {
        Expr::Grouping { expression } => {
            lemma_parsed_expr_supported(*expression, env);
        },
        Expr::Assign { name, value } => {
            lemma_parsed_expr_supported(*value, env);
        },
        Expr::Unary { operator, right } => {
            lemma_parsed_expr_supported(*right, env);
        },
        Expr::Binary { left, operator, right } => {
            lemma_parsed_expr_supported(*left, env);
            if let Some((Ok(_), env1)) = eval_spec(*left, env) {
                lemma_parsed_expr_supported(*right, env1);
            }
        },
        _ => {},
    }
}

/// The statements that the parser builds: print, expression and variable
/// declaration.
pub open spec fn parsed_stmt(s: Stmt) -> bool {
    match s {
        Stmt::Print { expression } => expression_shape(expression),
        Stmt::Expression { expression } => expression_shape(expression),
        Stmt::Var { name, initializer } => name.token_type == TokenType::Identifier && match initializer {
            Some(e) => expression_shape(e),
            None => true,
        },
        _ => false,
    }
}

/// The text of a string literal: its lexeme without the enclosing quotes.
pub open spec fn literal_text(lexeme: Seq<char>) -> Seq<char> {
    if lexeme.len() >= 2 {
        lexeme.subrange(1, lexeme.len() - 1)
    } else {
        lexeme
    }
}

/// A syntax error is contained: after a declaration that fails, parsing
/// resumes where recovery stops, every declaration parsed from there on is
/// still counted, and the error is flagged.
pub proof fn lemma_error_contained(t: Seq<(TokenType, Seq<char>, int)>, pos: int)
    requires
        0 <= pos < t.len(),
        kind_at(t, pos) != TokenType::EoF,
        !decl_parse(t, pos).0,
        pos < sync_parse(t, pos, decl_parse(t, pos).1) < t.len(),
    ensures
        program_parse(t, pos).0 == program_parse(t, sync_parse(t, pos, decl_parse(t, pos).1)).0,
        program_parse(t, pos).1,
        program_parse(t, pos).2 == decl_parse(t, pos).3 + program_parse(
            t,
            sync_parse(t, pos, decl_parse(t, pos).1),
        ).2,
{
}

/// Statements that the parser builds never fail as not implemented or with
/// an unknown operator.
pub proof fn lemma_parsed_stmt_supported(s: Stmt, env: Map<Seq<char>, ValueModel>)
    requires
        parsed_stmt(s),
    ensures
        exec_spec(s, env) matches Some((Err(err), _)) ==> !(err is NotImplemented)
            && !(err is UnknownOperator),
{
    match s {
        Stmt::Print { expression } => lemma_parsed_expr_supported(expression, env),
        Stmt::Expression { expression } => lemma_parsed_expr_supported(expression, env),
        Stmt::Var { name, initializer } => {
            if let Some(init) = initializer {
                lemma_parsed_expr_supported(init, env);
            }
        },
        _ => {},
    }
}

/// Keywords at which recovery after a syntax error stops.
pub open spec fn starts_statement(t: TokenType) -> bool {
    t == TokenType::Class || t == TokenType::Fun || t == TokenType::Var || t == TokenType::For
        || t == TokenType::If || t == TokenType::While || t == TokenType::Print || t
        == TokenType::Return
}

/// Kind of the token at `i`; outside the sequence, the end of input.
pub open spec fn kind_at(t: Seq<(TokenType, Seq<char>, int)>, i: int) -> TokenType {
    if 0 <= i < t.len() {
        t[i].0
    } else {
        TokenType::EoF
    }
}

/// The token at `i` has kind `k`, and `k` is not the end of input.
pub open spec fn has_kind(t: Seq<(TokenType, Seq<char>, int)>, i: int, k: TokenType) -> bool {
    kind_at(t, i) != TokenType::EoF && kind_at(t, i) == k
}

/// The binary operators of precedence level `level` (factor 2, term 3,
/// comparison 4, equality 5).
pub open spec fn level_op(level: int, k: TokenType) -> bool {
    if level == 2 {
        is_factor_op(k)
    } else if level == 3 {
        is_term_op(k)
    } else if level == 4 {
        is_comparison_op(k)
    } else {
        is_equality_op(k)
    }
}

/// The syntax tree of an expression over token views (kind, lexeme, line).
/// A literal keeps its token kind and lexeme: a number's value is the host's
/// reading of that lexeme.
pub enum Syntax {
    Literal { kind: TokenType, lexeme: Seq<char> },
    Variable { name: (TokenType, Seq<char>, int) },
    Grouping { inner: Box<Syntax> },
    Unary { operator: (TokenType, Seq<char>, int), right: Box<Syntax> },
    Binary { left: Box<Syntax>, operator: (TokenType, Seq<char>, int), right: Box<Syntax> },
    Assign { name: (TokenType, Seq<char>, int), value: Box<Syntax> },
}

/// The syntax of a declaration.
pub enum StmtSyntax {
    Print { expression: Syntax },
    Expression { expression: Syntax },
    Var { name: (TokenType, Seq<char>, int), initializer: Option<Syntax> },
}

/// The tree standing for a failed parse; it is never used.
pub open spec fn no_syntax() -> Syntax {
    Syntax::Literal { kind: TokenType::Nil, lexeme: Seq::empty() }
}

/// The expression `e` is the tree `x`: the same nodes, operator tokens and
/// names, and literals of the same value (a number literal: some number).
pub open spec fn agrees(e: Expr, x: Syntax) -> bool
    decreases e,
{
    match e {
        Expr::Literal { value } => match x {
            Syntax::Literal { kind, lexeme } => if kind == TokenType::False {
                value@ == ValueModel::Boolean(false)
            } else if kind == TokenType::True {
                value@ == ValueModel::Boolean(true)
            } else if kind == TokenType::Nil {
                value@ == ValueModel::Nil
            } else if kind == TokenType::NumberLiteral {
                value@ is Number
            } else if kind == TokenType::StringLiteral {
                value@ == ValueModel::Text(literal_text(lexeme))
            } else {
                false
            },
            _ => false,
        },
        Expr::Variable { name } => x == Syntax::Variable { name: name@ },
        Expr::Grouping { expression } => match x {
            Syntax::Grouping { inner } => agrees(*expression, *inner),
            _ => false,
        },
        Expr::Unary { operator, right } => match x {
            Syntax::Unary { operator: o, right: r } => operator@ == o && agrees(*right, *r),
            _ => false,
        },
        Expr::Binary { left, operator, right } => match x {
            Syntax::Binary { left: l, operator: o, right: r } => operator@ == o && agrees(*left, *l)
                && agrees(*right, *r),
            _ => false,
        },
        Expr::Assign { name, value } => match x {
            Syntax::Assign { name: n, value: v } => name@ == n && agrees(*value, *v),
            _ => false,
        },
        _ => false,
    }
}

/// The statement `s` is the declaration `x`.
pub open spec fn stmt_agrees(s: Stmt, x: StmtSyntax) -> bool {
    match (s, x) {
        (Stmt::Print { expression }, StmtSyntax::Print { expression: y }) => agrees(expression, y),
        (Stmt::Expression { expression }, StmtSyntax::Expression { expression: y }) => agrees(
            expression,
            y,
        ),
        (Stmt::Var { name, initializer }, StmtSyntax::Var { name: n, initializer: i }) => name@
            == n && match (initializer, i) {
            (None, None) => true,
            (Some(e), Some(y)) => agrees(e, y),
            _ => false,
        },
        _ => false,
    }
}

/// The diagnostic with message `m` at the token at `k`.
pub open spec fn diag_at(t: Seq<(TokenType, Seq<char>, int)>, k: int, m: Seq<char>) -> Seq<char> {
    crate::error_spec(t[k].0, t[k].1, t[k].2 as nat, m)
}

/// Parsing an expression of precedence `level` (primary 0, unary 1, the
/// binary levels 2 to 5, assignment 6) from position `pos`: whether it
/// succeeds, the position reached (after the expression, or at the token
/// where it failed), the tree built, and the diagnostics recorded.
pub open spec fn expr_parse(t: Seq<(TokenType, Seq<char>, int)>, pos: int, level: int) -> (
    bool,
    int,
    Syntax,
    Seq<Seq<char>>,
)
    decreases t.len() - pos, level, 0int,
{
    if !(0 <= pos < t.len()) || level < 0 {
        (false, pos, no_syntax(), Seq::empty())
    } else if level == 0 {
        let k = kind_at(t, pos);
        if k == TokenType::EoF {
            (false, pos, no_syntax(), seq![diag_at(t, pos, "Expect expression."@)])
        } else if k == TokenType::False || k == TokenType::True || k == TokenType::Nil || k
            == TokenType::NumberLiteral || k == TokenType::StringLiteral {
            (true, pos + 1, Syntax::Literal { kind: k, lexeme: t[pos].1 }, Seq::empty())
        } else if k == TokenType::Identifier {
            (true, pos + 1, Syntax::Variable { name: t[pos] }, Seq::empty())
        } else if k == TokenType::LeftParen {
            let (ok, p, x, d) = expr_parse(t, pos + 1, 6);
            if !ok {
                (false, p, x, d)
            } else if has_kind(t, p, TokenType::RightParen) {
                (true, p + 1, Syntax::Grouping { inner: Box::new(x) }, d)
            } else {
                (false, p, x, d.push(diag_at(t, p, "Expect ')' after expression."@)))
            }
        } else {
            (false, pos, no_syntax(), seq![diag_at(t, pos, "Expect expression."@)])
        }
    } else if level == 1 {
        if has_kind(t, pos, TokenType::Bang) || has_kind(t, pos, TokenType::Minus) {
            let (ok, p, x, d) = expr_parse(t, pos + 1, 1);
            (ok, p, Syntax::Unary { operator: t[pos], right: Box::new(x) }, d)
        } else {
            expr_parse(t, pos, 0)
        }
    } else if level <= 5 {
        let (ok, p, x, d) = expr_parse(t, pos, level - 1);
        if ok && pos < p < t.len() {
            let (ok2, q, y, d2) = fold_parse(t, p, level, x);
            (ok2, q, y, d + d2)
        } else {
            (ok, p, x, d)
        }
    } else {
        let (ok, p, x, d) = expr_parse(t, pos, 5);
        if ok && pos < p < t.len() && has_kind(t, p, TokenType::Equal) {
            let (ok2, q, y, d2) = expr_parse(t, p + 1, 6);
            if !ok2 {
                (false, q, y, d + d2)
            } else {
                match x {
                    Syntax::Variable { name } => (
                        true,
                        q,
                        Syntax::Assign { name, value: Box::new(y) },
                        d + d2,
                    ),
                    _ => (false, q, y, (d + d2).push(diag_at(t, p, "Invalid assignment target."@))),
                }
            }
        } else {
            (ok, p, x, d)
        }
    }
}

/// The rest of a binary level from `p`, after the operands so far, whose
/// tree is `acc`: each operator of the level and an operand of the next
/// tighter level, folded to the left.
pub open spec fn fold_parse(t: Seq<(TokenType, Seq<char>, int)>, p: int, level: int, acc: Syntax) -> (
    bool,
    int,
    Syntax,
    Seq<Seq<char>>,
)
    decreases t.len() - p, level, 1int,
{
    if 0 <= p < t.len() && 2 <= level && has_kind(t, p, t[p].0) && level_op(level, t[p].0) {
        let (ok, q, y, d) = expr_parse(t, p + 1, level - 1);
        let next = Syntax::Binary { left: Box::new(acc), operator: t[p], right: Box::new(y) };
        if ok && p < q < t.len() {
            let (ok2, q2, z, d2) = fold_parse(t, q, level, next);
            (ok2, q2, z, d + d2)
        } else {
            (ok, q, next, d)
        }
    } else {
        (true, p, acc, Seq::empty())
    }
}

/// An expression from `s` and the semicolon after it; the semicolon is
/// consumed even after a failed expression.
pub open spec fn terminated_parse(t: Seq<(TokenType, Seq<char>, int)>, s: int) -> (
    bool,
    int,
    Syntax,
    Seq<Seq<char>>,
) {
    let (ok, e, x, d) = expr_parse(t, s, 6);
    if has_kind(t, e, TokenType::Semicolon) {
        (ok, e + 1, x, d)
    } else {
        (false, e, x, d.push(diag_at(t, e, "Expect ';' after value."@)))
    }
}

/// A variable declaration after its `var`: a name, an optional `=` and
/// initializer, and a semicolon.
pub open spec fn var_rest_parse(t: Seq<(TokenType, Seq<char>, int)>, q: int) -> (
    bool,
    int,
    StmtSyntax,
    Seq<Seq<char>>,
) {
    if has_kind(t, q, TokenType::Identifier) {
        if has_kind(t, q + 1, TokenType::Equal) {
            let (ok, e, x, d) = expr_parse(t, q + 2, 6);
            let v = StmtSyntax::Var { name: t[q], initializer: Some(x) };
            if !ok {
                (false, e, v, d)
            } else if has_kind(t, e, TokenType::Semicolon) {
                (true, e + 1, v, d)
            } else {
                (false, e, v, d.push(diag_at(t, e, "Expect ';' after variable declaration."@)))
            }
        } else if has_kind(t, q + 1, TokenType::Semicolon) {
            (true, q + 2, StmtSyntax::Var { name: t[q], initializer: None }, Seq::empty())
        } else {
            (
                false,
                q + 1,
                StmtSyntax::Var { name: t[q], initializer: None },
                seq![diag_at(t, q + 1, "Expect ';' after variable declaration."@)],
            )
        }
    } else {
        (
            false,
            q,
            StmtSyntax::Expression { expression: no_syntax() },
            seq![diag_at(t, q, "Expect variable name."@)],
        )
    }
}

/// A print statement or an expression statement from `pos`.
pub open spec fn stmt_parse(t: Seq<(TokenType, Seq<char>, int)>, pos: int) -> (
    bool,
    int,
    StmtSyntax,
    Seq<Seq<char>>,
) {
    if has_kind(t, pos, TokenType::Print) {
        let (ok, e, x, d) = terminated_parse(t, pos + 1);
        (ok, e, StmtSyntax::Print { expression: x }, d)
    } else {
        let (ok, e, x, d) = terminated_parse(t, pos);
        (ok, e, StmtSyntax::Expression { expression: x }, d)
    }
}

/// Parsing one declaration from `pos`: whether it succeeds, the position
/// reached (after it, or where it failed), its syntax, and the diagnostics
/// recorded.
pub open spec fn decl_parse(t: Seq<(TokenType, Seq<char>, int)>, pos: int) -> (
    bool,
    int,
    StmtSyntax,
    Seq<Seq<char>>,
) {
    if has_kind(t, pos, TokenType::Var) {
        var_rest_parse(t, pos + 1)
    } else {
        stmt_parse(t, pos)
    }
}

/// Recovery scan from `c`: up to the end of input, a token just after a
/// semicolon, or a statement keyword.
pub open spec fn sync_scan(t: Seq<(TokenType, Seq<char>, int)>, c: int) -> int
    decreases t.len() - c,
{
    if !(0 < c < t.len()) || kind_at(t, c) == TokenType::EoF || kind_at(t, c - 1)
        == TokenType::Semicolon || starts_statement(kind_at(t, c)) {
        c
    } else {
        sync_scan(t, c + 1)
    }
}

/// Where recovery after a declaration that began at `start` and failed at
/// `cur` resumes.
pub open spec fn sync_parse(t: Seq<(TokenType, Seq<char>, int)>, start: int, cur: int) -> int {
    if cur > start && kind_at(t, cur - 1) == TokenType::Semicolon {
        cur
    } else {
        sync_scan(t, if kind_at(t, cur) != TokenType::EoF { cur + 1 } else { cur })
    }
}

/// Parsing declarations from `pos` to the end of input: the syntax of those
/// that succeed, in source order, whether any fails, and the diagnostics
/// recorded, in order.
pub open spec fn program_parse(t: Seq<(TokenType, Seq<char>, int)>, pos: int) -> (
    Seq<StmtSyntax>,
    bool,
    Seq<Seq<char>>,
)
    decreases t.len() - pos,
{
    if !(0 <= pos < t.len()) || kind_at(t, pos) == TokenType::EoF {
        (Seq::empty(), false, Seq::empty())
    } else {
        let (ok, e, x, d) = decl_parse(t, pos);
        if ok {
            if pos < e < t.len() {
                let (ss, h, dd) = program_parse(t, e);
                (seq![x] + ss, h, d + dd)
            } else {
                (Seq::empty(), false, d)
            }
        } else {
            let s = sync_parse(t, pos, e);
            if pos < s < t.len() {
                let (ss, h, dd) = program_parse(t, s);
                (ss, true, d + dd)
            } else {
                (Seq::empty(), true, d)
            }
        }
    }
}

/// The messages of the parser's syntax errors.
pub open spec fn parser_message(m: Seq<char>) -> bool {
    m == "Expect expression."@ || m == "Expect variable name."@ || m == "Expect ';' after variable declaration."@ || m
        == "Expect ';' after value."@ || m == "Expect ')' after expression."@ || m
        == "Invalid assignment target."@
}

/// `d` is a syntax diagnostic at one of the tokens `t`: its line, and "at
/// end" or its lexeme quoted, then one of the parser's messages.
pub open spec fn is_syntax_diagnostic(d: Seq<char>, t: Seq<(TokenType, Seq<char>, int)>) -> bool {
    exists|k: int, m: Seq<char>|
        0 <= k < t.len() && parser_message(m) && d == #[trigger] crate::error_spec(
            t[k].0,
            t[k].1,
            t[k].2 as nat,
            m,
        )
}

pub struct Parser {
    pub tokens: Vec<Token>,
    pub current: usize,
    pub had_error: bool,
    pub diagnostics: Vec<String>,
}

impl Parser {
    /// The token sequence ends in the end-of-input token, and the cursor
    /// never passes it.
    pub open spec fn wf(&self) -> bool {
        &&& self.tokens@.len() > 0
        &&& self.tokens@.last().token_type == TokenType::EoF
        &&& self.current < self.tokens@.len()
    }

    /// The tokens as (kind, lexeme, line), in order.
    pub open spec fn views(&self) -> Seq<(TokenType, Seq<char>, int)> {
        self.tokens@.map_values(|x: Token| x@)
    }

    /// The diagnostics recorded so far, as text.
    pub open spec fn diag_views(&self) -> Seq<Seq<char>> {
        self.diagnostics@.map_values(|d: String| d@)
    }

    pub open spec fn token_seq(&self) -> Seq<Token> {
        self.tokens@
    }

    pub open spec fn position(&self) -> int {
        self.current as int
    }

    pub open spec fn kind_at_cursor(&self) -> TokenType {
        self.tokens@[self.current as int].token_type
    }

    /// `self` is a later state of the same parse as `prev`.
    pub open spec fn advanced_from(&self, prev: &Parser) -> bool {
        &&& self.wf()
        &&& self.token_seq() == prev.token_seq()
        &&& prev.position() <= self.position()
        &&& prev.had_error ==> self.had_error
        &&& prev.diagnostics@.len() <= self.diagnostics@.len()
        &&& forall|i: int|
            0 <= i < prev.diagnostics@.len() ==> #[trigger] self.diagnostics@[i]
                == prev.diagnostics@[i]
        &&& forall|i: int|
            prev.diagnostics@.len() <= i < self.diagnostics@.len() ==> is_syntax_diagnostic(
                #[trigger] self.diagnostics@[i]@,
                self.views(),
            )
    }

    pub fn new(tokens: Vec<Token>) -> (r: Self)
        requires
            tokens@.len() > 0,
            tokens@.last().token_type == TokenType::EoF,
        ensures
            r.wf(),
            r.token_seq() == tokens@,
            r.position() == 0,
            !r.had_error,
            r.diagnostics@.len() == 0,
    {
        Self { tokens, current: 0, had_error: false, diagnostics: Vec::new() }
    }

    /// Parses declarations up to the end of input. A declaration that fails
    /// sets `had_error`, and parsing resumes after the next statement
    /// boundary; the statements parsed are handed back either way.
    pub fn parse<A: Arithmetic>(&mut self, arith: &A) -> (r: Result<Vec<Stmt>, String>)
        requires
            old(self).wf(),
        ensures
            final(self).advanced_from(old(self)),
            final(self).kind_at_cursor() == TokenType::EoF,
            r matches Ok(stmts) && forall|i: int| 0 <= i < stmts@.len() ==> parsed_stmt(
                #[trigger] stmts@[i],
            ),
            r matches Ok(stmts) && stmts@.len() == program_parse(
                old(self).views(),
                old(self).current as int,
            ).0.len() && forall|i: int|
                0 <= i < stmts@.len() ==> stmt_agrees(
                    #[trigger] stmts@[i],
                    program_parse(old(self).views(), old(self).current as int).0[i],
                ),
            forall|i: int|
                old(self).diagnostics@.len() <= i < final(self).diagnostics@.len()
                    ==> is_syntax_diagnostic(#[trigger] final(self).diagnostics@[i]@, old(self).views()),
            final(self).diag_views() == old(self).diag_views() + program_parse(
                old(self).views(),
                old(self).current as int,
            ).2,
            final(self).had_error == (old(self).had_error || program_parse(
                old(self).views(),
                old(self).current as int,
            ).1),
    {
        proof {
            assert(Seq::<StmtSyntax>::empty() + program_parse(self.views(), self.current as int).0
                =~= program_parse(self.views(), self.current as int).0);
        }
        let mut statements: Vec<Stmt> = Vec::new();
        let ghost mut done: Seq<StmtSyntax> = Seq::empty();
        let ghost mut done_d: Seq<Seq<char>> = Seq::empty();
        proof {
            assert(done_d + program_parse(self.views(), self.current as int).2
                =~= program_parse(self.views(), self.current as int).2);
            assert(self.diag_views() =~= old(self).diag_views() + done_d);
        }
        while !self.is_at_end()
            invariant
                self.advanced_from(old(self)),
                done + program_parse(self.views(), self.current as int).0 == program_parse(
                    old(self).views(),
                    old(self).current as int,
                ).0,
                statements@.len() == done.len(),
                done_d + program_parse(self.views(), self.current as int).2 == program_parse(
                    old(self).views(),
                    old(self).current as int,
                ).2,
                self.diag_views() == old(self).diag_views() + done_d,
                forall|i: int| 0 <= i < statements@.len() ==> stmt_agrees(#[trigger] statements@[i], done[i]),
                (self.had_error || program_parse(self.views(), self.current as int).1) == (old(
                    self,
                ).had_error || program_parse(old(self).views(), old(self).current as int).1),
                forall|i: int| 0 <= i < statements@.len() ==> parsed_stmt(#[trigger] statements@[i]),
            decreases self.tokens@.len() - self.current,
        {
            let before = self.current;
            let ghost d = decl_parse(self.views(), self.current as int);
            match self.declaration(arith) {
                Ok(decl) => {
                    statements.push(decl);
                    proof {
                        assert(done_d + d.3 + program_parse(self.views(), self.current as int).2
                            =~= done_d + (d.3 + program_parse(self.views(), self.current as int).2));
                        assert(self.diag_views() =~= old(self).diag_views() + (done_d + d.3));
                        done_d = done_d + d.3;
                        assert(done.push(d.2) + program_parse(self.views(), self.current as int).0
                            =~= done + (seq![d.2] + program_parse(self.views(), self.current as int).0));
                        done = done.push(d.2);
                    }
                },
                Err(_) => {
                    self.had_error = true;
                    self.synchronize(before);
                    proof {
                        assert(done_d + d.3 + program_parse(self.views(), self.current as int).2
                            =~= done_d + (d.3 + program_parse(self.views(), self.current as int).2));
                        assert(self.diag_views() =~= old(self).diag_views() + (done_d + d.3));
                        done_d = done_d + d.3;
                    }
                },
            }
        }
        Ok(statements)
    }

    fn declaration<A: Arithmetic>(&mut self, arith: &A) -> (r: Result<Stmt, String>)
        requires
            old(self).wf(),
        ensures
            final(self).advanced_from(old(self)),
            final(self).had_error == old(self).had_error,
            r matches Ok(s) ==> parsed_stmt(s) && final(self).position() > old(self).position(),
            (r is Ok) == decl_parse(old(self).views(), old(self).current as int).0,
            final(self).current == decl_parse(old(self).views(), old(self).current as int).1,
            r is Ok ==> stmt_agrees(r->Ok_0, decl_parse(old(self).views(), old(self).current as int).2),
            final(self).diag_views() == old(self).diag_views() + decl_parse(
                old(self).views(),
                old(self).current as int,
            ).3,
    {
        if self.match_token(vec![TokenType::Var]) {
            return self.var_declaration(arith);
        }
        self.statement(arith)
    }

    fn var_declaration<A: Arithmetic>(&mut self, arith: &A) -> (r: Result<Stmt, String>)
        requires
            old(self).wf(),
        ensures
            final(self).advanced_from(old(self)),
            final(self).had_error == old(self).had_error,
            r matches Ok(s) ==> parsed_stmt(s) && final(self).position() > old(self).position(),
            (r is Ok) == var_rest_parse(old(self).views(), old(self).current as int).0,
            final(self).current == var_rest_parse(old(self).views(), old(self).current as int).1,
            r is Ok ==> stmt_agrees(r->Ok_0, var_rest_parse(old(self).views(), old(self).current as int).2),
            final(self).diag_views() == old(self).diag_views() + var_rest_parse(
                old(self).views(),
                old(self).current as int,
            ).3,
    {
        let name = match self.consume(TokenType::Identifier, String::from_str("Expect variable name.")) {
            Ok(t) => t,
            Err(e) => return Err(e),
        };
        let initializer = if self.match_token(vec![TokenType::Equal]) {
            match self.expression(arith) {
                Ok(e) => Some(e),
                Err(e) => return Err(e),
            }
        } else {
            None
        };
        match self.consume(
            TokenType::Semicolon,
            String::from_str("Expect ';' after variable declaration."),
        ) {
            Ok(_) => {},
            Err(e) => return Err(e),
        }
        Ok(Stmt::Var { name, initializer })
    }

    fn statement<A: Arithmetic>(&mut self, arith: &A) -> (r: Result<Stmt, String>)
        requires
            old(self).wf(),
        ensures
            final(self).advanced_from(old(self)),
            final(self).had_error == old(self).had_error,
            r matches Ok(s) ==> parsed_stmt(s) && final(self).position() > old(self).position(),
            (r is Ok) == stmt_parse(old(self).views(), old(self).current as int).0,
            final(self).current == stmt_parse(old(self).views(), old(self).current as int).1,
            r is Ok ==> stmt_agrees(r->Ok_0, stmt_parse(old(self).views(), old(self).current as int).2),
            final(self).diag_views() == old(self).diag_views() + stmt_parse(
                old(self).views(),
                old(self).current as int,
            ).3,
    {
        if self.match_token(vec![TokenType::Print]) {
            return self.print_statement(arith);
        }
        self.expression_statement(arith)
    }

    fn print_statement<A: Arithmetic>(&mut self, arith: &A) -> (r: Result<Stmt, String>)
        requires
            old(self).wf(),
        ensures
            final(self).advanced_from(old(self)),
            final(self).had_error == old(self).had_error,
            r matches Ok(s) ==> parsed_stmt(s) && final(self).position() > old(self).position(),
            (r is Ok) == terminated_parse(old(self).views(), old(self).current as int).0,
            final(self).current == terminated_parse(old(self).views(), old(self).current as int).1,
            r is Ok ==> stmt_agrees(r->Ok_0, StmtSyntax::Print { expression: terminated_parse(old(self).views(), old(self).current as int).2 }),
            final(self).diag_views() == old(self).diag_views() + terminated_parse(
                old(self).views(),
                old(self).current as int,
            ).3,
    {
        let value = self.expression(arith);
        match self.consume(TokenType::Semicolon, String::from_str("Expect ';' after value.")) {
            Ok(_) => {},
            Err(e) => return Err(e),
        }
        match value {
            Ok(val) => Ok(Stmt::Print { expression: val }),
            Err(_) => Err(String::from_str("Error printing statement.")),
        }
    }

    fn expression_statement<A: Arithmetic>(&mut self, arith: &A) -> (r: Result<Stmt, String>)
        requires
            old(self).wf(),
        ensures
            final(self).advanced_from(old(self)),
            final(self).had_error == old(self).had_error,
            r matches Ok(s) ==> parsed_stmt(s) && final(self).position() > old(self).position(),
            (r is Ok) == terminated_parse(old(self).views(), old(self).current as int).0,
            final(self).current == terminated_parse(old(self).views(), old(self).current as int).1,
            r is Ok ==> stmt_agrees(r->Ok_0, StmtSyntax::Expression { expression: terminated_parse(old(self).views(), old(self).current as int).2 }),
            final(self).diag_views() == old(self).diag_views() + terminated_parse(
                old(self).views(),
                old(self).current as int,
            ).3,
    {
        let value = self.expression(arith);
        match self.consume(TokenType::Semicolon, String::from_str("Expect ';' after value.")) {
            Ok(_) => {},
            Err(e) => return Err(e),
        }
        match value {
            Ok(val) => Ok(Stmt::Expression { expression: val }),
            Err(_) => Err(String::from_str("Error evaluating expression statement.")),
        }
    }

    fn expression<A: Arithmetic>(&mut self, arith: &A) -> (r: Result<Expr, String>)
        requires
            old(self).wf(),
        ensures
            final(self).advanced_from(old(self)),
            final(self).had_error == old(self).had_error,
            r matches Ok(e) ==> expression_shape(e) && final(self).position() > old(self).position(),
            (r is Ok) == expr_parse(old(self).views(), old(self).current as int, 6).0,
            final(self).current == expr_parse(old(self).views(), old(self).current as int, 6).1,
            r is Ok ==> ((r->Ok_0 is Variable) == (final(self).current == old(self).current + 1
                && old(self).kind_at_cursor() == TokenType::Identifier)),
            r is Ok ==> agrees(r->Ok_0, expr_parse(old(self).views(), old(self).current as int, 6).2),
            final(self).diag_views() == old(self).diag_views() + expr_parse(
                old(self).views(),
                old(self).current as int,
                6,
            ).3,
        decreases old(self).tokens@.len() - old(self).current, 7nat,
    {
        self.assignment(arith)
    }

    /// Assignment binds loosest and groups to the right; its target must be
    /// a variable.
    fn assignment<A: Arithmetic>(&mut self, arith: &A) -> (r: Result<Expr, String>)
        requires
            old(self).wf(),
        ensures
            final(self).advanced_from(old(self)),
            final(self).had_error == old(self).had_error,
            r matches Ok(e) ==> expression_shape(e) && final(self).position() > old(self).position(),
            (r is Ok) == expr_parse(old(self).views(), old(self).current as int, 6).0,
            final(self).current == expr_parse(old(self).views(), old(self).current as int, 6).1,
            r is Ok ==> ((r->Ok_0 is Variable) == (final(self).current == old(self).current + 1
                && old(self).kind_at_cursor() == TokenType::Identifier)),
            r is Ok ==> agrees(r->Ok_0, expr_parse(old(self).views(), old(self).current as int, 6).2),
            final(self).diag_views() == old(self).diag_views() + expr_parse(
                old(self).views(),
                old(self).current as int,
                6,
            ).3,
        decreases old(self).tokens@.len() - old(self).current, 6nat,
    {
        let expr = match self.equality(arith) {
            Ok(e) => e,
            Err(e) => return Err(e),
        };
        if self.match_token(vec![TokenType::Equal]) {
            let equals = self.previous().duplicate();
            let ghost k = self.current - 1;
            let value = match self.assignment(arith) {
                Ok(e) => e,
                Err(e) => return Err(e),
            };
            proof {
                if expr is Variable {
                    lemma_plain_shape(expr);
                }
            }
            return match expr {
                Expr::Variable { name } => Ok(Expr::Assign { name, value: Box::new(value) }),
                _ => {
                    let ghost before = *self;
                    let msg = self.parse_error(&equals, String::from_str("Invalid assignment target."));
                    proof {
                        assert(equals@ == self.views()[k]);
                        assert(parser_message("Invalid assignment target."@));
                        assert(msg@ == crate::error_spec(
                            self.views()[k].0,
                            self.views()[k].1,
                            self.views()[k].2 as nat,
                            "Invalid assignment target."@,
                        ));
                        assert(is_syntax_diagnostic(msg@, self.views()));
                    }
                    self.diagnostics.push(msg.clone());
                    proof {
                        assert(self.views() == before.views());
                        assert(self.diag_views() =~= before.diag_views().push(msg@));
                    }
                    Err(msg)
                },
            };
        }
        proof {
            lemma_shapes_widen(expr);
        }
        Ok(expr)
    }

    fn equality<A: Arithmetic>(&mut self, arith: &A) -> (r: Result<Expr, String>)
        requires
            old(self).wf(),
        ensures
            final(self).advanced_from(old(self)),
            final(self).had_error == old(self).had_error,
            r matches Ok(e) ==> equality_shape(e) && final(self).position() > old(self).position(),
            (r is Ok) == expr_parse(old(self).views(), old(self).current as int, 5).0,
            final(self).current == expr_parse(old(self).views(), old(self).current as int, 5).1,
            r is Ok ==> ((r->Ok_0 is Variable) == (final(self).current == old(self).current + 1
                && old(self).kind_at_cursor() == TokenType::Identifier)),
            r is Ok ==> agrees(r->Ok_0, expr_parse(old(self).views(), old(self).current as int, 5).2),
            final(self).diag_views() == old(self).diag_views() + expr_parse(
                old(self).views(),
                old(self).current as int,
                5,
            ).3,
        decreases old(self).tokens@.len() - old(self).current, 5nat,
    {
        let mut expr = match self.comparison(arith) {
            Ok(e) => e,
            Err(e) => return Err(e),
        };
        proof {
            lemma_shapes_widen(expr);
        }
        let ghost start = old(self).current;
        let ghost p0 = self.current as int;
        let ghost acc0 = expr_parse(self.views(), start as int, 4).2;
        let ghost mut acc = acc0;
        let ghost d_first = expr_parse(self.views(), start as int, 4).3;
        let ghost mut dsofar: Seq<Seq<char>> = Seq::empty();
        proof {
            assert(fold_parse(self.views(), p0, 5, acc0).3 =~= dsofar + fold_parse(self.views(), p0, 5, acc0).3);
            assert(self.diag_views() =~= old(self).diag_views() + d_first + dsofar);
        }
        while self.match_token(vec![TokenType::BangEqual, TokenType::EqualEqual])
            invariant
                self.advanced_from(old(self)),
                self.had_error == old(self).had_error,
                equality_shape(expr),
                self.current > start,
                start == old(self).current,
                p0 > start,
                p0 < self.tokens@.len(),
                expr_parse(self.views(), start as int, 4).0,
                expr_parse(self.views(), start as int, 4).1 == p0,
                expr_parse(self.views(), start as int, 4).2 == acc0,
                expr_parse(self.views(), start as int, 4).3 == d_first,
                fold_parse(self.views(), p0, 5, acc0).3 == dsofar + fold_parse(
                    self.views(),
                    self.current as int,
                    5,
                    acc,
                ).3,
                self.diag_views() == old(self).diag_views() + d_first + dsofar,
                agrees(expr, acc),
                (expr is Variable) == (self.current == start + 1 && self.tokens@[start as int].token_type
                    == TokenType::Identifier),
                fold_parse(self.views(), self.current as int, 5, acc).0 == fold_parse(
                    self.views(),
                    p0,
                    5,
                    acc0,
                ).0,
                fold_parse(self.views(), self.current as int, 5, acc).1 == fold_parse(
                    self.views(),
                    p0,
                    5,
                    acc0,
                ).1,
                fold_parse(self.views(), self.current as int, 5, acc).2 == fold_parse(
                    self.views(),
                    p0,
                    5,
                    acc0,
                ).2,
            decreases self.tokens@.len() - self.current,
        {
            let ghost cur = self.current - 1;
            proof {
                assert(fold_parse(self.views(), cur, 5, acc).1 == fold_parse(self.views(), p0, 5, acc0).1);
                assert(has_kind(self.views(), cur, self.views()[cur].0));
                assert(level_op(5, self.views()[cur].0));
            }
            let operator = self.previous().duplicate();
            let right = match self.comparison(arith) {
                Ok(e) => e,
                Err(e) => return Err(e),
            };
            expr = Expr::Binary { left: Box::new(expr), operator, right: Box::new(right) };
            proof {
                let d1 = expr_parse(self.views(), cur + 1, 4).3;
                assert(dsofar + d1 + fold_parse(self.views(), self.current as int, 5, Syntax::Binary {
                    left: Box::new(acc),
                    operator: self.views()[cur],
                    right: Box::new(expr_parse(self.views(), cur + 1, 4).2),
                }).3 =~= dsofar + (d1 + fold_parse(self.views(), self.current as int, 5, Syntax::Binary {
                    left: Box::new(acc),
                    operator: self.views()[cur],
                    right: Box::new(expr_parse(self.views(), cur + 1, 4).2),
                }).3));
                assert(self.diag_views() =~= old(self).diag_views() + d_first + (dsofar + d1));
                dsofar = dsofar + d1;
                acc = Syntax::Binary {
                    left: Box::new(acc),
                    operator: self.views()[cur],
                    right: Box::new(expr_parse(self.views(), cur + 1, 4).2),
                };
            }
        }
        Ok(expr)
    }

    fn comparison<A: Arithmetic>(&mut self, arith: &A) -> (r: Result<Expr, String>)
        requires
            old(self).wf(),
        ensures
            final(self).advanced_from(old(self)),
            final(self).had_error == old(self).had_error,
            r matches Ok(e) ==> comparison_shape(e) && final(self).position() > old(self).position(),
            (r is Ok) == expr_parse(old(self).views(), old(self).current as int, 4).0,
            final(self).current == expr_parse(old(self).views(), old(self).current as int, 4).1,
            r is Ok ==> ((r->Ok_0 is Variable) == (final(self).current == old(self).current + 1
                && old(self).kind_at_cursor() == TokenType::Identifier)),
            r is Ok ==> agrees(r->Ok_0, expr_parse(old(self).views(), old(self).current as int, 4).2),
            final(self).diag_views() == old(self).diag_views() + expr_parse(
                old(self).views(),
                old(self).current as int,
                4,
            ).3,
        decreases old(self).tokens@.len() - old(self).current, 4nat,
    {
        let mut expr = match self.term(arith) {
            Ok(e) => e,
            Err(e) => return Err(e),
        };
        proof {
            lemma_shapes_widen(expr);
        }
        let ghost start = old(self).current;
        let ghost p0 = self.current as int;
        let ghost acc0 = expr_parse(self.views(), start as int, 3).2;
        let ghost mut acc = acc0;
        let ghost d_first = expr_parse(self.views(), start as int, 3).3;
        let ghost mut dsofar: Seq<Seq<char>> = Seq::empty();
        proof {
            assert(fold_parse(self.views(), p0, 4, acc0).3 =~= dsofar + fold_parse(self.views(), p0, 4, acc0).3);
            assert(self.diag_views() =~= old(self).diag_views() + d_first + dsofar);
        }
        while self.match_token(
            vec![TokenType::Greater, TokenType::GreaterEqual, TokenType::Less, TokenType::LessEqual],
        )
            invariant
                self.advanced_from(old(self)),
                self.had_error == old(self).had_error,
                comparison_shape(expr),
                self.current > start,
                start == old(self).current,
                p0 > start,
                p0 < self.tokens@.len(),
                expr_parse(self.views(), start as int, 3).0,
                expr_parse(self.views(), start as int, 3).1 == p0,
                expr_parse(self.views(), start as int, 3).2 == acc0,
                expr_parse(self.views(), start as int, 3).3 == d_first,
                fold_parse(self.views(), p0, 4, acc0).3 == dsofar + fold_parse(
                    self.views(),
                    self.current as int,
                    4,
                    acc,
                ).3,
                self.diag_views() == old(self).diag_views() + d_first + dsofar,
                agrees(expr, acc),
                (expr is Variable) == (self.current == start + 1 && self.tokens@[start as int].token_type
                    == TokenType::Identifier),
                fold_parse(self.views(), self.current as int, 4, acc).0 == fold_parse(
                    self.views(),
                    p0,
                    4,
                    acc0,
                ).0,
                fold_parse(self.views(), self.current as int, 4, acc).1 == fold_parse(
                    self.views(),
                    p0,
                    4,
                    acc0,
                ).1,
                fold_parse(self.views(), self.current as int, 4, acc).2 == fold_parse(
                    self.views(),
                    p0,
                    4,
                    acc0,
                ).2,
            decreases self.tokens@.len() - self.current,
        {
            let ghost cur = self.current - 1;
            proof {
                assert(fold_parse(self.views(), cur, 4, acc).1 == fold_parse(self.views(), p0, 4, acc0).1);
                assert(has_kind(self.views(), cur, self.views()[cur].0));
                assert(level_op(4, self.views()[cur].0));
            }
            let operator = self.previous().duplicate();
            let right = match self.term(arith) {
                Ok(e) => e,
                Err(e) => return Err(e),
            };
            expr = Expr::Binary { left: Box::new(expr), operator, right: Box::new(right) };
            proof {
                let d1 = expr_parse(self.views(), cur + 1, 3).3;
                assert(dsofar + d1 + fold_parse(self.views(), self.current as int, 4, Syntax::Binary {
                    left: Box::new(acc),
                    operator: self.views()[cur],
                    right: Box::new(expr_parse(self.views(), cur + 1, 3).2),
                }).3 =~= dsofar + (d1 + fold_parse(self.views(), self.current as int, 4, Syntax::Binary {
                    left: Box::new(acc),
                    operator: self.views()[cur],
                    right: Box::new(expr_parse(self.views(), cur + 1, 3).2),
                }).3));
                assert(self.diag_views() =~= old(self).diag_views() + d_first + (dsofar + d1));
                dsofar = dsofar + d1;
                acc = Syntax::Binary {
                    left: Box::new(acc),
                    operator: self.views()[cur],
                    right: Box::new(expr_parse(self.views(), cur + 1, 3).2),
                };
            }
        }
        Ok(expr)
    }

    fn term<A: Arithmetic>(&mut self, arith: &A) -> (r: Result<Expr, String>)
        requires
            old(self).wf(),
        ensures
            final(self).advanced_from(old(self)),
            final(self).had_error == old(self).had_error,
            r matches Ok(e) ==> term_shape(e) && final(self).position() > old(self).position(),
            (r is Ok) == expr_parse(old(self).views(), old(self).current as int, 3).0,
            final(self).current == expr_parse(old(self).views(), old(self).current as int, 3).1,
            r is Ok ==> ((r->Ok_0 is Variable) == (final(self).current == old(self).current + 1
                && old(self).kind_at_cursor() == TokenType::Identifier)),
            r is Ok ==> agrees(r->Ok_0, expr_parse(old(self).views(), old(self).current as int, 3).2),
            final(self).diag_views() == old(self).diag_views() + expr_parse(
                old(self).views(),
                old(self).current as int,
                3,
            ).3,
        decreases old(self).tokens@.len() - old(self).current, 3nat,
    {
        let mut expr = match self.factor(arith) {
            Ok(e) => e,
            Err(e) => return Err(e),
        };
        proof {
            lemma_shapes_widen(expr);
        }
        let ghost start = old(self).current;
        let ghost p0 = self.current as int;
        let ghost acc0 = expr_parse(self.views(), start as int, 2).2;
        let ghost mut acc = acc0;
        let ghost d_first = expr_parse(self.views(), start as int, 2).3;
        let ghost mut dsofar: Seq<Seq<char>> = Seq::empty();
        proof {
            assert(fold_parse(self.views(), p0, 3, acc0).3 =~= dsofar + fold_parse(self.views(), p0, 3, acc0).3);
            assert(self.diag_views() =~= old(self).diag_views() + d_first + dsofar);
        }
        while self.match_token(vec![TokenType::Minus, TokenType::Plus])
            invariant
                self.advanced_from(old(self)),
                self.had_error == old(self).had_error,
                term_shape(expr),
                self.current > start,
                start == old(self).current,
                p0 > start,
                p0 < self.tokens@.len(),
                expr_parse(self.views(), start as int, 2).0,
                expr_parse(self.views(), start as int, 2).1 == p0,
                expr_parse(self.views(), start as int, 2).2 == acc0,
                expr_parse(self.views(), start as int, 2).3 == d_first,
                fold_parse(self.views(), p0, 3, acc0).3 == dsofar + fold_parse(
                    self.views(),
                    self.current as int,
                    3,
                    acc,
                ).3,
                self.diag_views() == old(self).diag_views() + d_first + dsofar,
                agrees(expr, acc),
                (expr is Variable) == (self.current == start + 1 && self.tokens@[start as int].token_type
                    == TokenType::Identifier),
                fold_parse(self.views(), self.current as int, 3, acc).0 == fold_parse(
                    self.views(),
                    p0,
                    3,
                    acc0,
                ).0,
                fold_parse(self.views(), self.current as int, 3, acc).1 == fold_parse(
                    self.views(),
                    p0,
                    3,
                    acc0,
                ).1,
                fold_parse(self.views(), self.current as int, 3, acc).2 == fold_parse(
                    self.views(),
                    p0,
                    3,
                    acc0,
                ).2,
            decreases self.tokens@.len() - self.current,
        {
            let ghost cur = self.current - 1;
            proof {
                assert(fold_parse(self.views(), cur, 3, acc).1 == fold_parse(self.views(), p0, 3, acc0).1);
                assert(has_kind(self.views(), cur, self.views()[cur].0));
                assert(level_op(3, self.views()[cur].0));
            }
            let operator = self.previous().duplicate();
            let right = match self.factor(arith) {
                Ok(e) => e,
                Err(e) => return Err(e),
            };
            expr = Expr::Binary { left: Box::new(expr), operator, right: Box::new(right) };
            proof {
                let d1 = expr_parse(self.views(), cur + 1, 2).3;
                assert(dsofar + d1 + fold_parse(self.views(), self.current as int, 3, Syntax::Binary {
                    left: Box::new(acc),
                    operator: self.views()[cur],
                    right: Box::new(expr_parse(self.views(), cur + 1, 2).2),
                }).3 =~= dsofar + (d1 + fold_parse(self.views(), self.current as int, 3, Syntax::Binary {
                    left: Box::new(acc),
                    operator: self.views()[cur],
                    right: Box::new(expr_parse(self.views(), cur + 1, 2).2),
                }).3));
                assert(self.diag_views() =~= old(self).diag_views() + d_first + (dsofar + d1));
                dsofar = dsofar + d1;
                acc = Syntax::Binary {
                    left: Box::new(acc),
                    operator: self.views()[cur],
                    right: Box::new(expr_parse(self.views(), cur + 1, 2).2),
                };
            }
        }
        Ok(expr)
    }

    fn factor<A: Arithmetic>(&mut self, arith: &A) -> (r: Result<Expr, String>)
        requires
            old(self).wf(),
        ensures
            final(self).advanced_from(old(self)),
            final(self).had_error == old(self).had_error,
            r matches Ok(e) ==> factor_shape(e) && final(self).position() > old(self).position(),
            (r is Ok) == expr_parse(old(self).views(), old(self).current as int, 2).0,
            final(self).current == expr_parse(old(self).views(), old(self).current as int, 2).1,
            r is Ok ==> ((r->Ok_0 is Variable) == (final(self).current == old(self).current + 1
                && old(self).kind_at_cursor() == TokenType::Identifier)),
            r is Ok ==> agrees(r->Ok_0, expr_parse(old(self).views(), old(self).current as int, 2).2),
            final(self).diag_views() == old(self).diag_views() + expr_parse(
                old(self).views(),
                old(self).current as int,
                2,
            ).3,
        decreases old(self).tokens@.len() - old(self).current, 2nat,
    {
        let mut expr = match self.unary(arith) {
            Ok(e) => e,
            Err(e) => return Err(e),
        };
        proof {
            lemma_shapes_widen(expr);
        }
        let ghost start = old(self).current;
        let ghost p0 = self.current as int;
        let ghost acc0 = expr_parse(self.views(), start as int, 1).2;
        let ghost mut acc = acc0;
        let ghost d_first = expr_parse(self.views(), start as int, 1).3;
        let ghost mut dsofar: Seq<Seq<char>> = Seq::empty();
        proof {
            assert(fold_parse(self.views(), p0, 2, acc0).3 =~= dsofar + fold_parse(self.views(), p0, 2, acc0).3);
            assert(self.diag_views() =~= old(self).diag_views() + d_first + dsofar);
        }
        while self.match_token(vec![TokenType::Slash, TokenType::Star])
            invariant
                self.advanced_from(old(self)),
                self.had_error == old(self).had_error,
                factor_shape(expr),
                self.current > start,
                start == old(self).current,
                p0 > start,
                p0 < self.tokens@.len(),
                expr_parse(self.views(), start as int, 1).0,
                expr_parse(self.views(), start as int, 1).1 == p0,
                expr_parse(self.views(), start as int, 1).2 == acc0,
                expr_parse(self.views(), start as int, 1).3 == d_first,
                fold_parse(self.views(), p0, 2, acc0).3 == dsofar + fold_parse(
                    self.views(),
                    self.current as int,
                    2,
                    acc,
                ).3,
                self.diag_views() == old(self).diag_views() + d_first + dsofar,
                agrees(expr, acc),
                (expr is Variable) == (self.current == start + 1 && self.tokens@[start as int].token_type
                    == TokenType::Identifier),
                fold_parse(self.views(), self.current as int, 2, acc).0 == fold_parse(
                    self.views(),
                    p0,
                    2,
                    acc0,
                ).0,
                fold_parse(self.views(), self.current as int, 2, acc).1 == fold_parse(
                    self.views(),
                    p0,
                    2,
                    acc0,
                ).1,
                fold_parse(self.views(), self.current as int, 2, acc).2 == fold_parse(
                    self.views(),
                    p0,
                    2,
                    acc0,
                ).2,
            decreases self.tokens@.len() - self.current,
        {
            let ghost cur = self.current - 1;
            proof {
                assert(fold_parse(self.views(), cur, 2, acc).1 == fold_parse(self.views(), p0, 2, acc0).1);
                assert(has_kind(self.views(), cur, self.views()[cur].0));
                assert(level_op(2, self.views()[cur].0));
            }
            let operator = self.previous().duplicate();
            let right = match self.unary(arith) {
                Ok(e) => e,
                Err(e) => return Err(e),
            };
            expr = Expr::Binary { left: Box::new(expr), operator, right: Box::new(right) };
            proof {
                let d1 = expr_parse(self.views(), cur + 1, 1).3;
                assert(dsofar + d1 + fold_parse(self.views(), self.current as int, 2, Syntax::Binary {
                    left: Box::new(acc),
                    operator: self.views()[cur],
                    right: Box::new(expr_parse(self.views(), cur + 1, 1).2),
                }).3 =~= dsofar + (d1 + fold_parse(self.views(), self.current as int, 2, Syntax::Binary {
                    left: Box::new(acc),
                    operator: self.views()[cur],
                    right: Box::new(expr_parse(self.views(), cur + 1, 1).2),
                }).3));
                assert(self.diag_views() =~= old(self).diag_views() + d_first + (dsofar + d1));
                dsofar = dsofar + d1;
                acc = Syntax::Binary {
                    left: Box::new(acc),
                    operator: self.views()[cur],
                    right: Box::new(expr_parse(self.views(), cur + 1, 1).2),
                };
            }
        }
        Ok(expr)
    }

    fn unary<A: Arithmetic>(&mut self, arith: &A) -> (r: Result<Expr, String>)
        requires
            old(self).wf(),
        ensures
            final(self).advanced_from(old(self)),
            final(self).had_error == old(self).had_error,
            r matches Ok(e) ==> unary_shape(e) && final(self).position() > old(self).position(),
            (r is Ok) == expr_parse(old(self).views(), old(self).current as int, 1).0,
            final(self).current == expr_parse(old(self).views(), old(self).current as int, 1).1,
            r is Ok ==> ((r->Ok_0 is Variable) == (final(self).current == old(self).current + 1
                && old(self).kind_at_cursor() == TokenType::Identifier)),
            r is Ok ==> agrees(r->Ok_0, expr_parse(old(self).views(), old(self).current as int, 1).2),
            final(self).diag_views() == old(self).diag_views() + expr_parse(
                old(self).views(),
                old(self).current as int,
                1,
            ).3,
        decreases old(self).tokens@.len() - old(self).current, 1nat,
    {
        if self.match_token(vec![TokenType::Bang, TokenType::Minus]) {
            let operator = self.previous().duplicate();
            let right = match self.unary(arith) {
                Ok(e) => e,
                Err(e) => return Err(e),
            };
            return Ok(Expr::Unary { operator, right: Box::new(right) });
        }
        let r = self.primary(arith);
        proof {
            if r is Ok {
                lemma_shapes_widen(r->Ok_0);
            }
        }
        r
    }

    fn primary<A: Arithmetic>(&mut self, arith: &A) -> (r: Result<Expr, String>)
        requires
            old(self).wf(),
        ensures
            final(self).advanced_from(old(self)),
            final(self).had_error == old(self).had_error,
            r matches Ok(e) ==> primary_shape(e) && final(self).position() > old(self).position(),
            old(self).kind_at_cursor() == TokenType::False ==> r matches Ok(
                Expr::Literal { value: Value::Boolean(false) },
            ),
            old(self).kind_at_cursor() == TokenType::True ==> r matches Ok(
                Expr::Literal { value: Value::Boolean(true) },
            ),
            old(self).kind_at_cursor() == TokenType::Nil ==> r matches Ok(
                Expr::Literal { value: Value::Nil },
            ),
            old(self).kind_at_cursor() == TokenType::StringLiteral ==> (r matches Ok(
                Expr::Literal { value: Value::String(s) },
            ) && s@ == literal_text(old(self).token_seq()[old(self).position()].lexeme@)),
            old(self).kind_at_cursor() == TokenType::Identifier ==> r == Ok::<Expr, String>(
                Expr::Variable { name: old(self).token_seq()[old(self).position()] },
            ),
            old(self).kind_at_cursor() == TokenType::NumberLiteral ==> r matches Ok(
                Expr::Literal { value: Value::Number(_) },
            ),
            !(old(self).kind_at_cursor() == TokenType::False || old(self).kind_at_cursor()
                == TokenType::True || old(self).kind_at_cursor() == TokenType::Nil || old(
                self,
            ).kind_at_cursor() == TokenType::NumberLiteral || old(self).kind_at_cursor()
                == TokenType::StringLiteral || old(self).kind_at_cursor() == TokenType::Identifier
                || old(self).kind_at_cursor() == TokenType::LeftParen) ==> r is Err
                && final(self).position() == old(self).position(),
            !(old(self).kind_at_cursor() == TokenType::False || old(self).kind_at_cursor()
                == TokenType::True || old(self).kind_at_cursor() == TokenType::Nil || old(
                self,
            ).kind_at_cursor() == TokenType::NumberLiteral || old(self).kind_at_cursor()
                == TokenType::StringLiteral || old(self).kind_at_cursor() == TokenType::Identifier
                || old(self).kind_at_cursor() == TokenType::LeftParen) ==> (r matches Err(m)
                && m@ == crate::error_spec(
                old(self).tokens@[old(self).current as int].token_type,
                old(self).tokens@[old(self).current as int].lexeme@,
                old(self).tokens@[old(self).current as int].line as nat,
                "Expect expression."@,
            )),
            old(self).kind_at_cursor() == TokenType::LeftParen && expr_parse(
                old(self).views(),
                old(self).current + 1,
                6,
            ).0 && !has_kind(
                old(self).views(),
                expr_parse(old(self).views(), old(self).current + 1, 6).1,
                TokenType::RightParen,
            ) ==> (r matches Err(m) && m@ == crate::error_spec(
                old(self).tokens@[final(self).current as int].token_type,
                old(self).tokens@[final(self).current as int].lexeme@,
                old(self).tokens@[final(self).current as int].line as nat,
                "Expect ')' after expression."@,
            )),
            (r is Ok) == expr_parse(old(self).views(), old(self).current as int, 0).0,
            final(self).current == expr_parse(old(self).views(), old(self).current as int, 0).1,
            r is Ok ==> ((r->Ok_0 is Variable) == (final(self).current == old(self).current + 1
                && old(self).kind_at_cursor() == TokenType::Identifier)),
            r is Ok ==> agrees(r->Ok_0, expr_parse(old(self).views(), old(self).current as int, 0).2),
            final(self).diag_views() == old(self).diag_views() + expr_parse(
                old(self).views(),
                old(self).current as int,
                0,
            ).3,
        decreases old(self).tokens@.len() - old(self).current, 0nat,
    {
        if self.match_token(vec![TokenType::False]) {
            return Ok(Expr::Literal { value: Value::Boolean(false) });
        }
        if self.match_token(vec![TokenType::True]) {
            return Ok(Expr::Literal { value: Value::Boolean(true) });
        }
        if self.match_token(vec![TokenType::Nil]) {
            return Ok(Expr::Literal { value: Value::Nil });
        }
        if self.match_token(vec![TokenType::NumberLiteral]) {
            let n = arith.parse_number(self.previous().lexeme.as_str());
            return Ok(Expr::Literal { value: Value::Number(n) });
        }
        if self.match_token(vec![TokenType::StringLiteral]) {
            let lexeme = self.previous().lexeme.as_str();
            let n = lexeme.unicode_len();
            let text = if n >= 2 {
                String::from_str(lexeme.substring_char(1, n - 1))
            } else {
                String::from_str(lexeme)
            };
            return Ok(Expr::Literal { value: Value::String(text) });
        }
        if self.match_token(vec![TokenType::Identifier]) {
            return Ok(Expr::Variable { name: self.previous().duplicate() });
        }
        if self.match_token(vec![TokenType::LeftParen]) {
            let expr = match self.expression(arith) {
                Ok(e) => e,
                Err(e) => return Err(e),
            };
            match self.consume(
                TokenType::RightParen,
                String::from_str("Expect ')' after expression."),
            ) {
                Ok(_) => {},
                Err(e) => return Err(e),
            }
            return Ok(Expr::Grouping { expression: Box::new(expr) });
        }
        let ghost before = *self;
        let msg = self.parse_error(self.peek(), String::from_str("Expect expression."));
        proof {
            let k = self.current as int;
            assert(self.tokens@[k]@ == self.views()[k]);
            assert(parser_message("Expect expression."@));
            assert(msg@ == crate::error_spec(
                self.views()[k].0,
                self.views()[k].1,
                self.views()[k].2 as nat,
                "Expect expression."@,
            ));
            assert(is_syntax_diagnostic(msg@, self.views()));
        }
        self.diagnostics.push(msg.clone());
        proof {
            assert(self.views() == before.views());
            assert(self.diag_views() =~= before.diag_views().push(msg@));
        }
        Err(msg)
    }

    /// Consumes the token at the cursor if its kind is one of `types`.
    fn match_token(&mut self, types: Vec<TokenType>) -> (r: bool)
        requires
            old(self).wf(),
        ensures
            final(self).wf(),
            final(self).tokens == old(self).tokens,
            final(self).had_error == old(self).had_error,
            final(self).diagnostics == old(self).diagnostics,
            r == (old(self).kind_at_cursor() != TokenType::EoF && types@.contains(
                old(self).kind_at_cursor(),
            )),
            old(self).kind_at_cursor() != TokenType::EoF && types@.len() > 0 && types@[0]
                == old(self).kind_at_cursor() ==> r,
            old(self).kind_at_cursor() != TokenType::EoF && types@.len() > 1 && types@[1]
                == old(self).kind_at_cursor() ==> r,
            old(self).kind_at_cursor() != TokenType::EoF && types@.len() > 2 && types@[2]
                == old(self).kind_at_cursor() ==> r,
            old(self).kind_at_cursor() != TokenType::EoF && types@.len() > 3 && types@[3]
                == old(self).kind_at_cursor() ==> r,
            final(self).current == old(self).current + if r { 1int } else { 0int },
    {
        let mut i: usize = 0;
        while i < types.len()
            invariant
                self.wf(),
                *self == *old(self),
                i <= types@.len(),
                forall|j: int| 0 <= j < i ==> !self.check_spec(types@[j]),
            decreases types@.len() - i,
        {
            if self.check(types[i]) {
                self.advance();
                return true;
            }
            i = i + 1;
        }
        proof {
            if old(self).kind_at_cursor() != TokenType::EoF && types@.contains(
                old(self).kind_at_cursor(),
            ) {
                let j = choose|j: int| 0 <= j < types@.len() && types@[j] == old(self).kind_at_cursor();
                assert(self.check_spec(types@[j]));
            }
        }
        false
    }

    /// Consumes the token at the cursor if it has kind `t`; otherwise
    /// records and returns the diagnostic for `message` at that token.
    fn consume(&mut self, t: TokenType, message: String) -> (r: Result<Token, String>)
        requires
            parser_message(message@),
            old(self).wf(),
        ensures
            final(self).advanced_from(old(self)),
            final(self).had_error == old(self).had_error,
            r is Ok == old(self).check_spec(t),
            r matches Ok(tok) ==> tok == old(self).token_seq()[old(self).position()]
                && final(self).position() == old(self).position() + 1,
            r is Err ==> final(self).position() == old(self).position(),
            r is Ok ==> final(self).diagnostics == old(self).diagnostics,
            r is Err ==> final(self).diag_views() == old(self).diag_views().push(
                diag_at(old(self).views(), old(self).current as int, message@),
            ),
            r matches Err(m) ==> m@ == crate::error_spec(
                old(self).tokens@[old(self).current as int].token_type,
                old(self).tokens@[old(self).current as int].lexeme@,
                old(self).tokens@[old(self).current as int].line as nat,
                message@,
            ),
    {
        if self.check(t) {
            self.advance();
            Ok(self.previous().duplicate())
        } else {
            let ghost before = *self;
            let msg = self.parse_error(self.peek(), message);
            proof {
                let k = self.current as int;
                assert(self.tokens@[k]@ == self.views()[k]);
                assert(msg@ == crate::error_spec(
                    self.views()[k].0,
                    self.views()[k].1,
                    self.views()[k].2 as nat,
                    message@,
                ));
                assert(is_syntax_diagnostic(msg@, self.views()));
            }
            self.diagnostics.push(msg.clone());
            proof {
                assert(self.views() == before.views());
                assert(self.diag_views() =~= before.diag_views().push(msg@));
            }
            Err(msg)
        }
    }

    fn parse_error(&self, token: &Token, message: String) -> (r: String)
        ensures
            r@ == crate::error_spec(token.token_type, token.lexeme@, token.line as nat, message@),
    {
        Lox::error(token, message)
    }

    /// Skips to the next statement boundary after a failed statement that
    /// began at `start`: nothing more where it already consumed its closing
    /// semicolon; else past the token at the cursor, then up to a semicolon
    /// (consumed) or a statement keyword (kept).
    fn synchronize(&mut self, start: usize)
        requires
            old(self).wf(),
            start <= old(self).current,
            old(self).tokens@[start as int].token_type != TokenType::EoF,
        ensures
            final(self).wf(),
            final(self).tokens == old(self).tokens,
            final(self).had_error == old(self).had_error,
            final(self).diagnostics == old(self).diagnostics,
            final(self).current > start,
            final(self).kind_at_cursor() == TokenType::EoF || final(self).tokens@[final(self).current
                - 1].token_type == TokenType::Semicolon || starts_statement(final(self).kind_at_cursor()),
            final(self).current == sync_parse(old(self).views(), start as int, old(self).current as int),
    {
        if self.current > start && self.previous().token_type == TokenType::Semicolon {
            return;
        }
        self.advance();
        let ghost c1 = self.current as int;
        while !self.is_at_end()
            invariant
                self.wf(),
                self.tokens == old(self).tokens,
                self.diagnostics == old(self).diagnostics,
                self.had_error == old(self).had_error,
                self.current > start,
                self.current > 0,
                sync_scan(self.views(), self.current as int) == sync_scan(self.views(), c1),
                sync_parse(self.views(), start as int, old(self).current as int) == sync_scan(
                    self.views(),
                    c1,
                ),
                c1 == (if old(self).kind_at_cursor() != TokenType::EoF {
                    old(self).current + 1
                } else {
                    old(self).current as int
                }),
            decreases self.tokens@.len() - self.current,
        {
            if self.previous().token_type == TokenType::Semicolon {
                return;
            }
            let t = self.peek().token_type;
            if t == TokenType::Class || t == TokenType::Fun || t == TokenType::Var || t
                == TokenType::For || t == TokenType::If || t == TokenType::While || t
                == TokenType::Print || t == TokenType::Return {
                return;
            }
            self.advance();
        }
    }

    pub open spec fn check_spec(&self, t: TokenType) -> bool {
        self.kind_at_cursor() != TokenType::EoF && self.kind_at_cursor() == t
    }

    fn check(&self, t: TokenType) -> (r: bool)
        requires
            self.wf(),
        ensures
            r == self.check_spec(t),
    {
        if self.is_at_end() {
            return false;
        }
        self.peek().token_type == t
    }

    fn advance(&mut self) -> (r: &Token)
        requires
            old(self).wf(),
        ensures
            final(self).wf(),
            final(self).tokens == old(self).tokens,
            final(self).had_error == old(self).had_error,
            final(self).diagnostics == old(self).diagnostics,
            final(self).current == old(self).current + if old(self).kind_at_cursor()
                != TokenType::EoF {
                1int
            } else {
                0int
            },
            final(self).current > 0 ==> *r == final(self).tokens@[final(self).current - 1],
    {
        if !self.is_at_end() {
            let n = self.tokens.len();
            assert(self.current + 1 < n);
            self.current = self.current + 1;
        }
        if self.current > 0 {
            self.previous()
        } else {
            self.peek()
        }
    }

    fn is_at_end(&self) -> (r: bool)
        requires
            self.wf(),
        ensures
            r == (self.kind_at_cursor() == TokenType::EoF),
    {
        self.peek().token_type == TokenType::EoF
    }

    /// The token at the cursor; past the end, the last token.
    fn peek(&self) -> (r: &Token)
        requires
            self.wf(),
        ensures
            *r == self.tokens@[self.current as int],
    {
        if self.current < self.tokens.len() {
            &self.tokens[self.current]
        } else {
            &self.tokens[self.tokens.len() - 1]
        }
    }

    fn previous(&self) -> (r: &Token)
        requires
            self.wf(),
            self.current > 0,
        ensures
            *r == self.tokens@[self.current - 1],
    {
        &self.tokens[self.current - 1]
    }
}

} // verus!
