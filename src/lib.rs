//! Front half of a tree-walking interpreter for a small dynamically typed
//! scripting language: scanning, recursive-descent parsing and evaluation.
use vstd::prelude::*;

pub mod text;
pub mod scanner;
pub mod ast;
pub mod environment;
pub mod interpreter;
pub mod parser;

use crate::ast::{render_spec, Arithmetic, ValueModel};
use crate::environment::{message_spec, RuntimeError};
use crate::interpreter::{exec_with, HostAnswer, Interpreter};
use crate::parser::{is_syntax_diagnostic, program_parse, stmt_agrees, Parser};
use crate::ast::Stmt;
use crate::scanner::{error_text, lemma_tokens_end, report_text, scan, scan_spec, Token, TokenType};
use crate::text::{decimal, decimal_text};

verus! {

/// The report lines of the lexical errors among the tokens, in order.
pub open spec fn lex_reports(t: Seq<(TokenType, Seq<char>, int)>) -> Seq<Seq<char>>
    decreases t.len(),
{
    if t.len() == 0 {
        Seq::empty()
    } else {
        let rest = lex_reports(t.drop_last());
        match error_text(t.last().0) {
            Some(m) => rest.push(report_text(t.last().2 as nat, Seq::empty(), m)),
            None => rest,
        }
    }
}

/// Executing the statements `ss` in order from `env`, the host's arithmetic
/// answering statement `i` with `traces[i]`: each statement's outcome, and the
/// environment after the last; `None` where the answers do not fit.
pub open spec fn exec_prefix(
    ss: Seq<Stmt>,
    env: Map<Seq<char>, ValueModel>,
    traces: Seq<Seq<HostAnswer>>,
) -> Option<(Seq<Result<Option<ValueModel>, RuntimeError>>, Map<Seq<char>, ValueModel>)>
    decreases ss.len(),
{
    if traces.len() != ss.len() {
        None
    } else if ss.len() == 0 {
        Some((Seq::empty(), env))
    } else {
        match exec_prefix(ss.drop_last(), env, traces.drop_last()) {
            Some((outs, env1)) => match exec_with(ss.last(), env1, traces.last()) {
                Some((m, env2)) => Some((outs.push(m), env2)),
                None => None,
            },
            None => None,
        }
    }
}

/// The printed lines of a sequence of statement outcomes: nothing for a
/// statement that prints nothing, the value's text for a print (a number's
/// text is the host's), the message for a runtime error.
pub open spec fn lines_agree(ls: Seq<Seq<char>>, os: Seq<Result<Option<ValueModel>, RuntimeError>>) -> bool
    decreases os.len(),
{
    if os.len() == 0 {
        ls.len() == 0
    } else {
        match os.last() {
            Ok(None) => lines_agree(ls, os.drop_last()),
            Ok(Some(v)) => ls.len() > 0 && (render_spec(v) matches Some(t) ==> ls.last() == t)
                && lines_agree(ls.drop_last(), os.drop_last()),
            Err(e) => ls.len() > 0 && ls.last() == message_spec(e) && lines_agree(
                ls.drop_last(),
                os.drop_last(),
            ),
        }
    }
}

/// The diagnostic for a syntax error at `token`.
pub open spec fn error_spec(kind: TokenType, lexeme: Seq<char>, line: nat, message: Seq<char>) -> Seq<
    char,
> {
    if kind == TokenType::EoF {
        "Error on line "@ + decimal(line) + " at end. "@ + message
    } else {
        "Error on line "@ + decimal(line) + " at '"@ + lexeme + "'. "@ + message
    }
}

pub struct Lox {
    pub had_error: bool,
}

/// What one run produced: its console lines in order (diagnostics, printed
/// values, runtime errors), whether parsing failed, and how many statements
/// were executed.
pub struct RunOutput {
    pub lines: Vec<String>,
    pub had_error: bool,
    pub executed: usize,
}

impl Lox {
    /// Scans and parses `source`; when parsing met no error, executes its
    /// statements in order in a fresh environment, going on past runtime
    /// errors. The lines are the lexical error reports, then either one line
    /// per printed value or runtime error, or, when parsing failed, the
    /// syntax diagnostics and "Parser error." with nothing executed.
    pub fn run<A: Arithmetic>(source: String, arith: &A) -> (r: RunOutput)
        requires
            source@.len() < u32::MAX,
        ensures
            r.had_error == program_parse(scan_spec(source@), 0).1,
            r.had_error ==> r.executed == 0,
            !r.had_error ==> r.executed == program_parse(scan_spec(source@), 0).0.len(),
            r.had_error ==> r.lines@.len() > 0 && r.lines@.last()@ == "Parser error."@,
            r.had_error ==> r.lines@.len() > lex_reports(scan_spec(source@)).len() && r.lines@.map_values(
                |l: String| l@,
            ).take(lex_reports(scan_spec(source@)).len() as int) == lex_reports(scan_spec(source@)),
            r.had_error ==> r.lines@.map_values(|l: String| l@) == lex_reports(scan_spec(source@))
                + program_parse(scan_spec(source@), 0).2 + seq!["Parser error."@],
            r.had_error ==> forall|i: int|
                lex_reports(scan_spec(source@)).len() <= i < r.lines@.len() - 1
                    ==> is_syntax_diagnostic(#[trigger] r.lines@[i]@, scan_spec(source@)),
            !r.had_error ==> exists|ss: Seq<Stmt>, traces: Seq<Seq<HostAnswer>>|
                ss.len() == program_parse(scan_spec(source@), 0).0.len() && (forall|k: int|
                    0 <= k < ss.len() ==> stmt_agrees(
                        #[trigger] ss[k],
                        program_parse(scan_spec(source@), 0).0[k],
                    )) && traces.len() == ss.len() && r.lines@.map_values(|l: String| l@)
                    == lex_reports(scan_spec(source@)) + r.lines@.map_values(|l: String| l@).skip(
                    lex_reports(scan_spec(source@)).len() as int,
                ) && (#[trigger] exec_prefix(ss, Map::empty(), traces) matches Some((os, _))
                    && lines_agree(
                    r.lines@.map_values(|l: String| l@).skip(
                        lex_reports(scan_spec(source@)).len() as int,
                    ),
                    os,
                )),
    {
        let tokens = scan(source.as_str());
        proof {
            lemma_tokens_end(source@, 0);
            assert(tokens@.map_values(|t: Token| t@).last() == tokens@.last()@);
        }
        let ghost views = tokens@.map_values(|t: Token| t@);
        let mut lines: Vec<String> = Vec::new();
        let mut i: usize = 0;
        proof {
            assert(views.take(0) =~= Seq::<(TokenType, Seq<char>, int)>::empty());
            assert(lines@.map_values(|l: String| l@) =~= Seq::<Seq<char>>::empty());
        }
        while i < tokens.len()
            invariant
                i <= tokens@.len(),
                views == tokens@.map_values(|t: Token| t@),
                lines@.map_values(|l: String| l@) == lex_reports(views.take(i as int)),
            decreases tokens@.len() - i,
        {
            proof {
                assert(views.take(i + 1).drop_last() =~= views.take(i as int));
                assert(views.take(i + 1).last() == tokens@[i as int]@);
            }
            match TokenType::error(tokens[i].token_type, tokens[i].line) {
                Some(line) => {
                    lines.push(line);
                    proof {
                        assert(lines@.map_values(|l: String| l@) =~= lex_reports(views.take(i as int)).push(line@));
                    }
                },
                None => {},
            }
            i = i + 1;
        }
        let ghost lex = lex_reports(views);
        proof {
            assert(views.take(tokens@.len() as int) =~= views);
            assert(views == scan_spec(source@));
        }
        let mut parser = Parser::new(tokens);
        proof {
            assert(parser.views() =~= scan_spec(source@)) by {
                assert(tokens@.map_values(|t: Token| t@) == scan_spec(source@));
                assert forall|k: int| 0 <= k < parser.views().len() implies parser.views()[k]
                    == scan_spec(source@)[k] by {
                    assert(tokens@.map_values(|t: Token| t@)[k] == tokens@[k]@);
                }
            }
        }
        proof {
            assert(parser.diag_views() =~= Seq::<Seq<char>>::empty());
        }
        let statements = parser.parse(arith);
        if parser.had_error {
            let ghost before = lines@.map_values(|l: String| l@);
            let mut j: usize = 0;
            while j < parser.diagnostics.len()
                invariant
                    j <= parser.diagnostics@.len(),
                    lines@.len() == before.len() + j,
                    lines@.map_values(|l: String| l@) == before + parser.diag_views().take(j as int),
                    before.len() == lex.len(),
                    parser.views() == scan_spec(source@),
                    forall|i: int|
                        0 <= i < parser.diagnostics@.len() ==> is_syntax_diagnostic(
                            #[trigger] parser.diagnostics@[i]@,
                            scan_spec(source@),
                        ),
                    forall|i: int|
                        before.len() <= i < lines@.len() ==> is_syntax_diagnostic(
                            #[trigger] lines@[i]@,
                            scan_spec(source@),
                        ),
                    lines@.map_values(|l: String| l@).take(before.len() as int) == before,
                decreases parser.diagnostics@.len() - j,
            {
                let ghost prev = lines@.map_values(|l: String| l@);
                proof {
                    assert(is_syntax_diagnostic(parser.diagnostics@[j as int]@, scan_spec(source@)));
                }
                lines.push(parser.diagnostics[j].clone());
                proof {
                    assert(parser.diag_views().take(j + 1) =~= parser.diag_views().take(j as int).push(
                        parser.diagnostics@[j as int]@,
                    ));
                    assert(lines@.map_values(|l: String| l@) =~= prev.push(parser.diagnostics@[j as int]@));
                    assert(lines@.map_values(|l: String| l@).take(before.len() as int) =~= prev.take(
                        before.len() as int,
                    ));
                }
                j = j + 1;
            }
            let ghost prev = lines@.map_values(|l: String| l@);
            lines.push(String::from_str("Parser error."));
            proof {
                assert(parser.diag_views().take(parser.diagnostics@.len() as int) =~= parser.diag_views());
                assert(parser.diag_views() =~= program_parse(scan_spec(source@), 0).2);
                assert(lines@.map_values(|l: String| l@) =~= lex_reports(scan_spec(source@))
                    + program_parse(scan_spec(source@), 0).2 + seq!["Parser error."@]);
                assert(lines@.map_values(|l: String| l@).take(before.len() as int) =~= prev.take(
                    before.len() as int,
                ));
            }
            return RunOutput { lines, had_error: true, executed: 0 };
        }
        let mut stmts = match statements {
            Ok(s) => s,
            Err(_) => Vec::new(),
        };
        let mut interpreter = Interpreter::new();
        let mut executed: usize = 0;
        let count = stmts.len();
        let ghost ss0 = stmts@;
        let ghost mut traces: Seq<Seq<HostAnswer>> = Seq::empty();
        let ghost mut os: Seq<Result<Option<ValueModel>, RuntimeError>> = Seq::empty();
        proof {
            assert(ss0.take(0) =~= Seq::<Stmt>::empty());
            assert(lines@.map_values(|l: String| l@).skip(lex.len() as int) =~= Seq::<Seq<char>>::empty());
            assert(lex + Seq::<Seq<char>>::empty() =~= lex);
        }
        while stmts.len() > 0
            invariant
                interpreter.environment.wf(),
                executed + stmts@.len() == count,
                count == ss0.len(),
                stmts@ == ss0.skip(executed as int),
                traces.len() == executed,
                exec_prefix(ss0.take(executed as int), Map::empty(), traces) == Some(
                    (os, interpreter.environment@),
                ),
                lines@.map_values(|l: String| l@) == lex + lines@.map_values(|l: String| l@).skip(
                    lex.len() as int,
                ),
                lines_agree(lines@.map_values(|l: String| l@).skip(lex.len() as int), os),
            decreases stmts@.len(),
        {
            let ghost k = executed as int;
            let ghost env_before = interpreter.environment@;
            let ghost prev = lines@.map_values(|l: String| l@);
            let stmt = stmts.remove(0);
            let ghost st = stmt;
            proof {
                assert(st == ss0[k]);
            }
            let out = interpreter.interpret(stmt, arith);
            let ghost nums = choose|nums: Seq<HostAnswer>|
                #[trigger] exec_with(st, env_before, nums) matches Some((m, env1)) && env1
                    == interpreter.environment@ && crate::interpreter::outcome_agrees(out, m);
            let ghost tr_old = traces;
            let ghost m = exec_with(st, env_before, nums)->Some_0.0;
            let ghost os_old = os;
            proof {
                traces = traces.push(nums);
                assert(ss0.take(k + 1).drop_last() =~= ss0.take(k));
                assert(ss0.take(k + 1).last() == st);
                assert(traces.drop_last() =~= tr_old);
                assert(exec_prefix(ss0.take(k + 1), Map::empty(), traces) == Some(
                    (os_old.push(m), interpreter.environment@),
                ));
                os = os_old.push(m);
            }
            match out {
                Ok(Some(text)) => lines.push(text),
                Ok(None) => {},
                Err(e) => lines.push(e.message()),
            }
            proof {
                let now = lines@.map_values(|l: String| l@);
                assert(os_old.push(m).drop_last() =~= os_old);
                assert(os_old.push(m).last() == m);
                if now.len() > prev.len() {
                    assert(now =~= prev.push(now.last()));
                    assert(now.skip(lex.len() as int) =~= prev.skip(lex.len() as int).push(now.last()));
                    assert(now.skip(lex.len() as int).drop_last() =~= prev.skip(lex.len() as int));
                    assert(now.skip(lex.len() as int).last() == now.last());
                    assert(now =~= lex + now.skip(lex.len() as int));
                } else {
                    assert(now =~= prev);
                }
                assert(lines_agree(now.skip(lex.len() as int), os_old.push(m)));
                assert(stmts@ =~= ss0.skip(k + 1));
            }
            executed = executed + 1;
        }
        proof {
            assert(ss0.take(count as int) =~= ss0);
        }
        RunOutput { lines, had_error: false, executed }
    }

    /// The diagnostic for a syntax error at `token`: its line, and "at end"
    /// or the offending lexeme quoted.
    pub fn error(token: &Token, message: String) -> (r: String)
        ensures
            r@ == error_spec(token.token_type, token.lexeme@, token.line as nat, message@),
    {
        let mut s = String::from_str("Error on line ");
        let n = decimal_text(token.line);
        s.append(n.as_str());
        if token.token_type == TokenType::EoF {
            s.append(" at end. ");
        } else {
            s.append(" at '");
            s.append(token.lexeme.as_str());
            s.append("'. ");
        }
        s.append(message.as_str());
        s
    }
}

} // verus!
