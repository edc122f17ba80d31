use lox::ast::{ArithOp, Arithmetic, Expr, Number, Stmt, Value};
use lox::environment::{Environment, RuntimeError};
use lox::interpreter::Interpreter;
use lox::parser::Parser;
use lox::scanner::{scan, Token, TokenType};
use lox::{Lox, RunOutput};

struct Doubles;

impl Arithmetic for Doubles {
    fn parse_number(&self, lexeme: &str) -> Number {
        Number { bits: lexeme.parse::<f64>().unwrap().to_bits() }
    }

    fn apply(&self, op: ArithOp, left: Number, right: Number) -> Number {
        let a = f64::from_bits(left.bits);
        let b = f64::from_bits(right.bits);
        let r = match op {
            ArithOp::Sum => a + b,
            ArithOp::Difference => a - b,
            ArithOp::Product => a * b,
            ArithOp::Quotient => a / b,
        };
        Number { bits: r.to_bits() }
    }

    fn render(&self, n: Number) -> String {
        f64::from_bits(n.bits).to_string()
    }
}

fn run(src: &str) -> RunOutput {
    Lox::run(src.to_string(), &Doubles)
}

fn lines(src: &str) -> Vec<String> {
    let out = run(src);
    assert!(!out.had_error);
    out.lines
}

fn num(x: f64) -> Number {
    Number { bits: x.to_bits() }
}

fn token(kind: TokenType, lexeme: &str) -> Token {
    Token::new(kind, lexeme.to_string(), 1)
}

#[test]
fn grouping_overrides_precedence() {
    assert_eq!(lines("print (2 + 3) * 4;"), vec!["20"]);
    assert_eq!(lines("print 2 + 3 * 4;"), vec!["14"]);
    assert_eq!(lines("print (1 + 2) * (3 + 4) - 10 / 5;"), vec!["19"]);
}

#[test]
fn subtraction_folds_left() {
    assert_eq!(lines("print 10 - 2 - 3;"), vec!["5"]);
    assert_eq!(lines("print 16 / 4 / 2;"), vec!["2"]);
}

#[test]
fn division_gives_fractions() {
    assert_eq!(lines("print 7 / 2;"), vec!["3.5"]);
    assert_eq!(lines("print 1.5 + 2.25;"), vec!["3.75"]);
}

#[test]
fn strings_concatenate() {
    assert_eq!(lines("print \"foo\" + \"bar\";"), vec!["foobar"]);
}

#[test]
fn mixed_plus_is_a_type_error_and_run_goes_on() {
    let out = run("print 1 + \"a\"; print 2;");
    assert!(!out.had_error);
    assert_eq!(out.executed, 2);
    assert_eq!(out.lines, vec!["Invalid operator for operands", "2"]);
}

#[test]
fn equality_across_kinds_is_false() {
    assert_eq!(lines("print 1 == \"1\";"), vec!["false"]);
    assert_eq!(lines("print nil == false;"), vec!["false"]);
    assert_eq!(lines("print true != nil;"), vec!["true"]);
    assert_eq!(lines("print nil == nil;"), vec!["true"]);
    assert_eq!(lines("print \"a\" == \"a\";"), vec!["true"]);
    assert_eq!(lines("print 2 == 2;"), vec!["true"]);
}

#[test]
fn variable_lifecycle() {
    assert_eq!(lines("var x = 1; x = 2; print x;"), vec!["2"]);
    assert_eq!(lines("print y;"), vec!["Undefined variable 'y'."]);
    assert_eq!(lines("y = 3;"), vec!["Undefined variable 'y'."]);
    assert_eq!(lines("var z; print z;"), vec!["nil"]);
}

#[test]
fn redeclaration_overwrites() {
    assert_eq!(lines("var x = 1; var x = 2; print x;"), vec!["2"]);
}

#[test]
fn truthiness() {
    assert_eq!(lines("print !nil;"), vec!["true"]);
    assert_eq!(lines("print !0;"), vec!["false"]);
    assert_eq!(lines("print !\"\";"), vec!["false"]);
    assert_eq!(lines("print !false;"), vec!["true"]);
    assert_eq!(lines("print !!true;"), vec!["true"]);
}

#[test]
fn syntax_error_aborts_before_execution() {
    let out = run("print 1; print ; print 3;");
    assert!(out.had_error);
    assert_eq!(out.executed, 0);
    assert_eq!(out.lines.last().unwrap(), "Parser error.");
    assert!(!out.lines.contains(&"1".to_string()));
}

#[test]
fn parser_recovers_and_keeps_other_statements() {
    let tokens = scan("print 1; print ; print 3;");
    let mut parser = Parser::new(tokens);
    let stmts = parser.parse(&Doubles).unwrap();
    assert!(parser.had_error);
    assert_eq!(stmts.len(), 2);
    assert!(matches!(stmts[0], Stmt::Print { .. }));
    assert!(matches!(stmts[1], Stmt::Print { .. }));
}

#[test]
fn missing_semicolon_is_reported_at_token() {
    let out = run("print 1");
    assert!(out.had_error);
    assert_eq!(out.lines[0], "Error on line 1 at end. Expect ';' after value.");
    let out = run("var = 2;");
    assert_eq!(out.lines[0], "Error on line 1 at '='. Expect variable name.");
}

#[test]
fn unterminated_string_scans_to_one_error_token() {
    let tokens = scan("\"abc");
    assert_eq!(tokens.len(), 2);
    assert_eq!(tokens[0].token_type, TokenType::UnterminatedStringError);
    assert_eq!(tokens[0].lexeme, "\"abc");
    assert_eq!(tokens[1].token_type, TokenType::EoF);
}

#[test]
fn scanner_tokens_and_lines() {
    let tokens = scan("var x1 = 3.25; // note\nprint x1 >= 1.;\n");
    let kinds: Vec<TokenType> = tokens.iter().map(|t| t.token_type).collect();
    assert_eq!(
        kinds,
        vec![
            TokenType::Var,
            TokenType::Identifier,
            TokenType::Equal,
            TokenType::NumberLiteral,
            TokenType::Semicolon,
            TokenType::Print,
            TokenType::Identifier,
            TokenType::GreaterEqual,
            TokenType::NumberLiteral,
            TokenType::Dot,
            TokenType::Semicolon,
            TokenType::EoF,
        ]
    );
    assert_eq!(tokens[3].lexeme, "3.25");
    assert_eq!(tokens[8].lexeme, "1");
    assert_eq!(tokens[0].line, 1);
    assert_eq!(tokens[5].line, 2);
    assert_eq!(tokens[11].line, 3);
}

#[test]
fn keywords_and_identifiers() {
    let tokens = scan("and class else false for fun if nil or print return super this true var while fa th orchid _x");
    let kinds: Vec<TokenType> = tokens.iter().map(|t| t.token_type).collect();
    assert_eq!(
        kinds,
        vec![
            TokenType::And,
            TokenType::Class,
            TokenType::Else,
            TokenType::False,
            TokenType::For,
            TokenType::Fun,
            TokenType::If,
            TokenType::Nil,
            TokenType::Or,
            TokenType::Print,
            TokenType::Return,
            TokenType::Super,
            TokenType::This,
            TokenType::True,
            TokenType::Var,
            TokenType::While,
            TokenType::Identifier,
            TokenType::Identifier,
            TokenType::Identifier,
            TokenType::Identifier,
            TokenType::EoF,
        ]
    );
}

#[test]
fn operators_one_and_two_characters() {
    let tokens = scan("! != = == < <= > >= ( ) { } , . - + ; / *");
    let kinds: Vec<TokenType> = tokens.iter().map(|t| t.token_type).collect();
    assert_eq!(
        kinds,
        vec![
            TokenType::Bang,
            TokenType::BangEqual,
            TokenType::Equal,
            TokenType::EqualEqual,
            TokenType::Less,
            TokenType::LessEqual,
            TokenType::Greater,
            TokenType::GreaterEqual,
            TokenType::LeftParen,
            TokenType::RightParen,
            TokenType::LeftBrace,
            TokenType::RightBrace,
            TokenType::Comma,
            TokenType::Dot,
            TokenType::Minus,
            TokenType::Plus,
            TokenType::Semicolon,
            TokenType::Slash,
            TokenType::Star,
            TokenType::EoF,
        ]
    );
}

#[test]
fn unexpected_character_is_reported_and_scan_goes_on() {
    let tokens = scan("@ 1");
    assert_eq!(tokens[0].token_type, TokenType::UnexpectedCharacterError);
    assert_eq!(tokens[1].token_type, TokenType::NumberLiteral);
    assert_eq!(
        TokenType::error(TokenType::UnexpectedCharacterError, 12),
        Some("[line 12] Error  Unexpected character.".to_string())
    );
    assert_eq!(TokenType::error(TokenType::Plus, 1), None);
    assert_eq!(TokenType::error_message(TokenType::UnterminatedStringError), Some("Unterminated string."));
    let out = run("@");
    assert_eq!(out.lines[0], "[line 1] Error  Unexpected character.");
}

#[test]
fn multiline_string_advances_line() {
    let tokens = scan("\"a\nb\" x");
    assert_eq!(tokens[0].token_type, TokenType::StringLiteral);
    assert_eq!(tokens[0].line, 2);
    assert_eq!(tokens[1].line, 2);
    assert_eq!(lines("print \"a\nb\";"), vec!["a\nb"]);
}

#[test]
fn error_messages_name_line_and_place() {
    let eof = Token::new(TokenType::EoF, String::new(), 3);
    assert_eq!(Lox::error(&eof, "Expect expression.".to_string()), "Error on line 3 at end. Expect expression.");
    let t = Token::new(TokenType::Identifier, "foo".to_string(), 40);
    assert_eq!(Lox::error(&t, "Bad.".to_string()), "Error on line 40 at 'foo'. Bad.");
}

#[test]
fn comparisons_need_numbers() {
    assert_eq!(lines("print 1 < 2; print 2 <= 2; print 3 > 4; print 4 >= 5;"), vec!["true", "true", "false", "false"]);
    assert_eq!(lines("print 1 < \"a\";"), vec!["Operands must be numbers."]);
    assert_eq!(lines("print \"a\" * 2;"), vec!["Operands must be numbers."]);
    assert_eq!(lines("print -\"a\";"), vec!["Not a valid operand"]);
    assert_eq!(lines("print -3 + 1;"), vec!["-2"]);
}

#[test]
fn number_comparisons_follow_ieee() {
    let nan = num(f64::NAN);
    assert!(!nan.equals(&nan));
    assert!(!nan.less_than(&num(1.0)));
    assert!(num(0.0).equals(&num(-0.0)));
    assert!(num(-1.0).less_than(&num(0.0)));
    assert!(num(-2.0).less_than(&num(-1.0)));
    assert!(!num(-0.0).less_than(&num(0.0)));
    assert!(num(-0.0).at_most(&num(0.0)));
    assert!(num(1.0).less_than(&num(f64::INFINITY)));
    assert_eq!(f64::from_bits(num(2.5).negated().bits), -2.5);
}

#[test]
fn environment_define_get_assign() {
    let mut env = Environment::new();
    let x = token(TokenType::Identifier, "x");
    assert!(matches!(env.get(&x), Err(RuntimeError::UndefinedVariable { .. })));
    assert!(matches!(env.assign(token(TokenType::Identifier, "x"), Value::Nil), Err(_)));
    env.define("x".to_string(), Value::Boolean(true));
    assert!(matches!(env.get(&x), Ok(Value::Boolean(true))));
    assert!(matches!(env.assign(token(TokenType::Identifier, "x"), Value::Nil), Ok(Value::Nil)));
    assert!(matches!(env.get(&x), Ok(Value::Nil)));
    match env.get(&token(TokenType::Identifier, "y")) {
        Err(e) => assert_eq!(e.message(), "Undefined variable 'y'."),
        Ok(_) => panic!("y is not defined"),
    }
}

#[test]
fn unsupported_statements_are_not_implemented() {
    let mut interpreter = Interpreter::new();
    let r = interpreter.interpret(Stmt::Block { statements: vec![] }, &Doubles);
    assert!(matches!(r, Err(RuntimeError::NotImplemented)));
    let call = Expr::This { keyword: token(TokenType::This, "this") };
    let r = interpreter.interpret(Stmt::Print { expression: call }, &Doubles);
    assert!(matches!(r, Err(RuntimeError::NotImplemented)));
    assert_eq!(RuntimeError::NotImplemented.message(), "Not implemented.");
}

#[test]
fn number_literals_go_through_the_host() {
    assert_eq!(lines("print 0.1 + 0.2;"), vec!["0.30000000000000004"]);
    assert_eq!(lines("print 12;"), vec!["12"]);
}

#[test]
fn assignment_groups_right_and_yields_its_value() {
    assert_eq!(lines("var a = 1; var b = 2; a = b = 5; print a; print b;"), vec!["5", "5"]);
    assert_eq!(lines("var c = 1; print c = 3;"), vec!["3"]);
}

#[test]
fn assignment_needs_a_variable_target() {
    let out = run("1 = 2;");
    assert!(out.had_error);
    assert_eq!(out.lines[0], "Error on line 1 at '='. Invalid assignment target.");
}

#[test]
fn recovery_resumes_at_next_declaration() {
    let mut parser = Parser::new(scan("var x = ; print 2;"));
    let stmts = parser.parse(&Doubles).unwrap();
    assert!(parser.had_error);
    assert_eq!(stmts.len(), 1);
    assert!(matches!(stmts[0], Stmt::Print { .. }));

    let mut parser = Parser::new(scan("print (1; print 2; x = 3;"));
    let stmts = parser.parse(&Doubles).unwrap();
    assert!(parser.had_error);
    assert_eq!(stmts.len(), 2);
    assert_eq!(parser.diagnostics[0], "Error on line 1 at ';'. Expect ')' after expression.");
}

#[test]
fn clean_source_parses_every_declaration() {
    let mut parser = Parser::new(scan("var a = 1;\nprint a + 2 * 3;\na = -a;\n"));
    let stmts = parser.parse(&Doubles).unwrap();
    assert!(!parser.had_error);
    assert_eq!(stmts.len(), 3);
    assert!(parser.diagnostics.is_empty());
    let out = run("var a = 1;\nprint a + 2 * 3;\na = -a;\nprint a;");
    assert_eq!(out.executed, 4);
    assert_eq!(out.lines, vec!["7", "-1"]);
}

#[test]
fn arithmetic_result_feeds_later_type_errors() {
    assert_eq!(lines("print (1 + 2) + \"a\";"), vec!["Invalid operator for operands"]);
    assert_eq!(lines("print -(2 * 3) < 0;"), vec!["true"]);
    assert_eq!(lines("print (4 - 1) == 3;"), vec!["true"]);
}

#[test]
fn missing_expression_is_reported_at_its_token() {
    let out = run("print 1; print ; print 3;");
    assert!(out.had_error);
    assert_eq!(out.lines, vec!["Error on line 1 at ';'. Expect expression.", "Parser error."]);
}

#[test]
fn tokens_and_values_clone() {
    let t = Token::new(TokenType::Identifier, "x".to_string(), 2);
    let u = t.clone();
    assert_eq!(u.lexeme, "x");
    assert_eq!(u.line, 2);
    let v = Value::String("s".to_string());
    assert!(matches!(v.clone(), Value::String(ref s) if s == "s"));
}
