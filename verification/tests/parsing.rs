use super_simple_compiler::lexer::{lex, Token};
use super_simple_compiler::parser::{parse, Expr, ParseError, Statement};

#[test]
fn parse_declaration() {
    let tokens = lex("int a = 5;").unwrap();
    let program = parse(&tokens).unwrap();
    assert_eq!(
        program,
        vec![Statement::Declaration {
            var_type: "int".to_string(),
            name: "a".to_string(),
            value: Expr::Number(5),
        }]
    );
}

#[test]
fn parse_empty_token_sequence() {
    assert_eq!(parse(&[]).unwrap(), vec![]);
}

#[test]
fn parse_relation_is_one_level() {
    let tokens = lex("int x = a > b;").unwrap();
    let program = parse(&tokens).unwrap();
    assert_eq!(
        program,
        vec![Statement::Declaration {
            var_type: "int".to_string(),
            name: "x".to_string(),
            value: Expr::BinaryOp {
                left: Box::new(Expr::Variable("a".to_string())),
                op: ">".to_string(),
                right: Box::new(Expr::Variable("b".to_string())),
            },
        }]
    );
}

#[test]
fn parse_relation_does_not_chain() {
    // The second relational operator is rejected where the parser demands
    // the statement terminator.
    let tokens = lex("int x = a > b > c;").unwrap();
    assert_eq!(
        parse(&tokens),
        Err(ParseError::UnexpectedToken { expected: Token::Semicolon, found: Token::Greater })
    );
}

#[test]
fn parse_if_without_else_has_empty_else_branch() {
    let tokens = lex("if (a < 2) { print(a); }").unwrap();
    let program = parse(&tokens).unwrap();
    match &program[0] {
        Statement::If { condition, then_branch, else_branch } => {
            assert_eq!(
                *condition,
                Expr::BinaryOp {
                    left: Box::new(Expr::Variable("a".to_string())),
                    op: "<".to_string(),
                    right: Box::new(Expr::Number(2)),
                }
            );
            assert_eq!(*then_branch, vec![Statement::Print(Expr::Variable("a".to_string()))]);
            assert!(else_branch.is_empty());
        },
        other => panic!("expected a conditional, got {:?}", other),
    }
}

#[test]
fn parse_nested_if() {
    let tokens = lex("if (a > 1) { if (a > 2) { print(a); } }").unwrap();
    let program = parse(&tokens).unwrap();
    assert_eq!(program.len(), 1);
    match &program[0] {
        Statement::If { then_branch, else_branch, .. } => {
            assert_eq!(then_branch.len(), 1);
            assert!(else_branch.is_empty());
            match &then_branch[0] {
                Statement::If { then_branch: inner_then, .. } => {
                    assert_eq!(inner_then.len(), 1);
                },
                other => panic!("expected a nested conditional, got {:?}", other),
            }
        },
        other => panic!("expected a conditional, got {:?}", other),
    }
}

#[test]
fn parse_error_invalid_statement() {
    assert_eq!(
        parse(&[Token::CloseBrace]),
        Err(ParseError::InvalidStatement(Token::CloseBrace))
    );
}

#[test]
fn parse_error_expected_identifier() {
    let tokens = lex("int 5 = 5;").unwrap();
    assert_eq!(parse(&tokens), Err(ParseError::ExpectedIdentifier(Token::Number(5))));
}

#[test]
fn parse_error_unexpected_primary() {
    let tokens = lex("int a = ;").unwrap();
    assert_eq!(parse(&tokens), Err(ParseError::UnexpectedPrimary(Token::Semicolon)));
}

#[test]
fn parse_error_unexpected_end() {
    let tokens = lex("int a = 5").unwrap();
    assert_eq!(parse(&tokens), Err(ParseError::UnexpectedEnd));
}

#[test]
fn parse_error_unterminated_print() {
    // The unterminated string literal (see the lexing tests) leaves the
    // parser without a closing parenthesis.
    let tokens = lex("print(\"oops;").unwrap();
    assert_eq!(parse(&tokens), Err(ParseError::UnexpectedEnd));
}
