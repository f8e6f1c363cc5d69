use super_simple_compiler::code_gen::CodeGenError;
use super_simple_compiler::lexer::{lex, LexError, Token};
use super_simple_compiler::parser::{parse, ParseError, Statement};
use super_simple_compiler::{translate, TranslateError};

const EXAMPLE: &str = "int a = 5; if (a > 3) { print(\"big\"); } else { print(\"small\"); }";

#[test]
fn example_lexes_to_expected_tokens() {
    let tokens = lex(EXAMPLE).unwrap();
    // One declaration (5 tokens) and one conditional with a print in each
    // branch (21 tokens).
    assert_eq!(tokens.len(), 26);
    assert_eq!(tokens[0], Token::Int);
    assert_eq!(tokens[5], Token::If);
    assert_eq!(tokens[14], Token::StringLiteral("big".to_string()));
    assert_eq!(tokens[18], Token::Else);
    assert_eq!(tokens[22], Token::StringLiteral("small".to_string()));
}

#[test]
fn example_parses_to_declaration_then_conditional() {
    let tokens = lex(EXAMPLE).unwrap();
    let program = parse(&tokens).unwrap();
    assert_eq!(program.len(), 2);
    assert!(matches!(program[0], Statement::Declaration { .. }));
    match &program[1] {
        Statement::If { then_branch, else_branch, .. } => {
            assert_eq!(then_branch.len(), 1);
            assert_eq!(else_branch.len(), 1);
            assert!(matches!(then_branch[0], Statement::Print(_)));
            assert!(matches!(else_branch[0], Statement::Print(_)));
        },
        other => panic!("expected a conditional, got {:?}", other),
    }
}

#[test]
fn example_generates_declaration_and_both_prints() {
    let text = translate(EXAMPLE).unwrap();
    assert!(text.starts_with("#include <stdio.h>\nint main() {\n"));
    assert!(text.ends_with("return 0;\n}\n"));
    assert!(text.contains("int a = 5;\n"));
    assert!(text.contains("if (a > 3) {\n"));
    assert!(text.contains("printf(\"big\\n\");\n"));
    assert!(text.contains("} else {\n"));
    assert!(text.contains("printf(\"small\\n\");\n"));
}

#[test]
fn translate_declaration_round_trip() {
    let text = translate("int a = 5;").unwrap();
    assert!(text.contains("int a = 5;"));
}

#[test]
fn translate_print_embeds_text_and_newline() {
    let text = translate("print(\"hello\");").unwrap();
    assert!(text.contains("printf(\"hello\\n\");\n"));
}

#[test]
fn translate_whole_example_exactly() {
    let text = translate("int a = 1; if (a < 2) { print(a); }").unwrap();
    assert_eq!(
        text,
        "#include <stdio.h>\nint main() {\nint a = 1;\nif (a < 2) {\n    printf(\"%d\\n\", a);\n} else {\n}\nreturn 0;\n}\n"
    );
}

#[test]
fn translate_reports_lex_error() {
    assert_eq!(
        translate("int a = 5 $"),
        Err(TranslateError::Lex(LexError::InvalidChar('$')))
    );
}

#[test]
fn translate_reports_parse_error() {
    assert_eq!(
        translate("int a = 5"),
        Err(TranslateError::Parse(ParseError::UnexpectedEnd))
    );
}

#[test]
fn translate_reports_code_gen_error() {
    // A relation parses fine inside print(...) but cannot be generated.
    assert_eq!(
        translate("print(a > b);"),
        Err(TranslateError::CodeGen(CodeGenError::UnsupportedPrintExpr))
    );
}

#[test]
fn translate_unterminated_string_fails_at_parsing() {
    // The lexer silently consumes an unterminated literal up to the end of
    // the input; the pipeline then fails at the parsing stage.
    assert_eq!(
        translate("print(\"oops;"),
        Err(TranslateError::Parse(ParseError::UnexpectedEnd))
    );
}
