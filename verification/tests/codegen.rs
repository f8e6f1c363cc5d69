use super_simple_compiler::code_gen::{generate_code, CodeGenError};
use super_simple_compiler::parser::{Expr, Statement};

fn decl(name: &str, value: Expr) -> Statement {
    Statement::Declaration { var_type: "int".to_string(), name: name.to_string(), value }
}

#[test]
fn generate_empty_program() {
    let text = generate_code(&[]).unwrap();
    assert_eq!(text, "#include <stdio.h>\nint main() {\nreturn 0;\n}\n");
}

#[test]
fn generate_declaration_exact() {
    let text = generate_code(&[decl("a", Expr::Number(5))]).unwrap();
    assert_eq!(text, "#include <stdio.h>\nint main() {\nint a = 5;\nreturn 0;\n}\n");
}

#[test]
fn generate_negative_number() {
    let text = generate_code(&[decl("x", Expr::Number(-3))]).unwrap();
    assert!(text.contains("int x = -3;\n"));
}

#[test]
fn generate_smallest_number() {
    let text = generate_code(&[decl("x", Expr::Number(i32::MIN))]).unwrap();
    assert!(text.contains("int x = -2147483648;\n"));
}

#[test]
fn generate_print_string() {
    let text = generate_code(&[Statement::Print(Expr::StringLiteral("big".to_string()))]).unwrap();
    assert!(text.contains("printf(\"big\\n\");\n"));
}

#[test]
fn generate_print_variable() {
    let text = generate_code(&[Statement::Print(Expr::Variable("a".to_string()))]).unwrap();
    assert!(text.contains("printf(\"%d\\n\", a);\n"));
}

#[test]
fn generate_print_number() {
    let text = generate_code(&[Statement::Print(Expr::Number(7))]).unwrap();
    assert!(text.contains("printf(\"%d\\n\", 7);\n"));
}

#[test]
fn generate_print_relation_is_unsupported() {
    let stmt = Statement::Print(Expr::BinaryOp {
        left: Box::new(Expr::Variable("a".to_string())),
        op: ">".to_string(),
        right: Box::new(Expr::Variable("b".to_string())),
    });
    assert_eq!(generate_code(&[stmt]), Err(CodeGenError::UnsupportedPrintExpr));
}

#[test]
fn generate_if_with_empty_else_still_emits_else_block() {
    let stmt = Statement::If {
        condition: Expr::Variable("a".to_string()),
        then_branch: vec![Statement::Print(Expr::Variable("a".to_string()))],
        else_branch: vec![],
    };
    let text = generate_code(&[stmt]).unwrap();
    assert!(text.contains("} else {\n"));
    assert!(text.contains("if (a) {\n"));
}

#[test]
fn generate_relation_condition() {
    let stmt = Statement::If {
        condition: Expr::BinaryOp {
            left: Box::new(Expr::Variable("a".to_string())),
            op: ">".to_string(),
            right: Box::new(Expr::Number(3)),
        },
        then_branch: vec![],
        else_branch: vec![],
    };
    let text = generate_code(&[stmt]).unwrap();
    assert!(text.contains("if (a > 3) {\n"));
}

#[test]
fn generate_nested_if_indents_by_depth() {
    let inner = Statement::If {
        condition: Expr::Variable("b".to_string()),
        then_branch: vec![Statement::Print(Expr::Number(1))],
        else_branch: vec![],
    };
    let outer = Statement::If {
        condition: Expr::Variable("a".to_string()),
        then_branch: vec![inner],
        else_branch: vec![],
    };
    let text = generate_code(&[outer]).unwrap();
    // depth one: four spaces; depth two: eight spaces
    assert!(text.contains("\n    if (b) {\n"));
    assert!(text.contains("\n        printf(\"%d\\n\", 1);\n"));
    assert!(text.contains("\n    } else {\n"));
}
