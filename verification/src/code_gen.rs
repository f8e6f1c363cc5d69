//! Code generation: a depth-first walk of the statement forest emitting
//! target-language text, wrapped in a fixed entry-point boilerplate.

use crate::parser::{
    lemma_stmt_views_elementwise, stmt_view, stmt_views, Expr, ExprView, Statement, StmtView,
};
use vstd::prelude::*;

verus! {

/// Why generation failed: printing is only supported for string literals,
/// variable references and numeric literals.
#[derive(Debug, Clone, Copy, PartialEq, Eq)]
pub enum CodeGenError {
    UnsupportedPrintExpr,
}

/// The character for one decimal digit value.
pub open spec fn digit_to_char(d: int) -> char {
    (48 + d) as char
}

/// The decimal digits of a non-negative number, most significant first.
pub open spec fn dec_digits(n: int) -> Seq<char>
    decreases n,
{
    if n < 10 {
        seq![digit_to_char(n)]
    } else {
        dec_digits(n / 10).push(digit_to_char(n % 10))
    }
}

/// The decimal rendering of an integer, with a leading minus sign when
/// negative.
pub open spec fn int_to_dec(n: int) -> Seq<char> {
    if n < 0 {
        seq!['-'] + dec_digits(-n)
    } else {
        dec_digits(n)
    }
}

/// The rendered text of an expression: no parenthesization, one space on
/// each side of a relational operator.
pub open spec fn gen_expr(e: ExprView) -> Seq<char>
    decreases e,
{
    match e {
        ExprView::Number(n) => int_to_dec(n as int),
        ExprView::Variable(x) => x,
        ExprView::StringLiteral(s) => seq!['"'] + s + seq!['"'],
        ExprView::BinaryOp { left, op, right } => gen_expr(*left) + seq![' '] + op + seq![' ']
            + gen_expr(*right),
    }
}

/// Whether a statement can be generated: a print of a binary relation is the
/// one unsupported form, anywhere in the tree.
pub open spec fn stmt_supported(s: StmtView) -> bool
    decreases s,
{
    match s {
        StmtView::Declaration { var_type, name, value } => true,
        StmtView::Print(e) => e is StringLiteral || e is Variable || e is Number,
        StmtView::If { condition, then_branch, else_branch } => all_supported(then_branch)
            && all_supported(else_branch),
    }
}

/// Whether every statement of a sequence can be generated.
pub open spec fn all_supported(ss: Seq<StmtView>) -> bool
    decreases ss,
{
    ss.len() == 0 || (stmt_supported(ss[0]) && all_supported(ss.drop_first()))
}

/// Four spaces of indentation for each nesting depth.
pub open spec fn indent_sp(d: nat) -> Seq<char>
    decreases d,
{
    if d == 0 {
        Seq::empty()
    } else {
        indent_sp((d - 1) as nat) + "    "@
    }
}

/// The text of one statement at nesting depth `d`: every line it emits is
/// indented proportionally to its depth, and a conditional always emits an
/// else block, even when the branch is empty.
pub open spec fn gen_stmt(s: StmtView, d: nat) -> Seq<char>
    decreases s,
{
    match s {
        StmtView::Declaration { var_type, name, value } => indent_sp(d) + var_type + " "@ + name
            + " = "@ + gen_expr(value) + ";\n"@,
        StmtView::Print(e) => match e {
            ExprView::StringLiteral(t) => indent_sp(d) + "printf(\""@ + t + "\\n\");\n"@,
            ExprView::Variable(x) => indent_sp(d) + "printf(\"%d\\n\", "@ + x + ");\n"@,
            ExprView::Number(n) => indent_sp(d) + "printf(\"%d\\n\", "@ + int_to_dec(n as int)
                + ");\n"@,
            ExprView::BinaryOp { left, op, right } => Seq::empty(),
        },
        StmtView::If { condition, then_branch, else_branch } => indent_sp(d) + "if ("@ + gen_expr(
            condition,
        ) + ") {\n"@ + gen_stmts(then_branch, d + 1) + indent_sp(d) + "} else {\n"@ + gen_stmts(
            else_branch,
            d + 1,
        ) + indent_sp(d) + "}\n"@,
    }
}

/// The concatenated text of a sequence of statements, all at depth `d`.
pub open spec fn gen_stmts(ss: Seq<StmtView>, d: nat) -> Seq<char>
    decreases ss,
{
    if ss.len() == 0 {
        Seq::empty()
    } else {
        gen_stmt(ss[0], d) + gen_stmts(ss.drop_first(), d)
    }
}

/// The fixed boilerplate above the translated statements.
pub open spec fn header() -> Seq<char> {
    "#include <stdio.h>\nint main() {\n"@
}

/// The fixed boilerplate below the translated statements.
pub open spec fn footer() -> Seq<char> {
    "return 0;\n}\n"@
}

/// The whole generated program for a statement forest.
pub open spec fn gen_program(ss: Seq<StmtView>) -> Seq<char> {
    header() + gen_stmts(ss, 0) + footer()
}

/// Appends the decimal digits of `n`.
fn push_dec(out: &mut String, n: u64)
    ensures
        final(out)@ == old(out)@ + dec_digits(n as int),
    decreases n,
{
    if n >= 10 {
        push_dec(out, n / 10);
    }
    let d: u8 = (n % 10) as u8;
    crate::text::push_char(out, (48 + d) as char);
    proof {
        if n < 10 {
            assert(old(out)@.push(digit_to_char(n as int)) =~= old(out)@ + seq![
                digit_to_char(n as int),
            ]);
        } else {
            assert((old(out)@ + dec_digits(n as int / 10)).push(digit_to_char(n as int % 10))
                =~= old(out)@ + dec_digits(n as int / 10).push(digit_to_char(n as int % 10)));
        }
    }
}

/// Appends the decimal rendering of `n`, sign included.
fn push_int(out: &mut String, n: i32)
    ensures
        final(out)@ == old(out)@ + int_to_dec(n as int),
{
    if n < 0 {
        crate::text::push_char(out, '-');
        let m: u64 = (-(n as i64)) as u64;
        push_dec(out, m);
        proof {
            assert(old(out)@.push('-') + dec_digits(m as int) =~= old(out)@ + (seq!['-']
                + dec_digits(m as int)));
        }
    } else {
        push_dec(out, n as u64);
    }
}

/// Renders one expression to text, exactly as [`gen_expr`] describes.
fn generate_expression(expr: &Expr) -> (r: String)
    ensures
        r@ == gen_expr(expr@),
    decreases expr,
{
    match expr {
        Expr::Number(n) => {
            let mut out = String::new();
            push_int(&mut out, *n);
            proof {
                assert(Seq::<char>::empty() + int_to_dec(*n as int) =~= int_to_dec(*n as int));
            }
            out
        },
        Expr::Variable(name) => name.clone(),
        Expr::StringLiteral(s) => {
            let mut out = String::from_str("\"");
            out.append(s.as_str());
            out.append("\"");
            proof {
                reveal_strlit("\"");
                assert("\""@ =~= seq!['"']);
                assert(("\""@ + s@) + "\""@ =~= gen_expr(expr@));
            }
            out
        },
        Expr::BinaryOp { left, op, right } => {
            let mut out = generate_expression(&**left);
            out.append(" ");
            out.append(op.as_str());
            out.append(" ");
            let rhs = generate_expression(&**right);
            out.append(rhs.as_str());
            proof {
                reveal_strlit(" ");
                assert(" "@ =~= seq![' ']);
                assert((((gen_expr((**left)@) + " "@) + op@) + " "@) + gen_expr((**right)@)
                    =~= gen_expr(expr@));
            }
            out
        },
    }
}

/// Renders one statement at depth `d`, where `ind` is the matching
/// indentation text.
fn generate_statement(stmt: &Statement, ind: &str, Ghost(d): Ghost<nat>) -> (r: Result<
    String,
    CodeGenError,
>)
    requires
        ind@ == indent_sp(d),
    ensures
        stmt_supported(stmt@) ==> (r matches Ok(s) && s@ == gen_stmt(stmt@, d)),
        !stmt_supported(stmt@) ==> (r matches Err(e) && e == CodeGenError::UnsupportedPrintExpr),
    decreases stmt, 0int, 0int,
{
    match stmt {
        Statement::Declaration { var_type, name, value } => {
            let mut out = String::from_str(ind);
            out.append(var_type.as_str());
            out.append(" ");
            out.append(name.as_str());
            out.append(" = ");
            let v = generate_expression(value);
            out.append(v.as_str());
            out.append(";\n");
            proof {
                assert(out@ =~= gen_stmt(stmt@, d));
            }
            Ok(out)
        },
        Statement::Print(e) => match e {
            Expr::StringLiteral(s) => {
                let mut out = String::from_str(ind);
                out.append("printf(\"");
                out.append(s.as_str());
                out.append("\\n\");\n");
                proof {
                    assert(out@ =~= gen_stmt(stmt@, d));
                }
                Ok(out)
            },
            Expr::Variable(x) => {
                let mut out = String::from_str(ind);
                out.append("printf(\"%d\\n\", ");
                out.append(x.as_str());
                out.append(");\n");
                proof {
                    assert(out@ =~= gen_stmt(stmt@, d));
                }
                Ok(out)
            },
            Expr::Number(n) => {
                let mut out = String::from_str(ind);
                out.append("printf(\"%d\\n\", ");
                push_int(&mut out, *n);
                out.append(");\n");
                proof {
                    assert(out@ =~= gen_stmt(stmt@, d));
                }
                Ok(out)
            },
            Expr::BinaryOp { left, op, right } => Err(CodeGenError::UnsupportedPrintExpr),
        },
        Statement::If { condition, then_branch, else_branch } => {
            let mut out = String::from_str(ind);
            out.append("if (");
            let c = generate_expression(condition);
            out.append(c.as_str());
            out.append(") {\n");
            let mut child_ind = String::from_str(ind);
            child_ind.append("    ");
            proof {
                assert(child_ind@ == indent_sp(d + 1));
                lemma_stmt_views_elementwise(then_branch@);
                lemma_stmt_views_elementwise(else_branch@);
                assert(stmt_views(then_branch@).subrange(0, then_branch@.len() as int)
                    =~= stmt_views(then_branch@));
                assert(stmt_views(else_branch@).subrange(0, else_branch@.len() as int)
                    =~= stmt_views(else_branch@));
            }
            match generate_statements(then_branch.as_slice(), 0, child_ind.as_str(), Ghost(d + 1), &mut out) {
                Ok(()) => (),
                Err(e) => {
                    return Err(e);
                },
            }
            out.append(ind);
            out.append("} else {\n");
            match generate_statements(else_branch.as_slice(), 0, child_ind.as_str(), Ghost(d + 1), &mut out) {
                Ok(()) => (),
                Err(e) => {
                    return Err(e);
                },
            }
            out.append(ind);
            out.append("}\n");
            proof {
                if stmt_supported(stmt@) {
                    assert(out@ =~= gen_stmt(stmt@, d));
                }
            }
            Ok(out)
        },
    }
}

/// Renders the statements `stmts[k..]` at depth `d`, appending to `out`; the
/// first unsupported statement aborts with no further output promised.
fn generate_statements(
    stmts: &[Statement],
    k: usize,
    ind: &str,
    Ghost(d): Ghost<nat>,
    out: &mut String,
) -> (r: Result<(), CodeGenError>)
    requires
        ind@ == indent_sp(d),
        k <= stmts@.len(),
    ensures
        ({
            let suffix = stmt_views(stmts@).subrange(k as int, stmts@.len() as int);
            &&& all_supported(suffix) ==> (r is Ok && final(out)@ == old(out)@ + gen_stmts(
                suffix,
                d,
            ))
            &&& !all_supported(suffix) ==> (r matches Err(e) && e
                == CodeGenError::UnsupportedPrintExpr)
        }),
    decreases stmts@, 1int, stmts@.len() - k,
{
    proof {
        lemma_stmt_views_elementwise(stmts@);
    }
    if k >= stmts.len() {
        proof {
            assert(stmt_views(stmts@).subrange(k as int, stmts@.len() as int)
                =~= Seq::<StmtView>::empty());
            assert(old(out)@ + Seq::<char>::empty() =~= old(out)@);
        }
        return Ok(());
    }
    let ghost suffix = stmt_views(stmts@).subrange(k as int, stmts@.len() as int);
    let ghost rest = stmt_views(stmts@).subrange(k as int + 1, stmts@.len() as int);
    proof {
        assert(suffix[0] == stmt_view(stmts@[k as int]));
        assert(suffix.drop_first() =~= rest);
    }
    let s = match generate_statement(&stmts[k], ind, Ghost(d)) {
        Ok(s) => s,
        Err(e) => {
            return Err(e);
        },
    };
    let ghost before = out@;
    out.append(s.as_str());
    match generate_statements(stmts, k + 1, ind, Ghost(d), out) {
        Ok(()) => {
            proof {
                if all_supported(suffix) {
                    assert((before + gen_stmt(suffix[0], d)) + gen_stmts(rest, d) =~= before + (
                    gen_stmt(suffix[0], d) + gen_stmts(rest, d)));
                }
            }
            Ok(())
        },
        Err(e) => Err(e),
    }
}

/// Generates the whole target program for a statement forest: the fixed
/// header, the statements at depth zero, then the fixed footer, exactly as
/// [`gen_program`] describes; fails if and only if some statement prints an
/// unsupported expression kind.
pub fn generate_code(statements: &[Statement]) -> (r: Result<String, CodeGenError>)
    ensures
        all_supported(statements.deep_view()) ==> (r matches Ok(s) && s@ == gen_program(
            statements.deep_view(),
        )),
        !all_supported(statements.deep_view()) ==> (r matches Err(e) && e
            == CodeGenError::UnsupportedPrintExpr),
{
    proof {
        lemma_stmt_views_elementwise(statements@);
        assert(statements.deep_view() =~= stmt_views(statements@));
    }
    let mut out = String::from_str("#include <stdio.h>\nint main() {\n");
    let ind = String::new();
    proof {
        reveal_strlit("");
        assert(ind@ =~= indent_sp(0));
        assert(stmt_views(statements@).subrange(0, statements@.len() as int) =~= stmt_views(
            statements@,
        ));
    }
    match generate_statements(statements, 0, ind.as_str(), Ghost(0nat), &mut out) {
        Ok(()) => {
            out.append("return 0;\n}\n");
            proof {
                if all_supported(statements.deep_view()) {
                    assert(out@ =~= gen_program(statements.deep_view()));
                }
            }
            Ok(out)
        },
        Err(e) => Err(e),
    }
}

} // verus!
