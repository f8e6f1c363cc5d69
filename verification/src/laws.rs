//! Laws relating the three pipeline stages to one another: what lexing,
//! parsing and generating guarantee when composed.

use crate::code_gen::{
    all_supported, dec_digits, digit_to_char, footer, gen_expr, gen_program, gen_stmt, gen_stmts,
    header, indent_sp, stmt_supported,
};
use crate::lexer::{
    digits_val, is_digit, is_letter, is_word_char, keyword_or_ident, lex_cons,
    lemma_scan_digits_end_exact, lemma_scan_string_end_exact, lemma_scan_word_end_exact, spec_lex,
    spec_lex_from, LexError, TokenView,
};
use crate::parser::{
    spec_parse, spec_parse_declaration, spec_parse_expression, spec_parse_primary,
    spec_parse_program, spec_parse_statement, ExprView, ParseErrorView, StmtView,
};
use vstd::prelude::*;

verus! {

/// `needle` occurs contiguously somewhere inside `hay`.
pub open spec fn contains_seq(hay: Seq<char>, needle: Seq<char>) -> bool {
    exists|k: int|
        0 <= k && k + needle.len() <= hay.len() && #[trigger] hay.subrange(k, k + needle.len())
            == needle
}

/// Witness introduction for [`contains_seq`].
pub proof fn lemma_contains_at(hay: Seq<char>, needle: Seq<char>, k: int)
    requires
        0 <= k,
        k + needle.len() <= hay.len(),
        hay.subrange(k, k + needle.len()) == needle,
    ensures
        contains_seq(hay, needle),
{
}

/// An occurrence survives being surrounded by more text.
pub proof fn lemma_contains_embed(a: Seq<char>, mid: Seq<char>, b: Seq<char>, needle: Seq<char>)
    requires
        contains_seq(mid, needle),
    ensures
        contains_seq(a + mid + b, needle),
{
    let k = choose|k: int|
        0 <= k && k + needle.len() <= mid.len() && #[trigger] mid.subrange(k, k + needle.len())
            == needle;
    assert((a + mid + b).subrange(a.len() + k, a.len() + k + needle.len()) =~= mid.subrange(
        k,
        k + needle.len(),
    ));
    lemma_contains_at(a + mid + b, needle, a.len() + k);
}

/// Every sequence contains itself.
pub proof fn lemma_contains_self(s: Seq<char>)
    ensures
        contains_seq(s, s),
{
    assert(s.subrange(0, s.len() as int) =~= s);
    lemma_contains_at(s, s, 0);
}

/// The indentation text for depth `d` is exactly `4 * d` characters wide:
/// indentation is proportional to nesting depth.
pub proof fn lemma_indent_len(d: nat)
    ensures
        indent_sp(d).len() == 4 * d,
    decreases d,
{
    if d > 0 {
        lemma_indent_len((d - 1) as nat);
        reveal_strlit("    ");
    }
}

/// Every generated statement line starts with the indentation of its depth:
/// the statement's text begins with `indent_sp(d)`.
pub proof fn lemma_stmt_text_indented(s: StmtView, d: nat)
    requires
        stmt_supported(s),
    ensures
        gen_stmt(s, d).len() >= indent_sp(d).len(),
        gen_stmt(s, d).subrange(0, indent_sp(d).len() as int) == indent_sp(d),
{
    let ind = indent_sp(d);
    match s {
        StmtView::Declaration { var_type, name, value } => {
            assert(gen_stmt(s, d).subrange(0, ind.len() as int) =~= ind);
        },
        StmtView::Print(e) => {
            assert(gen_stmt(s, d).subrange(0, ind.len() as int) =~= ind);
        },
        StmtView::If { condition, then_branch, else_branch } => {
            assert(gen_stmt(s, d).subrange(0, ind.len() as int) =~= ind);
        },
    }
}

/// Every conditional statement, with or without a source else clause, emits
/// a non-empty else block: its text contains `} else {`.
pub proof fn lemma_if_always_emits_else(
    cond: ExprView,
    then_branch: Seq<StmtView>,
    else_branch: Seq<StmtView>,
    d: nat,
)
    ensures
        contains_seq(
            gen_stmt(
                StmtView::If { condition: cond, then_branch: then_branch, else_branch: else_branch },
                d,
            ),
            "} else {\n"@,
        ),
{
    let s = StmtView::If { condition: cond, then_branch: then_branch, else_branch: else_branch };
    let pre = indent_sp(d) + "if ("@ + gen_expr(cond) + ") {\n"@ + gen_stmts(then_branch, d + 1)
        + indent_sp(d);
    let post = gen_stmts(else_branch, d + 1) + indent_sp(d) + "}\n"@;
    assert(gen_stmt(s, d) =~= pre + "} else {\n"@ + post);
    lemma_contains_self("} else {\n"@);
    lemma_contains_embed(pre, "} else {\n"@, post, "} else {\n"@);
}

/// Relational parsing is exactly one level deep: identifier, relational
/// operator, identifier parse to a single binary-relation node consuming
/// exactly three tokens, whatever follows.
pub proof fn lemma_relation_is_one_level(ts: Seq<TokenView>, i: int, a: Seq<char>, b: Seq<char>)
    requires
        0 <= i,
        i + 2 < ts.len(),
        ts[i] == TokenView::Identifier(a),
        ts[i + 1] is Greater || ts[i + 1] is Less,
        ts[i + 2] == TokenView::Identifier(b),
    ensures
        spec_parse_expression(ts, i) == Result::<(ExprView, int), ParseErrorView>::Ok(
            (
                ExprView::BinaryOp {
                    left: Box::new(ExprView::Variable(a)),
                    op: if ts[i + 1] is Greater {
                        ">"@
                    } else {
                        "<"@
                    },
                    right: Box::new(ExprView::Variable(b)),
                },
                i + 3,
            ),
        ),
{
}

/// Chaining a second relational operator is rejected: inside a declaration,
/// `= a > b > c` fails at the second operator, where the parser demands the
/// statement terminator.
pub proof fn lemma_relation_does_not_chain(ts: Seq<TokenView>, i: int)
    requires
        0 <= i,
        i + 7 <= ts.len(),
        ts[i] is Int,
        ts[i + 1] is Identifier,
        ts[i + 2] is Equal,
        ts[i + 3] is Identifier,
        ts[i + 4] is Greater || ts[i + 4] is Less,
        ts[i + 5] is Identifier,
        ts[i + 6] is Greater || ts[i + 6] is Less,
    ensures
        spec_parse_statement(ts, i) == Result::<(StmtView, int), ParseErrorView>::Err(
            ParseErrorView::UnexpectedToken { expected: TokenView::Semicolon, found: ts[i + 6] },
        ),
{
}

/// A statement nested `j` levels down a chain of conditionals appears in the
/// generated text of the whole chain, rendered at depth `d + j`: nesting
/// depth is preserved, and with [`lemma_indent_len`] its indentation is
/// proportional to that depth.
pub proof fn lemma_nesting_preserved(n: nat, inner: StmtView, d: nat, j: nat)
    requires
        j <= n,
    ensures
        contains_seq(
            gen_stmt(nested_if(n, inner), d),
            gen_stmt(nested_if((n - j) as nat, inner), (d + j) as nat),
        ),
    decreases j,
{
    if j == 0 {
        lemma_contains_self(gen_stmt(nested_if(n, inner), d));
    } else {
        let child = nested_if((n - 1) as nat, inner);
        let s = nested_if(n, inner);
        lemma_nesting_preserved((n - 1) as nat, inner, (d + 1) as nat, (j - 1) as nat);
        assert(seq![child].drop_first() =~= Seq::<StmtView>::empty());
        assert(gen_stmts(Seq::<StmtView>::empty(), d + 1) == Seq::<char>::empty());
        assert(gen_stmts(seq![child], d + 1) =~= gen_stmt(child, d + 1)
            + Seq::<char>::empty());
        assert(gen_stmt(child, d + 1) + Seq::<char>::empty() =~= gen_stmt(child, d + 1));
        let pre = indent_sp(d) + "if ("@ + gen_expr(ExprView::Number(1)) + ") {\n"@;
        let post = indent_sp(d) + "} else {\n"@ + gen_stmts(Seq::empty(), d + 1) + indent_sp(d)
            + "}\n"@;
        assert(gen_stmt(s, d) =~= pre + gen_stmt(child, d + 1) + post);
        lemma_contains_embed(
            pre,
            gen_stmt(child, d + 1),
            post,
            gen_stmt(nested_if((n - j) as nat, inner), (d + j) as nat),
        );
    }
}

/// Every decimal rendering is non-empty and made of digit characters only.
pub proof fn lemma_dec_digits_are_digits(n: int)
    requires
        n >= 0,
    ensures
        dec_digits(n).len() >= 1,
        forall|k: int| 0 <= k < dec_digits(n).len() ==> is_digit(#[trigger] dec_digits(n)[k]),
    decreases n,
{
    if n < 10 {
        assert(digit_to_char(n) as int == 48 + n);
    } else {
        lemma_dec_digits_are_digits(n / 10);
        assert(digit_to_char(n % 10) as int == 48 + n % 10);
    }
}

/// Reading the decimal rendering of a number back as digits gives the number:
/// formatting and numeric lexing are inverses.
pub proof fn lemma_dec_digits_val(n: int)
    requires
        n >= 0,
    ensures
        digits_val(dec_digits(n)) == n,
    decreases n,
{
    assert('0' as int == 48);
    if n < 10 {
        assert(dec_digits(n).drop_last() =~= Seq::<char>::empty());
        assert(digits_val(Seq::<char>::empty()) == 0);
        assert(digit_to_char(n) as int == 48 + n);
    } else {
        lemma_dec_digits_val(n / 10);
        assert(dec_digits(n).drop_last() =~= dec_digits(n / 10));
        assert(digit_to_char(n % 10) as int == 48 + n % 10);
    }
}

/// A name the lexer will read back as one identifier token: it starts with a
/// letter, continues alphanumerically, and is none of the keywords.
pub open spec fn is_valid_ident(w: Seq<char>) -> bool {
    &&& w.len() > 0
    &&& is_letter(w[0])
    &&& forall|k: int| 0 <= k < w.len() ==> is_word_char(w[k])
    &&& w != "int"@
    &&& w != "if"@
    &&& w != "else"@
    &&& w != "print"@
}

/// The source text of one declaration statement.
pub open spec fn decl_source(id: Seq<char>, n: i32) -> Seq<char> {
    "int "@ + id + " = "@ + dec_digits(n as int) + ";"@
}

/// The five tokens of one declaration statement.
pub open spec fn decl_tokens(id: Seq<char>, n: i32) -> Seq<TokenView> {
    seq![
        TokenView::Int,
        TokenView::Identifier(id),
        TokenView::Equal,
        TokenView::Number(n),
        TokenView::Semicolon,
    ]
}

/// The parsed form of one declaration statement.
pub open spec fn decl_stmt(id: Seq<char>, n: i32) -> StmtView {
    StmtView::Declaration { var_type: "int"@, name: id, value: ExprView::Number(n) }
}

/// Lexing a declaration source yields exactly its five tokens.
pub proof fn lemma_decl_lex(id: Seq<char>, n: i32)
    requires
        is_valid_ident(id),
        n >= 0,
    ensures
        spec_lex(decl_source(id, n)) == Result::<Seq<TokenView>, LexError>::Ok(decl_tokens(id, n)),
{
    reveal_strlit("int ");
    reveal_strlit(" = ");
    reveal_strlit(";");
    reveal_strlit("int");
    reveal_strlit("if");
    reveal_strlit("else");
    reveal_strlit("print");
    lemma_dec_digits_are_digits(n as int);
    lemma_dec_digits_val(n as int);
    let digits = dec_digits(n as int);
    let il = id.len() as int;
    let dl = digits.len() as int;
    let p1 = "int "@ + id;
    let p2 = p1 + " = "@;
    let p3 = p2 + digits;
    let src = p3 + ";"@;
    assert(src == decl_source(id, n));
    assert(src.len() == 8 + il + dl);
    assert(src[0] == 'i' && src[1] == 'n' && src[2] == 't' && src[3] == ' ');
    assert forall|k: int| 0 <= k < il implies src[4 + k] == id[k] by {
        assert(p1[4 + k] == id[k]);
        assert(p2[4 + k] == p1[4 + k]);
        assert(p3[4 + k] == p2[4 + k]);
        assert(src[4 + k] == p3[4 + k]);
    }
    assert(src[4 + il] == ' ' && src[5 + il] == '=' && src[6 + il] == ' ');
    assert forall|k: int| 0 <= k < dl implies src[7 + il + k] == digits[k] by {
        assert(p3[7 + il + k] == digits[k]);
        assert(src[7 + il + k] == p3[7 + il + k]);
    }
    assert(src[7 + il + dl] == ';');
    // the keyword token
    lemma_scan_word_end_exact(src, 0, 3);
    assert(src.subrange(0, 3) =~= "int"@);
    assert(spec_lex_from(src, 0) == lex_cons(TokenView::Int, spec_lex_from(src, 3)));
    assert(spec_lex_from(src, 3) == spec_lex_from(src, 4));
    // the identifier token
    assert(is_letter(src[4]));
    lemma_scan_word_end_exact(src, 4, 4 + il);
    assert(src.subrange(4, 4 + il) =~= id);
    assert(keyword_or_ident(id) == TokenView::Identifier(id));
    assert(spec_lex_from(src, 4) == lex_cons(TokenView::Identifier(id), spec_lex_from(src, 4 + il)));
    // the assignment token
    assert(spec_lex_from(src, 4 + il) == spec_lex_from(src, 5 + il));
    assert(spec_lex_from(src, 5 + il) == lex_cons(TokenView::Equal, spec_lex_from(src, 6 + il)));
    assert(spec_lex_from(src, 6 + il) == spec_lex_from(src, 7 + il));
    // the literal token
    assert(is_digit(src[7 + il]));
    lemma_scan_digits_end_exact(src, 7 + il, 7 + il + dl);
    assert(src.subrange(7 + il, 7 + il + dl) =~= digits);
    assert(digits_val(src.subrange(7 + il, 7 + il + dl)) == n as int);
    assert(spec_lex_from(src, 7 + il) == lex_cons(
        TokenView::Number(n),
        spec_lex_from(src, 7 + il + dl),
    ));
    // the terminator, then the end of the input
    assert(spec_lex_from(src, 7 + il + dl) == lex_cons(
        TokenView::Semicolon,
        spec_lex_from(src, 8 + il + dl),
    ));
    assert(spec_lex_from(src, 8 + il + dl) == Result::<Seq<TokenView>, LexError>::Ok(Seq::empty()));
    assert(spec_lex(src) is Ok);
    assert(spec_lex(src)->Ok_0 =~= decl_tokens(id, n));
}

/// Parsing the five declaration tokens yields exactly one declaration
/// statement, and it is supported by the generator.
pub proof fn lemma_decl_parse(id: Seq<char>, n: i32)
    ensures
        spec_parse(decl_tokens(id, n)) == Result::<Seq<StmtView>, ParseErrorView>::Ok(
            seq![decl_stmt(id, n)],
        ),
        all_supported(seq![decl_stmt(id, n)]),
{
    let toks = decl_tokens(id, n);
    let decl = decl_stmt(id, n);
    assert(toks[0] == TokenView::Int && toks[1] == TokenView::Identifier(id) && toks[2]
        == TokenView::Equal && toks[3] == TokenView::Number(n) && toks[4] == TokenView::Semicolon);
    assert(spec_parse_primary(toks, 3) == Result::<(ExprView, int), ParseErrorView>::Ok(
        (ExprView::Number(n), 4),
    ));
    assert(spec_parse_expression(toks, 3) == Result::<(ExprView, int), ParseErrorView>::Ok(
        (ExprView::Number(n), 4),
    ));
    assert(spec_parse_declaration(toks, 0) == Result::<(StmtView, int), ParseErrorView>::Ok(
        (decl, 5),
    ));
    assert(spec_parse_statement(toks, 0) == Result::<(StmtView, int), ParseErrorView>::Ok(
        (decl, 5),
    ));
    assert(spec_parse_program(toks, 5) == Result::<(Seq<StmtView>, int), ParseErrorView>::Ok(
        (Seq::empty(), 5),
    ));
    assert(spec_parse_program(toks, 0) is Ok);
    assert(spec_parse(toks) is Ok);
    assert(spec_parse(toks)->Ok_0 =~= seq![decl]);
    assert(seq![decl].drop_first() =~= Seq::<StmtView>::empty());
    assert(all_supported(Seq::<StmtView>::empty()));
    assert(seq![decl][0] == decl);
    assert(stmt_supported(decl));
    assert(all_supported(seq![decl]));
}

/// Generating the parsed declaration yields target text that contains the
/// source declaration text verbatim.
pub proof fn lemma_decl_gen(id: Seq<char>, n: i32)
    requires
        n >= 0,
    ensures
        contains_seq(gen_program(seq![decl_stmt(id, n)]), decl_source(id, n)),
{
    reveal_strlit("int ");
    reveal_strlit(" = ");
    reveal_strlit(";");
    reveal_strlit("int");
    reveal_strlit(";\n");
    reveal_strlit(" ");
    reveal_strlit("\n");
    let decl = decl_stmt(id, n);
    let prog = seq![decl];
    let src = decl_source(id, n);
    let digits = dec_digits(n as int);
    assert(gen_expr(ExprView::Number(n)) == digits);
    assert(gen_stmt(decl, 0) =~= src + "\n"@);
    assert(prog.drop_first() =~= Seq::<StmtView>::empty());
    assert(gen_stmts(Seq::<StmtView>::empty(), 0) == Seq::<char>::empty());
    assert(gen_stmts(prog, 0) =~= gen_stmt(decl, 0));
    assert(gen_program(prog) =~= header() + (src + "\n"@) + footer());
    assert(header() + (src + "\n"@) + footer() =~= header() + src + ("\n"@ + footer()));
    lemma_contains_self(src);
    lemma_contains_embed(header(), src, "\n"@ + footer(), src);
}

/// The full pipeline on a declaration: `int <id> = <literal>;` lexes to the
/// five declaration tokens, parses to one declaration statement, and the
/// generated target text contains exactly the source declaration again.
pub proof fn lemma_declaration_round_trip(id: Seq<char>, n: i32)
    requires
        is_valid_ident(id),
        n >= 0,
    ensures
        spec_lex(decl_source(id, n)) == Result::<Seq<TokenView>, LexError>::Ok(decl_tokens(id, n)),
        spec_parse(decl_tokens(id, n)) == Result::<Seq<StmtView>, ParseErrorView>::Ok(
            seq![decl_stmt(id, n)],
        ),
        all_supported(seq![decl_stmt(id, n)]),
        contains_seq(gen_program(seq![decl_stmt(id, n)]), decl_source(id, n)),
{
    lemma_decl_lex(id, n);
    lemma_decl_parse(id, n);
    lemma_decl_gen(id, n);
}

/// The source text of one print statement with a string literal.
pub open spec fn print_source(text: Seq<char>) -> Seq<char> {
    "print(\""@ + text + "\");"@
}

/// The five tokens of one print statement.
pub open spec fn print_tokens(text: Seq<char>) -> Seq<TokenView> {
    seq![
        TokenView::Print,
        TokenView::OpenParen,
        TokenView::StringLiteral(text),
        TokenView::CloseParen,
        TokenView::Semicolon,
    ]
}

/// Lexing a print-string source yields exactly its five tokens, for any text
/// free of the reserved double-quote character.
pub proof fn lemma_print_lex(text: Seq<char>)
    requires
        forall|k: int| 0 <= k < text.len() ==> text[k] != '"',
    ensures
        spec_lex(print_source(text)) == Result::<Seq<TokenView>, LexError>::Ok(print_tokens(text)),
{
    reveal_strlit("print(\"");
    reveal_strlit("\");");
    reveal_strlit("int");
    reveal_strlit("if");
    reveal_strlit("else");
    reveal_strlit("print");
    let tl = text.len() as int;
    let p1 = "print(\""@ + text;
    let src = p1 + "\");"@;
    assert(src == print_source(text));
    assert(src.len() == 10 + tl);
    assert(src[0] == 'p' && src[1] == 'r' && src[2] == 'i' && src[3] == 'n' && src[4] == 't'
        && src[5] == '(' && src[6] == '"');
    assert forall|k: int| 0 <= k < tl implies src[7 + k] == text[k] by {
        assert(p1[7 + k] == text[k]);
        assert(src[7 + k] == p1[7 + k]);
    }
    assert(src[7 + tl] == '"' && src[8 + tl] == ')' && src[9 + tl] == ';');
    // the keyword token
    assert(is_letter(src[0]));
    lemma_scan_word_end_exact(src, 0, 5);
    assert(src.subrange(0, 5) =~= "print"@);
    assert(keyword_or_ident("print"@) == TokenView::Print);
    assert(spec_lex_from(src, 0) == lex_cons(TokenView::Print, spec_lex_from(src, 5)));
    // the open parenthesis
    assert(spec_lex_from(src, 5) == lex_cons(TokenView::OpenParen, spec_lex_from(src, 6)));
    // the string literal, consumed verbatim up to the closing quote
    lemma_scan_string_end_exact(src, 7, 7 + tl);
    assert(src.subrange(7, 7 + tl) =~= text);
    assert(spec_lex_from(src, 6) == lex_cons(
        TokenView::StringLiteral(text),
        spec_lex_from(src, 8 + tl),
    ));
    // the close parenthesis, the terminator, then the end of the input
    assert(spec_lex_from(src, 8 + tl) == lex_cons(
        TokenView::CloseParen,
        spec_lex_from(src, 9 + tl),
    ));
    assert(spec_lex_from(src, 9 + tl) == lex_cons(
        TokenView::Semicolon,
        spec_lex_from(src, 10 + tl),
    ));
    assert(spec_lex_from(src, 10 + tl) == Result::<Seq<TokenView>, LexError>::Ok(Seq::empty()));
    assert(spec_lex(src) is Ok);
    assert(spec_lex(src)->Ok_0 =~= print_tokens(text));
}

/// For any string without the reserved double quote, `print("<text>");`
/// lexes to five tokens, parses to one print statement, and generates an
/// output call embedding the text followed by a newline marker.
pub proof fn lemma_print_round_trip(text: Seq<char>)
    requires
        forall|k: int| 0 <= k < text.len() ==> text[k] != '"',
    ensures
        spec_lex(print_source(text)) == Result::<Seq<TokenView>, LexError>::Ok(print_tokens(text)),
        spec_parse(print_tokens(text)) == Result::<Seq<StmtView>, ParseErrorView>::Ok(
            seq![StmtView::Print(ExprView::StringLiteral(text))],
        ),
        all_supported(seq![StmtView::Print(ExprView::StringLiteral(text))]),
        contains_seq(
            gen_program(seq![StmtView::Print(ExprView::StringLiteral(text))]),
            "printf(\""@ + text + "\\n\");\n"@,
        ),
{
    lemma_print_lex(text);
    let toks = print_tokens(text);
    let st = StmtView::Print(ExprView::StringLiteral(text));
    let prog = seq![st];
    assert(toks[0] == TokenView::Print && toks[1] == TokenView::OpenParen && toks[2]
        == TokenView::StringLiteral(text) && toks[3] == TokenView::CloseParen && toks[4]
        == TokenView::Semicolon);
    assert(spec_parse_primary(toks, 2) == Result::<(ExprView, int), ParseErrorView>::Ok(
        (ExprView::StringLiteral(text), 3),
    ));
    assert(spec_parse_expression(toks, 2) == Result::<(ExprView, int), ParseErrorView>::Ok(
        (ExprView::StringLiteral(text), 3),
    ));
    assert(spec_parse_statement(toks, 0) == Result::<(StmtView, int), ParseErrorView>::Ok(
        (st, 5),
    ));
    assert(spec_parse_program(toks, 5) == Result::<(Seq<StmtView>, int), ParseErrorView>::Ok(
        (Seq::empty(), 5),
    ));
    assert(spec_parse_program(toks, 0) is Ok);
    assert(spec_parse(toks) is Ok);
    assert(spec_parse(toks)->Ok_0 =~= prog);
    assert(prog.drop_first() =~= Seq::<StmtView>::empty());
    assert(all_supported(Seq::<StmtView>::empty()));
    assert(prog[0] == st);
    assert(stmt_supported(st));
    assert(all_supported(prog));
    // generation: the output call with the newline marker
    let needle = "printf(\""@ + text + "\\n\");\n"@;
    assert(gen_stmt(st, 0) =~= needle);
    assert(gen_stmts(Seq::<StmtView>::empty(), 0) == Seq::<char>::empty());
    assert(gen_stmts(prog, 0) =~= needle);
    assert(gen_program(prog) =~= header() + needle + footer());
    lemma_contains_self(needle);
    lemma_contains_embed(header(), needle, footer(), needle);
}

/// A chain of conditionals, each nesting the next in its then branch.
pub open spec fn nested_if(n: nat, inner: StmtView) -> StmtView
    decreases n,
{
    if n == 0 {
        inner
    } else {
        StmtView::If {
            condition: ExprView::Number(1),
            then_branch: seq![nested_if((n - 1) as nat, inner)],
            else_branch: Seq::empty(),
        }
    }
}

} // verus!
