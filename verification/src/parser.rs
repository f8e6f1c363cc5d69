//! Recursive-descent parsing: tokens in, an ordered forest of statements out,
//! with exactly one token of lookahead and no backtracking.

use crate::lexer::{Token, TokenView};
use vstd::prelude::*;

verus! {

/// An expression: a leaf literal or variable, or one binary relation.
#[derive(Debug, PartialEq)]
pub enum Expr {
    Number(i32),
    StringLiteral(String),
    Variable(String),
    BinaryOp { left: Box<Expr>, op: String, right: Box<Expr> },
}

/// The mathematical image of an [`Expr`].
pub ghost enum ExprView {
    Number(i32),
    StringLiteral(Seq<char>),
    Variable(Seq<char>),
    BinaryOp { left: Box<ExprView>, op: Seq<char>, right: Box<ExprView> },
}

/// The view of an expression, written as a standalone recursion so the
/// nested boxes unfold structurally.
pub open spec fn expr_view(e: Expr) -> ExprView
    decreases e,
{
    match e {
        Expr::Number(n) => ExprView::Number(n),
        Expr::StringLiteral(s) => ExprView::StringLiteral(s@),
        Expr::Variable(s) => ExprView::Variable(s@),
        Expr::BinaryOp { left, op, right } => ExprView::BinaryOp {
            left: Box::new(expr_view(*left)),
            op: op@,
            right: Box::new(expr_view(*right)),
        },
    }
}

impl View for Expr {
    type V = ExprView;

    open spec fn view(&self) -> ExprView {
        expr_view(*self)
    }
}

impl DeepView for Expr {
    type V = ExprView;

    open spec fn deep_view(&self) -> ExprView {
        self.view()
    }
}

/// A top-level or nested statement.
#[derive(Debug, PartialEq)]
pub enum Statement {
    Declaration { var_type: String, name: String, value: Expr },
    If { condition: Expr, then_branch: Vec<Statement>, else_branch: Vec<Statement> },
    Print(Expr),
}

/// The mathematical image of a [`Statement`].
pub ghost enum StmtView {
    Declaration { var_type: Seq<char>, name: Seq<char>, value: ExprView },
    If { condition: ExprView, then_branch: Seq<StmtView>, else_branch: Seq<StmtView> },
    Print(ExprView),
}

/// The view of a statement, recursing into the branch vectors of a
/// conditional.
pub open spec fn stmt_view(s: Statement) -> StmtView
    decreases s,
{
    match s {
        Statement::Declaration { var_type, name, value } => StmtView::Declaration {
            var_type: var_type@,
            name: name@,
            value: expr_view(value),
        },
        Statement::If { condition, then_branch, else_branch } => StmtView::If {
            condition: expr_view(condition),
            then_branch: stmt_views(then_branch@),
            else_branch: stmt_views(else_branch@),
        },
        Statement::Print(e) => StmtView::Print(expr_view(e)),
    }
}

/// The views of a sequence of statements, in order.
pub open spec fn stmt_views(ss: Seq<Statement>) -> Seq<StmtView>
    decreases ss,
{
    if ss.len() == 0 {
        Seq::empty()
    } else {
        seq![stmt_view(ss[0])] + stmt_views(ss.drop_first())
    }
}

/// `stmt_views` is the element-wise view, which is also how a vector of
/// statements views deeply.
pub proof fn lemma_stmt_views_elementwise(ss: Seq<Statement>)
    ensures
        stmt_views(ss).len() == ss.len(),
        forall|i: int| 0 <= i < ss.len() ==> stmt_views(ss)[i] == stmt_view(ss[i]),
    decreases ss.len(),
{
    if ss.len() > 0 {
        lemma_stmt_views_elementwise(ss.drop_first());
    }
}

/// A vector's deep view is exactly `stmt_views` of its contents.
pub proof fn lemma_deep_view_is_stmt_views(v: Vec<Statement>)
    ensures
        v.deep_view() == stmt_views(v@),
{
    lemma_stmt_views_elementwise(v@);
    assert(v.deep_view() =~= stmt_views(v@));
}

impl View for Statement {
    type V = StmtView;

    open spec fn view(&self) -> StmtView {
        stmt_view(*self)
    }
}

impl DeepView for Statement {
    type V = StmtView;

    open spec fn deep_view(&self) -> StmtView {
        self.view()
    }
}

/// Why parsing failed: the offending token is carried for the error message.
#[derive(Debug, Clone, PartialEq)]
pub enum ParseError {
    UnexpectedEnd,
    InvalidStatement(Token),
    ExpectedIdentifier(Token),
    UnexpectedToken { expected: Token, found: Token },
    UnexpectedPrimary(Token),
}

/// The mathematical image of a [`ParseError`].
pub ghost enum ParseErrorView {
    UnexpectedEnd,
    InvalidStatement(TokenView),
    ExpectedIdentifier(TokenView),
    UnexpectedToken { expected: TokenView, found: TokenView },
    UnexpectedPrimary(TokenView),
}

impl View for ParseError {
    type V = ParseErrorView;

    open spec fn view(&self) -> ParseErrorView {
        match self {
            ParseError::UnexpectedEnd => ParseErrorView::UnexpectedEnd,
            ParseError::InvalidStatement(t) => ParseErrorView::InvalidStatement(t@),
            ParseError::ExpectedIdentifier(t) => ParseErrorView::ExpectedIdentifier(t@),
            ParseError::UnexpectedToken { expected, found } => ParseErrorView::UnexpectedToken {
                expected: expected@,
                found: found@,
            },
            ParseError::UnexpectedPrimary(t) => ParseErrorView::UnexpectedPrimary(t@),
        }
    }
}

/// Requiring one exact token: the cursor moves past it, or the mismatch is
/// reported.
pub open spec fn spec_expect(ts: Seq<TokenView>, i: int, t: TokenView) -> Result<
    int,
    ParseErrorView,
> {
    if !(0 <= i < ts.len()) {
        Err(ParseErrorView::UnexpectedEnd)
    } else if ts[i] == t {
        Ok(i + 1)
    } else {
        Err(ParseErrorView::UnexpectedToken { expected: t, found: ts[i] })
    }
}

/// One primary operand: an integer literal, string literal or variable
/// reference, consuming exactly one token.
pub open spec fn spec_parse_primary(ts: Seq<TokenView>, i: int) -> Result<
    (ExprView, int),
    ParseErrorView,
> {
    if !(0 <= i < ts.len()) {
        Err(ParseErrorView::UnexpectedEnd)
    } else {
        match ts[i] {
            TokenView::Number(n) => Ok((ExprView::Number(n), i + 1)),
            TokenView::StringLiteral(s) => Ok((ExprView::StringLiteral(s), i + 1)),
            TokenView::Identifier(x) => Ok((ExprView::Variable(x), i + 1)),
            t => Err(ParseErrorView::UnexpectedPrimary(t)),
        }
    }
}

/// One expression: a primary operand, optionally followed by exactly one
/// relational operator and a second primary operand. Relations do not chain.
pub open spec fn spec_parse_expression(ts: Seq<TokenView>, i: int) -> Result<
    (ExprView, int),
    ParseErrorView,
> {
    match spec_parse_primary(ts, i) {
        Err(e) => Err(e),
        Ok((lhs, j)) => {
            if 0 <= j < ts.len() && (ts[j] is Greater || ts[j] is Less) {
                let op = if ts[j] is Greater {
                    ">"@
                } else {
                    "<"@
                };
                match spec_parse_primary(ts, j + 1) {
                    Err(e) => Err(e),
                    Ok((rhs, k)) => Ok(
                        (
                            ExprView::BinaryOp { left: Box::new(lhs), op: op, right: Box::new(rhs) },
                            k,
                        ),
                    ),
                }
            } else {
                Ok((lhs, j))
            }
        },
    }
}

/// A declaration: `int <identifier> = <expression> ;`, entered at the
/// declaration-introducer keyword.
pub open spec fn spec_parse_declaration(ts: Seq<TokenView>, i: int) -> Result<
    (StmtView, int),
    ParseErrorView,
> {
    if !(0 <= i && i + 1 < ts.len()) {
        Err(ParseErrorView::UnexpectedEnd)
    } else {
        match ts[i + 1] {
            TokenView::Identifier(name) => match spec_expect(ts, i + 2, TokenView::Equal) {
                Err(e) => Err(e),
                Ok(p) => match spec_parse_expression(ts, p) {
                    Err(e) => Err(e),
                    Ok((v, j)) => match spec_expect(ts, j, TokenView::Semicolon) {
                        Err(e) => Err(e),
                        Ok(j1) => Ok(
                            (StmtView::Declaration { var_type: "int"@, name: name, value: v }, j1),
                        ),
                    },
                },
            },
            t => Err(ParseErrorView::ExpectedIdentifier(t)),
        }
    }
}

/// A print statement: `print ( <expression> ) ;`, entered at the keyword.
pub open spec fn spec_parse_print(ts: Seq<TokenView>, i: int) -> Result<
    (StmtView, int),
    ParseErrorView,
> {
    if !(0 <= i < ts.len()) {
        Err(ParseErrorView::UnexpectedEnd)
    } else {
        match spec_expect(ts, i + 1, TokenView::OpenParen) {
            Err(e) => Err(e),
            Ok(p) => match spec_parse_expression(ts, p) {
                Err(e) => Err(e),
                Ok((v, j)) => match spec_expect(ts, j, TokenView::CloseParen) {
                    Err(e) => Err(e),
                    Ok(j1) => match spec_expect(ts, j1, TokenView::Semicolon) {
                        Err(e) => Err(e),
                        Ok(j2) => Ok((StmtView::Print(v), j2)),
                    },
                },
            },
        }
    }
}

/// A conditional: `if ( <expression> ) { <statements> }` with an optional
/// `else { <statements> }`; a missing else clause yields an empty branch.
///
/// The `i < _ <= ts.len()` guards are never false on reachable arguments (see
/// [`lemma_expression_advances`] and [`lemma_block_advances`]); they make
/// termination evident from the definition alone.
pub open spec fn spec_parse_if(ts: Seq<TokenView>, i: int) -> Result<(StmtView, int), ParseErrorView>
    decreases ts.len() - i, 0int,
{
    if !(0 <= i < ts.len()) {
        Err(ParseErrorView::UnexpectedEnd)
    } else {
        match spec_expect(ts, i + 1, TokenView::OpenParen) {
            Err(e) => Err(e),
            Ok(p) => match spec_parse_expression(ts, p) {
                Err(e) => Err(e),
                Ok((cond, j)) => match spec_expect(ts, j, TokenView::CloseParen) {
                    Err(e) => Err(e),
                    Ok(j1) => match spec_expect(ts, j1, TokenView::OpenBrace) {
                        Err(e) => Err(e),
                        Ok(body_start) => {
                            if i < body_start <= ts.len() {
                                match spec_parse_block(ts, body_start) {
                                    Err(e) => Err(e),
                                    Ok((then_ss, k)) => {
                                        if 0 <= k < ts.len() && ts[k] is Else {
                                            match spec_expect(ts, k + 1, TokenView::OpenBrace) {
                                                Err(e) => Err(e),
                                                Ok(else_start) => {
                                                    if i < else_start <= ts.len() {
                                                        match spec_parse_block(ts, else_start) {
                                                            Err(e) => Err(e),
                                                            Ok((else_ss, m)) => Ok(
                                                                (
                                                                    StmtView::If {
                                                                        condition: cond,
                                                                        then_branch: then_ss,
                                                                        else_branch: else_ss,
                                                                    },
                                                                    m,
                                                                ),
                                                            ),
                                                        }
                                                    } else {
                                                        Err(ParseErrorView::UnexpectedEnd)
                                                    }
                                                },
                                            }
                                        } else {
                                            Ok(
                                                (
                                                    StmtView::If {
                                                        condition: cond,
                                                        then_branch: then_ss,
                                                        else_branch: Seq::empty(),
                                                    },
                                                    k,
                                                ),
                                            )
                                        }
                                    },
                                }
                            } else {
                                Err(ParseErrorView::UnexpectedEnd)
                            }
                        },
                    },
                },
            },
        }
    }
}

/// The statements of a brace-delimited block, up to and including the closing
/// brace.
pub open spec fn spec_parse_block(ts: Seq<TokenView>, i: int) -> Result<
    (Seq<StmtView>, int),
    ParseErrorView,
>
    decreases ts.len() - i, 2int,
{
    if !(0 <= i < ts.len()) {
        Err(ParseErrorView::UnexpectedEnd)
    } else if ts[i] is CloseBrace {
        Ok((Seq::empty(), i + 1))
    } else {
        match spec_parse_statement(ts, i) {
            Err(e) => Err(e),
            Ok((s, j)) => {
                if i < j <= ts.len() {
                    match spec_parse_block(ts, j) {
                        Err(e) => Err(e),
                        Ok((rest, k)) => Ok((seq![s] + rest, k)),
                    }
                } else {
                    Err(ParseErrorView::UnexpectedEnd)
                }
            },
        }
    }
}

/// One statement, dispatched on the next token's kind with one token of
/// lookahead.
pub open spec fn spec_parse_statement(ts: Seq<TokenView>, i: int) -> Result<
    (StmtView, int),
    ParseErrorView,
>
    decreases ts.len() - i, 1int,
{
    if !(0 <= i < ts.len()) {
        Err(ParseErrorView::UnexpectedEnd)
    } else {
        match ts[i] {
            TokenView::Int => spec_parse_declaration(ts, i),
            TokenView::If => spec_parse_if(ts, i),
            TokenView::Print => spec_parse_print(ts, i),
            t => Err(ParseErrorView::InvalidStatement(t)),
        }
    }
}

/// Top-level statements until the token sequence is exhausted.
pub open spec fn spec_parse_program(ts: Seq<TokenView>, i: int) -> Result<
    (Seq<StmtView>, int),
    ParseErrorView,
>
    decreases ts.len() - i, 2int,
{
    if !(0 <= i < ts.len()) {
        Ok((Seq::empty(), i))
    } else {
        match spec_parse_statement(ts, i) {
            Err(e) => Err(e),
            Ok((s, j)) => {
                if i < j <= ts.len() {
                    match spec_parse_program(ts, j) {
                        Err(e) => Err(e),
                        Ok((rest, k)) => Ok((seq![s] + rest, k)),
                    }
                } else {
                    Err(ParseErrorView::UnexpectedEnd)
                }
            },
        }
    }
}

/// What parsing the whole token sequence yields: the statement forest, or the
/// first parse error.
pub open spec fn spec_parse(ts: Seq<TokenView>) -> Result<Seq<StmtView>, ParseErrorView> {
    match spec_parse_program(ts, 0) {
        Ok((ss, _)) => Ok(ss),
        Err(e) => Err(e),
    }
}

/// A successful primary parse consumes exactly one token.
pub proof fn lemma_primary_advances(ts: Seq<TokenView>, i: int)
    ensures
        spec_parse_primary(ts, i) matches Ok(p) ==> 0 <= i && p.1 == i + 1 && i < ts.len(),
{
}

/// A successful expression parse strictly advances the cursor and stays in
/// bounds: it consumes one or three tokens.
pub proof fn lemma_expression_advances(ts: Seq<TokenView>, i: int)
    ensures
        spec_parse_expression(ts, i) matches Ok(p) ==> 0 <= i < p.1 <= ts.len() && (p.1 == i + 1
            || p.1 == i + 3),
{
    lemma_primary_advances(ts, i);
    match spec_parse_primary(ts, i) {
        Ok((lhs, j)) => {
            lemma_primary_advances(ts, j + 1);
        },
        Err(_) => {},
    }
}

/// A successful statement parse strictly advances the cursor: the grammar has
/// no empty production, which is why parsing always terminates.
pub proof fn lemma_statement_advances(ts: Seq<TokenView>, i: int)
    ensures
        spec_parse_statement(ts, i) matches Ok(p) ==> 0 <= i < p.1 <= ts.len(),
    decreases ts.len() - i, 1int,
{
    if 0 <= i < ts.len() {
        match ts[i] {
            TokenView::Int => {
                lemma_declaration_advances(ts, i);
            },
            TokenView::If => {
                lemma_if_advances(ts, i);
            },
            TokenView::Print => {
                lemma_print_advances(ts, i);
            },
            _ => {},
        }
    }
}

/// A successful declaration parse strictly advances the cursor.
pub proof fn lemma_declaration_advances(ts: Seq<TokenView>, i: int)
    ensures
        spec_parse_declaration(ts, i) matches Ok(p) ==> 0 <= i < p.1 <= ts.len(),
{
    lemma_expression_advances(ts, i + 3);
}

/// A successful print parse strictly advances the cursor.
pub proof fn lemma_print_advances(ts: Seq<TokenView>, i: int)
    ensures
        spec_parse_print(ts, i) matches Ok(p) ==> 0 <= i < p.1 <= ts.len(),
{
    lemma_expression_advances(ts, i + 2);
}

/// A successful conditional parse strictly advances the cursor.
pub proof fn lemma_if_advances(ts: Seq<TokenView>, i: int)
    ensures
        spec_parse_if(ts, i) matches Ok(p) ==> 0 <= i < p.1 <= ts.len(),
    decreases ts.len() - i, 0int,
{
    if 0 <= i < ts.len() {
        lemma_expression_advances(ts, i + 2);
        match spec_parse_expression(ts, i + 2) {
            Ok((cond, j)) => {
                if j + 2 <= ts.len() {
                    lemma_block_advances(ts, j + 2);
                    match spec_parse_block(ts, j + 2) {
                        Ok((then_ss, k)) => {
                            if 0 <= k < ts.len() && ts[k] is Else && k + 2 <= ts.len() {
                                lemma_block_advances(ts, k + 2);
                            }
                        },
                        Err(_) => {},
                    }
                }
            },
            Err(_) => {},
        }
    }
}

/// A successful block parse strictly advances the cursor past the closing
/// brace.
pub proof fn lemma_block_advances(ts: Seq<TokenView>, i: int)
    ensures
        spec_parse_block(ts, i) matches Ok(p) ==> 0 <= i < p.1 <= ts.len(),
    decreases ts.len() - i, 2int,
{
    if 0 <= i < ts.len() && !(ts[i] is CloseBrace) {
        lemma_statement_advances(ts, i);
        match spec_parse_statement(ts, i) {
            Ok((s, j)) => {
                if i < j <= ts.len() {
                    lemma_block_advances(ts, j);
                }
            },
            Err(_) => {},
        }
    }
}

fn clone_token(t: &Token) -> (r: Token)
    ensures
        r@ == t@,
{
    match t {
        Token::Int => Token::Int,
        Token::Identifier(s) => Token::Identifier(s.clone()),
        Token::Number(n) => Token::Number(*n),
        Token::If => Token::If,
        Token::Else => Token::Else,
        Token::Print => Token::Print,
        Token::OpenParen => Token::OpenParen,
        Token::CloseParen => Token::CloseParen,
        Token::OpenBrace => Token::OpenBrace,
        Token::CloseBrace => Token::CloseBrace,
        Token::Equal => Token::Equal,
        Token::Greater => Token::Greater,
        Token::Less => Token::Less,
        Token::Semicolon => Token::Semicolon,
        Token::StringLiteral(s) => Token::StringLiteral(s.clone()),
    }
}

fn token_eq(a: &Token, b: &Token) -> (r: bool)
    ensures
        r == (a@ == b@),
{
    match (a, b) {
        (Token::Int, Token::Int) => true,
        (Token::Identifier(x), Token::Identifier(y)) => *x == *y,
        (Token::Number(x), Token::Number(y)) => *x == *y,
        (Token::If, Token::If) => true,
        (Token::Else, Token::Else) => true,
        (Token::Print, Token::Print) => true,
        (Token::OpenParen, Token::OpenParen) => true,
        (Token::CloseParen, Token::CloseParen) => true,
        (Token::OpenBrace, Token::OpenBrace) => true,
        (Token::CloseBrace, Token::CloseBrace) => true,
        (Token::Equal, Token::Equal) => true,
        (Token::Greater, Token::Greater) => true,
        (Token::Less, Token::Less) => true,
        (Token::Semicolon, Token::Semicolon) => true,
        (Token::StringLiteral(x), Token::StringLiteral(y)) => *x == *y,
        _ => false,
    }
}

/// The parser's private state: the read-only token sequence and one forward
/// cursor.
struct Parser<'a> {
    tokens: &'a [Token],
    position: usize,
}

impl<'a> Parser<'a> {
    spec fn toks(&self) -> Seq<TokenView> {
        self.tokens.deep_view()
    }

    spec fn pos(&self) -> int {
        self.position as int
    }

    /// The cursor never leaves the token sequence.
    spec fn wf(&self) -> bool {
        self.pos() <= self.toks().len()
    }

    fn is_at_end(&self) -> (b: bool)
        ensures
            b == (self.pos() >= self.toks().len()),
    {
        self.position >= self.tokens.len()
    }

    fn peek(&self) -> (t: &'a Token)
        requires
            self.pos() < self.toks().len(),
        ensures
            t@ == self.toks()[self.pos()],
    {
        let toks = self.tokens;
        &toks[self.position]
    }

    fn advance(&mut self) -> (t: &'a Token)
        requires
            old(self).pos() < old(self).toks().len(),
        ensures
            final(self).tokens == old(self).tokens,
            final(self).position == old(self).position + 1,
            t@ == old(self).toks()[old(self).pos()],
    {
        let toks = self.tokens;
        let t = &toks[self.position];
        self.position = self.position + 1;
        t
    }

    fn expect(&mut self, expected: Token) -> (r: Result<(), ParseError>)
        requires
            old(self).wf(),
        ensures
            final(self).tokens == old(self).tokens,
            final(self).wf(),
            match spec_expect(old(self).toks(), old(self).pos(), expected@) {
                Ok(p) => r is Ok && final(self).pos() == p,
                Err(e) => (r matches Err(pe) && pe@ == e) && final(self).pos() == old(self).pos(),
            },
    {
        if self.position >= self.tokens.len() {
            return Err(ParseError::UnexpectedEnd);
        }
        let toks = self.tokens;
        let t = &toks[self.position];
        if token_eq(t, &expected) {
            self.position = self.position + 1;
            Ok(())
        } else {
            Err(ParseError::UnexpectedToken { expected, found: clone_token(t) })
        }
    }

    fn parse_primary(&mut self) -> (r: Result<Expr, ParseError>)
        requires
            old(self).wf(),
        ensures
            final(self).tokens == old(self).tokens,
            final(self).wf(),
            match spec_parse_primary(old(self).toks(), old(self).pos()) {
                Ok(p) => r matches Ok(e) && e@ == p.0 && final(self).pos() == p.1,
                Err(e) => r matches Err(pe) && pe@ == e,
            },
    {
        if self.position >= self.tokens.len() {
            return Err(ParseError::UnexpectedEnd);
        }
        let t = self.advance();
        match t {
            Token::Number(n) => Ok(Expr::Number(*n)),
            Token::StringLiteral(s) => Ok(Expr::StringLiteral(s.clone())),
            Token::Identifier(s) => Ok(Expr::Variable(s.clone())),
            _ => Err(ParseError::UnexpectedPrimary(clone_token(t))),
        }
    }

    fn parse_expression(&mut self) -> (r: Result<Expr, ParseError>)
        requires
            old(self).wf(),
        ensures
            final(self).tokens == old(self).tokens,
            final(self).wf(),
            match spec_parse_expression(old(self).toks(), old(self).pos()) {
                Ok(p) => r matches Ok(e) && e@ == p.0 && final(self).pos() == p.1,
                Err(e) => r matches Err(pe) && pe@ == e,
            },
    {
        let left = match self.parse_primary() {
            Ok(e) => e,
            Err(e) => {
                return Err(e);
            },
        };
        if self.position < self.tokens.len() {
            let toks = self.tokens;
            let is_gt = matches!(&toks[self.position], Token::Greater);
            let is_lt = matches!(&toks[self.position], Token::Less);
            if is_gt || is_lt {
                self.position = self.position + 1;
                let right = match self.parse_primary() {
                    Ok(e) => e,
                    Err(e) => {
                        return Err(e);
                    },
                };
                let op = if is_gt {
                    String::from_str(">")
                } else {
                    String::from_str("<")
                };
                return Ok(Expr::BinaryOp { left: Box::new(left), op, right: Box::new(right) });
            }
        }
        Ok(left)
    }

    fn parse_declaration(&mut self) -> (r: Result<Statement, ParseError>)
        requires
            old(self).wf(),
        ensures
            final(self).tokens == old(self).tokens,
            final(self).wf(),
            match spec_parse_declaration(old(self).toks(), old(self).pos()) {
                Ok(p) => r matches Ok(s) && s@ == p.0 && final(self).pos() == p.1,
                Err(e) => r matches Err(pe) && pe@ == e,
            },
    {
        if self.position >= self.tokens.len() || self.position + 1 >= self.tokens.len() {
            return Err(ParseError::UnexpectedEnd);
        }
        let toks = self.tokens;
        let name = match &toks[self.position + 1] {
            Token::Identifier(s) => s.clone(),
            other => {
                return Err(ParseError::ExpectedIdentifier(clone_token(other)));
            },
        };
        self.position = self.position + 2;
        match self.expect(Token::Equal) {
            Ok(()) => (),
            Err(e) => {
                return Err(e);
            },
        }
        let value = match self.parse_expression() {
            Ok(e) => e,
            Err(e) => {
                return Err(e);
            },
        };
        match self.expect(Token::Semicolon) {
            Ok(()) => (),
            Err(e) => {
                return Err(e);
            },
        }
        Ok(Statement::Declaration { var_type: String::from_str("int"), name, value })
    }

    fn parse_print(&mut self) -> (r: Result<Statement, ParseError>)
        requires
            old(self).wf(),
        ensures
            final(self).tokens == old(self).tokens,
            final(self).wf(),
            match spec_parse_print(old(self).toks(), old(self).pos()) {
                Ok(p) => r matches Ok(s) && s@ == p.0 && final(self).pos() == p.1,
                Err(e) => r matches Err(pe) && pe@ == e,
            },
    {
        if self.position >= self.tokens.len() {
            return Err(ParseError::UnexpectedEnd);
        }
        self.position = self.position + 1;
        match self.expect(Token::OpenParen) {
            Ok(()) => (),
            Err(e) => {
                return Err(e);
            },
        }
        let expr = match self.parse_expression() {
            Ok(e) => e,
            Err(e) => {
                return Err(e);
            },
        };
        match self.expect(Token::CloseParen) {
            Ok(()) => (),
            Err(e) => {
                return Err(e);
            },
        }
        match self.expect(Token::Semicolon) {
            Ok(()) => (),
            Err(e) => {
                return Err(e);
            },
        }
        Ok(Statement::Print(expr))
    }

    fn parse_if(&mut self) -> (r: Result<Statement, ParseError>)
        requires
            old(self).wf(),
        ensures
            final(self).tokens == old(self).tokens,
            final(self).wf(),
            match spec_parse_if(old(self).toks(), old(self).pos()) {
                Ok(p) => r matches Ok(s) && s@ == p.0 && final(self).pos() == p.1,
                Err(e) => r matches Err(pe) && pe@ == e,
            },
        decreases old(self).toks().len() - old(self).pos(), 0int,
    {
        let ghost t0 = old(self).toks();
        let ghost p0 = old(self).pos();
        if self.position >= self.tokens.len() {
            return Err(ParseError::UnexpectedEnd);
        }
        self.position = self.position + 1;
        match self.expect(Token::OpenParen) {
            Ok(()) => (),
            Err(e) => {
                return Err(e);
            },
        }
        let condition = match self.parse_expression() {
            Ok(e) => e,
            Err(e) => {
                return Err(e);
            },
        };
        proof {
            lemma_expression_advances(t0, p0 + 2);
        }
        match self.expect(Token::CloseParen) {
            Ok(()) => (),
            Err(e) => {
                return Err(e);
            },
        }
        match self.expect(Token::OpenBrace) {
            Ok(()) => (),
            Err(e) => {
                return Err(e);
            },
        }
        let mut then_branch: Vec<Statement> = Vec::new();
        let ghost body_start = self.pos();
        match self.parse_block_into(&mut then_branch) {
            Ok(()) => (),
            Err(e) => {
                return Err(e);
            },
        }
        proof {
            lemma_block_advances(t0, body_start);
            lemma_deep_view_is_stmt_views(then_branch);
        }
        let mut else_branch: Vec<Statement> = Vec::new();
        if !self.is_at_end() && matches!(self.peek(), Token::Else) {
            self.position = self.position + 1;
            match self.expect(Token::OpenBrace) {
                Ok(()) => (),
                Err(e) => {
                    return Err(e);
                },
            }
            match self.parse_block_into(&mut else_branch) {
                Ok(()) => (),
                Err(e) => {
                    return Err(e);
                },
            }
        }
        proof {
            lemma_deep_view_is_stmt_views(else_branch);
        }
        Ok(Statement::If { condition, then_branch, else_branch })
    }

    /// Parses statements up to and past the closing brace, appending them to
    /// `acc` in order.
    fn parse_block_into(&mut self, acc: &mut Vec<Statement>) -> (r: Result<(), ParseError>)
        requires
            old(self).wf(),
        ensures
            final(self).tokens == old(self).tokens,
            final(self).wf(),
            match spec_parse_block(old(self).toks(), old(self).pos()) {
                Ok(p) => r is Ok && final(acc).deep_view() == old(acc).deep_view() + p.0
                    && final(self).pos() == p.1,
                Err(e) => r matches Err(pe) && pe@ == e,
            },
        decreases old(self).toks().len() - old(self).pos(), 2int,
    {
        let ghost t0 = old(self).toks();
        let ghost p0 = old(self).pos();
        let ghost dv0 = acc.deep_view();
        if self.position >= self.tokens.len() {
            return Err(ParseError::UnexpectedEnd);
        }
        if matches!(self.peek(), Token::CloseBrace) {
            self.position = self.position + 1;
            proof {
                assert(dv0 + Seq::<StmtView>::empty() =~= dv0);
            }
            return Ok(());
        }
        let s = match self.parse_statement() {
            Ok(s) => s,
            Err(e) => {
                return Err(e);
            },
        };
        proof {
            lemma_statement_advances(t0, p0);
        }
        let ghost s_view = s@;
        acc.push(s);
        proof {
            assert(acc.deep_view() =~= dv0.push(s_view));
        }
        match self.parse_block_into(acc) {
            Ok(()) => {
                proof {
                    match spec_parse_block(t0, p0) {
                        Ok(p) => {
                            assert(dv0.push(s_view) + spec_parse_block(
                                t0,
                                spec_parse_statement(t0, p0)->Ok_0.1,
                            )->Ok_0.0 =~= dv0 + p.0);
                        },
                        Err(_) => {},
                    }
                }
                Ok(())
            },
            Err(e) => Err(e),
        }
    }

    fn parse_statement(&mut self) -> (r: Result<Statement, ParseError>)
        requires
            old(self).wf(),
        ensures
            final(self).tokens == old(self).tokens,
            final(self).wf(),
            match spec_parse_statement(old(self).toks(), old(self).pos()) {
                Ok(p) => r matches Ok(s) && s@ == p.0 && final(self).pos() == p.1,
                Err(e) => r matches Err(pe) && pe@ == e,
            },
        decreases old(self).toks().len() - old(self).pos(), 1int,
    {
        if self.position >= self.tokens.len() {
            return Err(ParseError::UnexpectedEnd);
        }
        let t = self.peek();
        match t {
            Token::Int => self.parse_declaration(),
            Token::If => self.parse_if(),
            Token::Print => self.parse_print(),
            _ => Err(ParseError::InvalidStatement(clone_token(t))),
        }
    }

    /// Parses top-level statements until the input is exhausted, appending
    /// them to `acc` in order.
    fn parse_program_into(&mut self, acc: &mut Vec<Statement>) -> (r: Result<(), ParseError>)
        requires
            old(self).wf(),
        ensures
            final(self).tokens == old(self).tokens,
            final(self).wf(),
            match spec_parse_program(old(self).toks(), old(self).pos()) {
                Ok(p) => r is Ok && final(acc).deep_view() == old(acc).deep_view() + p.0
                    && final(self).pos() == p.1,
                Err(e) => r matches Err(pe) && pe@ == e,
            },
        decreases old(self).toks().len() - old(self).pos(), 2int,
    {
        let ghost t0 = old(self).toks();
        let ghost p0 = old(self).pos();
        let ghost dv0 = acc.deep_view();
        if self.is_at_end() {
            proof {
                assert(dv0 + Seq::<StmtView>::empty() =~= dv0);
            }
            return Ok(());
        }
        let s = match self.parse_statement() {
            Ok(s) => s,
            Err(e) => {
                return Err(e);
            },
        };
        proof {
            lemma_statement_advances(t0, p0);
        }
        let ghost s_view = s@;
        acc.push(s);
        proof {
            assert(acc.deep_view() =~= dv0.push(s_view));
        }
        match self.parse_program_into(acc) {
            Ok(()) => {
                proof {
                    match spec_parse_program(t0, p0) {
                        Ok(p) => {
                            assert(dv0.push(s_view) + spec_parse_program(
                                t0,
                                spec_parse_statement(t0, p0)->Ok_0.1,
                            )->Ok_0.0 =~= dv0 + p.0);
                        },
                        Err(_) => {},
                    }
                }
                Ok(())
            },
            Err(e) => Err(e),
        }
    }
}

/// Consumes the whole token sequence into an ordered forest of top-level
/// statements, exactly as [`spec_parse`] describes, or fails with the first
/// parse error.
pub fn parse(tokens: &[Token]) -> (r: Result<Vec<Statement>, ParseError>)
    ensures
        match spec_parse(tokens.deep_view()) {
            Ok(ss) => r matches Ok(v) && v.deep_view() == ss,
            Err(e) => r matches Err(pe) && pe@ == e,
        },
{
    let mut parser = Parser { tokens, position: 0 };
    let mut statements: Vec<Statement> = Vec::new();
    match parser.parse_program_into(&mut statements) {
        Ok(()) => {
            proof {
                match spec_parse_program(tokens.deep_view(), 0) {
                    Ok(p) => {
                        assert(Seq::<StmtView>::empty() + p.0 =~= p.0);
                    },
                    Err(_) => {},
                }
            }
            Ok(statements)
        },
        Err(e) => Err(e),
    }
}

/// A successful program parse never moves the cursor backwards and ends at
/// the end of the input.
pub proof fn lemma_program_advances(ts: Seq<TokenView>, i: int)
    ensures
        spec_parse_program(ts, i) matches Ok(p) ==> i <= p.1,
    decreases ts.len() - i, 2int,
{
    if 0 <= i < ts.len() {
        lemma_statement_advances(ts, i);
        match spec_parse_statement(ts, i) {
            Ok((s, j)) => {
                if i < j <= ts.len() {
                    lemma_program_advances(ts, j);
                }
            },
            Err(_) => {},
        }
    }
}

} // verus!
