//! Lexical analysis: a single forward scan turning source text into tokens.

use vstd::prelude::*;

verus! {

/// One lexical unit of the source language.
#[derive(Debug, Clone, PartialEq)]
pub enum Token {
    Int,
    Identifier(String),
    Number(i32),
    If,
    Else,
    Print,
    OpenParen,
    CloseParen,
    OpenBrace,
    CloseBrace,
    Equal,
    Greater,
    Less,
    Semicolon,
    StringLiteral(String),
}

/// The mathematical image of a [`Token`]: string payloads become character
/// sequences, so contracts can speak of token contents directly.
pub ghost enum TokenView {
    Int,
    Identifier(Seq<char>),
    Number(i32),
    If,
    Else,
    Print,
    OpenParen,
    CloseParen,
    OpenBrace,
    CloseBrace,
    Equal,
    Greater,
    Less,
    Semicolon,
    StringLiteral(Seq<char>),
}

impl View for Token {
    type V = TokenView;

    open spec fn view(&self) -> TokenView {
        match self {
            Token::Int => TokenView::Int,
            Token::Identifier(s) => TokenView::Identifier(s@),
            Token::Number(n) => TokenView::Number(*n),
            Token::If => TokenView::If,
            Token::Else => TokenView::Else,
            Token::Print => TokenView::Print,
            Token::OpenParen => TokenView::OpenParen,
            Token::CloseParen => TokenView::CloseParen,
            Token::OpenBrace => TokenView::OpenBrace,
            Token::CloseBrace => TokenView::CloseBrace,
            Token::Equal => TokenView::Equal,
            Token::Greater => TokenView::Greater,
            Token::Less => TokenView::Less,
            Token::Semicolon => TokenView::Semicolon,
            Token::StringLiteral(s) => TokenView::StringLiteral(s@),
        }
    }
}

impl DeepView for Token {
    type V = TokenView;

    open spec fn deep_view(&self) -> TokenView {
        self.view()
    }
}

/// Why lexing failed: an unrecognized character, or a numeric literal that
/// does not fit the integer type.
#[derive(Debug, Clone, Copy, PartialEq, Eq)]
pub enum LexError {
    InvalidChar(char),
    NumberTooLarge,
}

/// Whitespace skipped by the lexer.
pub open spec fn is_space(c: char) -> bool {
    c == ' ' || c == '\n' || c == '\t'
}

/// An ASCII letter, the only character that may begin a word.
pub open spec fn is_letter(c: char) -> bool {
    ('a' <= c && c <= 'z') || ('A' <= c && c <= 'Z')
}

/// A decimal digit.
pub open spec fn is_digit(c: char) -> bool {
    '0' <= c && c <= '9'
}

/// What `char::is_alphanumeric` returns for a character: a function of the
/// character alone, fixed by the Unicode tables.
pub uninterp spec fn is_unicode_alnum(c: char) -> bool;

/// Relies on `char::is_alphanumeric`: whether the character is alphabetic or
/// a numeric digit under Unicode, a function of the character alone.
#[verifier::external_body]
fn unicode_alnum(c: char) -> (r: bool)
    ensures
        r == is_unicode_alnum(c),
{
    c.is_alphanumeric()
}

/// A character that may continue a word (identifier or keyword): within
/// ASCII the letters and digits, beyond ASCII any Unicode alphanumeric.
pub open spec fn is_word_char(c: char) -> bool {
    is_letter(c) || is_digit(c) || (c as int >= 128 && is_unicode_alnum(c))
}

/// First index at or after `i` whose character does not continue a word.
pub open spec fn scan_word_end(s: Seq<char>, i: int) -> int
    decreases s.len() - i,
{
    if 0 <= i < s.len() && is_word_char(s[i]) {
        scan_word_end(s, i + 1)
    } else {
        i
    }
}

/// First index at or after `i` whose character is not a digit.
pub open spec fn scan_digits_end(s: Seq<char>, i: int) -> int
    decreases s.len() - i,
{
    if 0 <= i < s.len() && is_digit(s[i]) {
        scan_digits_end(s, i + 1)
    } else {
        i
    }
}

/// First index at or after `i` holding a closing double quote, or the end of
/// the input if the literal is unterminated.
pub open spec fn scan_string_end(s: Seq<char>, i: int) -> int
    decreases s.len() - i,
{
    if 0 <= i < s.len() && s[i] != '"' {
        scan_string_end(s, i + 1)
    } else {
        i
    }
}

/// The value of a sequence of decimal digit characters, most significant
/// first.
pub open spec fn digits_val(ds: Seq<char>) -> int
    decreases ds.len(),
{
    if ds.len() == 0 {
        0
    } else {
        digits_val(ds.drop_last()) * 10 + (ds.last() as int - '0' as int)
    }
}

/// Classifies a completed word against the fixed keyword set.
pub open spec fn keyword_or_ident(w: Seq<char>) -> TokenView {
    if w == "int"@ {
        TokenView::Int
    } else if w == "if"@ {
        TokenView::If
    } else if w == "else"@ {
        TokenView::Else
    } else if w == "print"@ {
        TokenView::Print
    } else {
        TokenView::Identifier(w)
    }
}

/// Prepends a token to the outcome of lexing the rest of the input.
pub open spec fn lex_cons(t: TokenView, rest: Result<Seq<TokenView>, LexError>) -> Result<
    Seq<TokenView>,
    LexError,
> {
    match rest {
        Ok(ts) => Ok(seq![t] + ts),
        Err(e) => Err(e),
    }
}

/// The lexer's functional specification, scanning `s` from position `i`.
///
/// The `i < j` guards are never false on reachable arguments (see
/// [`lemma_scan_word_end_bounds`] and its siblings); they make termination
/// evident from the definition alone.
pub open spec fn spec_lex_from(s: Seq<char>, i: int) -> Result<Seq<TokenView>, LexError>
    decreases s.len() - i,
{
    if !(0 <= i < s.len()) {
        Ok(Seq::empty())
    } else {
        let c = s[i];
        if is_space(c) {
            spec_lex_from(s, i + 1)
        } else if is_letter(c) {
            let j = scan_word_end(s, i);
            if i < j <= s.len() {
                lex_cons(keyword_or_ident(s.subrange(i, j)), spec_lex_from(s, j))
            } else {
                Ok(Seq::empty())
            }
        } else if is_digit(c) {
            let j = scan_digits_end(s, i);
            if i < j <= s.len() {
                let v = digits_val(s.subrange(i, j));
                if v > i32::MAX {
                    Err(LexError::NumberTooLarge)
                } else {
                    lex_cons(TokenView::Number(v as i32), spec_lex_from(s, j))
                }
            } else {
                Ok(Seq::empty())
            }
        } else if c == '"' {
            let j = scan_string_end(s, i + 1);
            if i < j <= s.len() {
                let after = if j < s.len() {
                    j + 1
                } else {
                    j
                };
                lex_cons(TokenView::StringLiteral(s.subrange(i + 1, j)), spec_lex_from(s, after))
            } else {
                Ok(Seq::empty())
            }
        } else if c == '=' {
            lex_cons(TokenView::Equal, spec_lex_from(s, i + 1))
        } else if c == '>' {
            lex_cons(TokenView::Greater, spec_lex_from(s, i + 1))
        } else if c == '<' {
            lex_cons(TokenView::Less, spec_lex_from(s, i + 1))
        } else if c == ';' {
            lex_cons(TokenView::Semicolon, spec_lex_from(s, i + 1))
        } else if c == '(' {
            lex_cons(TokenView::OpenParen, spec_lex_from(s, i + 1))
        } else if c == ')' {
            lex_cons(TokenView::CloseParen, spec_lex_from(s, i + 1))
        } else if c == '{' {
            lex_cons(TokenView::OpenBrace, spec_lex_from(s, i + 1))
        } else if c == '}' {
            lex_cons(TokenView::CloseBrace, spec_lex_from(s, i + 1))
        } else {
            Err(LexError::InvalidChar(c))
        }
    }
}

/// What lexing the whole input yields: the token sequence, or the first
/// lexical error.
pub open spec fn spec_lex(s: Seq<char>) -> Result<Seq<TokenView>, LexError> {
    spec_lex_from(s, 0)
}

/// `scan_word_end` stays within bounds and everything it skips is a word
/// character, ending at a non-word character or the end of the input.
pub proof fn lemma_scan_word_end_bounds(s: Seq<char>, i: int)
    requires
        0 <= i <= s.len(),
    ensures
        i <= scan_word_end(s, i) <= s.len(),
        forall|k: int| i <= k < scan_word_end(s, i) ==> is_word_char(s[k]),
        scan_word_end(s, i) < s.len() ==> !is_word_char(s[scan_word_end(s, i)]),
    decreases s.len() - i,
{
    if i < s.len() && is_word_char(s[i]) {
        lemma_scan_word_end_bounds(s, i + 1);
    }
}

/// `scan_digits_end` stays within bounds and everything it skips is a digit,
/// ending at a non-digit or the end of the input.
pub proof fn lemma_scan_digits_end_bounds(s: Seq<char>, i: int)
    requires
        0 <= i <= s.len(),
    ensures
        i <= scan_digits_end(s, i) <= s.len(),
        forall|k: int| i <= k < scan_digits_end(s, i) ==> is_digit(s[k]),
        scan_digits_end(s, i) < s.len() ==> !is_digit(s[scan_digits_end(s, i)]),
    decreases s.len() - i,
{
    if i < s.len() && is_digit(s[i]) {
        lemma_scan_digits_end_bounds(s, i + 1);
    }
}

/// Every digit sequence has a non-negative value.
pub proof fn lemma_digits_val_nonneg(ds: Seq<char>)
    requires
        forall|k: int| 0 <= k < ds.len() ==> is_digit(ds[k]),
    ensures
        digits_val(ds) >= 0,
    decreases ds.len(),
{
    if ds.len() > 0 {
        lemma_digits_val_nonneg(ds.drop_last());
    }
}

/// Appending further digits never shrinks the value: the value of a prefix is
/// a lower bound for the value of the whole digit run.
pub proof fn lemma_digits_val_prefix_le(ds: Seq<char>, p: int)
    requires
        0 <= p <= ds.len(),
        forall|k: int| 0 <= k < ds.len() ==> is_digit(ds[k]),
    ensures
        digits_val(ds.subrange(0, p)) <= digits_val(ds),
    decreases ds.len() - p,
{
    if p == ds.len() {
        assert(ds.subrange(0, p) =~= ds);
    } else {
        lemma_digits_val_prefix_le(ds, p + 1);
        let a = ds.subrange(0, p);
        let b = ds.subrange(0, p + 1);
        assert(b.drop_last() =~= a);
        assert(forall|k: int| 0 <= k < a.len() ==> is_digit(a[k]));
        lemma_digits_val_nonneg(a);
        assert(digits_val(b) == digits_val(a) * 10 + (b.last() as int - '0' as int));
    }
}

/// `scan_string_end` stays within bounds and everything it skips is not a
/// quote, ending at a quote or the end of the input.
pub proof fn lemma_scan_string_end_bounds(s: Seq<char>, i: int)
    requires
        0 <= i <= s.len(),
    ensures
        i <= scan_string_end(s, i) <= s.len(),
        forall|k: int| i <= k < scan_string_end(s, i) ==> s[k] != '"',
        scan_string_end(s, i) < s.len() ==> s[scan_string_end(s, i)] == '"',
    decreases s.len() - i,
{
    if i < s.len() && s[i] != '"' {
        lemma_scan_string_end_bounds(s, i + 1);
    }
}

/// A word scan ends exactly at the first position that does not continue a
/// word.
pub proof fn lemma_scan_word_end_exact(s: Seq<char>, i: int, j: int)
    requires
        0 <= i <= j <= s.len(),
        forall|k: int| i <= k < j ==> is_word_char(s[k]),
        j == s.len() || !is_word_char(s[j]),
    ensures
        scan_word_end(s, i) == j,
    decreases j - i,
{
    if i < j {
        lemma_scan_word_end_exact(s, i + 1, j);
    }
}

/// A digit scan ends exactly at the first non-digit position.
pub proof fn lemma_scan_digits_end_exact(s: Seq<char>, i: int, j: int)
    requires
        0 <= i <= j <= s.len(),
        forall|k: int| i <= k < j ==> is_digit(s[k]),
        j == s.len() || !is_digit(s[j]),
    ensures
        scan_digits_end(s, i) == j,
    decreases j - i,
{
    if i < j {
        lemma_scan_digits_end_exact(s, i + 1, j);
    }
}

/// A string scan ends exactly at the first double quote, or at the end of
/// the input.
pub proof fn lemma_scan_string_end_exact(s: Seq<char>, i: int, j: int)
    requires
        0 <= i <= j <= s.len(),
        forall|k: int| i <= k < j ==> s[k] != '"',
        j == s.len() || s[j] == '"',
    ensures
        scan_string_end(s, i) == j,
    decreases j - i,
{
    if i < j {
        lemma_scan_string_end_exact(s, i + 1, j);
    }
}

/// Accounts for tokens already produced while lexing continues at a later
/// position.
pub open spec fn lex_acc(acc: Seq<TokenView>, rest: Result<Seq<TokenView>, LexError>) -> Result<
    Seq<TokenView>,
    LexError,
> {
    match rest {
        Ok(ts) => Ok(acc + ts),
        Err(e) => Err(e),
    }
}

proof fn lemma_lex_acc_step(acc: Seq<TokenView>, t: TokenView, rest: Result<Seq<TokenView>, LexError>)
    ensures
        lex_acc(acc, lex_cons(t, rest)) == lex_acc(acc + seq![t], rest),
{
    match rest {
        Ok(ts) => {
            assert(acc + (seq![t] + ts) =~= (acc + seq![t]) + ts);
        },
        Err(_) => {},
    }
}

fn space_char(c: char) -> (b: bool)
    ensures
        b == is_space(c),
{
    c == ' ' || c == '\n' || c == '\t'
}

fn letter_char(c: char) -> (b: bool)
    ensures
        b == is_letter(c),
{
    ('a' <= c && c <= 'z') || ('A' <= c && c <= 'Z')
}

fn digit_char(c: char) -> (b: bool)
    ensures
        b == is_digit(c),
{
    '0' <= c && c <= '9'
}

fn word_char(c: char) -> (b: bool)
    ensures
        b == is_word_char(c),
{
    if letter_char(c) || digit_char(c) {
        true
    } else if (c as u32) < 128 {
        false
    } else {
        unicode_alnum(c)
    }
}

/// Copies the characters `s[start..end]` into a fresh string.
fn collect_range(s: &Vec<char>, start: usize, end: usize) -> (r: String)
    requires
        start <= end <= s@.len(),
    ensures
        r@ == s@.subrange(start as int, end as int),
{
    let mut out = String::new();
    let mut k: usize = start;
    while k < end
        invariant
            start <= k <= end <= s@.len(),
            out@ == s@.subrange(start as int, k as int),
        decreases end - k,
    {
        crate::text::push_char(&mut out, s[k]);
        proof {
            assert(s@.subrange(start as int, k as int).push(s@[k as int]) =~= s@.subrange(
                start as int,
                k as int + 1,
            ));
        }
        k += 1;
    }
    out
}

/// Turns a completed word into its keyword token, or an identifier token.
fn classify_word(s: &Vec<char>, start: usize, end: usize, word: String) -> (t: Token)
    requires
        start <= end <= s@.len(),
        word@ == s@.subrange(start as int, end as int),
    ensures
        t@ == keyword_or_ident(word@),
{
    proof {
        reveal_strlit("int");
        reveal_strlit("if");
        reveal_strlit("else");
        reveal_strlit("print");
    }
    let len: usize = end - start;
    if len == 3 && s[start] == 'i' && s[start + 1] == 'n' && s[start + 2] == 't' {
        proof {
            assert(word@ =~= "int"@);
        }
        Token::Int
    } else if len == 2 && s[start] == 'i' && s[start + 1] == 'f' {
        proof {
            assert(word@ =~= "if"@);
        }
        Token::If
    } else if len == 4 && s[start] == 'e' && s[start + 1] == 'l' && s[start + 2] == 's' && s[start
        + 3] == 'e' {
        proof {
            assert(word@ =~= "else"@);
        }
        Token::Else
    } else if len == 5 && s[start] == 'p' && s[start + 1] == 'r' && s[start + 2] == 'i' && s[start
        + 3] == 'n' && s[start + 4] == 't' {
        proof {
            assert(word@ =~= "print"@);
        }
        Token::Print
    } else {
        proof {
            assert(word@.len() == len);
            if word@ == "int"@ {
                assert(word@.len() == 3);
                assert(s@[start as int] == word@[0] && s@[start as int + 1] == word@[1] && s@[
                    start as int + 2] == word@[2]);
                assert(word@[0] == 'i' && word@[1] == 'n' && word@[2] == 't');
                assert(false);
            }
            if word@ == "if"@ {
                assert(word@.len() == 2);
                assert(s@[start as int] == word@[0] && s@[start as int + 1] == word@[1]);
                assert(word@[0] == 'i' && word@[1] == 'f');
                assert(false);
            }
            if word@ == "else"@ {
                assert(word@.len() == 4);
                assert(s@[start as int] == word@[0] && s@[start as int + 1] == word@[1] && s@[
                    start as int + 2] == word@[2] && s@[start as int + 3] == word@[3]);
                assert(word@[0] == 'e' && word@[1] == 'l' && word@[2] == 's' && word@[3] == 'e');
                assert(false);
            }
            if word@ == "print"@ {
                assert(word@.len() == 5);
                assert(s@[start as int] == word@[0] && s@[start as int + 1] == word@[1] && s@[
                    start as int + 2] == word@[2] && s@[start as int + 3] == word@[3] && s@[
                    start as int + 4] == word@[4]);
                assert(word@[0] == 'p' && word@[1] == 'r' && word@[2] == 'i' && word@[3] == 'n'
                    && word@[4] == 't');
                assert(false);
            }
        }
        Token::Identifier(word)
    }
}

/// Converts a character stream into the token sequence that
/// [`spec_lex`] describes, or fails with the first lexical error.
pub fn lex(input: &str) -> (r: Result<Vec<Token>, LexError>)
    ensures
        match spec_lex(input@) {
            Ok(ts) => r matches Ok(v) && v.deep_view() == ts,
            Err(e) => r matches Err(e2) && e2 == e,
        },
{
    let n0: usize = input.unicode_len();
    let mut cs: Vec<char> = Vec::new();
    let mut i: usize = 0;
    while i < n0
        invariant
            i <= n0,
            n0 == input@.len(),
            cs@ == input@.subrange(0, i as int),
        decreases n0 - i,
    {
        let ch = input.get_char(i);
        cs.push(ch);
        proof {
            assert(input@.subrange(0, i as int).push(input@[i as int]) =~= input@.subrange(
                0,
                i as int + 1,
            ));
        }
        i += 1;
    }
    proof {
        assert(cs@ =~= input@);
    }
    lex_chars(&cs)
}

#[verifier::loop_isolation(false)]
fn lex_chars(s: &Vec<char>) -> (r: Result<Vec<Token>, LexError>)
    ensures
        match spec_lex_from(s@, 0) {
            Ok(ts) => r matches Ok(v) && v.deep_view() == ts,
            Err(e) => r matches Err(e2) && e2 == e,
        },
{
    let n: usize = s.len();
    let mut tokens: Vec<Token> = Vec::new();
    let mut pos: usize = 0;
    proof {
        match spec_lex_from(s@, 0) {
            Ok(ts) => {
                assert(Seq::<TokenView>::empty() + ts =~= ts);
            },
            Err(_) => {},
        }
    }
    while pos < n
        invariant
            pos <= n,
            n == s@.len(),
            lex_acc(tokens.deep_view(), spec_lex_from(s@, pos as int)) == spec_lex_from(s@, 0),
        decreases n - pos,
    {
        let ghost prev_dv = tokens.deep_view();
        let ghost op = pos as int;
        let c = s[pos];
        if space_char(c) {
            pos += 1;
        } else if letter_char(c) {
            let start: usize = pos;
            let mut end: usize = pos;
            while end < n && word_char(s[end])
                invariant
                    start <= end <= n,
                    n == s@.len(),
                    scan_word_end(s@, start as int) == scan_word_end(s@, end as int),
                decreases n - end,
            {
                end += 1;
            }
            proof {
                assert(end == scan_word_end(s@, start as int));
                lemma_scan_word_end_bounds(s@, op + 1);
                assert(scan_word_end(s@, op) == scan_word_end(s@, op + 1));
            }
            let word = collect_range(s, start, end);
            let t = classify_word(s, start, end, word);
            proof {
                assert(spec_lex_from(s@, op) == lex_cons(
                    keyword_or_ident(s@.subrange(op, end as int)),
                    spec_lex_from(s@, end as int),
                ));
                lemma_lex_acc_step(prev_dv, t@, spec_lex_from(s@, end as int));
            }
            tokens.push(t);
            proof {
                assert(tokens.deep_view() =~= prev_dv.push(t@));
                assert(prev_dv.push(t@) =~= prev_dv + seq![t@]);
            }
            pos = end;
        } else if digit_char(c) {
            let start: usize = pos;
            let mut end: usize = pos;
            while end < n && digit_char(s[end])
                invariant
                    start <= end <= n,
                    n == s@.len(),
                    scan_digits_end(s@, start as int) == scan_digits_end(s@, end as int),
                decreases n - end,
            {
                end += 1;
            }
            proof {
                assert(end == scan_digits_end(s@, start as int));
                lemma_scan_digits_end_bounds(s@, op + 1);
                assert(scan_digits_end(s@, op) == scan_digits_end(s@, op + 1));
                lemma_scan_digits_end_bounds(s@, op);
            }
            let ghost full = s@.subrange(op, end as int);
            let mut val: u64 = 0;
            let mut k: usize = start;
            while k < end
                invariant
                    start <= k <= end <= n,
                    n == s@.len(),
                    forall|q: int| op <= q < end as int ==> is_digit(s@[q]),
                    op == start as int,
                    full == s@.subrange(op, end as int),
                    val == digits_val(s@.subrange(op, k as int)),
                    val <= i32::MAX as u64,
                decreases end - k,
            {
                let d: u32 = s[k] as u32 - '0' as u32;
                proof {
                    assert(is_digit(s@[k as int]));
                    assert(s@.subrange(op, k as int + 1).drop_last() =~= s@.subrange(op, k as int));
                    assert(s@.subrange(op, k as int + 1).last() == s@[k as int]);
                }
                val = val * 10 + (d as u64);
                if val > 2147483647u64 {
                    proof {
                        assert(val as int == digits_val(s@.subrange(op, k as int + 1)));
                        assert(s@.subrange(op, k as int + 1) =~= full.subrange(0, k as int + 1 - op));
                        assert(forall|q: int| 0 <= q < full.len() ==> is_digit(full[q]));
                        lemma_digits_val_prefix_le(full, k as int + 1 - op);
                        assert(digits_val(full) > i32::MAX);
                        assert(spec_lex_from(s@, op) == Result::<Seq<TokenView>, LexError>::Err(
                            LexError::NumberTooLarge,
                        ));
                    }
                    return Err(LexError::NumberTooLarge);
                }
                k += 1;
            }
            proof {
                assert(val as int == digits_val(full));
                assert(spec_lex_from(s@, op) == lex_cons(
                    TokenView::Number(digits_val(full) as i32),
                    spec_lex_from(s@, end as int),
                ));
            }
            let t = Token::Number(val as i32);
            proof {
                lemma_lex_acc_step(prev_dv, t@, spec_lex_from(s@, end as int));
            }
            tokens.push(t);
            proof {
                assert(tokens.deep_view() =~= prev_dv.push(t@));
                assert(prev_dv.push(t@) =~= prev_dv + seq![t@]);
            }
            pos = end;
        } else if c == '"' {
            let start: usize = pos + 1;
            let mut end: usize = start;
            while end < n && s[end] != '"'
                invariant
                    start <= end <= n,
                    n == s@.len(),
                    scan_string_end(s@, start as int) == scan_string_end(s@, end as int),
                decreases n - end,
            {
                end += 1;
            }
            proof {
                assert(end == scan_string_end(s@, start as int));
                lemma_scan_string_end_bounds(s@, start as int);
            }
            let content = collect_range(s, start, end);
            let after: usize = if end < n {
                end + 1
            } else {
                end
            };
            let t = Token::StringLiteral(content);
            proof {
                assert(spec_lex_from(s@, op) == lex_cons(
                    TokenView::StringLiteral(s@.subrange(op + 1, end as int)),
                    spec_lex_from(s@, after as int),
                ));
                lemma_lex_acc_step(prev_dv, t@, spec_lex_from(s@, after as int));
            }
            tokens.push(t);
            proof {
                assert(tokens.deep_view() =~= prev_dv.push(t@));
                assert(prev_dv.push(t@) =~= prev_dv + seq![t@]);
            }
            pos = after;
        } else {
            let t_opt: Option<Token> = match c {
                '=' => Some(Token::Equal),
                '>' => Some(Token::Greater),
                '<' => Some(Token::Less),
                ';' => Some(Token::Semicolon),
                '(' => Some(Token::OpenParen),
                ')' => Some(Token::CloseParen),
                '{' => Some(Token::OpenBrace),
                '}' => Some(Token::CloseBrace),
                _ => None,
            };
            match t_opt {
                Some(t) => {
                    proof {
                        assert(spec_lex_from(s@, op) == lex_cons(t@, spec_lex_from(s@, op + 1)));
                        lemma_lex_acc_step(prev_dv, t@, spec_lex_from(s@, op + 1));
                    }
                    tokens.push(t);
                    proof {
                        assert(tokens.deep_view() =~= prev_dv.push(t@));
                        assert(prev_dv.push(t@) =~= prev_dv + seq![t@]);
                    }
                    pos += 1;
                },
                None => {
                    proof {
                        assert(spec_lex_from(s@, op) == Result::<Seq<TokenView>, LexError>::Err(
                            LexError::InvalidChar(c),
                        ));
                    }
                    return Err(LexError::InvalidChar(c));
                },
            }
        }
    }
    proof {
        assert(spec_lex_from(s@, pos as int) == Result::<Seq<TokenView>, LexError>::Ok(
            Seq::<TokenView>::empty(),
        ));
        assert(tokens.deep_view() + Seq::<TokenView>::empty() =~= tokens.deep_view());
    }
    Ok(tokens)
}

} // verus!
