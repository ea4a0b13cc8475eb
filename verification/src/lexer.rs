//! The tokenizer: a single left-to-right pass over the character sequence
//! with one character of lookahead where a two-character token is possible.
//!
//! The mathematical model is `spec_lex`, a recursive function over the
//! remaining character sequence; `Lexer::tokenize` is proved to return
//! exactly its value. Scanning rules, in priority order at the cursor:
//! whitespace is skipped; `/*` opens a comment; `+ - * / %` is a math
//! operator; `{ } ( ) ,` are structural singles; a letter or underscore
//! opens an identifier/keyword run; `> < = ^ & | ! :` open the combined
//! operator scan; a digit opens a number run; anything else fails with
//! `UnexpectedCharacter`.
//!
//! Two spellings that the operator tables leave without a token — a lone
//! `:`, and `**` or `//` after a math-operator start — fail with
//! `UnexpectedCharacter` instead of being dropped silently, so that no
//! input text is ever lost without a diagnostic.

use vstd::prelude::*;

use crate::token::{
    BitwiseOperator, ComparisonOperator, LexerError, LogicalOperator, MathOperator, Operator,
    Token, TokenV, tokens_view,
};

verus! {

/// Whitespace skipped by the tokenizer: space, tab, CR, LF.
pub open spec fn is_whitespace_char(c: char) -> bool {
    c == ' ' || c == '\t' || c == '\n' || c == '\r'
}

/// A decimal digit.
pub open spec fn is_digit_char(c: char) -> bool {
    '0' <= c && c <= '9'
}

/// A character that may open an identifier or keyword: a letter or `_`.
pub open spec fn is_ident_start_char(c: char) -> bool {
    ('a' <= c && c <= 'z') || ('A' <= c && c <= 'Z') || c == '_'
}

/// A character that may continue an identifier or keyword run.
pub open spec fn is_ident_char(c: char) -> bool {
    is_ident_start_char(c) || is_digit_char(c)
}

/// A character that opens the math-operator scan.
pub open spec fn is_math_start_char(c: char) -> bool {
    c == '+' || c == '-' || c == '*' || c == '/' || c == '%'
}

/// A character that opens the combined operator scan.
pub open spec fn is_combined_start_char(c: char) -> bool {
    c == '>' || c == '<' || c == '=' || c == '^' || c == '&' || c == '|' || c == '!' || c == ':'
}

/// The closed, case-sensitive keyword set of the language.
pub open spec fn is_keyword(s: Seq<char>) -> bool {
    ||| s == seq!['i', 'f']
    ||| s == seq!['e', 'l', 'i', 'f']
    ||| s == seq!['e', 'l', 's', 'e']
    ||| s == seq!['w', 'h', 'i', 'l', 'e']
    ||| s == seq!['f', 'o', 'r']
    ||| s == seq!['i', 'n']
    ||| s == seq!['r', 'e', 't', 'u', 'r', 'n']
    ||| s == seq!['p', 'r', 'i', 'n', 't']
    ||| s == seq!['f', 'n']
}

/// The math operator denoted by a single starting character.
pub open spec fn math_op_of(c: char) -> MathOperator {
    if c == '+' {
        MathOperator::Add
    } else if c == '-' {
        MathOperator::Subtract
    } else if c == '*' {
        MathOperator::Multiply
    } else if c == '/' {
        MathOperator::Divide
    } else {
        MathOperator::Modulus
    }
}

/// The two-character combined operators, resolved by the pair of the
/// current character and the lookahead character.
pub open spec fn two_char_op(c: char, d: char) -> Option<TokenV> {
    if c == '<' && d == '=' {
        Some(TokenV::ComparisonOperatorToken(ComparisonOperator::LessThanEq))
    } else if c == '>' && d == '=' {
        Some(TokenV::ComparisonOperatorToken(ComparisonOperator::GreaterThanEq))
    } else if c == '=' && d == '=' {
        Some(TokenV::ComparisonOperatorToken(ComparisonOperator::Equals))
    } else if c == '!' && d == '=' {
        Some(TokenV::ComparisonOperatorToken(ComparisonOperator::NotEquals))
    } else if c == '&' && d == '&' {
        Some(TokenV::LogicalOperatorToken(LogicalOperator::And))
    } else if c == '|' && d == '|' {
        Some(TokenV::LogicalOperatorToken(LogicalOperator::Or))
    } else if c == '<' && d == '<' {
        Some(TokenV::BitwiseOperatorToken(BitwiseOperator::LeftShift))
    } else if c == '>' && d == '>' {
        Some(TokenV::BitwiseOperatorToken(BitwiseOperator::RightShift))
    } else if c == ':' && d == '=' {
        Some(TokenV::OperatorToken(Operator::Define))
    } else {
        None
    }
}

/// A combined-scan character classified alone, attempting in this fixed
/// order: comparison, logical, bitwise, assignment. A lone `:` matches no
/// table and yields `None`.
pub open spec fn one_char_op(c: char) -> Option<TokenV> {
    if c == '<' {
        Some(TokenV::ComparisonOperatorToken(ComparisonOperator::LessThan))
    } else if c == '>' {
        Some(TokenV::ComparisonOperatorToken(ComparisonOperator::GreaterThan))
    } else if c == '!' {
        Some(TokenV::LogicalOperatorToken(LogicalOperator::Not))
    } else if c == '^' {
        Some(TokenV::BitwiseOperatorToken(BitwiseOperator::Xor))
    } else if c == '&' {
        Some(TokenV::BitwiseOperatorToken(BitwiseOperator::And))
    } else if c == '|' {
        Some(TokenV::BitwiseOperatorToken(BitwiseOperator::Or))
    } else if c == '=' {
        Some(TokenV::OperatorToken(Operator::Equals))
    } else {
        None
    }
}

/// Length of the maximal identifier/keyword run at the head of `s`.
pub open spec fn ident_run_len(s: Seq<char>) -> nat
    decreases s.len(),
{
    if s.len() > 0 && is_ident_char(s[0]) {
        1 + ident_run_len(s.skip(1))
    } else {
        0
    }
}

/// Length of the maximal number run at the head of `s`: digits, with at
/// most one decimal point; `seen_dot` records whether a point was already
/// consumed. A second `.` terminates the run early.
pub open spec fn number_run_len(s: Seq<char>, seen_dot: bool) -> nat
    decreases s.len(),
{
    if s.len() > 0 && is_digit_char(s[0]) {
        1 + number_run_len(s.skip(1), seen_dot)
    } else if s.len() > 0 && s[0] == '.' && !seen_dot {
        1 + number_run_len(s.skip(1), true)
    } else {
        0
    }
}

/// Distance from the head of `s` to the first `*/` pair, if any.
pub open spec fn comment_close(s: Seq<char>) -> Option<nat>
    decreases s.len(),
{
    if s.len() >= 2 && s[0] == '*' && s[1] == '/' {
        Some(0)
    } else if s.len() == 0 {
        None
    } else {
        match comment_close(s.skip(1)) {
            Some(n) => Some(n + 1),
            None => None,
        }
    }
}

/// Prepends already-produced tokens to the outcome of lexing the rest.
pub open spec fn lex_combine(ts: Seq<TokenV>, r: Result<Seq<TokenV>, LexerError>) -> Result<
    Seq<TokenV>,
    LexerError,
> {
    match r {
        Ok(rest) => Ok(ts + rest),
        Err(e) => Err(e),
    }
}

pub proof fn lemma_ident_run_le(s: Seq<char>)
    ensures
        ident_run_len(s) <= s.len(),
    decreases s.len(),
{
    if s.len() > 0 && is_ident_char(s[0]) {
        lemma_ident_run_le(s.skip(1));
    }
}

pub proof fn lemma_number_run_le(s: Seq<char>, seen_dot: bool)
    ensures
        number_run_len(s, seen_dot) <= s.len(),
    decreases s.len(),
{
    if s.len() > 0 && is_digit_char(s[0]) {
        lemma_number_run_le(s.skip(1), seen_dot);
    } else if s.len() > 0 && s[0] == '.' && !seen_dot {
        lemma_number_run_le(s.skip(1), true);
    }
}

pub proof fn lemma_comment_close_le(s: Seq<char>)
    ensures
        comment_close(s) is Some ==> comment_close(s)->Some_0 + 2 <= s.len(),
    decreases s.len(),
{
    if s.len() >= 2 && s[0] == '*' && s[1] == '/' {
    } else if s.len() == 0 {
    } else {
        lemma_comment_close_le(s.skip(1));
    }
}

/// The value of the whole tokenizer on the character sequence `s`, whose
/// first character stands at position `at` of the original input (the
/// position is carried only into error values). The result is the token
/// sequence, always ended by exactly one `EndOfInput`, or the first error.
pub open spec fn spec_lex(s: Seq<char>, at: nat) -> Result<Seq<TokenV>, LexerError>
    decreases s.len(),
    via spec_lex_decreases
{
    if s.len() == 0 {
        Ok(seq![TokenV::EndOfInput])
    } else {
        let c = s[0];
        if is_whitespace_char(c) {
            spec_lex(s.skip(1), at + 1)
        } else if c == '/' && s.len() >= 2 && s[1] == '*' {
            match comment_close(s.skip(2)) {
                Some(n) => lex_combine(
                    seq![TokenV::Comment(s.skip(2).take(n as int))],
                    spec_lex(s.skip(2 + n as int + 2), at + 4 + n),
                ),
                None => Err(LexerError::UnterminatedComment),
            }
        } else if is_math_start_char(c) {
            if s.len() >= 2 && ((c == '*' && s[1] == '*') || (c == '/' && s[1] == '/')) {
                Err(LexerError::UnexpectedCharacter(s[1], (at + 1) as usize))
            } else {
                lex_combine(
                    seq![TokenV::MathOperatorToken(math_op_of(c))],
                    spec_lex(s.skip(1), at + 1),
                )
            }
        } else if c == '{' {
            lex_combine(seq![TokenV::LeftBrace], spec_lex(s.skip(1), at + 1))
        } else if c == '}' {
            lex_combine(seq![TokenV::RightBrace], spec_lex(s.skip(1), at + 1))
        } else if c == '(' {
            lex_combine(seq![TokenV::LeftParen], spec_lex(s.skip(1), at + 1))
        } else if c == ')' {
            lex_combine(seq![TokenV::RightParen], spec_lex(s.skip(1), at + 1))
        } else if c == ',' {
            lex_combine(seq![TokenV::Comma], spec_lex(s.skip(1), at + 1))
        } else if is_ident_start_char(c) {
            let n = ident_run_len(s);
            let text = s.take(n as int);
            lex_combine(
                seq![
                    if is_keyword(text) {
                        TokenV::Keyword(text)
                    } else {
                        TokenV::Identifier(text)
                    },
                ],
                spec_lex(s.skip(n as int), at + n),
            )
        } else if is_combined_start_char(c) {
            if s.len() >= 2 && two_char_op(c, s[1]) is Some {
                lex_combine(seq![two_char_op(c, s[1])->Some_0], spec_lex(s.skip(2), at + 2))
            } else if one_char_op(c) is Some {
                lex_combine(seq![one_char_op(c)->Some_0], spec_lex(s.skip(1), at + 1))
            } else {
                Err(LexerError::UnexpectedCharacter(c, at as usize))
            }
        } else if is_digit_char(c) {
            let n = number_run_len(s, false);
            lex_combine(
                seq![TokenV::Number(s.take(n as int))],
                spec_lex(s.skip(n as int), at + n),
            )
        } else {
            Err(LexerError::UnexpectedCharacter(c, at as usize))
        }
    }
}

#[via_fn]
proof fn spec_lex_decreases(s: Seq<char>, at: nat) {
    if s.len() > 0 {
        let c = s[0];
        lemma_ident_run_le(s);
        lemma_number_run_le(s, false);
        lemma_comment_close_le(s.skip(2));
        if is_ident_start_char(c) {
            assert(ident_run_len(s) >= 1);
        }
        if is_digit_char(c) {
            assert(number_run_len(s, false) >= 1);
        }
    }
}

pub proof fn lemma_skip_skip(s: Seq<char>, i: int, j: int)
    requires
        0 <= i,
        0 <= j,
        i + j <= s.len(),
    ensures
        s.skip(i).skip(j) == s.skip(i + j),
{
    assert(s.skip(i).skip(j) =~= s.skip(i + j));
}

pub proof fn lemma_skip_take(s: Seq<char>, i: int, n: int)
    requires
        0 <= i,
        0 <= n,
        i + n <= s.len(),
    ensures
        s.skip(i).take(n) == s.subrange(i, i + n),
{
    assert(s.skip(i).take(n) =~= s.subrange(i, i + n));
}

pub proof fn lemma_combine_assoc(
    a: Seq<TokenV>,
    b: Seq<TokenV>,
    r: Result<Seq<TokenV>, LexerError>,
)
    ensures
        lex_combine(a, lex_combine(b, r)) == lex_combine(a + b, r),
{
    match r {
        Ok(rest) => {
            assert(a + (b + rest) =~= (a + b) + rest);
        },
        Err(_) => {},
    }
}

pub proof fn lemma_tokens_view_push(ts: Seq<Token>, t: Token)
    ensures
        tokens_view(ts.push(t)) == tokens_view(ts) + seq![t@],
{
    assert(tokens_view(ts.push(t)) =~= tokens_view(ts) + seq![t@]);
}

/// Relies on `Iterator::collect` for `String` from `char`s: the collected
/// string holds exactly the characters of `v`, in order.
#[verifier::external_body]
pub(crate) fn string_of_chars(v: &Vec<char>) -> (r: String)
    ensures
        r@ == v@,
{
    v.iter().collect()
}

fn whitespace(c: char) -> (r: bool)
    ensures
        r == is_whitespace_char(c),
{
    c == ' ' || c == '\t' || c == '\n' || c == '\r'
}

fn digit(c: char) -> (r: bool)
    ensures
        r == is_digit_char(c),
{
    '0' <= c && c <= '9'
}

fn ident_start(c: char) -> (r: bool)
    ensures
        r == is_ident_start_char(c),
{
    ('a' <= c && c <= 'z') || ('A' <= c && c <= 'Z') || c == '_'
}

fn ident_cont(c: char) -> (r: bool)
    ensures
        r == is_ident_char(c),
{
    ident_start(c) || digit(c)
}

fn math_start(c: char) -> (r: bool)
    ensures
        r == is_math_start_char(c),
{
    c == '+' || c == '-' || c == '*' || c == '/' || c == '%'
}

fn combined_start(c: char) -> (r: bool)
    ensures
        r == is_combined_start_char(c),
{
    c == '>' || c == '<' || c == '=' || c == '^' || c == '&' || c == '|' || c == '!' || c == ':'
}

/// Classifies a scanned identifier run against the fixed keyword set.
fn keyword_check(text: &Vec<char>) -> (r: bool)
    ensures
        r == is_keyword(text@),
{
    let n = text.len();
    let r = if n == 2 {
        let c0 = text[0];
        let c1 = text[1];
        (c0 == 'i' && c1 == 'f') || (c0 == 'i' && c1 == 'n') || (c0 == 'f' && c1 == 'n')
    } else if n == 3 {
        text[0] == 'f' && text[1] == 'o' && text[2] == 'r'
    } else if n == 4 {
        (text[0] == 'e' && text[1] == 'l' && text[2] == 'i' && text[3] == 'f') || (text[0] == 'e'
            && text[1] == 'l' && text[2] == 's' && text[3] == 'e')
    } else if n == 5 {
        (text[0] == 'w' && text[1] == 'h' && text[2] == 'i' && text[3] == 'l' && text[4] == 'e')
            || (text[0] == 'p' && text[1] == 'r' && text[2] == 'i' && text[3] == 'n' && text[4]
            == 't')
    } else if n == 6 {
        text[0] == 'r' && text[1] == 'e' && text[2] == 't' && text[3] == 'u' && text[4] == 'r'
            && text[5] == 'n'
    } else {
        false
    };
    proof {
        let s = text@;
        if n == 2 && s[0] == 'i' && s[1] == 'f' {
            assert(s =~= seq!['i', 'f']);
        }
        if n == 2 && s[0] == 'i' && s[1] == 'n' {
            assert(s =~= seq!['i', 'n']);
        }
        if n == 2 && s[0] == 'f' && s[1] == 'n' {
            assert(s =~= seq!['f', 'n']);
        }
        if n == 3 && s[0] == 'f' && s[1] == 'o' && s[2] == 'r' {
            assert(s =~= seq!['f', 'o', 'r']);
        }
        if n == 4 && s[0] == 'e' && s[1] == 'l' && s[2] == 'i' && s[3] == 'f' {
            assert(s =~= seq!['e', 'l', 'i', 'f']);
        }
        if n == 4 && s[0] == 'e' && s[1] == 'l' && s[2] == 's' && s[3] == 'e' {
            assert(s =~= seq!['e', 'l', 's', 'e']);
        }
        if n == 5 && s[0] == 'w' && s[1] == 'h' && s[2] == 'i' && s[3] == 'l' && s[4] == 'e' {
            assert(s =~= seq!['w', 'h', 'i', 'l', 'e']);
        }
        if n == 5 && s[0] == 'p' && s[1] == 'r' && s[2] == 'i' && s[3] == 'n' && s[4] == 't' {
            assert(s =~= seq!['p', 'r', 'i', 'n', 't']);
        }
        if n == 6 && s[0] == 'r' && s[1] == 'e' && s[2] == 't' && s[3] == 'u' && s[4] == 'r'
            && s[5] == 'n' {
            assert(s =~= seq!['r', 'e', 't', 'u', 'r', 'n']);
        }
    }
    r
}

/// Scans the maximal identifier/keyword run starting at `i` and classifies
/// it against the keyword set.
fn scan_ident(input: &Vec<char>, i: usize) -> (r: (Token, usize))
    requires
        i < input.len(),
        is_ident_start_char(input@[i as int]),
    ensures
        ({
            let n = ident_run_len(input@.skip(i as int));
            let text = input@.subrange(i as int, i + n);
            &&& r.1 == i + n
            &&& r.0@ == if is_keyword(text) {
                TokenV::Keyword(text)
            } else {
                TokenV::Identifier(text)
            }
        }),
{
    let len = input.len();
    let ghost s = input@;
    let mut j = i;
    let mut text: Vec<char> = Vec::new();
    while j < len && ident_cont(input[j])
        invariant
            i <= j <= len,
            text@ == s.subrange(i as int, j as int),
            ident_run_len(s.skip(i as int)) == (j - i) + ident_run_len(s.skip(j as int)),
        decreases len - j,
    {
        proof {
            lemma_skip_skip(s, j as int, 1);
            assert(s.skip(j as int)[0] == s[j as int]);
            assert(ident_run_len(s.skip(j as int)) == 1 + ident_run_len(s.skip(j as int + 1)));
        }
        text.push(input[j]);
        j += 1;
        proof {
            assert(text@ =~= s.subrange(i as int, j as int));
        }
    }
    proof {
        if j < len {
            assert(s.skip(j as int)[0] == s[j as int]);
            assert(ident_run_len(s.skip(j as int)) == 0);
        } else {
            assert(s.skip(j as int).len() == 0);
            assert(ident_run_len(s.skip(j as int)) == 0);
        }
    }
    let is_kw = keyword_check(&text);
    let st = string_of_chars(&text);
    if is_kw {
        (Token::Keyword(st), j)
    } else {
        (Token::Identifier(st), j)
    }
}

/// Scans the maximal number run starting at `i`: digits with at most one
/// decimal point. The token carries the literal's text.
fn scan_number(input: &Vec<char>, i: usize) -> (r: (Token, usize))
    requires
        i < input.len(),
        is_digit_char(input@[i as int]),
    ensures
        ({
            let n = number_run_len(input@.skip(i as int), false);
            &&& r.1 == i + n
            &&& r.0@ == TokenV::Number(input@.subrange(i as int, i + n))
        }),
{
    let len = input.len();
    let ghost s = input@;
    let mut j = i;
    let mut seen_dot = false;
    let mut text: Vec<char> = Vec::new();
    loop
        invariant
            i <= j <= len,
            len == input.len(),
            s == input@,
            text@ == s.subrange(i as int, j as int),
            number_run_len(s.skip(i as int), false) == (j - i) + number_run_len(
                s.skip(j as int),
                seen_dot,
            ),
        decreases len - j,
    {
        if j < len {
            let c = input[j];
            let is_digit = digit(c);
            if is_digit || (c == '.' && !seen_dot) {
                proof {
                    lemma_skip_skip(s, j as int, 1);
                    assert(s.skip(j as int)[0] == s[j as int]);
                }
                if !is_digit {
                    seen_dot = true;
                }
                text.push(c);
                j += 1;
                proof {
                    assert(text@ =~= s.subrange(i as int, j as int));
                }
            } else {
                proof {
                    assert(s.skip(j as int)[0] == s[j as int]);
                    assert(number_run_len(s.skip(j as int), seen_dot) == 0);
                }
                let st = string_of_chars(&text);
                return (Token::Number(st), j);
            }
        } else {
            proof {
                assert(s.skip(j as int).len() == 0);
                assert(number_run_len(s.skip(j as int), seen_dot) == 0);
            }
            let st = string_of_chars(&text);
            return (Token::Number(st), j);
        }
    }
}

/// Scans a block comment whose opener `/*` stands at `i`, accumulating the
/// body until the first `*/`; reaching end of input first is an error.
fn scan_comment(input: &Vec<char>, i: usize) -> (r: Result<(Token, usize), LexerError>)
    requires
        i + 1 < input.len(),
        input@[i as int] == '/',
        input@[i as int + 1] == '*',
    ensures
        ({
            let cc = comment_close(input@.skip(i as int + 2));
            match r {
                Ok((t, j)) => {
                    &&& cc is Some
                    &&& t@ == TokenV::Comment(
                        input@.subrange(i as int + 2, i as int + 2 + cc->Some_0),
                    )
                    &&& j == i + 4 + cc->Some_0
                },
                Err(e) => cc is None && e == LexerError::UnterminatedComment,
            }
        }),
{
    let len = input.len();
    let ghost s = input@;
    let mut j = i + 2;
    let mut text: Vec<char> = Vec::new();
    loop
        invariant
            i + 2 <= j <= len,
            len == input.len(),
            s == input@,
            text@ == s.subrange(i as int + 2, j as int),
            comment_close(s.skip(i as int + 2)) == match comment_close(s.skip(j as int)) {
                Some(n) => Some((n + j - i - 2) as nat),
                None => None::<nat>,
            },
        decreases len - j,
    {
        if j < len - 1 {
            let c = input[j];
            let d = input[j + 1];
            if c == '*' && d == '/' {
                proof {
                    assert(s.skip(j as int)[0] == s[j as int]);
                    assert(s.skip(j as int)[1] == s[j as int + 1]);
                    assert(comment_close(s.skip(j as int)) == Some(0nat));
                }
                let st = string_of_chars(&text);
                return Ok((Token::Comment(st), j + 2));
            }
            proof {
                lemma_skip_skip(s, j as int, 1);
                assert(s.skip(j as int)[0] == s[j as int]);
                assert(s.skip(j as int)[1] == s[j as int + 1]);
                assert(comment_close(s.skip(j as int)) == match comment_close(
                    s.skip(j as int + 1),
                ) {
                    Some(n) => Some((n + 1) as nat),
                    None => None::<nat>,
                });
            }
            text.push(c);
            j += 1;
            proof {
                assert(text@ =~= s.subrange(i as int + 2, j as int));
            }
        } else {
            proof {
                if j < len {
                    lemma_skip_skip(s, j as int, 1);
                    assert(s.skip(j as int + 1).len() == 0);
                    assert(comment_close(s.skip(j as int + 1)) is None);
                    assert(comment_close(s.skip(j as int)) is None);
                } else {
                    assert(s.skip(j as int).len() == 0);
                    assert(comment_close(s.skip(j as int)) is None);
                }
            }
            return Err(LexerError::UnterminatedComment);
        }
    }
}

/// Scans a math operator at `i`. The pairings `**` and `//` have no entry
/// in the math-operator table and fail with `UnexpectedCharacter` at the
/// second character; every other start emits the single-character operator.
fn scan_math(input: &Vec<char>, i: usize) -> (r: Result<(Token, usize), LexerError>)
    requires
        i < input.len(),
        is_math_start_char(input@[i as int]),
    ensures
        ({
            let s = input@;
            let c = s[i as int];
            let doubled = i + 1 < s.len() && ((c == '*' && s[i as int + 1] == '*') || (c == '/'
                && s[i as int + 1] == '/'));
            match r {
                Ok((t, j)) => !doubled && t@ == TokenV::MathOperatorToken(math_op_of(c)) && j == i
                    + 1,
                Err(e) => doubled && e == LexerError::UnexpectedCharacter(
                    s[i as int + 1],
                    (i + 1) as usize,
                ),
            }
        }),
{
    let c = input[i];
    if i + 1 < input.len() {
        let d = input[i + 1];
        if (c == '*' && d == '*') || (c == '/' && d == '/') {
            return Err(LexerError::UnexpectedCharacter(d, i + 1));
        }
    }
    let op = if c == '+' {
        MathOperator::Add
    } else if c == '-' {
        MathOperator::Subtract
    } else if c == '*' {
        MathOperator::Multiply
    } else if c == '/' {
        MathOperator::Divide
    } else {
        MathOperator::Modulus
    };
    Ok((Token::MathOperatorToken(op), i + 1))
}

/// The combined operator scan: resolves the pair of the character at `i`
/// and the lookahead character against the two-character table, then falls
/// back to single-character classification in the fixed order comparison,
/// logical, bitwise, assignment. A lone `:` matches no table and is an
/// `UnexpectedCharacter` error.
fn scan_operator(input: &Vec<char>, i: usize) -> (r: Result<(Token, usize), LexerError>)
    requires
        i < input.len(),
        is_combined_start_char(input@[i as int]),
    ensures
        ({
            let s = input@;
            let c = s[i as int];
            let two = i + 1 < s.len() && two_char_op(c, s[i as int + 1]) is Some;
            match r {
                Ok((t, j)) => {
                    ||| (two && t@ == two_char_op(c, s[i as int + 1])->Some_0 && j == i + 2)
                    ||| (!two && one_char_op(c) is Some && t@ == one_char_op(c)->Some_0 && j == i
                        + 1)
                },
                Err(e) => !two && one_char_op(c) is None && e == LexerError::UnexpectedCharacter(
                    c,
                    i,
                ),
            }
        }),
{
    let c = input[i];
    if i + 1 < input.len() {
        let d = input[i + 1];
        if c == '<' && d == '=' {
            return Ok((Token::ComparisonOperatorToken(ComparisonOperator::LessThanEq), i + 2));
        }
        if c == '>' && d == '=' {
            return Ok((Token::ComparisonOperatorToken(ComparisonOperator::GreaterThanEq), i + 2));
        }
        if c == '=' && d == '=' {
            return Ok((Token::ComparisonOperatorToken(ComparisonOperator::Equals), i + 2));
        }
        if c == '!' && d == '=' {
            return Ok((Token::ComparisonOperatorToken(ComparisonOperator::NotEquals), i + 2));
        }
        if c == '&' && d == '&' {
            return Ok((Token::LogicalOperatorToken(LogicalOperator::And), i + 2));
        }
        if c == '|' && d == '|' {
            return Ok((Token::LogicalOperatorToken(LogicalOperator::Or), i + 2));
        }
        if c == '<' && d == '<' {
            return Ok((Token::BitwiseOperatorToken(BitwiseOperator::LeftShift), i + 2));
        }
        if c == '>' && d == '>' {
            return Ok((Token::BitwiseOperatorToken(BitwiseOperator::RightShift), i + 2));
        }
        if c == ':' && d == '=' {
            return Ok((Token::OperatorToken(Operator::Define), i + 2));
        }
    }
    if c == '<' {
        Ok((Token::ComparisonOperatorToken(ComparisonOperator::LessThan), i + 1))
    } else if c == '>' {
        Ok((Token::ComparisonOperatorToken(ComparisonOperator::GreaterThan), i + 1))
    } else if c == '!' {
        Ok((Token::LogicalOperatorToken(LogicalOperator::Not), i + 1))
    } else if c == '^' {
        Ok((Token::BitwiseOperatorToken(BitwiseOperator::Xor), i + 1))
    } else if c == '&' {
        Ok((Token::BitwiseOperatorToken(BitwiseOperator::And), i + 1))
    } else if c == '|' {
        Ok((Token::BitwiseOperatorToken(BitwiseOperator::Or), i + 1))
    } else if c == '=' {
        Ok((Token::OperatorToken(Operator::Equals), i + 1))
    } else {
        Err(LexerError::UnexpectedCharacter(c, i))
    }
}

/// The mathematical value of a tokenizer result: `Ok` token sequences are
/// abstracted elementwise, errors pass through.
pub open spec fn lex_result_view(r: Result<Vec<Token>, LexerError>) -> Result<
    Seq<TokenV>,
    LexerError,
> {
    match r {
        Ok(v) => Ok(tokens_view(v@)),
        Err(e) => Err(e),
    }
}

/// Main state for the tokenizer: the input character sequence and the
/// scanning cursor.
pub struct Lexer {
    input: Vec<char>,
    index: usize,
}

impl Lexer {
    /// The input as a character sequence.
    pub closed spec fn src(&self) -> Seq<char> {
        self.input@
    }

    /// The cursor position, as a count of characters consumed.
    pub closed spec fn pos(&self) -> nat {
        self.index as nat
    }

    /// Well-formedness: the cursor never passes the end of the input.
    pub open spec fn wf(&self) -> bool {
        self.pos() <= self.src().len()
    }

    /// Builds a lexer over `input`, with the cursor at the start.
    pub fn new(input: &str) -> (r: Lexer)
        ensures
            r.wf(),
            r.src() == input@,
            r.pos() == 0,
    {
        let n = input.unicode_len();
        let mut v: Vec<char> = Vec::new();
        let mut k: usize = 0;
        while k < n
            invariant
                k <= n,
                n == input@.len(),
                v@ == input@.take(k as int),
            decreases n - k,
        {
            v.push(input.get_char(k));
            k += 1;
            proof {
                assert(v@ =~= input@.take(k as int));
            }
        }
        proof {
            assert(input@.take(n as int) =~= input@);
        }
        Lexer { input: v, index: 0 }
    }

    /// Runs the scanning pass from the current cursor position. Returns
    /// exactly the value of `spec_lex` on the remaining input: the token
    /// sequence ended by one `EndOfInput`, or the first error. On success
    /// the cursor stands at the end of the input; on an error it stands at
    /// the position where the error arose.
    #[verifier::rlimit(60)]
    pub fn tokenize(&mut self) -> (r: Result<Vec<Token>, LexerError>)
        requires
            old(self).wf(),
        ensures
            final(self).wf(),
            final(self).src() == old(self).src(),
            lex_result_view(r) == spec_lex(
                old(self).src().skip(old(self).pos() as int),
                old(self).pos(),
            ),
            r is Ok ==> final(self).pos() == final(self).src().len(),
    {
        let ghost s = self.input@;
        let ghost i0 = self.index as int;
        let len = self.input.len();
        let mut i = self.index;
        let mut toks: Vec<Token> = Vec::new();
        while i < len
            invariant
                i0 <= i <= len,
                len == self.input.len(),
                s == self.input@,
                self.index == i0,
                spec_lex(s.skip(i0), i0 as nat) == lex_combine(
                    tokens_view(toks@),
                    spec_lex(s.skip(i as int), i as nat),
                ),
            decreases len - i,
        {
            let ghost iv = i as int;
            proof {
                assert(s.skip(iv)[0] == s[iv]);
                if iv + 1 < s.len() {
                    assert(s.skip(iv)[1] == s[iv + 1]);
                }
            }
            let c = self.input[i];
            if whitespace(c) {
                proof {
                    lemma_skip_skip(s, iv, 1);
                }
                i += 1;
            } else if c == '/' && i + 1 < len && self.input[i + 1] == '*' {
                proof {
                    lemma_skip_skip(s, iv, 2);
                }
                match scan_comment(&self.input, i) {
                    Ok((t, j)) => {
                        proof {
                            let cc = comment_close(s.skip(iv + 2));
                            lemma_comment_close_le(s.skip(iv + 2));
                            lemma_skip_take(s, iv + 2, cc->Some_0 as int);
                            lemma_skip_skip(s, iv, 2 + cc->Some_0 as int + 2);
                            assert(spec_lex(s.skip(iv), i as nat) == lex_combine(
                                seq![t@],
                                spec_lex(s.skip(j as int), j as nat),
                            ));
                            lemma_tokens_view_push(toks@, t);
                            lemma_combine_assoc(
                                tokens_view(toks@),
                                seq![t@],
                                spec_lex(s.skip(j as int), j as nat),
                            );
                        }
                        toks.push(t);
                        i = j;
                    },
                    Err(e) => {
                        proof {
                            assert(spec_lex(s.skip(iv), i as nat) == Err::<
                                Seq<TokenV>,
                                LexerError,
                            >(e));
                        }
                        self.index = i;
                        return Err(e);
                    },
                }
            } else if math_start(c) {
                match scan_math(&self.input, i) {
                    Ok((t, j)) => {
                        proof {
                            lemma_skip_skip(s, iv, 1);
                            assert(spec_lex(s.skip(iv), i as nat) == lex_combine(
                                seq![t@],
                                spec_lex(s.skip(j as int), j as nat),
                            ));
                            lemma_tokens_view_push(toks@, t);
                            lemma_combine_assoc(
                                tokens_view(toks@),
                                seq![t@],
                                spec_lex(s.skip(j as int), j as nat),
                            );
                        }
                        toks.push(t);
                        i = j;
                    },
                    Err(e) => {
                        proof {
                            assert(spec_lex(s.skip(iv), i as nat) == Err::<
                                Seq<TokenV>,
                                LexerError,
                            >(e));
                        }
                        self.index = i;
                        return Err(e);
                    },
                }
            } else if c == '{' || c == '}' || c == '(' || c == ')' || c == ',' {
                let t = if c == '{' {
                    Token::LeftBrace
                } else if c == '}' {
                    Token::RightBrace
                } else if c == '(' {
                    Token::LeftParen
                } else if c == ')' {
                    Token::RightParen
                } else {
                    Token::Comma
                };
                proof {
                    lemma_skip_skip(s, iv, 1);
                    assert(spec_lex(s.skip(iv), i as nat) == lex_combine(
                        seq![t@],
                        spec_lex(s.skip(iv + 1), (i + 1) as nat),
                    ));
                    lemma_tokens_view_push(toks@, t);
                    lemma_combine_assoc(
                        tokens_view(toks@),
                        seq![t@],
                        spec_lex(s.skip(iv + 1), (i + 1) as nat),
                    );
                }
                toks.push(t);
                i += 1;
            } else if ident_start(c) {
                let (t, j) = scan_ident(&self.input, i);
                proof {
                    let n = ident_run_len(s.skip(iv));
                    lemma_ident_run_le(s.skip(iv));
                    assert(n >= 1);
                    lemma_skip_skip(s, iv, n as int);
                    lemma_skip_take(s, iv, n as int);
                    assert(spec_lex(s.skip(iv), i as nat) == lex_combine(
                        seq![t@],
                        spec_lex(s.skip(j as int), j as nat),
                    ));
                    lemma_tokens_view_push(toks@, t);
                    lemma_combine_assoc(
                        tokens_view(toks@),
                        seq![t@],
                        spec_lex(s.skip(j as int), j as nat),
                    );
                }
                toks.push(t);
                i = j;
            } else if combined_start(c) {
                match scan_operator(&self.input, i) {
                    Ok((t, j)) => {
                        proof {
                            lemma_skip_skip(s, iv, (j - i) as int);
                            assert(spec_lex(s.skip(iv), i as nat) == lex_combine(
                                seq![t@],
                                spec_lex(s.skip(j as int), j as nat),
                            ));
                            lemma_tokens_view_push(toks@, t);
                            lemma_combine_assoc(
                                tokens_view(toks@),
                                seq![t@],
                                spec_lex(s.skip(j as int), j as nat),
                            );
                        }
                        toks.push(t);
                        i = j;
                    },
                    Err(e) => {
                        proof {
                            assert(spec_lex(s.skip(iv), i as nat) == Err::<
                                Seq<TokenV>,
                                LexerError,
                            >(e));
                        }
                        self.index = i;
                        return Err(e);
                    },
                }
            } else if digit(c) {
                let (t, j) = scan_number(&self.input, i);
                proof {
                    let n = number_run_len(s.skip(iv), false);
                    lemma_number_run_le(s.skip(iv), false);
                    assert(n >= 1);
                    lemma_skip_skip(s, iv, n as int);
                    lemma_skip_take(s, iv, n as int);
                    assert(spec_lex(s.skip(iv), i as nat) == lex_combine(
                        seq![t@],
                        spec_lex(s.skip(j as int), j as nat),
                    ));
                    lemma_tokens_view_push(toks@, t);
                    lemma_combine_assoc(
                        tokens_view(toks@),
                        seq![t@],
                        spec_lex(s.skip(j as int), j as nat),
                    );
                }
                toks.push(t);
                i = j;
            } else {
                proof {
                    assert(spec_lex(s.skip(iv), i as nat) == Err::<Seq<TokenV>, LexerError>(
                        LexerError::UnexpectedCharacter(c, i),
                    ));
                }
                self.index = i;
                return Err(LexerError::UnexpectedCharacter(c, i));
            }
        }
        proof {
            assert(s.skip(len as int).len() == 0);
            assert(spec_lex(s.skip(len as int), len as nat) == Ok::<_, LexerError>(
                seq![TokenV::EndOfInput],
            ));
            lemma_tokens_view_push(toks@, Token::EndOfInput);
        }
        toks.push(Token::EndOfInput);
        self.index = i;
        Ok(toks)
    }
}

/// Tokenizes source text in one call: builds a lexer and runs the full
/// scanning pass, returning exactly `spec_lex` on the whole input.
pub fn tokenize(source: &str) -> (r: Result<Vec<Token>, LexerError>)
    ensures
        lex_result_view(r) == spec_lex(source@, 0),
{
    let mut lx = Lexer::new(source);
    proof {
        assert(lx.src().skip(0) =~= source@);
    }
    lx.tokenize()
}

} // verus!
