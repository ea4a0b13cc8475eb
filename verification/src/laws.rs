//! Laws of the front end, stated over its mathematical models and proved
//! outright: the operator-spelling table, the shape of block-comment
//! scanning, the round trip from a tokenizer run through the canonical
//! spaced serialization back to the same tokens, and the non-chaining
//! comparison rule of the parser.

use vstd::prelude::*;

use crate::lexer::{
    comment_close, ident_run_len, is_combined_start_char, is_digit_char, is_ident_char, is_keyword,
    lemma_combine_assoc, lex_combine, number_run_len, one_char_op, spec_lex, two_char_op,
};
use crate::ast::{ExprV, StmtV};
use crate::parser::{
    Expected, ParseErrorV, sp_assign_or_expr, sp_bitwise, sp_bitwise_tail, sp_comparison,
    sp_expr_statement, sp_expression, sp_factor, sp_ident_run, sp_logical, sp_logical_tail,
    sp_math, sp_math_tail, sp_program, sp_statement,
};
use crate::render::{
    dot_count, spec_render, token_text, wf_comment_text, wf_number_text, wf_token,
};
use crate::token::{
    BitwiseOperator, ComparisonOperator, LexerError, LogicalOperator, Operator, TokenV,
};

verus! {

/// Every valid two-character operator spelling tokenizes to exactly one
/// operator token of the correct category, consuming both characters; and
/// each single-character prefix used alone tokenizes to the corresponding
/// single-character category (`=` to assignment, `&`, `|`, `^` to the
/// bitwise family, `!` to logical not, `<`, `>` to comparisons).
pub proof fn lemma_operator_spellings()
    ensures
        spec_lex(seq!['=', '='], 0) == Ok::<Seq<TokenV>, LexerError>(
            seq![
                TokenV::ComparisonOperatorToken(ComparisonOperator::Equals),
                TokenV::EndOfInput,
            ],
        ),
        spec_lex(seq!['!', '='], 0) == Ok::<Seq<TokenV>, LexerError>(
            seq![
                TokenV::ComparisonOperatorToken(ComparisonOperator::NotEquals),
                TokenV::EndOfInput,
            ],
        ),
        spec_lex(seq!['<', '='], 0) == Ok::<Seq<TokenV>, LexerError>(
            seq![
                TokenV::ComparisonOperatorToken(ComparisonOperator::LessThanEq),
                TokenV::EndOfInput,
            ],
        ),
        spec_lex(seq!['>', '='], 0) == Ok::<Seq<TokenV>, LexerError>(
            seq![
                TokenV::ComparisonOperatorToken(ComparisonOperator::GreaterThanEq),
                TokenV::EndOfInput,
            ],
        ),
        spec_lex(seq!['&', '&'], 0) == Ok::<Seq<TokenV>, LexerError>(
            seq![TokenV::LogicalOperatorToken(LogicalOperator::And), TokenV::EndOfInput],
        ),
        spec_lex(seq!['|', '|'], 0) == Ok::<Seq<TokenV>, LexerError>(
            seq![TokenV::LogicalOperatorToken(LogicalOperator::Or), TokenV::EndOfInput],
        ),
        spec_lex(seq!['<', '<'], 0) == Ok::<Seq<TokenV>, LexerError>(
            seq![
                TokenV::BitwiseOperatorToken(BitwiseOperator::LeftShift),
                TokenV::EndOfInput,
            ],
        ),
        spec_lex(seq!['>', '>'], 0) == Ok::<Seq<TokenV>, LexerError>(
            seq![
                TokenV::BitwiseOperatorToken(BitwiseOperator::RightShift),
                TokenV::EndOfInput,
            ],
        ),
        spec_lex(seq![':', '='], 0) == Ok::<Seq<TokenV>, LexerError>(
            seq![TokenV::OperatorToken(Operator::Define), TokenV::EndOfInput],
        ),
        spec_lex(seq!['='], 0) == Ok::<Seq<TokenV>, LexerError>(
            seq![TokenV::OperatorToken(Operator::Equals), TokenV::EndOfInput],
        ),
        spec_lex(seq!['&'], 0) == Ok::<Seq<TokenV>, LexerError>(
            seq![TokenV::BitwiseOperatorToken(BitwiseOperator::And), TokenV::EndOfInput],
        ),
        spec_lex(seq!['|'], 0) == Ok::<Seq<TokenV>, LexerError>(
            seq![TokenV::BitwiseOperatorToken(BitwiseOperator::Or), TokenV::EndOfInput],
        ),
        spec_lex(seq!['^'], 0) == Ok::<Seq<TokenV>, LexerError>(
            seq![TokenV::BitwiseOperatorToken(BitwiseOperator::Xor), TokenV::EndOfInput],
        ),
        spec_lex(seq!['!'], 0) == Ok::<Seq<TokenV>, LexerError>(
            seq![TokenV::LogicalOperatorToken(LogicalOperator::Not), TokenV::EndOfInput],
        ),
        spec_lex(seq!['<'], 0) == Ok::<Seq<TokenV>, LexerError>(
            seq![
                TokenV::ComparisonOperatorToken(ComparisonOperator::LessThan),
                TokenV::EndOfInput,
            ],
        ),
        spec_lex(seq!['>'], 0) == Ok::<Seq<TokenV>, LexerError>(
            seq![
                TokenV::ComparisonOperatorToken(ComparisonOperator::GreaterThan),
                TokenV::EndOfInput,
            ],
        ),
{
    lemma_lex_pair('=', '=');
    lemma_lex_pair('!', '=');
    lemma_lex_pair('<', '=');
    lemma_lex_pair('>', '=');
    lemma_lex_pair('&', '&');
    lemma_lex_pair('|', '|');
    lemma_lex_pair('<', '<');
    lemma_lex_pair('>', '>');
    lemma_lex_pair(':', '=');
    lemma_lex_single('=');
    lemma_lex_single('&');
    lemma_lex_single('|');
    lemma_lex_single('^');
    lemma_lex_single('!');
    lemma_lex_single('<');
    lemma_lex_single('>');
}

/// Unfolds one tokenizer step on a two-character combined operator.
proof fn lemma_lex_pair(c: char, d: char)
    requires
        is_combined_start_char(c),
        two_char_op(c, d) is Some,
    ensures
        spec_lex(seq![c, d], 0) == Ok::<Seq<TokenV>, LexerError>(
            seq![two_char_op(c, d)->Some_0, TokenV::EndOfInput],
        ),
{
    let s = seq![c, d];
    assert(s.skip(2) =~= Seq::<char>::empty());
    assert(spec_lex(s.skip(2), 2) == Ok::<Seq<TokenV>, LexerError>(seq![TokenV::EndOfInput]));
    assert(seq![two_char_op(c, d)->Some_0] + seq![TokenV::EndOfInput] =~= seq![
        two_char_op(c, d)->Some_0,
        TokenV::EndOfInput,
    ]);
}

/// Unfolds one tokenizer step on a lone combined-scan character that the
/// single-character tables classify.
proof fn lemma_lex_single(c: char)
    requires
        is_combined_start_char(c),
        one_char_op(c) is Some,
    ensures
        spec_lex(seq![c], 0) == Ok::<Seq<TokenV>, LexerError>(
            seq![one_char_op(c)->Some_0, TokenV::EndOfInput],
        ),
{
    let s = seq![c];
    assert(s.skip(1) =~= Seq::<char>::empty());
    assert(spec_lex(s.skip(1), 1) == Ok::<Seq<TokenV>, LexerError>(seq![TokenV::EndOfInput]));
    assert(seq![one_char_op(c)->Some_0] + seq![TokenV::EndOfInput] =~= seq![
        one_char_op(c)->Some_0,
        TokenV::EndOfInput,
    ]);
}

/// A body with no `*/` pair has no comment close anywhere in it.
pub proof fn lemma_comment_close_none(s: Seq<char>)
    requires
        wf_comment_text(s),
    ensures
        comment_close(s) is None,
    decreases s.len(),
{
    if s.len() >= 2 && s[0] == '*' && s[1] == '/' {
        assert(!(s[0] == '*' && s[1] == '/'));
    } else if s.len() == 0 {
    } else {
        assert forall|i: int| 0 <= i < s.skip(1).len() - 1 implies !(#[trigger] s.skip(1)[i] == '*'
            && s.skip(1)[i + 1] == '/') by {
            assert(s.skip(1)[i] == s[i + 1]);
            assert(s.skip(1)[i + 1] == s[i + 2]);
            assert(!(s[i + 1] == '*' && s[i + 2] == '/'));
        }
        lemma_comment_close_none(s.skip(1));
    }
}

/// The first `*/` pair after a body with no such pair stands exactly at
/// the body's end.
pub proof fn lemma_comment_close_at(s: Seq<char>, rest: Seq<char>)
    requires
        wf_comment_text(s),
    ensures
        comment_close(s + seq!['*', '/'] + rest) == Some(s.len()),
    decreases s.len(),
{
    let full = s + seq!['*', '/'] + rest;
    if s.len() == 0 {
        assert(full[0] == '*');
        assert(full[1] == '/');
    } else {
        if s.len() == 1 {
            assert(full[1] == '*');
            assert(!(full[0] == '*' && full[1] == '/'));
        } else {
            assert(full[0] == s[0]);
            assert(full[1] == s[1]);
            assert(!(s[0] == '*' && s[1] == '/'));
        }
        assert forall|i: int| 0 <= i < s.skip(1).len() - 1 implies !(#[trigger] s.skip(1)[i] == '*'
            && s.skip(1)[i + 1] == '/') by {
            assert(s.skip(1)[i] == s[i + 1]);
            assert(s.skip(1)[i + 1] == s[i + 2]);
            assert(!(s[i + 1] == '*' && s[i + 2] == '/'));
        }
        lemma_comment_close_at(s.skip(1), rest);
        assert(full.skip(1) =~= s.skip(1) + seq!['*', '/'] + rest);
        assert(comment_close(full.skip(1)) == Some((s.len() - 1) as nat));
    }
}

/// A block comment with a body that holds no `*/` tokenizes to exactly
/// one `Comment` token carrying that body.
pub proof fn lemma_comment_tokenizes(body: Seq<char>)
    requires
        wf_comment_text(body),
    ensures
        spec_lex(seq!['/', '*'] + body + seq!['*', '/'], 0) == Ok::<Seq<TokenV>, LexerError>(
            seq![TokenV::Comment(body), TokenV::EndOfInput],
        ),
{
    let s = seq!['/', '*'] + body + seq!['*', '/'];
    let n = body.len();
    assert(s[0] == '/');
    assert(s[1] == '*');
    assert(s.skip(2) =~= body + seq!['*', '/'] + Seq::<char>::empty());
    lemma_comment_close_at(body, Seq::empty());
    assert(comment_close(s.skip(2)) == Some(n));
    assert(s.skip(2).take(n as int) =~= body);
    assert(s.skip(2 + n as int + 2) =~= Seq::<char>::empty());
    assert(spec_lex(s.skip(2 + n as int + 2), 4 + n) == Ok::<Seq<TokenV>, LexerError>(
        seq![TokenV::EndOfInput],
    ));
    assert(seq![TokenV::Comment(body)] + seq![TokenV::EndOfInput] =~= seq![
        TokenV::Comment(body),
        TokenV::EndOfInput,
    ]);
}

/// A `/*` that is never closed fails the whole tokenization with
/// `UnterminatedComment`.
pub proof fn lemma_comment_unterminated(body: Seq<char>)
    requires
        wf_comment_text(body),
    ensures
        spec_lex(seq!['/', '*'] + body, 0) == Err::<Seq<TokenV>, LexerError>(
            LexerError::UnterminatedComment,
        ),
{
    let s = seq!['/', '*'] + body;
    assert(s[0] == '/');
    assert(s[1] == '*');
    assert(s.skip(2) =~= body);
    lemma_comment_close_none(body);
}


/// Every character of the maximal identifier run is an identifier
/// character.
proof fn lemma_ident_run_prefix(s: Seq<char>)
    ensures
        forall|i: int| 0 <= i < ident_run_len(s) ==> is_ident_char(#[trigger] s[i]),
    decreases s.len(),
{
    if s.len() > 0 && is_ident_char(s[0]) {
        lemma_ident_run_prefix(s.skip(1));
        crate::lexer::lemma_ident_run_le(s.skip(1));
        assert forall|i: int| 0 <= i < ident_run_len(s) implies is_ident_char(#[trigger] s[i]) by {
            if i > 0 {
                assert(0 <= i - 1 < ident_run_len(s.skip(1)));
                assert(is_ident_char(s.skip(1)[i - 1]));
                assert(s.skip(1)[i - 1] == s[i]);
            }
        }
    }
}

/// The maximal identifier run over a text of identifier characters
/// followed by a non-identifier character covers exactly that text.
proof fn lemma_ident_run_stops(s: Seq<char>, t: Seq<char>)
    requires
        forall|i: int| 0 <= i < s.len() ==> is_ident_char(#[trigger] s[i]),
        t.len() > 0,
        !is_ident_char(t[0]),
    ensures
        ident_run_len(s + t) == s.len(),
    decreases s.len(),
{
    if s.len() == 0 {
        assert(s + t =~= t);
    } else {
        assert((s + t)[0] == s[0]);
        assert((s + t).skip(1) =~= s.skip(1) + t);
        lemma_ident_run_stops(s.skip(1), t);
    }
}

/// Every character of the maximal number run is a digit or a decimal
/// point, and the run holds at most one point in all.
proof fn lemma_number_run_prefix(s: Seq<char>, seen: bool)
    ensures
        forall|i: int|
            0 <= i < number_run_len(s, seen) ==> is_digit_char(#[trigger] s[i]) || s[i] == '.',
        dot_count(s.take(number_run_len(s, seen) as int)) + (if seen {
            1nat
        } else {
            0nat
        }) <= 1,
    decreases s.len(),
{
    let n = number_run_len(s, seen);
    crate::lexer::lemma_number_run_le(s, seen);
    if s.len() > 0 && is_digit_char(s[0]) {
        lemma_number_run_prefix(s.skip(1), seen);
        crate::lexer::lemma_number_run_le(s.skip(1), seen);
        assert forall|i: int| 0 <= i < n implies is_digit_char(#[trigger] s[i]) || s[i] == '.' by {
            if i > 0 {
                assert(0 <= i - 1 < number_run_len(s.skip(1), seen));
                assert(is_digit_char(s.skip(1)[i - 1]) || s.skip(1)[i - 1] == '.');
                assert(s.skip(1)[i - 1] == s[i]);
            }
        }
        assert(s.take(n as int).skip(1) =~= s.skip(1).take(n as int - 1));
        assert(s.take(n as int)[0] == s[0]);
    } else if s.len() > 0 && s[0] == '.' && !seen {
        lemma_number_run_prefix(s.skip(1), true);
        crate::lexer::lemma_number_run_le(s.skip(1), true);
        assert forall|i: int| 0 <= i < n implies is_digit_char(#[trigger] s[i]) || s[i] == '.' by {
            if i > 0 {
                assert(0 <= i - 1 < number_run_len(s.skip(1), true));
                assert(is_digit_char(s.skip(1)[i - 1]) || s.skip(1)[i - 1] == '.');
                assert(s.skip(1)[i - 1] == s[i]);
            }
        }
        assert(s.take(n as int).skip(1) =~= s.skip(1).take(n as int - 1));
        assert(s.take(n as int)[0] == s[0]);
    } else {
        assert(s.take(0) =~= Seq::<char>::empty());
    }
}

/// The maximal number run over a well-formed number text followed by a
/// character that is neither digit nor point covers exactly that text.
proof fn lemma_number_run_stops(s: Seq<char>, t: Seq<char>, seen: bool)
    requires
        forall|i: int| 0 <= i < s.len() ==> is_digit_char(#[trigger] s[i]) || s[i] == '.',
        dot_count(s) + (if seen {
            1nat
        } else {
            0nat
        }) <= 1,
        t.len() > 0,
        !is_digit_char(t[0]),
        t[0] != '.',
    ensures
        number_run_len(s + t, seen) == s.len(),
    decreases s.len(),
{
    if s.len() == 0 {
        assert(s + t =~= t);
    } else {
        assert((s + t)[0] == s[0]);
        assert((s + t).skip(1) =~= s.skip(1) + t);
        if is_digit_char(s[0]) {
            lemma_number_run_stops(s.skip(1), t, seen);
        } else {
            assert(dot_count(s) >= 1);
            assert(!seen);
            lemma_number_run_stops(s.skip(1), t, true);
        }
    }
}

/// No `*/` pair stands before the first one.
proof fn lemma_comment_close_first(s: Seq<char>)
    requires
        comment_close(s) is Some,
    ensures
        forall|i: int|
            0 <= i < comment_close(s)->Some_0 ==> !(#[trigger] s[i] == '*' && s[i + 1] == '/'),
    decreases s.len(),
{
    if s.len() >= 2 && s[0] == '*' && s[1] == '/' {
    } else if s.len() == 0 {
    } else {
        if comment_close(s.skip(1)) is Some {
            lemma_comment_close_first(s.skip(1));
            crate::lexer::lemma_comment_close_le(s.skip(1));
            assert forall|i: int|
                0 <= i < comment_close(s)->Some_0 implies !(#[trigger] s[i] == '*' && s[i + 1]
                == '/') by {
                if i > 0 {
                    assert(0 <= i - 1 < comment_close(s.skip(1))->Some_0);
                    assert(!(s.skip(1)[i - 1] == '*' && s.skip(1)[i] == '/'));
                    assert(s.skip(1)[i - 1] == s[i]);
                    assert(s.skip(1)[i] == s[i + 1]);
                }
            }
        }
    }
}

/// Skipping one space continues the scan one position later.
proof fn lemma_space_then(u: Seq<char>, at: nat)
    ensures
        spec_lex(seq![' '] + u, at) == spec_lex(u, at + 1),
{
    let s = seq![' '] + u;
    assert(s[0] == ' ');
    assert(s.skip(1) =~= u);
}

/// Scanning one well-formed token's text followed by a space produces
/// exactly that token and continues after the space.
proof fn lemma_lex_token_head(t: TokenV, u: Seq<char>, at: nat)
    requires
        wf_token(t),
    ensures
        spec_lex(token_text(t) + seq![' '] + u, at) == lex_combine(
            seq![t],
            spec_lex(u, at + token_text(t).len() + 1),
        ),
{
    let text = token_text(t);
    let n = text.len();
    let s = text + seq![' '] + u;
    assert(s.skip(n as int) =~= seq![' '] + u);
    lemma_space_then(u, at + n);
    assert(spec_lex(s.skip(n as int), at + n) == spec_lex(u, at + n + 1));
    match t {
        TokenV::Identifier(name) => {
            assert(s[0] == name[0]);
            assert(s =~= name + (seq![' '] + u));
            lemma_ident_run_stops(name, seq![' '] + u);
            assert(ident_run_len(s) == n);
            assert(s.take(n as int) =~= name);
        },
        TokenV::Keyword(k) => {
            assert(k.len() > 0);
            assert(s[0] == k[0]);
            assert(s =~= k + (seq![' '] + u));
            lemma_keyword_chars(k);
            lemma_ident_run_stops(k, seq![' '] + u);
            assert(ident_run_len(s) == n);
            assert(s.take(n as int) =~= k);
        },
        TokenV::Number(txt) => {
            assert(s[0] == txt[0]);
            assert(s =~= txt + (seq![' '] + u));
            lemma_number_run_stops(txt, seq![' '] + u, false);
            assert(number_run_len(s, false) == n);
            assert(s.take(n as int) =~= txt);
        },
        TokenV::Comment(body) => {
            assert(s[0] == '/');
            assert(s[1] == '*');
            assert(s.skip(2) =~= body + seq!['*', '/'] + (seq![' '] + u));
            lemma_comment_close_at(body, seq![' '] + u);
            assert(comment_close(s.skip(2)) == Some(body.len()));
            assert(s.skip(2).take(body.len() as int) =~= body);
            assert(2 + body.len() as int + 2 == n as int);
        },
        TokenV::OperatorToken(op) => {
            if op == Operator::Equals {
                assert(s[0] == '=');
                assert(s[1] == ' ');
            } else {
                assert(s[0] == ':');
                assert(s[1] == '=');
                assert(s[2] == ' ');
            }
        },
        TokenV::MathOperatorToken(op) => {
            assert(s[1] == ' ');
        },
        TokenV::LogicalOperatorToken(op) => {
            if op == LogicalOperator::Not {
                assert(s[1] == ' ');
            } else if op == LogicalOperator::And {
                assert(s[0] == '&');
                assert(s[1] == '&');
                assert(s[2] == ' ');
            } else {
                assert(s[0] == '|');
                assert(s[1] == '|');
                assert(s[2] == ' ');
            }
        },
        TokenV::BitwiseOperatorToken(op) => {
            if op == BitwiseOperator::LeftShift {
                assert(s[0] == '<');
                assert(s[1] == '<');
                assert(s[2] == ' ');
            } else if op == BitwiseOperator::RightShift {
                assert(s[0] == '>');
                assert(s[1] == '>');
                assert(s[2] == ' ');
            } else {
                assert(s[1] == ' ');
            }
        },
        TokenV::ComparisonOperatorToken(op) => {
            if op == ComparisonOperator::GreaterThan || op == ComparisonOperator::LessThan {
                assert(s[1] == ' ');
            } else {
                assert(s[1] == '=');
                assert(s[2] == ' ');
            }
        },
        TokenV::LeftBrace => {
            assert(s[1] == ' ');
        },
        TokenV::RightBrace => {
            assert(s[1] == ' ');
        },
        TokenV::LeftParen => {
            assert(s[1] == ' ');
        },
        TokenV::RightParen => {
            assert(s[1] == ' ');
        },
        TokenV::Comma => {
            assert(s[1] == ' ');
        },
        TokenV::EndOfInput => {
            assert(false);
        },
    }
}

/// Every keyword spelling is a run of identifier characters.
proof fn lemma_keyword_chars(k: Seq<char>)
    requires
        is_keyword(k),
    ensures
        forall|i: int| 0 <= i < k.len() ==> is_ident_char(#[trigger] k[i]),
{
}


/// Scanning the canonical spaced form of well-formed tokens, followed by
/// any tail, produces exactly those tokens and then scans the tail.
proof fn lemma_render_lexes(ts: Seq<TokenV>, u: Seq<char>, at: nat)
    requires
        forall|i: int| 0 <= i < ts.len() ==> wf_token(#[trigger] ts[i]),
    ensures
        spec_lex(spec_render(ts) + u, at) == lex_combine(
            ts,
            spec_lex(u, at + spec_render(ts).len()),
        ),
    decreases ts.len(),
{
    if ts.len() == 0 {
        assert(spec_render(ts) + u =~= u);
        match spec_lex(u, at) {
            Ok(rest) => {
                assert(Seq::<TokenV>::empty() + rest =~= rest);
            },
            Err(_) => {},
        }
    } else {
        let t = ts[0];
        let text = token_text(t);
        let rest_src = spec_render(ts.skip(1));
        assert(spec_render(ts) + u =~= text + seq![' '] + (rest_src + u));
        lemma_lex_token_head(t, rest_src + u, at);
        assert forall|i: int| 0 <= i < ts.skip(1).len() implies wf_token(#[trigger] ts.skip(1)[i]) by {
            assert(ts.skip(1)[i] == ts[i + 1]);
        }
        lemma_render_lexes(ts.skip(1), u, at + text.len() + 1);
        lemma_combine_assoc(
            seq![t],
            ts.skip(1),
            spec_lex(u, at + text.len() + 1 + rest_src.len()),
        );
        assert(seq![t] + ts.skip(1) =~= ts);
        assert(at + text.len() + 1 + rest_src.len() == at + spec_render(ts).len());
    }
}

/// A successful tokenizer run yields at least the end marker, the marker
/// stands exactly at the end, and every token before it is well-formed.
pub proof fn lemma_lex_output_wf(s: Seq<char>, at: nat)
    requires
        spec_lex(s, at) is Ok,
    ensures
        ({
            let ts = spec_lex(s, at)->Ok_0;
            &&& ts.len() >= 1
            &&& ts.last() == TokenV::EndOfInput
            &&& forall|i: int| 0 <= i < ts.len() - 1 ==> wf_token(#[trigger] ts[i])
        }),
    decreases s.len(),
{
    let ts = spec_lex(s, at)->Ok_0;
    if s.len() == 0 {
    } else {
        let c = s[0];
        if crate::lexer::is_whitespace_char(c) {
            lemma_lex_output_wf(s.skip(1), at + 1);
        } else if c == '/' && s.len() >= 2 && s[1] == '*' {
            let cc = comment_close(s.skip(2));
            let m = cc->Some_0;
            crate::lexer::lemma_comment_close_le(s.skip(2));
            lemma_lex_output_wf(s.skip(2 + m as int + 2), at + 4 + m);
            lemma_comment_close_first(s.skip(2));
            let body = s.skip(2).take(m as int);
            assert forall|i: int| 0 <= i < body.len() - 1 implies !(#[trigger] body[i] == '*'
                && body[i + 1] == '/') by {
                assert(body[i] == s.skip(2)[i]);
                assert(body[i + 1] == s.skip(2)[i + 1]);
            }
            lemma_cons_wf(TokenV::Comment(body), spec_lex(s.skip(2 + m as int + 2), at + 4 + m));
        } else if crate::lexer::is_math_start_char(c) {
            lemma_lex_output_wf(s.skip(1), at + 1);
            lemma_cons_wf(
                TokenV::MathOperatorToken(crate::lexer::math_op_of(c)),
                spec_lex(s.skip(1), at + 1),
            );
        } else if c == '{' {
            lemma_lex_output_wf(s.skip(1), at + 1);
            lemma_cons_wf(TokenV::LeftBrace, spec_lex(s.skip(1), at + 1));
        } else if c == '}' {
            lemma_lex_output_wf(s.skip(1), at + 1);
            lemma_cons_wf(TokenV::RightBrace, spec_lex(s.skip(1), at + 1));
        } else if c == '(' {
            lemma_lex_output_wf(s.skip(1), at + 1);
            lemma_cons_wf(TokenV::LeftParen, spec_lex(s.skip(1), at + 1));
        } else if c == ')' {
            lemma_lex_output_wf(s.skip(1), at + 1);
            lemma_cons_wf(TokenV::RightParen, spec_lex(s.skip(1), at + 1));
        } else if c == ',' {
            lemma_lex_output_wf(s.skip(1), at + 1);
            lemma_cons_wf(TokenV::Comma, spec_lex(s.skip(1), at + 1));
        } else if crate::lexer::is_ident_start_char(c) {
            let n = ident_run_len(s);
            crate::lexer::lemma_ident_run_le(s);
            assert(n >= 1);
            lemma_lex_output_wf(s.skip(n as int), at + n);
            lemma_ident_run_prefix(s);
            let text = s.take(n as int);
            assert forall|i: int| 0 <= i < text.len() implies is_ident_char(#[trigger] text[i]) by {
                assert(text[i] == s[i]);
            }
            assert(text[0] == s[0]);
            let tok = if is_keyword(text) {
                TokenV::Keyword(text)
            } else {
                TokenV::Identifier(text)
            };
            assert(wf_token(tok));
            lemma_cons_wf(tok, spec_lex(s.skip(n as int), at + n));
        } else if is_combined_start_char(c) {
            if s.len() >= 2 && two_char_op(c, s[1]) is Some {
                lemma_lex_output_wf(s.skip(2), at + 2);
                lemma_cons_wf(two_char_op(c, s[1])->Some_0, spec_lex(s.skip(2), at + 2));
            } else {
                lemma_lex_output_wf(s.skip(1), at + 1);
                lemma_cons_wf(one_char_op(c)->Some_0, spec_lex(s.skip(1), at + 1));
            }
        } else {
            let n = number_run_len(s, false);
            crate::lexer::lemma_number_run_le(s, false);
            assert(n >= 1);
            lemma_lex_output_wf(s.skip(n as int), at + n);
            lemma_number_run_prefix(s, false);
            let text = s.take(n as int);
            assert forall|i: int|
                0 <= i < text.len() implies is_digit_char(#[trigger] text[i]) || text[i]
                == '.' by {
                assert(text[i] == s[i]);
            }
            assert(text[0] == s[0]);
            assert(wf_number_text(text));
            lemma_cons_wf(TokenV::Number(text), spec_lex(s.skip(n as int), at + n));
        }
    }
}

/// Prepending one well-formed token keeps the output shape of a
/// successful scan.
proof fn lemma_cons_wf(t: TokenV, r: Result<Seq<TokenV>, LexerError>)
    requires
        wf_token(t),
        r is Ok,
        r->Ok_0.len() >= 1,
        r->Ok_0.last() == TokenV::EndOfInput,
        forall|i: int| 0 <= i < r->Ok_0.len() - 1 ==> wf_token(#[trigger] r->Ok_0[i]),
    ensures
        ({
            let ts = lex_combine(seq![t], r)->Ok_0;
            &&& lex_combine(seq![t], r) is Ok
            &&& ts.len() >= 1
            &&& ts.last() == TokenV::EndOfInput
            &&& forall|i: int| 0 <= i < ts.len() - 1 ==> wf_token(#[trigger] ts[i])
        }),
{
    let rest = r->Ok_0;
    let ts = seq![t] + rest;
    assert(ts.last() == rest.last());
    assert forall|i: int| 0 <= i < ts.len() - 1 implies wf_token(#[trigger] ts[i]) by {
        if i > 0 {
            assert(ts[i] == rest[i - 1]);
        }
    }
}

/// The canonical spaced form of a sequence extended by one token.
proof fn lemma_render_snoc(ts: Seq<TokenV>, t: TokenV)
    ensures
        spec_render(ts.push(t)) == spec_render(ts) + token_text(t) + seq![' '],
    decreases ts.len(),
{
    if ts.len() == 0 {
        assert(ts.push(t)[0] == t);
        assert(ts.push(t).skip(1) =~= Seq::<TokenV>::empty());
        assert(spec_render(ts.push(t).skip(1)) == Seq::<char>::empty());
        assert(spec_render(ts) == Seq::<char>::empty());
        assert(spec_render(ts.push(t)) =~= spec_render(ts) + token_text(t) + seq![' ']);
    } else {
        assert(ts.push(t)[0] == ts[0]);
        assert(ts.push(t).skip(1) =~= ts.skip(1).push(t));
        assert(spec_render(ts.push(t).skip(1)) == spec_render(ts.skip(1).push(t)));
        lemma_render_snoc(ts.skip(1), t);
        assert(spec_render(ts.push(t)) =~= spec_render(ts) + token_text(t) + seq![' ']);
    }
}

/// Round trip: tokenizing, re-serializing to the canonical spaced form,
/// and re-tokenizing yields the same token sequence.
pub proof fn lemma_tokenize_render_round_trip(s: Seq<char>, ts: Seq<TokenV>)
    requires
        spec_lex(s, 0) == Ok::<Seq<TokenV>, LexerError>(ts),
    ensures
        spec_lex(spec_render(ts), 0) == Ok::<Seq<TokenV>, LexerError>(ts),
{
    lemma_lex_output_wf(s, 0);
    let body = ts.take(ts.len() - 1);
    assert(ts =~= body.push(TokenV::EndOfInput));
    lemma_render_snoc(body, TokenV::EndOfInput);
    assert(spec_render(ts) == spec_render(body) + token_text(TokenV::EndOfInput) + seq![' ']);
    assert(spec_render(body) + token_text(TokenV::EndOfInput) + seq![' '] =~= spec_render(body)
        + seq![' ']);
    assert forall|i: int| 0 <= i < body.len() implies wf_token(#[trigger] body[i]) by {
        assert(body[i] == ts[i]);
    }
    lemma_render_lexes(body, seq![' '], 0);
    assert(seq![' '][0] == ' ');
    assert(seq![' '].skip(1) =~= Seq::<char>::empty());
    assert(spec_lex(Seq::<char>::empty(), spec_render(body).len() + 1)
        == Ok::<Seq<TokenV>, LexerError>(seq![TokenV::EndOfInput]));
    assert(spec_lex(seq![' '], spec_render(body).len()) == Ok::<Seq<TokenV>, LexerError>(
        seq![TokenV::EndOfInput],
    ));
    assert(body + seq![TokenV::EndOfInput] =~= ts);
}


/// Non-chaining comparison: over the token stream of `a < b < c`, the
/// parser consumes `a < b` as one comparison node and leaves `< c`
/// unconsumed; the top-level loop then fails at the stray `<` with its
/// position, rather than consuming it or looping.
pub proof fn lemma_comparison_non_chaining(a: Seq<char>, b: Seq<char>, c: Seq<char>)
    ensures
        ({
            let toks = seq![
                TokenV::Identifier(a),
                TokenV::ComparisonOperatorToken(ComparisonOperator::LessThan),
                TokenV::Identifier(b),
                TokenV::ComparisonOperatorToken(ComparisonOperator::LessThan),
                TokenV::Identifier(c),
                TokenV::EndOfInput,
            ];
            sp_program(toks, 0) == Err::<(Seq<StmtV>, nat), ParseErrorV>(
                ParseErrorV::UnexpectedToken {
                    expected: Expected::Expression,
                    found: TokenV::ComparisonOperatorToken(ComparisonOperator::LessThan),
                    position: 3,
                },
            )
        }),
{
    let toks = seq![
        TokenV::Identifier(a),
        TokenV::ComparisonOperatorToken(ComparisonOperator::LessThan),
        TokenV::Identifier(b),
        TokenV::ComparisonOperatorToken(ComparisonOperator::LessThan),
        TokenV::Identifier(c),
        TokenV::EndOfInput,
    ];
    let ida = ExprV::Identifier(a);
    let idb = ExprV::Identifier(b);
    assert(sp_factor(toks, 0) == Ok::<(ExprV, nat), ParseErrorV>((ida, 1)));
    assert(sp_math_tail(toks, 1, ida) == Ok::<(ExprV, nat), ParseErrorV>((ida, 1)));
    assert(sp_math(toks, 0) == Ok::<(ExprV, nat), ParseErrorV>((ida, 1)));
    assert(sp_factor(toks, 2) == Ok::<(ExprV, nat), ParseErrorV>((idb, 3)));
    assert(sp_math_tail(toks, 3, idb) == Ok::<(ExprV, nat), ParseErrorV>((idb, 3)));
    assert(sp_math(toks, 2) == Ok::<(ExprV, nat), ParseErrorV>((idb, 3)));
    let cmp = ExprV::ComparisonOp(
        Box::new(ida),
        ComparisonOperator::LessThan,
        Box::new(idb),
    );
    assert(sp_comparison(toks, 0) == Ok::<(ExprV, nat), ParseErrorV>((cmp, 3)));
    assert(sp_bitwise_tail(toks, 3, cmp) == Ok::<(ExprV, nat), ParseErrorV>((cmp, 3)));
    assert(sp_bitwise(toks, 0) == Ok::<(ExprV, nat), ParseErrorV>((cmp, 3)));
    assert(sp_logical_tail(toks, 3, cmp) == Ok::<(ExprV, nat), ParseErrorV>((cmp, 3)));
    assert(sp_logical(toks, 0) == Ok::<(ExprV, nat), ParseErrorV>((cmp, 3)));
    assert(sp_expression(toks, 0) == Ok::<(ExprV, nat), ParseErrorV>((cmp, 3)));
    assert(sp_ident_run(toks, 1) == 0);
    assert(sp_expr_statement(toks, 0) == Ok::<(StmtV, nat), ParseErrorV>(
        (StmtV::Expression(cmp), 3),
    ));
    assert(sp_assign_or_expr(toks, 0) == Ok::<(StmtV, nat), ParseErrorV>(
        (StmtV::Expression(cmp), 3),
    ));
    assert(sp_statement(toks, 0) == Ok::<(StmtV, nat), ParseErrorV>(
        (StmtV::Expression(cmp), 3),
    ));
    let err = ParseErrorV::UnexpectedToken {
        expected: Expected::Expression,
        found: TokenV::ComparisonOperatorToken(ComparisonOperator::LessThan),
        position: 3,
    };
    assert(sp_factor(toks, 3) == Err::<(ExprV, nat), ParseErrorV>(err));
    assert(sp_math(toks, 3) == Err::<(ExprV, nat), ParseErrorV>(err));
    assert(sp_comparison(toks, 3) == Err::<(ExprV, nat), ParseErrorV>(err));
    assert(sp_bitwise(toks, 3) == Err::<(ExprV, nat), ParseErrorV>(err));
    assert(sp_logical(toks, 3) == Err::<(ExprV, nat), ParseErrorV>(err));
    assert(sp_expression(toks, 3) == Err::<(ExprV, nat), ParseErrorV>(err));
    assert(sp_expr_statement(toks, 3) == Err::<(StmtV, nat), ParseErrorV>(err));
    assert(sp_statement(toks, 3) == Err::<(StmtV, nat), ParseErrorV>(err));
    assert(sp_program(toks, 3) == Err::<(Seq<StmtV>, nat), ParseErrorV>(err));
    assert(sp_program(toks, 0) == Err::<(Seq<StmtV>, nat), ParseErrorV>(err));
}

} // verus!
