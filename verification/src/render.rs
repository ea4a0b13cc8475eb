//! Canonical spaced serialization of a token stream: each token's text
//! followed by one space. Re-tokenizing the rendered text of a tokenizer
//! run yields the same token sequence (see `laws`).

use vstd::prelude::*;

use crate::lexer::{
    is_digit_char, is_ident_char, is_ident_start_char, is_keyword, string_of_chars,
};
use crate::token::{
    BitwiseOperator, ComparisonOperator, LogicalOperator, MathOperator, Operator, Token, TokenV,
    tokens_view,
};

verus! {

/// The number of decimal points in a text.
pub open spec fn dot_count(s: Seq<char>) -> nat
    decreases s.len(),
{
    if s.len() == 0 {
        0
    } else {
        (if s[0] == '.' {
            1nat
        } else {
            0nat
        }) + dot_count(s.skip(1))
    }
}

/// A well-formed identifier text: a nonempty ident run opening with a
/// letter or underscore, and not a keyword.
pub open spec fn wf_name(s: Seq<char>) -> bool {
    &&& s.len() > 0
    &&& is_ident_start_char(s[0])
    &&& forall|i: int| 0 <= i < s.len() ==> is_ident_char(#[trigger] s[i])
    &&& !is_keyword(s)
}

/// A well-formed number text: a digit run with at most one decimal point,
/// opening with a digit.
pub open spec fn wf_number_text(s: Seq<char>) -> bool {
    &&& s.len() > 0
    &&& is_digit_char(s[0])
    &&& forall|i: int| 0 <= i < s.len() ==> is_digit_char(#[trigger] s[i]) || s[i] == '.'
    &&& dot_count(s) <= 1
}

/// A well-formed comment body: no `*/` pair inside.
pub open spec fn wf_comment_text(s: Seq<char>) -> bool {
    forall|i: int| 0 <= i < s.len() - 1 ==> !(#[trigger] s[i] == '*' && s[i + 1] == '/')
}

/// The tokens the tokenizer can produce before its end marker; exactly
/// these render to a text that re-tokenizes to the same token. The
/// logical `Xor` kind is excluded: its `^^` spelling scans as two bitwise
/// `^` tokens, so the tokenizer never emits it.
pub open spec fn wf_token(t: TokenV) -> bool {
    match t {
        TokenV::Identifier(s) => wf_name(s),
        TokenV::Number(s) => wf_number_text(s),
        TokenV::Keyword(s) => is_keyword(s),
        TokenV::LogicalOperatorToken(op) => op != LogicalOperator::Xor,
        TokenV::Comment(s) => wf_comment_text(s),
        TokenV::EndOfInput => false,
        _ => true,
    }
}

/// The spelling of a token in canonical source text. The end-of-input
/// marker has no spelling.
pub open spec fn token_text(t: TokenV) -> Seq<char> {
    match t {
        TokenV::Identifier(s) => s,
        TokenV::Number(s) => s,
        TokenV::Keyword(s) => s,
        TokenV::OperatorToken(op) => match op {
            Operator::Equals => seq!['='],
            Operator::Define => seq![':', '='],
        },
        TokenV::MathOperatorToken(op) => match op {
            MathOperator::Add => seq!['+'],
            MathOperator::Subtract => seq!['-'],
            MathOperator::Multiply => seq!['*'],
            MathOperator::Divide => seq!['/'],
            MathOperator::Modulus => seq!['%'],
        },
        TokenV::LogicalOperatorToken(op) => match op {
            LogicalOperator::Not => seq!['!'],
            LogicalOperator::And => seq!['&', '&'],
            LogicalOperator::Or => seq!['|', '|'],
            LogicalOperator::Xor => seq!['^', '^'],
        },
        TokenV::BitwiseOperatorToken(op) => match op {
            BitwiseOperator::LeftShift => seq!['<', '<'],
            BitwiseOperator::RightShift => seq!['>', '>'],
            BitwiseOperator::And => seq!['&'],
            BitwiseOperator::Or => seq!['|'],
            BitwiseOperator::Xor => seq!['^'],
        },
        TokenV::ComparisonOperatorToken(op) => match op {
            ComparisonOperator::Equals => seq!['=', '='],
            ComparisonOperator::NotEquals => seq!['!', '='],
            ComparisonOperator::GreaterThan => seq!['>'],
            ComparisonOperator::LessThan => seq!['<'],
            ComparisonOperator::GreaterThanEq => seq!['>', '='],
            ComparisonOperator::LessThanEq => seq!['<', '='],
        },
        TokenV::LeftBrace => seq!['{'],
        TokenV::RightBrace => seq!['}'],
        TokenV::LeftParen => seq!['('],
        TokenV::RightParen => seq![')'],
        TokenV::Comma => seq![','],
        TokenV::Comment(s) => seq!['/', '*'] + s + seq!['*', '/'],
        TokenV::EndOfInput => Seq::empty(),
    }
}

/// The canonical spaced form of a token sequence: each token's text
/// followed by one space.
pub open spec fn spec_render(ts: Seq<TokenV>) -> Seq<char>
    decreases ts.len(),
{
    if ts.len() == 0 {
        Seq::empty()
    } else {
        token_text(ts[0]) + seq![' '] + spec_render(ts.skip(1))
    }
}

/// Appends the characters of `s` to `out`.
fn push_str_chars(out: &mut Vec<char>, s: &str)
    ensures
        final(out)@ == old(out)@ + s@,
{
    let n = s.unicode_len();
    let mut k: usize = 0;
    while k < n
        invariant
            k <= n,
            n == s@.len(),
            out@ == old(out)@ + s@.take(k as int),
        decreases n - k,
    {
        out.push(s.get_char(k));
        k += 1;
        proof {
            assert(out@ =~= old(out)@ + s@.take(k as int));
        }
    }
    proof {
        assert(old(out)@ + s@.take(n as int) =~= old(out)@ + s@);
    }
}

/// Appends one token's canonical spelling to `out`.
fn push_token_text(out: &mut Vec<char>, t: &Token)
    ensures
        final(out)@ == old(out)@ + token_text(t@),
{
    match t {
        Token::Identifier(s) => push_str_chars(out, s.as_str()),
        Token::Number(s) => push_str_chars(out, s.as_str()),
        Token::Keyword(s) => push_str_chars(out, s.as_str()),
        Token::OperatorToken(op) => {
            match op {
                Operator::Equals => out.push('='),
                Operator::Define => {
                    out.push(':');
                    out.push('=');
                },
            }
            proof {
                assert(out@ =~= old(out)@ + token_text(t@));
            }
        },
        Token::MathOperatorToken(op) => {
            match op {
                MathOperator::Add => out.push('+'),
                MathOperator::Subtract => out.push('-'),
                MathOperator::Multiply => out.push('*'),
                MathOperator::Divide => out.push('/'),
                MathOperator::Modulus => out.push('%'),
            }
            proof {
                assert(out@ =~= old(out)@ + token_text(t@));
            }
        },
        Token::LogicalOperatorToken(op) => {
            match op {
                LogicalOperator::Not => out.push('!'),
                LogicalOperator::And => {
                    out.push('&');
                    out.push('&');
                },
                LogicalOperator::Or => {
                    out.push('|');
                    out.push('|');
                },
                LogicalOperator::Xor => {
                    out.push('^');
                    out.push('^');
                },
            }
            proof {
                assert(out@ =~= old(out)@ + token_text(t@));
            }
        },
        Token::BitwiseOperatorToken(op) => {
            match op {
                BitwiseOperator::LeftShift => {
                    out.push('<');
                    out.push('<');
                },
                BitwiseOperator::RightShift => {
                    out.push('>');
                    out.push('>');
                },
                BitwiseOperator::And => out.push('&'),
                BitwiseOperator::Or => out.push('|'),
                BitwiseOperator::Xor => out.push('^'),
            }
            proof {
                assert(out@ =~= old(out)@ + token_text(t@));
            }
        },
        Token::ComparisonOperatorToken(op) => {
            match op {
                ComparisonOperator::Equals => {
                    out.push('=');
                    out.push('=');
                },
                ComparisonOperator::NotEquals => {
                    out.push('!');
                    out.push('=');
                },
                ComparisonOperator::GreaterThan => out.push('>'),
                ComparisonOperator::LessThan => out.push('<'),
                ComparisonOperator::GreaterThanEq => {
                    out.push('>');
                    out.push('=');
                },
                ComparisonOperator::LessThanEq => {
                    out.push('<');
                    out.push('=');
                },
            }
            proof {
                assert(out@ =~= old(out)@ + token_text(t@));
            }
        },
        Token::LeftBrace => {
            out.push('{');
            proof {
                assert(out@ =~= old(out)@ + token_text(t@));
            }
        },
        Token::RightBrace => {
            out.push('}');
            proof {
                assert(out@ =~= old(out)@ + token_text(t@));
            }
        },
        Token::LeftParen => {
            out.push('(');
            proof {
                assert(out@ =~= old(out)@ + token_text(t@));
            }
        },
        Token::RightParen => {
            out.push(')');
            proof {
                assert(out@ =~= old(out)@ + token_text(t@));
            }
        },
        Token::Comma => {
            out.push(',');
            proof {
                assert(out@ =~= old(out)@ + token_text(t@));
            }
        },
        Token::Comment(s) => {
            out.push('/');
            out.push('*');
            push_str_chars(out, s.as_str());
            out.push('*');
            out.push('/');
            proof {
                assert(out@ =~= old(out)@ + token_text(t@));
            }
        },
        Token::EndOfInput => {
            proof {
                assert(out@ =~= old(out)@ + token_text(t@));
            }
        },
    }
}

/// Serializes a token stream back to canonical spaced source text.
pub fn render(tokens: &Vec<Token>) -> (r: String)
    ensures
        r@ == spec_render(tokens_view(tokens@)),
{
    let ghost tv = tokens_view(tokens@);
    let mut out: Vec<char> = Vec::new();
    let n = tokens.len();
    let mut i: usize = 0;
    proof {
        assert(tv.skip(0) =~= tv);
        assert(out@ + spec_render(tv) =~= spec_render(tv));
    }
    while i < n
        invariant
            i <= n,
            n == tokens@.len(),
            spec_render(tv) == out@ + spec_render(tv.skip(i as int)),
        decreases n - i,
    {
        let ghost before = out@;
        proof {
            assert(tv.skip(i as int)[0] == tv[i as int]);
            assert(tv.skip(i as int).skip(1) =~= tv.skip(i as int + 1));
        }
        push_token_text(&mut out, &tokens[i]);
        out.push(' ');
        i += 1;
        proof {
            assert(out@ =~= before + (token_text(tv[i - 1]) + seq![' ']));
            assert(before + (token_text(tv[i - 1]) + seq![' ']) + spec_render(tv.skip(i as int))
                =~= before + (token_text(tv[i - 1]) + seq![' '] + spec_render(tv.skip(i as int))));
        }
    }
    proof {
        assert(spec_render(tv.skip(n as int)) =~= Seq::<char>::empty());
        assert(out@ + Seq::<char>::empty() =~= out@);
    }
    string_of_chars(&out)
}

} // verus!
