//! The recursive-descent parser: a single forward cursor over the token
//! sequence, one parse function per precedence level, lowest to highest
//! binding: logical, bitwise, comparison (non-chaining), math, factor.
//!
//! The mathematical model is the `sp_*` family of recursive functions over
//! the token-sequence view; every `Parser` method is proved to return
//! exactly the corresponding `sp_*` value and to leave the cursor exactly
//! where that value says. Every failed parse is a hard error carrying the
//! cursor position — a statement parse can never fail and leave the cursor
//! unmoved, so the top-level loop always makes forward progress, and
//! termination of every parse is proved outright.

use vstd::prelude::*;

use crate::ast::{
    exprs_view_from, stmts_view_from,
    ExprV, Expression, LitV, LiteralValue, Statement, StmtV, elifs_view, expr_view, exprs_view,
    lemma_elifs_view_snoc, lemma_exprs_view_snoc, lemma_params_view_snoc, lemma_stmts_view_snoc,
    params_view, stmt_view, stmts_view,
};
use crate::token::{
    BitwiseOperator, ComparisonOperator, LogicalOperator, MathOperator, Operator, Token, TokenV,
    tokens_view,
};

verus! {

/// What the parser expected at the failure position.
#[derive(Debug, Clone, Copy, PartialEq, Eq, Structural)]
pub enum Expected {
    Statement,
    Expression,
    LeftBrace,
    LeftParen,
    RightParen,
    KeywordIn,
}

/// A multi-part construct that was started but cut short.
#[derive(Debug, Clone, Copy, PartialEq, Eq, Structural)]
pub enum Construct {
    FunctionDefinition,
    ForLoop,
}

/// A failure of the parser; fatal to the whole parse call.
///
/// `UnexpectedToken` reports a specific expectation, the token found, and
/// the cursor position (index into the token sequence; past the last token
/// the reported `found` is `EndOfInput`). `IncompleteConstruct` reports a
/// construct whose required name or loop variable is missing, with the
/// position where it was expected.
#[derive(Debug, Clone, PartialEq, Eq)]
pub enum ParseError {
    UnexpectedToken { expected: Expected, found: Token, position: usize },
    IncompleteConstruct { construct: Construct, position: usize },
}

/// The mathematical value of a `ParseError`.
pub enum ParseErrorV {
    UnexpectedToken { expected: Expected, found: TokenV, position: nat },
    IncompleteConstruct { construct: Construct, position: nat },
}

pub open spec fn parse_error_view(e: ParseError) -> ParseErrorV {
    match e {
        ParseError::UnexpectedToken { expected, found, position } => ParseErrorV::UnexpectedToken {
            expected,
            found: found@,
            position: position as nat,
        },
        ParseError::IncompleteConstruct { construct, position } => ParseErrorV::IncompleteConstruct {
            construct,
            position: position as nat,
        },
    }
}

/// The token at `pos`, or `EndOfInput` past the end of the sequence.
pub open spec fn peek_tok(toks: Seq<TokenV>, pos: nat) -> TokenV {
    if pos < toks.len() {
        toks[pos as int]
    } else {
        TokenV::EndOfInput
    }
}

/// Tokens remaining at `pos`: the measure every `sp_*` function recurses on.
pub open spec fn rem(toks: Seq<TokenV>, pos: nat) -> nat {
    if pos <= toks.len() {
        (toks.len() - pos) as nat
    } else {
        0
    }
}

/// Whether a sub-parse landed strictly past its start and within the
/// sequence. Every sub-parse is proved elsewhere to do so on success, so
/// in the `sp_*` family the check always passes; it keeps the mutual
/// recursion visibly well-founded.
pub open spec fn advanced(pos: nat, next: nat, toks: Seq<TokenV>) -> bool {
    pos < next && next <= toks.len()
}

/// Prepends already-parsed items to the outcome of parsing the rest of a
/// repeated form (statements, arguments, elif branches).
pub open spec fn sp_seq_combine<T>(xs: Seq<T>, r: Result<(Seq<T>, nat), ParseErrorV>) -> Result<
    (Seq<T>, nat),
    ParseErrorV,
> {
    match r {
        Ok(p) => Ok((xs + p.0, p.1)),
        Err(e) => Err(e),
    }
}

pub proof fn lemma_sp_seq_combine_assoc<T>(
    a: Seq<T>,
    b: Seq<T>,
    r: Result<(Seq<T>, nat), ParseErrorV>,
)
    ensures
        sp_seq_combine(a, sp_seq_combine(b, r)) == sp_seq_combine(a + b, r),
{
    match r {
        Ok(p) => {
            assert(a + (b + p.0) =~= (a + b) + p.0);
        },
        Err(_) => {},
    }
}

/// The number of consecutive `Identifier` tokens starting at `pos`.
pub open spec fn sp_ident_run(toks: Seq<TokenV>, pos: nat) -> nat
    decreases toks.len() - pos,
{
    if peek_tok(toks, pos) is Identifier {
        1 + sp_ident_run(toks, pos + 1)
    } else {
        0
    }
}

/// The names of `k` consecutive `Identifier` tokens starting at `pos`.
pub open spec fn sp_ident_names(toks: Seq<TokenV>, pos: nat, k: nat) -> Seq<Seq<char>>
    decreases k,
{
    if k == 0 {
        Seq::empty()
    } else {
        seq![peek_tok(toks, pos)->Identifier_0] + sp_ident_names(toks, pos + 1, (k - 1) as nat)
    }
}

/// Factor: a number literal, an identifier (optionally a call with
/// comma-separated arguments), or a parenthesized sub-expression.
pub open spec fn sp_factor(toks: Seq<TokenV>, pos: nat) -> Result<(ExprV, nat), ParseErrorV>
    decreases rem(toks, pos), 0int,
{
    match peek_tok(toks, pos) {
        TokenV::Number(text) => Ok((ExprV::LiteralValue(LitV::Number(text)), pos + 1)),
        TokenV::Identifier(name) => {
            if peek_tok(toks, pos + 1) == TokenV::LeftParen {
                if peek_tok(toks, pos + 2) == TokenV::RightParen {
                    Ok((ExprV::FunctionCall(name, Seq::empty()), pos + 3))
                } else {
                    match sp_call_args(toks, pos + 2) {
                        Ok((args, p2)) => {
                            if peek_tok(toks, p2) == TokenV::RightParen {
                                Ok((ExprV::FunctionCall(name, args), p2 + 1))
                            } else {
                                Err(ParseErrorV::UnexpectedToken {
                                    expected: Expected::RightParen,
                                    found: peek_tok(toks, p2),
                                    position: p2,
                                })
                            }
                        },
                        Err(e) => Err(e),
                    }
                }
            } else {
                Ok((ExprV::Identifier(name), pos + 1))
            }
        },
        TokenV::LeftParen => {
            match sp_expression(toks, pos + 1) {
                Ok((e, p2)) => {
                    if peek_tok(toks, p2) == TokenV::RightParen {
                        Ok((ExprV::Grouping(Box::new(e)), p2 + 1))
                    } else {
                        Err(ParseErrorV::UnexpectedToken {
                            expected: Expected::RightParen,
                            found: peek_tok(toks, p2),
                            position: p2,
                        })
                    }
                },
                Err(e) => Err(e),
            }
        },
        t => Err(ParseErrorV::UnexpectedToken {
            expected: Expected::Expression,
            found: t,
            position: pos,
        }),
    }
}

/// One or more comma-separated argument expressions.
pub open spec fn sp_call_args(toks: Seq<TokenV>, pos: nat) -> Result<
    (Seq<ExprV>, nat),
    ParseErrorV,
>
    decreases rem(toks, pos), 9int,
{
    match sp_expression(toks, pos) {
        Ok((e, p2)) => {
            if peek_tok(toks, p2) == TokenV::Comma && advanced(pos, p2 + 1, toks) {
                match sp_call_args(toks, p2 + 1) {
                    Ok((rest, p3)) => Ok((seq![e] + rest, p3)),
                    Err(err) => Err(err),
                }
            } else {
                Ok((seq![e], p2))
            }
        },
        Err(e) => Err(e),
    }
}

/// Math level: factor, then a left-associative run of `+ - * / %`.
pub open spec fn sp_math(toks: Seq<TokenV>, pos: nat) -> Result<(ExprV, nat), ParseErrorV>
    decreases rem(toks, pos), 2int,
{
    match sp_factor(toks, pos) {
        Ok((l, p2)) => if advanced(pos, p2, toks) {
            sp_math_tail(toks, p2, l)
        } else {
            Ok((l, p2))
        },
        Err(e) => Err(e),
    }
}

pub open spec fn sp_math_tail(toks: Seq<TokenV>, pos: nat, left: ExprV) -> Result<
    (ExprV, nat),
    ParseErrorV,
>
    decreases rem(toks, pos), 1int,
{
    match peek_tok(toks, pos) {
        TokenV::MathOperatorToken(op) => {
            match sp_factor(toks, pos + 1) {
                Ok((right, p2)) => {
                    let widened = ExprV::MathOp(Box::new(left), op, Box::new(right));
                    if advanced(pos, p2, toks) {
                        sp_math_tail(toks, p2, widened)
                    } else {
                        Ok((widened, p2))
                    }
                },
                Err(e) => Err(e),
            }
        },
        _ => Ok((left, pos)),
    }
}

/// Comparison level, non-chaining: at most one comparison operator is
/// consumed; `a < b < c` yields `(a < b)` and leaves `< c` unconsumed.
pub open spec fn sp_comparison(toks: Seq<TokenV>, pos: nat) -> Result<(ExprV, nat), ParseErrorV>
    decreases rem(toks, pos), 3int,
{
    match sp_math(toks, pos) {
        Ok((l, p2)) => {
            match peek_tok(toks, p2) {
                TokenV::ComparisonOperatorToken(op) => {
                    if advanced(pos, p2 + 1, toks) {
                        match sp_math(toks, p2 + 1) {
                            Ok((r, p3)) => Ok(
                                (ExprV::ComparisonOp(Box::new(l), op, Box::new(r)), p3),
                            ),
                            Err(e) => Err(e),
                        }
                    } else {
                        Ok((l, p2))
                    }
                },
                _ => Ok((l, p2)),
            }
        },
        Err(e) => Err(e),
    }
}

/// Bitwise level: comparison, then a left-associative run of
/// `<< >> & | ^`.
pub open spec fn sp_bitwise(toks: Seq<TokenV>, pos: nat) -> Result<(ExprV, nat), ParseErrorV>
    decreases rem(toks, pos), 5int,
{
    match sp_comparison(toks, pos) {
        Ok((l, p2)) => if advanced(pos, p2, toks) {
            sp_bitwise_tail(toks, p2, l)
        } else {
            Ok((l, p2))
        },
        Err(e) => Err(e),
    }
}

pub open spec fn sp_bitwise_tail(toks: Seq<TokenV>, pos: nat, left: ExprV) -> Result<
    (ExprV, nat),
    ParseErrorV,
>
    decreases rem(toks, pos), 4int,
{
    match peek_tok(toks, pos) {
        TokenV::BitwiseOperatorToken(op) => {
            match sp_comparison(toks, pos + 1) {
                Ok((right, p2)) => {
                    let widened = ExprV::BitwiseOp(Box::new(left), op, Box::new(right));
                    if advanced(pos, p2, toks) {
                        sp_bitwise_tail(toks, p2, widened)
                    } else {
                        Ok((widened, p2))
                    }
                },
                Err(e) => Err(e),
            }
        },
        _ => Ok((left, pos)),
    }
}

/// Logical level, the lowest binding: bitwise, then a left-associative
/// run of `&&` and `||`.
pub open spec fn sp_logical(toks: Seq<TokenV>, pos: nat) -> Result<(ExprV, nat), ParseErrorV>
    decreases rem(toks, pos), 7int,
{
    match sp_bitwise(toks, pos) {
        Ok((l, p2)) => if advanced(pos, p2, toks) {
            sp_logical_tail(toks, p2, l)
        } else {
            Ok((l, p2))
        },
        Err(e) => Err(e),
    }
}

pub open spec fn sp_logical_tail(toks: Seq<TokenV>, pos: nat, left: ExprV) -> Result<
    (ExprV, nat),
    ParseErrorV,
>
    decreases rem(toks, pos), 6int,
{
    match peek_tok(toks, pos) {
        TokenV::LogicalOperatorToken(op) => {
            if op == LogicalOperator::And || op == LogicalOperator::Or {
                match sp_bitwise(toks, pos + 1) {
                    Ok((right, p2)) => {
                        let widened = ExprV::LogicalOp(Box::new(left), op, Box::new(right));
                        if advanced(pos, p2, toks) {
                            sp_logical_tail(toks, p2, widened)
                        } else {
                            Ok((widened, p2))
                        }
                    },
                    Err(e) => Err(e),
                }
            } else {
                Ok((left, pos))
            }
        },
        _ => Ok((left, pos)),
    }
}

/// A full expression: the entry to the precedence chain.
pub open spec fn sp_expression(toks: Seq<TokenV>, pos: nat) -> Result<(ExprV, nat), ParseErrorV>
    decreases rem(toks, pos), 8int,
{
    sp_logical(toks, pos)
}

/// A brace-delimited block: `{`, statements until `}`.
pub open spec fn sp_block(toks: Seq<TokenV>, pos: nat) -> Result<(Seq<StmtV>, nat), ParseErrorV>
    decreases rem(toks, pos), 10int,
{
    if peek_tok(toks, pos) == TokenV::LeftBrace {
        sp_block_items(toks, pos + 1)
    } else {
        Err(ParseErrorV::UnexpectedToken {
            expected: Expected::LeftBrace,
            found: peek_tok(toks, pos),
            position: pos,
        })
    }
}

pub open spec fn sp_block_items(toks: Seq<TokenV>, pos: nat) -> Result<
    (Seq<StmtV>, nat),
    ParseErrorV,
>
    decreases rem(toks, pos), 12int,
{
    if peek_tok(toks, pos) == TokenV::RightBrace {
        Ok((Seq::empty(), pos + 1))
    } else {
        match sp_statement(toks, pos) {
            Ok((st, p2)) => if advanced(pos, p2, toks) {
                sp_seq_combine(seq![st], sp_block_items(toks, p2))
            } else {
                Ok((seq![st], p2))
            },
            Err(e) => Err(e),
        }
    }
}

/// `print e`: sugar for a call of the built-in `print` with one argument.
pub open spec fn sp_print(toks: Seq<TokenV>, pos: nat) -> Result<(StmtV, nat), ParseErrorV>
    decreases rem(toks, pos), 10int,
{
    match sp_expression(toks, pos + 1) {
        Ok((e, p2)) => Ok(
            (
                StmtV::Expression(
                    ExprV::FunctionCall(seq!['p', 'r', 'i', 'n', 't'], seq![e]),
                ),
                p2,
            ),
        ),
        Err(e) => Err(e),
    }
}

/// `if` condition and block, any number of `elif` branches, an optional
/// trailing `else` block, resolved into one flat `IfElse` node.
pub open spec fn sp_if(toks: Seq<TokenV>, pos: nat) -> Result<(StmtV, nat), ParseErrorV>
    decreases rem(toks, pos), 10int,
{
    match sp_expression(toks, pos + 1) {
        Ok((cond, p1)) => {
            if !advanced(pos, p1, toks) {
                Err(ParseErrorV::UnexpectedToken {
                    expected: Expected::LeftBrace,
                    found: peek_tok(toks, p1),
                    position: p1,
                })
            } else {
                match sp_block(toks, p1) {
                    Ok((body, p2)) => {
                        if !advanced(pos, p2, toks) {
                            Ok(
                                (
                                    StmtV::Expression(
                                        ExprV::IfElse(Box::new(cond), body, Seq::empty(), None),
                                    ),
                                    p2,
                                ),
                            )
                        } else {
                            match sp_elifs(toks, p2) {
                                Ok((elifs, p3)) => {
                                    if peek_tok(toks, p3) == TokenV::Keyword(
                                        seq!['e', 'l', 's', 'e'],
                                    ) && advanced(pos, p3 + 1, toks) {
                                        match sp_block(toks, p3 + 1) {
                                            Ok((eb, p4)) => Ok(
                                                (
                                                    StmtV::Expression(
                                                        ExprV::IfElse(
                                                            Box::new(cond),
                                                            body,
                                                            elifs,
                                                            Some(eb),
                                                        ),
                                                    ),
                                                    p4,
                                                ),
                                            ),
                                            Err(e) => Err(e),
                                        }
                                    } else {
                                        Ok(
                                            (
                                                StmtV::Expression(
                                                    ExprV::IfElse(
                                                        Box::new(cond),
                                                        body,
                                                        elifs,
                                                        None,
                                                    ),
                                                ),
                                                p3,
                                            ),
                                        )
                                    }
                                },
                                Err(e) => Err(e),
                            }
                        }
                    },
                    Err(e) => Err(e),
                }
            }
        },
        Err(e) => Err(e),
    }
}

/// The ordered `elif` branches following an `if` branch.
pub open spec fn sp_elifs(toks: Seq<TokenV>, pos: nat) -> Result<
    (Seq<(ExprV, Seq<StmtV>)>, nat),
    ParseErrorV,
>
    decreases rem(toks, pos), 10int,
{
    if peek_tok(toks, pos) == TokenV::Keyword(seq!['e', 'l', 'i', 'f']) {
        match sp_expression(toks, pos + 1) {
            Ok((c, p1)) => {
                if !advanced(pos, p1, toks) {
                    Err(ParseErrorV::UnexpectedToken {
                        expected: Expected::LeftBrace,
                        found: peek_tok(toks, p1),
                        position: p1,
                    })
                } else {
                    match sp_block(toks, p1) {
                        Ok((b, p2)) => if advanced(pos, p2, toks) {
                            sp_seq_combine(seq![(c, b)], sp_elifs(toks, p2))
                        } else {
                            Ok((seq![(c, b)], p2))
                        },
                        Err(e) => Err(e),
                    }
                }
            },
            Err(e) => Err(e),
        }
    } else {
        Ok((Seq::empty(), pos))
    }
}

/// `while` condition and block.
pub open spec fn sp_while(toks: Seq<TokenV>, pos: nat) -> Result<(StmtV, nat), ParseErrorV>
    decreases rem(toks, pos), 10int,
{
    match sp_expression(toks, pos + 1) {
        Ok((cond, p1)) => {
            if !advanced(pos, p1, toks) {
                Err(ParseErrorV::UnexpectedToken {
                    expected: Expected::LeftBrace,
                    found: peek_tok(toks, p1),
                    position: p1,
                })
            } else {
                match sp_block(toks, p1) {
                    Ok((body, p2)) => Ok(
                        (StmtV::Expression(ExprV::While(Box::new(cond), body)), p2),
                    ),
                    Err(e) => Err(e),
                }
            }
        },
        Err(e) => Err(e),
    }
}

/// `for` variable `in` iterable, then a block.
pub open spec fn sp_for(toks: Seq<TokenV>, pos: nat) -> Result<(StmtV, nat), ParseErrorV>
    decreases rem(toks, pos), 10int,
{
    match peek_tok(toks, pos + 1) {
        TokenV::Identifier(name) => {
            if peek_tok(toks, pos + 2) == TokenV::Keyword(seq!['i', 'n']) {
                match sp_expression(toks, pos + 3) {
                    Ok((iter, p1)) => {
                        if !advanced(pos, p1, toks) {
                            Err(ParseErrorV::UnexpectedToken {
                                expected: Expected::LeftBrace,
                                found: peek_tok(toks, p1),
                                position: p1,
                            })
                        } else {
                            match sp_block(toks, p1) {
                                Ok((body, p2)) => Ok(
                                    (
                                        StmtV::Expression(
                                            ExprV::For(name, Box::new(iter), body),
                                        ),
                                        p2,
                                    ),
                                ),
                                Err(e) => Err(e),
                            }
                        }
                    },
                    Err(e) => Err(e),
                }
            } else {
                Err(ParseErrorV::UnexpectedToken {
                    expected: Expected::KeywordIn,
                    found: peek_tok(toks, pos + 2),
                    position: pos + 2,
                })
            }
        },
        _ => Err(ParseErrorV::IncompleteConstruct {
            construct: Construct::ForLoop,
            position: pos + 1,
        }),
    }
}

/// `return`, with a trailing expression exactly when the next token can
/// start an expression.
pub open spec fn sp_return(toks: Seq<TokenV>, pos: nat) -> Result<(StmtV, nat), ParseErrorV>
    decreases rem(toks, pos), 10int,
{
    let nxt = peek_tok(toks, pos + 1);
    if nxt is Number || nxt is Identifier || nxt == TokenV::LeftParen {
        match sp_expression(toks, pos + 1) {
            Ok((e, p2)) => Ok((StmtV::Return(Some(e)), p2)),
            Err(e) => Err(e),
        }
    } else {
        Ok((StmtV::Return(None), pos + 1))
    }
}

/// Zero or more parameter names, comma-separated, as in the original
/// grammar: the run ends at the first token that is not an identifier.
pub open spec fn sp_params(toks: Seq<TokenV>, pos: nat) -> (Seq<Seq<char>>, nat)
    decreases rem(toks, pos), 10int,
{
    match peek_tok(toks, pos) {
        TokenV::Identifier(name) => {
            if peek_tok(toks, pos + 1) == TokenV::Comma {
                let (rest, p) = sp_params(toks, pos + 2);
                (seq![name] + rest, p)
            } else {
                (seq![name], pos + 1)
            }
        },
        _ => (Seq::empty(), pos),
    }
}

/// `fn` name `(` parameters `)` block.
pub open spec fn sp_fndef(toks: Seq<TokenV>, pos: nat) -> Result<(StmtV, nat), ParseErrorV>
    decreases rem(toks, pos), 10int,
{
    match peek_tok(toks, pos + 1) {
        TokenV::Identifier(name) => {
            if peek_tok(toks, pos + 2) == TokenV::LeftParen {
                let (ps, p1) = sp_params(toks, pos + 3);
                if peek_tok(toks, p1) == TokenV::RightParen {
                    if !advanced(pos, p1 + 1, toks) {
                        Err(ParseErrorV::UnexpectedToken {
                            expected: Expected::LeftBrace,
                            found: peek_tok(toks, p1 + 1),
                            position: p1 + 1,
                        })
                    } else {
                        match sp_block(toks, p1 + 1) {
                            Ok((body, p2)) => Ok(
                                (
                                    StmtV::FunctionDefinition { name, parameters: ps, body },
                                    p2,
                                ),
                            ),
                            Err(e) => Err(e),
                        }
                    }
                } else {
                    Err(ParseErrorV::UnexpectedToken {
                        expected: Expected::RightParen,
                        found: peek_tok(toks, p1),
                        position: p1,
                    })
                }
            } else {
                Err(ParseErrorV::UnexpectedToken {
                    expected: Expected::LeftParen,
                    found: peek_tok(toks, pos + 2),
                    position: pos + 2,
                })
            }
        },
        _ => Err(ParseErrorV::IncompleteConstruct {
            construct: Construct::FunctionDefinition,
            position: pos + 1,
        }),
    }
}

/// An assignment statement: the identifier at `pos`, `=`, and the
/// right-hand expression.
pub open spec fn sp_assign(toks: Seq<TokenV>, pos: nat) -> Result<(StmtV, nat), ParseErrorV>
    decreases rem(toks, pos), 9int,
{
    let name = peek_tok(toks, pos)->Identifier_0;
    match sp_expression(toks, pos + 2) {
        Ok((e, p2)) => Ok(
            (
                StmtV::Expression(
                    ExprV::Assignment(Box::new(ExprV::Identifier(name)), Box::new(e)),
                ),
                p2,
            ),
        ),
        Err(e) => Err(e),
    }
}

/// The `:=` shorthand: the identifier at `pos` names a function, the
/// following `k` bare identifiers are its parameters, and the body is an
/// implicit `return` of the expression after the `:=`.
pub open spec fn sp_define_short(toks: Seq<TokenV>, pos: nat) -> Result<(StmtV, nat), ParseErrorV>
    decreases rem(toks, pos), 9int,
{
    let name = peek_tok(toks, pos)->Identifier_0;
    let k = sp_ident_run(toks, pos + 1);
    match sp_expression(toks, pos + 2 + k) {
        Ok((e, p2)) => Ok(
            (
                StmtV::FunctionDefinition {
                    name,
                    parameters: sp_ident_names(toks, pos + 1, k),
                    body: seq![StmtV::Return(Some(e))],
                },
                p2,
            ),
        ),
        Err(e) => Err(e),
    }
}

/// A bare expression wrapped as a statement.
pub open spec fn sp_expr_statement(toks: Seq<TokenV>, pos: nat) -> Result<(StmtV, nat), ParseErrorV>
    decreases rem(toks, pos), 9int,
{
    match sp_expression(toks, pos) {
        Ok((e, p2)) => Ok((StmtV::Expression(e), p2)),
        Err(e) => Err(e),
    }
}

/// A statement opening with an identifier; three continuations, decided
/// by lookahead: `=` makes an assignment; a run of zero or more bare
/// identifiers ending at `:=` makes a single-expression function
/// definition whose body is an implicit `return`; anything else re-parses
/// from the identifier as a general expression.
pub open spec fn sp_assign_or_expr(toks: Seq<TokenV>, pos: nat) -> Result<
    (StmtV, nat),
    ParseErrorV,
>
    decreases rem(toks, pos), 10int,
{
    let k = sp_ident_run(toks, pos + 1);
    if peek_tok(toks, pos + 1) == TokenV::OperatorToken(Operator::Equals) {
        sp_assign(toks, pos)
    } else if peek_tok(toks, pos + 1 + k) == TokenV::OperatorToken(Operator::Define) {
        sp_define_short(toks, pos)
    } else {
        sp_expr_statement(toks, pos)
    }
}

/// Statement dispatch by the token at the cursor.
pub open spec fn sp_statement(toks: Seq<TokenV>, pos: nat) -> Result<(StmtV, nat), ParseErrorV>
    decreases rem(toks, pos), 11int,
{
    match peek_tok(toks, pos) {
        TokenV::Keyword(k) => {
            if k == seq!['i', 'f'] {
                sp_if(toks, pos)
            } else if k == seq!['p', 'r', 'i', 'n', 't'] {
                sp_print(toks, pos)
            } else if k == seq!['w', 'h', 'i', 'l', 'e'] {
                sp_while(toks, pos)
            } else if k == seq!['f', 'o', 'r'] {
                sp_for(toks, pos)
            } else if k == seq!['r', 'e', 't', 'u', 'r', 'n'] {
                sp_return(toks, pos)
            } else if k == seq!['f', 'n'] {
                sp_fndef(toks, pos)
            } else {
                Err(ParseErrorV::UnexpectedToken {
                    expected: Expected::Statement,
                    found: TokenV::Keyword(k),
                    position: pos,
                })
            }
        },
        TokenV::Identifier(_) => sp_assign_or_expr(toks, pos),
        TokenV::LeftBrace => {
            match sp_block(toks, pos) {
                Ok((ss, p2)) => Ok((StmtV::Block(ss), p2)),
                Err(e) => Err(e),
            }
        },
        TokenV::Comment(text) => Ok((StmtV::Comment(text), pos + 1)),
        _ => sp_expr_statement(toks, pos),
    }
}

/// The whole program: statements until the `EndOfInput` marker (or the
/// end of the sequence, if the marker is absent).
pub open spec fn sp_program(toks: Seq<TokenV>, pos: nat) -> Result<(Seq<StmtV>, nat), ParseErrorV>
    decreases rem(toks, pos), 12int,
{
    if peek_tok(toks, pos) == TokenV::EndOfInput {
        Ok((Seq::empty(), pos))
    } else {
        match sp_statement(toks, pos) {
            Ok((st, p2)) => if advanced(pos, p2, toks) {
                sp_seq_combine(seq![st], sp_program(toks, p2))
            } else {
                Ok((seq![st], p2))
            },
            Err(e) => Err(e),
        }
    }
}

/// Exec/spec agreement for an expression parse: on success the returned
/// node's view and the final cursor are exactly the spec pair; on failure
/// the error's view is exactly the spec error.
pub open spec fn expr_res(
    r: Result<Expression, ParseError>,
    cur: nat,
    sp: Result<(ExprV, nat), ParseErrorV>,
) -> bool {
    match (r, sp) {
        (Ok(e), Ok(p)) => expr_view(e) == p.0 && cur == p.1,
        (Err(er), Err(se)) => parse_error_view(er) == se,
        _ => false,
    }
}

/// Exec/spec agreement for a statement parse.
pub open spec fn stmt_res(
    r: Result<Statement, ParseError>,
    cur: nat,
    sp: Result<(StmtV, nat), ParseErrorV>,
) -> bool {
    match (r, sp) {
        (Ok(st), Ok(p)) => stmt_view(st) == p.0 && cur == p.1,
        (Err(er), Err(se)) => parse_error_view(er) == se,
        _ => false,
    }
}

/// Exec/spec agreement for a statement-list parse.
pub open spec fn stmts_res(
    r: Result<Vec<Statement>, ParseError>,
    cur: nat,
    sp: Result<(Seq<StmtV>, nat), ParseErrorV>,
) -> bool {
    match (r, sp) {
        (Ok(v), Ok(p)) => stmts_view(v@) == p.0 && cur == p.1,
        (Err(er), Err(se)) => parse_error_view(er) == se,
        _ => false,
    }
}

/// Exec/spec agreement for an argument-list parse.
pub open spec fn exprs_res(
    r: Result<Vec<Expression>, ParseError>,
    cur: nat,
    sp: Result<(Seq<ExprV>, nat), ParseErrorV>,
) -> bool {
    match (r, sp) {
        (Ok(v), Ok(p)) => exprs_view(v@) == p.0 && cur == p.1,
        (Err(er), Err(se)) => parse_error_view(er) == se,
        _ => false,
    }
}

/// Copies a token; the copy has the same mathematical value.
fn dup_token(t: &Token) -> (r: Token)
    ensures
        r@ == t@,
{
    match t {
        Token::Identifier(s) => Token::Identifier(s.clone()),
        Token::Number(s) => Token::Number(s.clone()),
        Token::Keyword(s) => Token::Keyword(s.clone()),
        Token::OperatorToken(op) => Token::OperatorToken(*op),
        Token::MathOperatorToken(op) => Token::MathOperatorToken(*op),
        Token::LogicalOperatorToken(op) => Token::LogicalOperatorToken(*op),
        Token::BitwiseOperatorToken(op) => Token::BitwiseOperatorToken(*op),
        Token::ComparisonOperatorToken(op) => Token::ComparisonOperatorToken(*op),
        Token::LeftBrace => Token::LeftBrace,
        Token::RightBrace => Token::RightBrace,
        Token::LeftParen => Token::LeftParen,
        Token::RightParen => Token::RightParen,
        Token::Comma => Token::Comma,
        Token::Comment(s) => Token::Comment(s.clone()),
        Token::EndOfInput => Token::EndOfInput,
    }
}

/// Converting our tokens into an AST: a single forward cursor over the
/// token sequence, which only ever moves forward.
pub struct Parser {
    tokens: Vec<Token>,
    current: usize,
}

impl Parser {
    /// The token sequence, as mathematical values.
    pub closed spec fn toks(&self) -> Seq<TokenV> {
        tokens_view(self.tokens@)
    }

    /// The cursor position.
    pub closed spec fn cur(&self) -> nat {
        self.current as nat
    }

    /// Well-formedness: the cursor never passes the end of the sequence
    /// by more than reaching it.
    pub open spec fn wf(&self) -> bool {
        self.cur() <= self.toks().len()
    }

    /// Builds a parser over `tokens`, with the cursor at the start.
    pub fn new(tokens: Vec<Token>) -> (r: Parser)
        ensures
            r.wf(),
            r.toks() == tokens_view(tokens@),
            r.cur() == 0,
    {
        Parser { tokens, current: 0 }
    }

    /// Moves the cursor one token forward.
    fn advance(&mut self)
        requires
            old(self).wf(),
            old(self).cur() < old(self).toks().len(),
        ensures
            final(self).wf(),
            final(self).toks() == old(self).toks(),
            final(self).cur() == old(self).cur() + 1,
    {
        let len = self.tokens.len();
        self.current = self.current + 1;
    }

    /// The token under the cursor, copied, or `EndOfInput` past the end.
    fn peek_dup(&self) -> (r: Token)
        ensures
            r@ == peek_tok(self.toks(), self.cur()),
    {
        if self.current < self.tokens.len() {
            dup_token(&self.tokens[self.current])
        } else {
            Token::EndOfInput
        }
    }

    /// The math operator under the cursor, if any.
    fn peek_math_op(&self) -> (r: Option<MathOperator>)
        ensures
            r == (match peek_tok(self.toks(), self.cur()) {
                TokenV::MathOperatorToken(op) => Some(op),
                _ => None::<MathOperator>,
            }),
    {
        if self.current < self.tokens.len() {
            match &self.tokens[self.current] {
                Token::MathOperatorToken(op) => Some(*op),
                _ => None,
            }
        } else {
            None
        }
    }

    /// The bitwise operator under the cursor, if any.
    fn peek_bitwise_op(&self) -> (r: Option<BitwiseOperator>)
        ensures
            r == (match peek_tok(self.toks(), self.cur()) {
                TokenV::BitwiseOperatorToken(op) => Some(op),
                _ => None::<BitwiseOperator>,
            }),
    {
        if self.current < self.tokens.len() {
            match &self.tokens[self.current] {
                Token::BitwiseOperatorToken(op) => Some(*op),
                _ => None,
            }
        } else {
            None
        }
    }

    /// The comparison operator under the cursor, if any.
    fn peek_comparison_op(&self) -> (r: Option<ComparisonOperator>)
        ensures
            r == (match peek_tok(self.toks(), self.cur()) {
                TokenV::ComparisonOperatorToken(op) => Some(op),
                _ => None::<ComparisonOperator>,
            }),
    {
        if self.current < self.tokens.len() {
            match &self.tokens[self.current] {
                Token::ComparisonOperatorToken(op) => Some(*op),
                _ => None,
            }
        } else {
            None
        }
    }

    /// The logical operator under the cursor, if any.
    fn peek_logical_op(&self) -> (r: Option<LogicalOperator>)
        ensures
            r == (match peek_tok(self.toks(), self.cur()) {
                TokenV::LogicalOperatorToken(op) => Some(op),
                _ => None::<LogicalOperator>,
            }),
    {
        if self.current < self.tokens.len() {
            match &self.tokens[self.current] {
                Token::LogicalOperatorToken(op) => Some(*op),
                _ => None,
            }
        } else {
            None
        }
    }

    /// The assignment operator under the cursor, if any.
    fn peek_assign_op(&self) -> (r: Option<Operator>)
        ensures
            r == (match peek_tok(self.toks(), self.cur()) {
                TokenV::OperatorToken(op) => Some(op),
                _ => None::<Operator>,
            }),
    {
        if self.current < self.tokens.len() {
            match &self.tokens[self.current] {
                Token::OperatorToken(op) => Some(*op),
                _ => None,
            }
        } else {
            None
        }
    }

    /// Whether the token under the cursor is `LeftParen`.
    fn peek_is_left_paren(&self) -> (r: bool)
        ensures
            r == (peek_tok(self.toks(), self.cur()) == TokenV::LeftParen),
    {
        if self.current < self.tokens.len() {
            matches!(&self.tokens[self.current], Token::LeftParen)
        } else {
            false
        }
    }

    /// Whether the token under the cursor is `RightParen`.
    fn peek_is_right_paren(&self) -> (r: bool)
        ensures
            r == (peek_tok(self.toks(), self.cur()) == TokenV::RightParen),
    {
        if self.current < self.tokens.len() {
            matches!(&self.tokens[self.current], Token::RightParen)
        } else {
            false
        }
    }

    /// Whether the token under the cursor is `Comma`.
    fn peek_is_comma(&self) -> (r: bool)
        ensures
            r == (peek_tok(self.toks(), self.cur()) == TokenV::Comma),
    {
        if self.current < self.tokens.len() {
            matches!(&self.tokens[self.current], Token::Comma)
        } else {
            false
        }
    }

    /// The identifier name under the cursor, copied, if any.
    fn peek_identifier(&self) -> (r: Option<String>)
        ensures
            match r {
                Some(name) => peek_tok(self.toks(), self.cur()) == TokenV::Identifier(name@),
                None => !(peek_tok(self.toks(), self.cur()) is Identifier),
            },
    {
        if self.current < self.tokens.len() {
            match &self.tokens[self.current] {
                Token::Identifier(name) => Some(name.clone()),
                _ => None,
            }
        } else {
            None
        }
    }

    /// Parses one factor: a number, an identifier or call, or a
    /// parenthesized sub-expression.
    fn parse_factor(&mut self) -> (r: Result<Expression, ParseError>)
        requires
            old(self).wf(),
        ensures
            final(self).wf(),
            final(self).toks() == old(self).toks(),
            expr_res(r, final(self).cur(), sp_factor(old(self).toks(), old(self).cur())),
            r is Ok ==> old(self).cur() < final(self).cur(),
        decreases rem(old(self).toks(), old(self).cur()), 0int,
    {
        let ghost t0 = self.toks();
        let ghost p0 = self.cur();
        let len = self.tokens.len();
        let cur = self.current;
        if cur >= len {
            return Err(ParseError::UnexpectedToken {
                expected: Expected::Expression,
                found: Token::EndOfInput,
                position: cur,
            });
        }
        match &self.tokens[cur] {
            Token::Number(text) => {
                let e = Expression::LiteralValue(LiteralValue::Number(text.clone()));
                self.current = cur + 1;
                Ok(e)
            },
            Token::Identifier(name) => {
                let name = name.clone();
                self.current = cur + 1;
                if self.peek_is_left_paren() {
                    self.current = cur + 2;
                    if self.peek_is_right_paren() {
                        self.current = cur + 3;
                        let e = Expression::FunctionCall(name, Vec::new());
                        proof {
                            assert(exprs_view(Seq::<Expression>::empty()) =~= Seq::<
                                ExprV,
                            >::empty());
                        }
                        Ok(e)
                    } else {
                        let args = match self.parse_call_args() {
                            Ok(args) => args,
                            Err(e) => {
                                return Err(e);
                            },
                        };
                        if self.peek_is_right_paren() {
                            self.advance();
                            Ok(Expression::FunctionCall(name, args))
                        } else {
                            let found = self.peek_dup();
                            Err(ParseError::UnexpectedToken {
                                expected: Expected::RightParen,
                                found,
                                position: self.current,
                            })
                        }
                    }
                } else {
                    Ok(Expression::Identifier(name))
                }
            },
            Token::LeftParen => {
                self.current = cur + 1;
                match self.parse_expression() {
                    Ok(e) => {
                        if self.peek_is_right_paren() {
                            self.advance();
                            Ok(Expression::Grouping(Box::new(e)))
                        } else {
                            let found = self.peek_dup();
                            Err(ParseError::UnexpectedToken {
                                expected: Expected::RightParen,
                                found,
                                position: self.current,
                            })
                        }
                    },
                    Err(e) => Err(e),
                }
            },
            found => {
                let found = dup_token(found);
                Err(ParseError::UnexpectedToken {
                    expected: Expected::Expression,
                    found,
                    position: cur,
                })
            },
        }
    }

    /// Parses one or more comma-separated argument expressions.
    fn parse_call_args(&mut self) -> (r: Result<Vec<Expression>, ParseError>)
        requires
            old(self).wf(),
        ensures
            final(self).wf(),
            final(self).toks() == old(self).toks(),
            exprs_res(r, final(self).cur(), sp_call_args(old(self).toks(), old(self).cur())),
            r is Ok ==> old(self).cur() < final(self).cur(),
        decreases rem(old(self).toks(), old(self).cur()), 9int,
    {
        let ghost t0 = self.toks();
        let ghost p0 = self.cur();
        let mut args: Vec<Expression> = Vec::new();
        loop
            invariant
                self.wf(),
                self.toks() == t0,
                args@.len() == 0 ==> self.cur() == p0,
                args@.len() > 0 ==> p0 < self.cur(),
                sp_seq_combine(exprs_view(args@), sp_call_args(t0, self.cur())) == sp_call_args(
                    t0,
                    p0,
                ),
            decreases t0.len() - self.cur(),
        {
            let ghost c = self.cur();
            let ghost before = args@;
            let e = match self.parse_expression() {
                Ok(e) => e,
                Err(e) => {
                    return Err(e);
                },
            };
            let has_comma = self.peek_is_comma();
            proof {
                lemma_exprs_view_snoc(before, e, 0);
            }
            args.push(e);
            if has_comma {
                proof {
                    lemma_sp_seq_combine_assoc(
                        exprs_view(before),
                        seq![expr_view(e)],
                        sp_call_args(t0, self.cur() + 1),
                    );
                }
                self.advance();
            } else {
                proof {
                    assert(sp_call_args(t0, c) == Ok::<_, ParseErrorV>(
                        (seq![expr_view(e)], self.cur()),
                    ));
                }
                return Ok(args);
            }
        }
    }

    /// Parses the math level: a factor, then a left-associative run of
    /// math operators.
    fn parse_math(&mut self) -> (r: Result<Expression, ParseError>)
        requires
            old(self).wf(),
        ensures
            final(self).wf(),
            final(self).toks() == old(self).toks(),
            expr_res(r, final(self).cur(), sp_math(old(self).toks(), old(self).cur())),
            r is Ok ==> old(self).cur() < final(self).cur(),
        decreases rem(old(self).toks(), old(self).cur()), 2int,
    {
        let ghost t0 = self.toks();
        let ghost p0 = self.cur();
        let mut left = match self.parse_factor() {
            Ok(e) => e,
            Err(e) => {
                return Err(e);
            },
        };
        loop
            invariant
                self.wf(),
                self.toks() == t0,
                p0 < self.cur(),
                sp_math(t0, p0) == sp_math_tail(t0, self.cur(), expr_view(left)),
            decreases t0.len() - self.cur(),
        {
            match self.peek_math_op() {
                Some(op) => {
                    let ghost c = self.cur();
                    let ghost lv = expr_view(left);
                    self.advance();
                    match self.parse_factor() {
                        Ok(right) => {
                            left = Expression::MathOp(Box::new(left), op, Box::new(right));
                            proof {
                                assert(expr_view(left) == ExprV::MathOp(
                                    Box::new(lv),
                                    op,
                                    Box::new(expr_view(right)),
                                ));
                            }
                        },
                        Err(e) => {
                            return Err(e);
                        },
                    }
                },
                None => {
                    return Ok(left);
                },
            }
        }
    }

    /// Parses the comparison level: at most one comparison operator is
    /// consumed (non-chaining).
    fn parse_comparison(&mut self) -> (r: Result<Expression, ParseError>)
        requires
            old(self).wf(),
        ensures
            final(self).wf(),
            final(self).toks() == old(self).toks(),
            expr_res(r, final(self).cur(), sp_comparison(old(self).toks(), old(self).cur())),
            r is Ok ==> old(self).cur() < final(self).cur(),
        decreases rem(old(self).toks(), old(self).cur()), 3int,
    {
        let ghost t0 = self.toks();
        let ghost p0 = self.cur();
        let left = match self.parse_math() {
            Ok(e) => e,
            Err(e) => {
                return Err(e);
            },
        };
        match self.peek_comparison_op() {
            Some(op) => {
                self.advance();
                match self.parse_math() {
                    Ok(right) => Ok(
                        Expression::ComparisonOp(Box::new(left), op, Box::new(right)),
                    ),
                    Err(e) => Err(e),
                }
            },
            None => Ok(left),
        }
    }

    /// Parses the bitwise level: a left-associative run of bitwise
    /// operators over comparisons.
    fn parse_bitwise(&mut self) -> (r: Result<Expression, ParseError>)
        requires
            old(self).wf(),
        ensures
            final(self).wf(),
            final(self).toks() == old(self).toks(),
            expr_res(r, final(self).cur(), sp_bitwise(old(self).toks(), old(self).cur())),
            r is Ok ==> old(self).cur() < final(self).cur(),
        decreases rem(old(self).toks(), old(self).cur()), 5int,
    {
        let ghost t0 = self.toks();
        let ghost p0 = self.cur();
        let mut left = match self.parse_comparison() {
            Ok(e) => e,
            Err(e) => {
                return Err(e);
            },
        };
        loop
            invariant
                self.wf(),
                self.toks() == t0,
                p0 < self.cur(),
                sp_bitwise(t0, p0) == sp_bitwise_tail(t0, self.cur(), expr_view(left)),
            decreases t0.len() - self.cur(),
        {
            match self.peek_bitwise_op() {
                Some(op) => {
                    let ghost lv = expr_view(left);
                    self.advance();
                    match self.parse_comparison() {
                        Ok(right) => {
                            left = Expression::BitwiseOp(Box::new(left), op, Box::new(right));
                            proof {
                                assert(expr_view(left) == ExprV::BitwiseOp(
                                    Box::new(lv),
                                    op,
                                    Box::new(expr_view(right)),
                                ));
                            }
                        },
                        Err(e) => {
                            return Err(e);
                        },
                    }
                },
                None => {
                    return Ok(left);
                },
            }
        }
    }

    /// Parses the logical level, the lowest binding: a left-associative
    /// run of `&&` and `||` over bitwise expressions.
    fn parse_logical(&mut self) -> (r: Result<Expression, ParseError>)
        requires
            old(self).wf(),
        ensures
            final(self).wf(),
            final(self).toks() == old(self).toks(),
            expr_res(r, final(self).cur(), sp_logical(old(self).toks(), old(self).cur())),
            r is Ok ==> old(self).cur() < final(self).cur(),
        decreases rem(old(self).toks(), old(self).cur()), 7int,
    {
        let ghost t0 = self.toks();
        let ghost p0 = self.cur();
        let mut left = match self.parse_bitwise() {
            Ok(e) => e,
            Err(e) => {
                return Err(e);
            },
        };
        loop
            invariant
                self.wf(),
                self.toks() == t0,
                p0 < self.cur(),
                sp_logical(t0, p0) == sp_logical_tail(t0, self.cur(), expr_view(left)),
            decreases t0.len() - self.cur(),
        {
            let keep = match self.peek_logical_op() {
                Some(op) => matches!(op, LogicalOperator::And) || matches!(
                    op,
                    LogicalOperator::Or,
                ),
                None => false,
            };
            if keep {
                let op = self.peek_logical_op().unwrap();
                let ghost lv = expr_view(left);
                self.advance();
                match self.parse_bitwise() {
                    Ok(right) => {
                        left = Expression::LogicalOp(Box::new(left), op, Box::new(right));
                        proof {
                            assert(expr_view(left) == ExprV::LogicalOp(
                                Box::new(lv),
                                op,
                                Box::new(expr_view(right)),
                            ));
                        }
                    },
                    Err(e) => {
                        return Err(e);
                    },
                }
            } else {
                return Ok(left);
            }
        }
    }

    /// Parses a full expression: the entry to the precedence chain.
    pub fn parse_expression(&mut self) -> (r: Result<Expression, ParseError>)
        requires
            old(self).wf(),
        ensures
            final(self).wf(),
            final(self).toks() == old(self).toks(),
            expr_res(r, final(self).cur(), sp_expression(old(self).toks(), old(self).cur())),
            r is Ok ==> old(self).cur() < final(self).cur(),
        decreases rem(old(self).toks(), old(self).cur()), 8int,
    {
        self.parse_logical()
    }

    /// The keyword name under the cursor, copied, if any.
    fn peek_keyword(&self) -> (r: Option<String>)
        ensures
            match r {
                Some(k) => peek_tok(self.toks(), self.cur()) == TokenV::Keyword(k@),
                None => !(peek_tok(self.toks(), self.cur()) is Keyword),
            },
    {
        if self.current < self.tokens.len() {
            match &self.tokens[self.current] {
                Token::Keyword(k) => Some(k.clone()),
                _ => None,
            }
        } else {
            None
        }
    }

    /// The comment text under the cursor, copied, if any.
    fn peek_comment(&self) -> (r: Option<String>)
        ensures
            match r {
                Some(text) => peek_tok(self.toks(), self.cur()) == TokenV::Comment(text@),
                None => !(peek_tok(self.toks(), self.cur()) is Comment),
            },
    {
        if self.current < self.tokens.len() {
            match &self.tokens[self.current] {
                Token::Comment(text) => Some(text.clone()),
                _ => None,
            }
        } else {
            None
        }
    }

    /// Whether the token under the cursor is `LeftBrace`.
    fn peek_is_left_brace(&self) -> (r: bool)
        ensures
            r == (peek_tok(self.toks(), self.cur()) == TokenV::LeftBrace),
    {
        if self.current < self.tokens.len() {
            matches!(&self.tokens[self.current], Token::LeftBrace)
        } else {
            false
        }
    }

    /// Whether the token under the cursor is `RightBrace`.
    fn peek_is_right_brace(&self) -> (r: bool)
        ensures
            r == (peek_tok(self.toks(), self.cur()) == TokenV::RightBrace),
    {
        if self.current < self.tokens.len() {
            matches!(&self.tokens[self.current], Token::RightBrace)
        } else {
            false
        }
    }

    /// Whether the cursor stands at the end: on the `EndOfInput` marker or
    /// past the last token.
    fn peek_is_end(&self) -> (r: bool)
        ensures
            r == (peek_tok(self.toks(), self.cur()) == TokenV::EndOfInput),
    {
        if self.current < self.tokens.len() {
            matches!(&self.tokens[self.current], Token::EndOfInput)
        } else {
            true
        }
    }

    /// Whether the token under the cursor can start an expression: a
    /// number, an identifier, or `(`.
    fn peek_starts_expression(&self) -> (r: bool)
        ensures
            r == ({
                let t = peek_tok(self.toks(), self.cur());
                t is Number || t is Identifier || t == TokenV::LeftParen
            }),
    {
        if self.current < self.tokens.len() {
            match &self.tokens[self.current] {
                Token::Number(_) => true,
                Token::Identifier(_) => true,
                Token::LeftParen => true,
                _ => false,
            }
        } else {
            false
        }
    }

    /// Parses a brace-delimited block and returns its statements.
    fn parse_block(&mut self) -> (r: Result<Vec<Statement>, ParseError>)
        requires
            old(self).wf(),
        ensures
            final(self).wf(),
            final(self).toks() == old(self).toks(),
            stmts_res(r, final(self).cur(), sp_block(old(self).toks(), old(self).cur())),
            r is Ok ==> old(self).cur() < final(self).cur(),
        decreases rem(old(self).toks(), old(self).cur()), 10int,
    {
        let ghost t0 = self.toks();
        let ghost p0 = self.cur();
        if !self.peek_is_left_brace() {
            let found = self.peek_dup();
            return Err(ParseError::UnexpectedToken {
                expected: Expected::LeftBrace,
                found,
                position: self.current,
            });
        }
        self.advance();
        let mut items: Vec<Statement> = Vec::new();
        loop
            invariant
                self.wf(),
                self.toks() == t0,
                p0 < self.cur(),
                sp_seq_combine(stmts_view(items@), sp_block_items(t0, self.cur()))
                    == sp_block_items(t0, p0 + 1),
            decreases t0.len() - self.cur(),
        {
            if self.peek_is_right_brace() {
                proof {
                    assert(stmts_view(items@) + Seq::<StmtV>::empty() =~= stmts_view(items@));
                }
                self.advance();
                return Ok(items);
            }
            let ghost c = self.cur();
            let ghost before = items@;
            match self.parse_statement() {
                Ok(st) => {
                    proof {
                        lemma_stmts_view_snoc(before, st, 0);
                        lemma_sp_seq_combine_assoc(
                            stmts_view(before),
                            seq![stmt_view(st)],
                            sp_block_items(t0, self.cur()),
                        );
                    }
                    items.push(st);
                },
                Err(e) => {
                    return Err(e);
                },
            }
        }
    }

    /// Parses a `print` statement: sugar for a call of the built-in
    /// `print` with the parsed expression as sole argument.
    fn parse_print_statement(&mut self) -> (r: Result<Statement, ParseError>)
        requires
            old(self).wf(),
            peek_tok(old(self).toks(), old(self).cur()) == TokenV::Keyword(
                seq!['p', 'r', 'i', 'n', 't'],
            ),
        ensures
            final(self).wf(),
            final(self).toks() == old(self).toks(),
            stmt_res(r, final(self).cur(), sp_print(old(self).toks(), old(self).cur())),
            r is Ok ==> old(self).cur() < final(self).cur(),
        decreases rem(old(self).toks(), old(self).cur()), 10int,
    {
        self.advance();
        match self.parse_expression() {
            Ok(e) => {
                let name = String::from_str("print");
                let mut args: Vec<Expression> = Vec::new();
                args.push(e);
                proof {
                    reveal_strlit("print");
                    assert(name@ =~= seq!['p', 'r', 'i', 'n', 't']);
                    assert(args@.len() == 1 && args@[0] == e);
                    assert(exprs_view_from(args@, 1) =~= Seq::<ExprV>::empty());
                    assert(exprs_view(args@) =~= seq![expr_view(e)]);
                }
                Ok(Statement::Expression(Expression::FunctionCall(name, args)))
            },
            Err(e) => Err(e),
        }
    }

    /// Parses a `while` statement: condition, then a block.
    fn parse_while_statement(&mut self) -> (r: Result<Statement, ParseError>)
        requires
            old(self).wf(),
            peek_tok(old(self).toks(), old(self).cur()) == TokenV::Keyword(
                seq!['w', 'h', 'i', 'l', 'e'],
            ),
        ensures
            final(self).wf(),
            final(self).toks() == old(self).toks(),
            stmt_res(r, final(self).cur(), sp_while(old(self).toks(), old(self).cur())),
            r is Ok ==> old(self).cur() < final(self).cur(),
        decreases rem(old(self).toks(), old(self).cur()), 10int,
    {
        self.advance();
        let cond = match self.parse_expression() {
            Ok(e) => e,
            Err(e) => {
                return Err(e);
            },
        };
        match self.parse_block() {
            Ok(body) => Ok(
                Statement::Expression(Expression::While(Box::new(cond), body)),
            ),
            Err(e) => Err(e),
        }
    }

    /// Parses a `for` statement: loop variable, `in`, iterable, block.
    fn parse_for_statement(&mut self) -> (r: Result<Statement, ParseError>)
        requires
            old(self).wf(),
            peek_tok(old(self).toks(), old(self).cur()) == TokenV::Keyword(seq!['f', 'o', 'r']),
        ensures
            final(self).wf(),
            final(self).toks() == old(self).toks(),
            stmt_res(r, final(self).cur(), sp_for(old(self).toks(), old(self).cur())),
            r is Ok ==> old(self).cur() < final(self).cur(),
        decreases rem(old(self).toks(), old(self).cur()), 10int,
    {
        self.advance();
        let name = match self.peek_identifier() {
            Some(n) => n,
            None => {
                return Err(ParseError::IncompleteConstruct {
                    construct: Construct::ForLoop,
                    position: self.current,
                });
            },
        };
        self.advance();
        let in_next = match self.peek_keyword() {
            Some(k) => str_is(&k, "in"),
            None => false,
        };
        proof {
            lemma_keyword_literals();
        }
        if !in_next {
            let found = self.peek_dup();
            return Err(ParseError::UnexpectedToken {
                expected: Expected::KeywordIn,
                found,
                position: self.current,
            });
        }
        self.advance();
        let iter = match self.parse_expression() {
            Ok(e) => e,
            Err(e) => {
                return Err(e);
            },
        };
        match self.parse_block() {
            Ok(body) => Ok(
                Statement::Expression(Expression::For(name, Box::new(iter), body)),
            ),
            Err(e) => Err(e),
        }
    }

    /// Parses a `return` statement, with a trailing expression exactly
    /// when the next token can start one.
    fn parse_return_statement(&mut self) -> (r: Result<Statement, ParseError>)
        requires
            old(self).wf(),
            peek_tok(old(self).toks(), old(self).cur()) == TokenV::Keyword(
                seq!['r', 'e', 't', 'u', 'r', 'n'],
            ),
        ensures
            final(self).wf(),
            final(self).toks() == old(self).toks(),
            stmt_res(r, final(self).cur(), sp_return(old(self).toks(), old(self).cur())),
            r is Ok ==> old(self).cur() < final(self).cur(),
        decreases rem(old(self).toks(), old(self).cur()), 10int,
    {
        self.advance();
        if self.peek_starts_expression() {
            match self.parse_expression() {
                Ok(e) => Ok(Statement::Return(Box::new(Some(e)))),
                Err(e) => Err(e),
            }
        } else {
            Ok(Statement::Return(Box::new(None)))
        }
    }

    /// Parses the ordered `elif` branches following an `if` branch.
    #[verifier::rlimit(60)]
    fn parse_elifs(&mut self) -> (r: Result<Vec<(Box<Expression>, Vec<Statement>)>, ParseError>)
        requires
            old(self).wf(),
        ensures
            final(self).wf(),
            final(self).toks() == old(self).toks(),
            r is Ok ==> old(self).cur() <= final(self).cur(),
            match (r, sp_elifs(old(self).toks(), old(self).cur())) {
                (Ok(v), Ok(p)) => elifs_view(v@) == p.0 && final(self).cur() == p.1,
                (Err(er), Err(se)) => parse_error_view(er) == se,
                _ => false,
            },
        decreases rem(old(self).toks(), old(self).cur()), 10int,
    {
        let ghost t0 = self.toks();
        let ghost p0 = self.cur();
        let mut elifs: Vec<(Box<Expression>, Vec<Statement>)> = Vec::new();
        loop
            invariant
                self.wf(),
                self.toks() == t0,
                p0 <= self.cur(),
                sp_seq_combine(elifs_view(elifs@), sp_elifs(t0, self.cur())) == sp_elifs(t0, p0),
            decreases t0.len() - self.cur(),
        {
            let is_elif = match self.peek_keyword() {
                Some(k) => str_is(&k, "elif"),
                None => false,
            };
            proof {
                lemma_keyword_literals();
            }
            if !is_elif {
                proof {
                    assert(elifs_view(elifs@) + Seq::<(ExprV, Seq<StmtV>)>::empty() =~= elifs_view(
                        elifs@,
                    ));
                }
                return Ok(elifs);
            }
            self.advance();
            let ec = match self.parse_expression() {
                Ok(e) => e,
                Err(e) => {
                    return Err(e);
                },
            };
            let eb = match self.parse_block() {
                Ok(v) => v,
                Err(e) => {
                    return Err(e);
                },
            };
            let ghost before = elifs@;
            let branch = (Box::new(ec), eb);
            proof {
                lemma_elifs_view_snoc(before, branch, 0);
                lemma_sp_seq_combine_assoc(
                    elifs_view(before),
                    seq![(expr_view(ec), stmts_view(eb@))],
                    sp_elifs(t0, self.cur()),
                );
            }
            elifs.push(branch);
        }
    }

    /// Parses an `if` statement: condition and block, any number of
    /// `elif` branches, and an optional `else` block, resolved into one
    /// flat `IfElse` node.
    fn parse_if_statement(&mut self) -> (r: Result<Statement, ParseError>)
        requires
            old(self).wf(),
            peek_tok(old(self).toks(), old(self).cur()) == TokenV::Keyword(seq!['i', 'f']),
        ensures
            final(self).wf(),
            final(self).toks() == old(self).toks(),
            stmt_res(r, final(self).cur(), sp_if(old(self).toks(), old(self).cur())),
            r is Ok ==> old(self).cur() < final(self).cur(),
        decreases rem(old(self).toks(), old(self).cur()), 10int,
    {
        let ghost t0 = self.toks();
        let ghost p0 = self.cur();
        self.advance();
        let cond = match self.parse_expression() {
            Ok(e) => e,
            Err(e) => {
                return Err(e);
            },
        };
        let body = match self.parse_block() {
            Ok(v) => v,
            Err(e) => {
                return Err(e);
            },
        };
        let elifs = match self.parse_elifs() {
            Ok(v) => v,
            Err(e) => {
                return Err(e);
            },
        };
        let has_else = match self.peek_keyword() {
            Some(k) => str_is(&k, "else"),
            None => false,
        };
        proof {
            lemma_keyword_literals();
        }
        if has_else {
            self.advance();
            match self.parse_block() {
                Ok(eb) => Ok(
                    Statement::Expression(
                        Expression::IfElse(Box::new(cond), body, elifs, Some(eb)),
                    ),
                ),
                Err(e) => Err(e),
            }
        } else {
            Ok(
                Statement::Expression(
                    Expression::IfElse(Box::new(cond), body, elifs, None),
                ),
            )
        }
    }

    /// Parses zero or more comma-separated parameter names; the run ends
    /// at the first token that is not an identifier.
    fn parse_params(&mut self) -> (r: Vec<String>)
        requires
            old(self).wf(),
        ensures
            final(self).wf(),
            final(self).toks() == old(self).toks(),
            old(self).cur() <= final(self).cur(),
            params_view(r@) == sp_params(old(self).toks(), old(self).cur()).0,
            final(self).cur() == sp_params(old(self).toks(), old(self).cur()).1,
    {
        let ghost t0 = self.toks();
        let ghost p0 = self.cur();
        let mut params: Vec<String> = Vec::new();
        loop
            invariant
                self.wf(),
                self.toks() == t0,
                p0 <= self.cur(),
                sp_params(t0, p0).0 == params_view(params@) + sp_params(t0, self.cur()).0,
                sp_params(t0, p0).1 == sp_params(t0, self.cur()).1,
            decreases t0.len() - self.cur(),
        {
            let ghost c = self.cur();
            let p = match self.peek_identifier() {
                Some(p) => p,
                None => {
                    proof {
                        assert(sp_params(t0, c).0 =~= Seq::<Seq<char>>::empty());
                        assert(params_view(params@) + Seq::<Seq<char>>::empty() =~= params_view(
                            params@,
                        ));
                    }
                    return params;
                },
            };
            let ghost before = params@;
            self.advance();
            let has_comma = self.peek_is_comma();
            proof {
                lemma_params_view_snoc(before, p);
            }
            params.push(p);
            if has_comma {
                proof {
                    assert((params_view(before) + seq![p@]) + sp_params(t0, self.cur() + 1).0
                        =~= params_view(before) + (seq![p@] + sp_params(t0, self.cur() + 1).0));
                }
                self.advance();
            } else {
                proof {
                    assert(sp_params(t0, c).0 =~= seq![p@]);
                    assert(params_view(before) + seq![p@] =~= params_view(params@));
                }
                return params;
            }
        }
    }

    /// Parses a function definition: `fn` name `(` parameters `)` block.
    fn parse_function_definition(&mut self) -> (r: Result<Statement, ParseError>)
        requires
            old(self).wf(),
            peek_tok(old(self).toks(), old(self).cur()) == TokenV::Keyword(seq!['f', 'n']),
        ensures
            final(self).wf(),
            final(self).toks() == old(self).toks(),
            stmt_res(r, final(self).cur(), sp_fndef(old(self).toks(), old(self).cur())),
            r is Ok ==> old(self).cur() < final(self).cur(),
        decreases rem(old(self).toks(), old(self).cur()), 10int,
    {
        let ghost t0 = self.toks();
        let ghost p0 = self.cur();
        self.advance();
        let name = match self.peek_identifier() {
            Some(n) => n,
            None => {
                return Err(ParseError::IncompleteConstruct {
                    construct: Construct::FunctionDefinition,
                    position: self.current,
                });
            },
        };
        self.advance();
        if !self.peek_is_left_paren() {
            let found = self.peek_dup();
            return Err(ParseError::UnexpectedToken {
                expected: Expected::LeftParen,
                found,
                position: self.current,
            });
        }
        self.advance();
        let params = self.parse_params();
        if !self.peek_is_right_paren() {
            let found = self.peek_dup();
            return Err(ParseError::UnexpectedToken {
                expected: Expected::RightParen,
                found,
                position: self.current,
            });
        }
        self.advance();
        match self.parse_block() {
            Ok(body) => Ok(Statement::FunctionDefinition { name, parameters: params, body }),
            Err(e) => Err(e),
        }
    }

    /// Looks ahead from the identifier at `start` for the `:=` shorthand:
    /// a run of zero or more bare identifiers ending at a `:=` operator.
    /// On a hit, returns the collected parameter names and the index of
    /// the `:=` token; the cursor is not moved.
    fn walrus_lookahead(&self, start: usize) -> (r: Option<(Vec<String>, usize)>)
        requires
            self.wf(),
            start < self.toks().len(),
        ensures
            ({
                let toks = self.toks();
                let k = sp_ident_run(toks, (start + 1) as nat);
                match r {
                    Some(pair) => {
                        &&& peek_tok(toks, (start + 1 + k) as nat) == TokenV::OperatorToken(
                            Operator::Define,
                        )
                        &&& params_view(pair.0@) == sp_ident_names(toks, (start + 1) as nat, k)
                        &&& pair.1 == start + 1 + k
                        &&& pair.1 < toks.len()
                    },
                    None => peek_tok(toks, (start + 1 + k) as nat) != TokenV::OperatorToken(
                        Operator::Define,
                    ),
                }
            }),
    {
        let ghost t0 = self.toks();
        let len = self.tokens.len();
        let mut j = start + 1;
        while j < len && matches!(&self.tokens[j], Token::Identifier(_))
            invariant
                start + 1 <= j <= len,
                len == t0.len(),
                sp_ident_run(t0, (start + 1) as nat) == (j - start - 1) + sp_ident_run(
                    t0,
                    j as nat,
                ),
                forall|m: int| start + 1 <= m < j ==> t0[m] is Identifier,
            decreases len - j,
        {
            j += 1;
        }
        proof {
            assert(sp_ident_run(t0, j as nat) == 0);
        }
        let ghost k = sp_ident_run(t0, (start + 1) as nat);
        let is_define = if j < len {
            match &self.tokens[j] {
                Token::OperatorToken(op) => matches!(op, Operator::Define),
                _ => false,
            }
        } else {
            false
        };
        if !is_define {
            return None;
        }
        let mut params: Vec<String> = Vec::new();
        let mut m = start + 1;
        while m < j
            invariant
                start + 1 <= m <= j <= len,
                len == t0.len(),
                j - start - 1 == k,
                forall|q: int| start + 1 <= q < j ==> t0[q] is Identifier,
                params_view(params@) == sp_ident_names(
                    t0,
                    (start + 1) as nat,
                    (m - start - 1) as nat,
                ),
            decreases j - m,
        {
            let pname = match &self.tokens[m] {
                Token::Identifier(nm) => nm.clone(),
                _ => {
                    proof {
                        assert(t0[m as int] is Identifier);
                        assert(false);
                    }
                    String::new()
                },
            };
            let ghost before = params@;
            params.push(pname);
            m += 1;
            proof {
                lemma_params_view_snoc(before, pname);
                lemma_sp_ident_names_split(t0, (start + 1) as nat, (m - start - 2) as nat, 1);
                assert(peek_tok(t0, (m - 1) as nat) == TokenV::Identifier(pname@));
                assert(sp_ident_names(t0, m as nat, 0) =~= Seq::<Seq<char>>::empty());
                assert(sp_ident_names(t0, (m - 1) as nat, 1) =~= seq![pname@]);
                assert(params_view(params@) =~= sp_ident_names(
                    t0,
                    (start + 1) as nat,
                    (m - start - 1) as nat,
                ));
            }
        }
        Some((params, j))
    }

    /// Parses a statement opening with an identifier: an assignment, a
    /// `:=` single-expression function definition, or a bare expression
    /// re-parsed from the identifier.
    #[verifier::rlimit(100)]
    fn parse_assignment_or_expression(&mut self) -> (r: Result<Statement, ParseError>)
        requires
            old(self).wf(),
            peek_tok(old(self).toks(), old(self).cur()) is Identifier,
        ensures
            final(self).wf(),
            final(self).toks() == old(self).toks(),
            stmt_res(r, final(self).cur(), sp_assign_or_expr(old(self).toks(), old(self).cur())),
            r is Ok ==> old(self).cur() < final(self).cur(),
        decreases rem(old(self).toks(), old(self).cur()), 10int,
    {
        let ghost t0 = self.toks();
        let ghost p0 = self.cur();
        let start = self.current;
        let name = self.peek_identifier().unwrap();
        self.advance();
        let is_assign = match self.peek_assign_op() {
            Some(op) => matches!(op, Operator::Equals),
            None => false,
        };
        if is_assign {
            proof {
                assert(sp_assign_or_expr(t0, p0) == sp_assign(t0, p0));
                assert(expr_view(Expression::Identifier(name)) == ExprV::Identifier(name@));
            }
            self.advance();
            match self.parse_expression() {
                Ok(e) => Ok(
                    Statement::Expression(
                        Expression::Assignment(
                            Box::new(Expression::Identifier(name)),
                            Box::new(e),
                        ),
                    ),
                ),
                Err(e) => Err(e),
            }
        } else {
            match self.walrus_lookahead(start) {
                Some((params, j)) => {
                    proof {
                        assert(sp_assign_or_expr(t0, p0) == sp_define_short(t0, p0));
                    }
                    self.current = j;
                    self.advance();
                    match self.parse_expression() {
                        Ok(e) => {
                            let mut body: Vec<Statement> = Vec::new();
                            body.push(Statement::Return(Box::new(Some(e))));
                            proof {
                                assert(body@.len() == 1);
                                assert(body@[0] == Statement::Return(Box::new(Some(e))));
                                assert(stmt_view(body@[0]) == StmtV::Return(
                                    Some(expr_view(e)),
                                ));
                                assert(stmts_view_from(body@, 1) =~= Seq::<StmtV>::empty());
                                assert(stmts_view(body@) =~= seq![
                                    StmtV::Return(Some(expr_view(e))),
                                ]);
                            }
                            Ok(Statement::FunctionDefinition { name, parameters: params, body })
                        },
                        Err(e) => Err(e),
                    }
                },
                None => {
                    proof {
                        assert(sp_assign_or_expr(t0, p0) == sp_expr_statement(t0, p0));
                    }
                    self.current = start;
                    match self.parse_expression() {
                        Ok(e) => Ok(Statement::Expression(e)),
                        Err(e) => Err(e),
                    }
                },
            }
        }
    }

    /// Parses one statement, dispatched by the token at the cursor.
    fn parse_statement(&mut self) -> (r: Result<Statement, ParseError>)
        requires
            old(self).wf(),
        ensures
            final(self).wf(),
            final(self).toks() == old(self).toks(),
            stmt_res(r, final(self).cur(), sp_statement(old(self).toks(), old(self).cur())),
            r is Ok ==> old(self).cur() < final(self).cur(),
        decreases rem(old(self).toks(), old(self).cur()), 11int,
    {
        proof {
            lemma_keyword_literals();
        }
        if let Some(k) = self.peek_keyword() {
            if str_is(&k, "if") {
                return self.parse_if_statement();
            }
            if str_is(&k, "print") {
                return self.parse_print_statement();
            }
            if str_is(&k, "while") {
                return self.parse_while_statement();
            }
            if str_is(&k, "for") {
                return self.parse_for_statement();
            }
            if str_is(&k, "return") {
                return self.parse_return_statement();
            }
            if str_is(&k, "fn") {
                return self.parse_function_definition();
            }
            let found = self.peek_dup();
            return Err(ParseError::UnexpectedToken {
                expected: Expected::Statement,
                found,
                position: self.current,
            });
        }
        let is_ident = match self.peek_identifier() {
            Some(_) => true,
            None => false,
        };
        if is_ident {
            return self.parse_assignment_or_expression();
        }
        if self.peek_is_left_brace() {
            return match self.parse_block() {
                Ok(ss) => Ok(Statement::Block(ss)),
                Err(e) => Err(e),
            };
        }
        if let Some(text) = self.peek_comment() {
            self.advance();
            return Ok(Statement::Comment(text));
        }
        match self.parse_expression() {
            Ok(e) => Ok(Statement::Expression(e)),
            Err(e) => Err(e),
        }
    }

    /// Parses the whole program: statements until the end-of-input
    /// marker. Every failure aborts the parse with the cursor position
    /// reached; no partial AST is returned.
    pub fn parse(&mut self) -> (r: Result<Vec<Statement>, ParseError>)
        requires
            old(self).wf(),
        ensures
            final(self).wf(),
            final(self).toks() == old(self).toks(),
            stmts_res(r, final(self).cur(), sp_program(old(self).toks(), old(self).cur())),
    {
        let ghost t0 = self.toks();
        let ghost p0 = self.cur();
        let mut statements: Vec<Statement> = Vec::new();
        loop
            invariant
                self.wf(),
                self.toks() == t0,
                p0 <= self.cur(),
                sp_seq_combine(stmts_view(statements@), sp_program(t0, self.cur())) == sp_program(
                    t0,
                    p0,
                ),
            decreases t0.len() - self.cur(),
        {
            if self.peek_is_end() {
                proof {
                    assert(stmts_view(statements@) + Seq::<StmtV>::empty() =~= stmts_view(
                        statements@,
                    ));
                }
                return Ok(statements);
            }
            let ghost before = statements@;
            match self.parse_statement() {
                Ok(st) => {
                    proof {
                        lemma_stmts_view_snoc(before, st, 0);
                        lemma_sp_seq_combine_assoc(
                            stmts_view(before),
                            seq![stmt_view(st)],
                            sp_program(t0, self.cur()),
                        );
                    }
                    statements.push(st);
                },
                Err(e) => {
                    return Err(e);
                },
            }
        }
    }
}

/// Whether a string equals a literal, at the level of character
/// sequences.
fn str_is(s: &String, t: &str) -> (r: bool)
    ensures
        r == (s@ == t@),
{
    let ts = String::from_str(t);
    s.eq(&ts)
}

/// The views of the nine keyword literals, as character sequences.
proof fn lemma_keyword_literals()
    ensures
        "if"@ == seq!['i', 'f'],
        "elif"@ == seq!['e', 'l', 'i', 'f'],
        "else"@ == seq!['e', 'l', 's', 'e'],
        "while"@ == seq!['w', 'h', 'i', 'l', 'e'],
        "for"@ == seq!['f', 'o', 'r'],
        "in"@ == seq!['i', 'n'],
        "return"@ == seq!['r', 'e', 't', 'u', 'r', 'n'],
        "print"@ == seq!['p', 'r', 'i', 'n', 't'],
        "fn"@ == seq!['f', 'n'],
{
    reveal_strlit("if");
    reveal_strlit("elif");
    reveal_strlit("else");
    reveal_strlit("while");
    reveal_strlit("for");
    reveal_strlit("in");
    reveal_strlit("return");
    reveal_strlit("print");
    reveal_strlit("fn");
    assert("if"@ =~= seq!['i', 'f']);
    assert("elif"@ =~= seq!['e', 'l', 'i', 'f']);
    assert("else"@ =~= seq!['e', 'l', 's', 'e']);
    assert("while"@ =~= seq!['w', 'h', 'i', 'l', 'e']);
    assert("for"@ =~= seq!['f', 'o', 'r']);
    assert("in"@ =~= seq!['i', 'n']);
    assert("return"@ =~= seq!['r', 'e', 't', 'u', 'r', 'n']);
    assert("print"@ =~= seq!['p', 'r', 'i', 'n', 't']);
    assert("fn"@ =~= seq!['f', 'n']);
}

/// Splitting a run of consecutive identifier names at any point.
proof fn lemma_sp_ident_names_split(toks: Seq<TokenV>, pos: nat, a: nat, b: nat)
    ensures
        sp_ident_names(toks, pos, a + b) == sp_ident_names(toks, pos, a) + sp_ident_names(
            toks,
            pos + a,
            b,
        ),
    decreases a,
{
    if a == 0 {
        assert(Seq::<Seq<char>>::empty() + sp_ident_names(toks, pos, b) =~= sp_ident_names(
            toks,
            pos,
            b,
        ));
        assert(sp_ident_names(toks, pos, a) =~= Seq::<Seq<char>>::empty());
    } else {
        lemma_sp_ident_names_split(toks, pos + 1, (a - 1) as nat, b);
        assert(sp_ident_names(toks, pos, a + b) =~= sp_ident_names(toks, pos, a) + sp_ident_names(
            toks,
            pos + a,
            b,
        ));
    }
}

} // verus!
