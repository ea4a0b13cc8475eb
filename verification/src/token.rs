//! The token taxonomy: operator kind enumerations, the `Token` type that the
//! tokenizer produces, its ghost counterpart `TokenV`, and the lexing errors.
//!
//! Each operator family is a closed set. The `from_str` functions are the
//! conversion tables from raw lexeme text to operator kind; their contracts
//! state the tables exactly, over the ghost `spec_*` table functions.

use vstd::prelude::*;

verus! {

/// The arithmetic operators: `+ - * / %`.
#[derive(Debug, Clone, Copy, PartialEq, Eq, Structural)]
pub enum MathOperator {
    Add,
    Subtract,
    Multiply,
    Divide,
    Modulus,
}

/// The logical operators. `Not` is spelled `!`, `And` is `&&`, `Or` is `||`,
/// and `Xor` is `^^`; a lone `^` belongs to the bitwise family instead, so
/// the tokenizer never emits `LogicalOperator::Xor` (see `render::wf_token`).
#[derive(Debug, Clone, Copy, PartialEq, Eq, Structural)]
pub enum LogicalOperator {
    Not,
    And,
    Or,
    Xor,
}

/// The bitwise operators: `<< >> & | ^`.
#[derive(Debug, Clone, Copy, PartialEq, Eq, Structural)]
pub enum BitwiseOperator {
    LeftShift,
    RightShift,
    And,
    Or,
    Xor,
}

/// The comparison operators: `== != > < >= <=`.
#[derive(Debug, Clone, Copy, PartialEq, Eq, Structural)]
pub enum ComparisonOperator {
    Equals,
    NotEquals,
    GreaterThan,
    LessThan,
    GreaterThanEq,
    LessThanEq,
}

/// The assignment operators: plain `=`, and the `:=` "define" shorthand that
/// introduces a single-expression function definition at statement level.
#[derive(Debug, Clone, Copy, PartialEq, Eq, Structural)]
pub enum Operator {
    Equals,
    Define,
}

/// The conversion table from lexeme text to `MathOperator`.
pub open spec fn spec_math_operator(s: Seq<char>) -> Option<MathOperator> {
    if s == seq!['+'] {
        Some(MathOperator::Add)
    } else if s == seq!['-'] {
        Some(MathOperator::Subtract)
    } else if s == seq!['*'] {
        Some(MathOperator::Multiply)
    } else if s == seq!['/'] {
        Some(MathOperator::Divide)
    } else if s == seq!['%'] {
        Some(MathOperator::Modulus)
    } else {
        None
    }
}

/// The conversion table from lexeme text to `LogicalOperator`.
pub open spec fn spec_logical_operator(s: Seq<char>) -> Option<LogicalOperator> {
    if s == seq!['!'] {
        Some(LogicalOperator::Not)
    } else if s == seq!['&', '&'] {
        Some(LogicalOperator::And)
    } else if s == seq!['|', '|'] {
        Some(LogicalOperator::Or)
    } else if s == seq!['^', '^'] {
        Some(LogicalOperator::Xor)
    } else {
        None
    }
}

/// The conversion table from lexeme text to `BitwiseOperator`.
pub open spec fn spec_bitwise_operator(s: Seq<char>) -> Option<BitwiseOperator> {
    if s == seq!['<', '<'] {
        Some(BitwiseOperator::LeftShift)
    } else if s == seq!['>', '>'] {
        Some(BitwiseOperator::RightShift)
    } else if s == seq!['&'] {
        Some(BitwiseOperator::And)
    } else if s == seq!['|'] {
        Some(BitwiseOperator::Or)
    } else if s == seq!['^'] {
        Some(BitwiseOperator::Xor)
    } else {
        None
    }
}

/// The conversion table from lexeme text to `ComparisonOperator`.
pub open spec fn spec_comparison_operator(s: Seq<char>) -> Option<ComparisonOperator> {
    if s == seq!['=', '='] {
        Some(ComparisonOperator::Equals)
    } else if s == seq!['!', '='] {
        Some(ComparisonOperator::NotEquals)
    } else if s == seq!['>'] {
        Some(ComparisonOperator::GreaterThan)
    } else if s == seq!['<'] {
        Some(ComparisonOperator::LessThan)
    } else if s == seq!['>', '='] {
        Some(ComparisonOperator::GreaterThanEq)
    } else if s == seq!['<', '='] {
        Some(ComparisonOperator::LessThanEq)
    } else {
        None
    }
}

/// The conversion table from lexeme text to `Operator` (assignment family).
pub open spec fn spec_assignment_operator(s: Seq<char>) -> Option<Operator> {
    if s == seq!['='] {
        Some(Operator::Equals)
    } else if s == seq![':', '='] {
        Some(Operator::Define)
    } else {
        None
    }
}

impl MathOperator {
    /// Classifies a raw lexeme as a math operator, exactly per the table.
    pub fn from_str(op: &str) -> (r: Option<MathOperator>)
        ensures
            r == spec_math_operator(op@),
    {
        let n = op.unicode_len();
        if n == 1 {
            proof {
                assert(op@ =~= seq![op@[0]]);
            }
            match op.get_char(0) {
                '+' => Some(MathOperator::Add),
                '-' => Some(MathOperator::Subtract),
                '*' => Some(MathOperator::Multiply),
                '/' => Some(MathOperator::Divide),
                '%' => Some(MathOperator::Modulus),
                _ => None,
            }
        } else {
            None
        }
    }
}

impl LogicalOperator {
    /// Classifies a raw lexeme as a logical operator, exactly per the table.
    pub fn from_str(op: &str) -> (r: Option<LogicalOperator>)
        ensures
            r == spec_logical_operator(op@),
    {
        let n = op.unicode_len();
        if n == 1 {
            proof {
                assert(op@ =~= seq![op@[0]]);
            }
            if op.get_char(0) == '!' {
                Some(LogicalOperator::Not)
            } else {
                None
            }
        } else if n == 2 {
            proof {
                assert(op@ =~= seq![op@[0], op@[1]]);
            }
            let c0 = op.get_char(0);
            let c1 = op.get_char(1);
            if c0 == '&' && c1 == '&' {
                Some(LogicalOperator::And)
            } else if c0 == '|' && c1 == '|' {
                Some(LogicalOperator::Or)
            } else if c0 == '^' && c1 == '^' {
                Some(LogicalOperator::Xor)
            } else {
                None
            }
        } else {
            None
        }
    }
}

impl BitwiseOperator {
    /// Classifies a raw lexeme as a bitwise operator, exactly per the table.
    pub fn from_str(op: &str) -> (r: Option<BitwiseOperator>)
        ensures
            r == spec_bitwise_operator(op@),
    {
        let n = op.unicode_len();
        if n == 1 {
            proof {
                assert(op@ =~= seq![op@[0]]);
            }
            match op.get_char(0) {
                '&' => Some(BitwiseOperator::And),
                '|' => Some(BitwiseOperator::Or),
                '^' => Some(BitwiseOperator::Xor),
                _ => None,
            }
        } else if n == 2 {
            proof {
                assert(op@ =~= seq![op@[0], op@[1]]);
            }
            let c0 = op.get_char(0);
            let c1 = op.get_char(1);
            if c0 == '<' && c1 == '<' {
                Some(BitwiseOperator::LeftShift)
            } else if c0 == '>' && c1 == '>' {
                Some(BitwiseOperator::RightShift)
            } else {
                None
            }
        } else {
            None
        }
    }
}

impl ComparisonOperator {
    /// Classifies a raw lexeme as a comparison operator, exactly per the table.
    pub fn from_str(op: &str) -> (r: Option<ComparisonOperator>)
        ensures
            r == spec_comparison_operator(op@),
    {
        let n = op.unicode_len();
        if n == 1 {
            proof {
                assert(op@ =~= seq![op@[0]]);
            }
            match op.get_char(0) {
                '>' => Some(ComparisonOperator::GreaterThan),
                '<' => Some(ComparisonOperator::LessThan),
                _ => None,
            }
        } else if n == 2 {
            proof {
                assert(op@ =~= seq![op@[0], op@[1]]);
            }
            let c0 = op.get_char(0);
            let c1 = op.get_char(1);
            if c1 == '=' {
                match c0 {
                    '=' => Some(ComparisonOperator::Equals),
                    '!' => Some(ComparisonOperator::NotEquals),
                    '>' => Some(ComparisonOperator::GreaterThanEq),
                    '<' => Some(ComparisonOperator::LessThanEq),
                    _ => None,
                }
            } else {
                None
            }
        } else {
            None
        }
    }
}

impl Operator {
    /// Classifies a raw lexeme as an assignment operator, exactly per the table.
    pub fn from_str(op: &str) -> (r: Option<Operator>)
        ensures
            r == spec_assignment_operator(op@),
    {
        let n = op.unicode_len();
        if n == 1 {
            proof {
                assert(op@ =~= seq![op@[0]]);
            }
            if op.get_char(0) == '=' {
                Some(Operator::Equals)
            } else {
                None
            }
        } else if n == 2 {
            proof {
                assert(op@ =~= seq![op@[0], op@[1]]);
            }
            if op.get_char(0) == ':' && op.get_char(1) == '=' {
                Some(Operator::Define)
            } else {
                None
            }
        } else {
            None
        }
    }
}

/// A classified lexical unit of Lumina source text.
///
/// `Number` carries the literal's text (for example `"2.5"`), scanned as a
/// digit run with at most one decimal point; the 64-bit float value that the
/// text denotes is produced by the consumer of the token stream, outside
/// this crate, so that every field here is a plain value.
#[derive(Debug, Clone, PartialEq, Eq)]
pub enum Token {
    Identifier(String),
    Number(String),
    Keyword(String),
    OperatorToken(Operator),
    MathOperatorToken(MathOperator),
    LogicalOperatorToken(LogicalOperator),
    BitwiseOperatorToken(BitwiseOperator),
    ComparisonOperatorToken(ComparisonOperator),
    LeftBrace,
    RightBrace,
    LeftParen,
    RightParen,
    Comma,
    Comment(String),
    EndOfInput,
}

/// The mathematical value of a `Token`: the same shape with each text
/// payload abstracted to its character sequence.
pub enum TokenV {
    Identifier(Seq<char>),
    Number(Seq<char>),
    Keyword(Seq<char>),
    OperatorToken(Operator),
    MathOperatorToken(MathOperator),
    LogicalOperatorToken(LogicalOperator),
    BitwiseOperatorToken(BitwiseOperator),
    ComparisonOperatorToken(ComparisonOperator),
    LeftBrace,
    RightBrace,
    LeftParen,
    RightParen,
    Comma,
    Comment(Seq<char>),
    EndOfInput,
}

impl View for Token {
    type V = TokenV;

    open spec fn view(&self) -> TokenV {
        match self {
            Token::Identifier(s) => TokenV::Identifier(s@),
            Token::Number(s) => TokenV::Number(s@),
            Token::Keyword(s) => TokenV::Keyword(s@),
            Token::OperatorToken(op) => TokenV::OperatorToken(*op),
            Token::MathOperatorToken(op) => TokenV::MathOperatorToken(*op),
            Token::LogicalOperatorToken(op) => TokenV::LogicalOperatorToken(*op),
            Token::BitwiseOperatorToken(op) => TokenV::BitwiseOperatorToken(*op),
            Token::ComparisonOperatorToken(op) => TokenV::ComparisonOperatorToken(*op),
            Token::LeftBrace => TokenV::LeftBrace,
            Token::RightBrace => TokenV::RightBrace,
            Token::LeftParen => TokenV::LeftParen,
            Token::RightParen => TokenV::RightParen,
            Token::Comma => TokenV::Comma,
            Token::Comment(s) => TokenV::Comment(s@),
            Token::EndOfInput => TokenV::EndOfInput,
        }
    }
}

/// The mathematical value of a token sequence.
pub open spec fn tokens_view(ts: Seq<Token>) -> Seq<TokenV> {
    ts.map_values(|t: Token| t@)
}

/// A failure of the tokenizer. Both variants abort the whole tokenize call.
///
/// `UnexpectedCharacter` carries the offending character and its position
/// (index into the character sequence of the input). It also reports the
/// spellings that the original token tables leave without a token: a lone
/// `:`, and `**` or `//` after a math-operator start; dropping such text
/// silently would lose tokens, so it is promoted to this error.
#[derive(Debug, Clone, PartialEq, Eq)]
pub enum LexerError {
    UnexpectedCharacter(char, usize),
    UnterminatedComment,
}

} // verus!
