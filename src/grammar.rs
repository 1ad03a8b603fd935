//! The source grammar as mathematics: what parsing a token sequence yields,
//! stated over positions in the sequence and the stack of scope frames.
use vstd::prelude::*;

use crate::error::{ParseError, ParseErrorKind};
use crate::scope::{bind, declared_here, lookup, Frames};
use crate::syntax_tree::{
    binary_type, is_binary_operator, left_bp, literal_type, right_bp, ExpressionNode,
    ExpressionNodeType, Stmt, ValueType,
};
use crate::token::{declared_type, Token, TokenType};

verus! {

/// The token at `pos`; past the end, an end-of-input marker on the last
/// token's line.
pub open spec fn tok_at(toks: Seq<Token>, pos: int) -> Token {
    if 0 <= pos < toks.len() {
        toks[pos]
    } else {
        Token {
            token_type: TokenType::EndOfFile,
            line_number: if toks.len() > 0 { toks.last().line_number } else { 0 },
        }
    }
}

pub open spec fn error_at(kind: ParseErrorKind, t: Token) -> ParseError {
    ParseError { kind, line_number: t.line_number }
}

/// A nested parse that stopped at `p` consumed something and stayed inside
/// the sequence.
pub open spec fn advanced(toks: Seq<Token>, pos: int, p: int) -> bool {
    pos < p <= toks.len()
}

pub open spec fn binary_node(
    l: ExpressionNode,
    op: Token,
    r: ExpressionNode,
    t: ValueType,
) -> ExpressionNode {
    ExpressionNode {
        node_type: ExpressionNodeType::Binary { left: Box::new(l), operator: Box::new(op), right: Box::new(r) },
        value_type: t,
    }
}

/// An expression starting at `pos` whose operators bind at least as
/// tightly as `min`: a primary (literal, declared variable, or parenthesised
/// expression), then the operators that follow it.
pub open spec fn parse_expr(toks: Seq<Token>, fr: Frames, pos: int, min: nat) -> Result<
    (ExpressionNode, int),
    ParseError,
>
    decreases toks.len() - pos, 1nat,
{
    let t = tok_at(toks, pos);
    match literal_type(t.token_type) {
        Some(vt) => climb(
            toks,
            fr,
            pos + 1,
            ExpressionNode {
                node_type: ExpressionNodeType::Literal { value_token: Box::new(t) },
                value_type: vt,
            },
            min,
        ),
        None => match t.token_type {
            TokenType::Identifier(name) => match lookup(fr, name@) {
                Some(vt) => climb(
                    toks,
                    fr,
                    pos + 1,
                    ExpressionNode {
                        node_type: ExpressionNodeType::Variable { identifier: name },
                        value_type: vt,
                    },
                    min,
                ),
                None => Err(error_at(ParseErrorKind::UnresolvedName, t)),
            },
            TokenType::LeftParen => match parse_expr(toks, fr, pos + 1, 0) {
                Ok((inner, p)) => if pos < p && tok_at(toks, p).token_type is RightParen {
                    climb(toks, fr, p + 1, inner, min)
                } else {
                    Err(error_at(ParseErrorKind::MalformedGrouping, tok_at(toks, p)))
                },
                Err(e) => Err(e),
            },
            _ => Err(error_at(ParseErrorKind::UnexpectedToken, t)),
        },
    }
}

/// Having parsed `lhs`, takes in each following operator whose left binding
/// power is at least `min`, with a right operand parsed at the operator's
/// right binding power.
pub open spec fn climb(
    toks: Seq<Token>,
    fr: Frames,
    pos: int,
    lhs: ExpressionNode,
    min: nat,
) -> Result<(ExpressionNode, int), ParseError>
    decreases toks.len() - pos, 0nat,
{
    let op = tok_at(toks, pos);
    if is_binary_operator(op.token_type) && left_bp(op.token_type) >= min {
        match parse_expr(toks, fr, pos + 1, right_bp(op.token_type)) {
            Err(e) => Err(e),
            Ok((rhs, p)) => match binary_type(op.token_type, lhs.value_type, rhs.value_type) {
                None => Err(error_at(ParseErrorKind::TypeMismatch, op)),
                Some(vt) => if advanced(toks, pos, p) {
                    climb(toks, fr, p, binary_node(lhs, op, rhs, vt), min)
                } else {
                    Err(error_at(ParseErrorKind::UnexpectedToken, op))
                },
            },
        }
    } else {
        Ok((lhs, pos))
    }
}

/// A statement: `output ( e )`, `let x :: t = e`, or `loop { ... }`.
pub open spec fn parse_statement(toks: Seq<Token>, fr: Frames, pos: int) -> Result<
    (Stmt, Frames, int),
    ParseError,
>
    decreases toks.len() - pos, 3nat,
{
    let t = tok_at(toks, pos);
    match t.token_type {
        TokenType::Output => parse_output(toks, fr, pos + 1),
        TokenType::Let => parse_let(toks, fr, pos + 1),
        TokenType::Loop => parse_loop(toks, fr, pos + 1),
        _ => Err(error_at(ParseErrorKind::UnexpectedToken, t)),
    }
}

/// `( e )` after `output`.
pub open spec fn parse_output(toks: Seq<Token>, fr: Frames, pos: int) -> Result<
    (Stmt, Frames, int),
    ParseError,
>
    decreases toks.len() - pos, 2nat,
{
    let t = tok_at(toks, pos);
    if t.token_type is LeftParen {
        match parse_expr(toks, fr, pos + 1, 0) {
            Err(e) => Err(e),
            Ok((e, p)) => if tok_at(toks, p).token_type is RightParen {
                Ok((Stmt::Output(e), fr, p + 1))
            } else {
                Err(error_at(ParseErrorKind::MalformedGrouping, tok_at(toks, p)))
            },
        }
    } else {
        Err(error_at(ParseErrorKind::UnexpectedToken, t))
    }
}

/// `x :: t = e` after `let`: the two colons are separate tokens. The
/// initializer's type must be the declared one, and the name must be new in
/// the innermost frame; the binding is made after the initializer is parsed.
pub open spec fn parse_let(toks: Seq<Token>, fr: Frames, pos: int) -> Result<
    (Stmt, Frames, int),
    ParseError,
>
    decreases toks.len() - pos, 2nat,
{
    let t = tok_at(toks, pos);
    match t.token_type {
        TokenType::Identifier(name) => {
            if !(tok_at(toks, pos + 1).token_type is Colon) {
                Err(error_at(ParseErrorKind::UnexpectedToken, tok_at(toks, pos + 1)))
            } else if !(tok_at(toks, pos + 2).token_type is Colon) {
                Err(error_at(ParseErrorKind::UnexpectedToken, tok_at(toks, pos + 2)))
            } else {
                match declared_type(tok_at(toks, pos + 3).token_type) {
                    None => Err(error_at(ParseErrorKind::UnexpectedToken, tok_at(toks, pos + 3))),
                    Some(dt) => if !(tok_at(toks, pos + 4).token_type is Equals) {
                        Err(error_at(ParseErrorKind::UnexpectedToken, tok_at(toks, pos + 4)))
                    } else {
                        match parse_expr(toks, fr, pos + 5, 0) {
                            Err(e) => Err(e),
                            Ok((e, p)) => if e.value_type != dt {
                                Err(error_at(ParseErrorKind::TypeMismatch, tok_at(toks, p)))
                            } else if declared_here(fr, name@) {
                                Err(error_at(ParseErrorKind::DuplicateBinding, t))
                            } else {
                                Ok(
                                    (
                                        Stmt::Let(name@, tok_at(toks, pos + 3).token_type, e),
                                        bind(fr, name@, dt),
                                        p,
                                    ),
                                )
                            },
                        }
                    },
                }
            }
        },
        _ => Err(error_at(ParseErrorKind::UnexpectedToken, t)),
    }
}

/// The innermost frame discarded; the outermost one always stays.
pub open spec fn pop_frame(fr: Frames) -> Frames {
    if fr.len() > 1 {
        fr.drop_last()
    } else {
        fr
    }
}

/// `{ ... }` after `loop`, in a frame of its own that is discarded after
/// the closing brace.
pub open spec fn parse_loop(toks: Seq<Token>, fr: Frames, pos: int) -> Result<
    (Stmt, Frames, int),
    ParseError,
>
    decreases toks.len() - pos, 2nat,
{
    let t = tok_at(toks, pos);
    if t.token_type is LeftBrace {
        match parse_items(toks, fr.push(Map::empty()), pos + 1, Seq::empty(), true) {
            Err(e) => Err(e),
            Ok((items, inner, p)) => Ok(
                (Stmt::Loop(Box::new(Stmt::Block(items))), pop_frame(inner), p + 1),
            ),
        }
    } else {
        Err(error_at(ParseErrorKind::UnexpectedToken, t))
    }
}

/// Statements until a closing brace (in a block) or the end of input (at
/// the top), appended to `acc`. The end of input inside a block is a missing
/// closing brace.
pub open spec fn parse_items(
    toks: Seq<Token>,
    fr: Frames,
    pos: int,
    acc: Seq<Stmt>,
    in_block: bool,
) -> Result<(Seq<Stmt>, Frames, int), ParseError>
    decreases toks.len() - pos, 4nat,
{
    let t = tok_at(toks, pos);
    if in_block && t.token_type is RightBrace {
        Ok((acc, fr, pos))
    } else if t.token_type is EndOfFile {
        if in_block {
            Err(error_at(ParseErrorKind::MalformedGrouping, t))
        } else {
            Ok((acc, fr, pos))
        }
    } else {
        match parse_statement(toks, fr, pos) {
            Err(e) => Err(e),
            Ok((s, fr2, p)) => if advanced(toks, pos, p) {
                parse_items(toks, fr2, p, acc.push(s), in_block)
            } else {
                Err(error_at(ParseErrorKind::UnexpectedToken, t))
            },
        }
    }
}

/// A whole program: its statements, in one outermost frame, wrapped in a
/// block under the program root.
pub open spec fn parse_program(toks: Seq<Token>) -> Result<Stmt, ParseError> {
    match parse_items(toks, seq![Map::empty()], 0, Seq::empty(), false) {
        Ok((items, _, _)) => Ok(Stmt::Main(Box::new(Stmt::Block(items)))),
        Err(e) => Err(e),
    }
}

} // verus!
