//! What the grammar guarantees of the trees it builds: every expression in a
//! parsed program is well typed, and so reads back from its generated text
//! unchanged.
use vstd::prelude::*;

use crate::generator::expr_text;
use crate::grammar::{
    advanced, binary_node, climb, parse_expr, parse_items, parse_let, parse_loop, parse_output,
    parse_program, parse_statement, tok_at,
};
use crate::reparse::{
    expr_tokens, lemma_render_read_back, lemma_text_spells_tokens, read_expr, spell, TargetToken,
};
use crate::scope::{lookup, Frames};
use crate::syntax_tree::{
    binary_type, is_binary_operator, left_bp, literal_type, right_bp, well_typed, ExpressionNode,
    ExpressionNodeType, Stmt,
};
use crate::token::{declared_type, Token, TokenType};

verus! {

/// Every expression in `s` is well typed, and every declaration's type
/// keyword declares its initializer's type.
pub open spec fn stmt_well_typed(s: Stmt) -> bool
    decreases s,
{
    match s {
        Stmt::Main(b) => stmt_well_typed(*b),
        Stmt::Loop(b) => stmt_well_typed(*b),
        Stmt::Output(e) => well_typed(e),
        Stmt::Let(_, t, e) => well_typed(e) && declared_type(t) == Some(e.value_type),
        Stmt::Block(items) => forall|i: int| 0 <= i < items.len() ==> stmt_well_typed(#[trigger] items[i]),
        Stmt::Break => true,
    }
}

/// Every expression in `s` reads back from its generated text: the text is
/// the spelling of its target tokens, and those tokens read back to it.
pub open spec fn stmt_reads_back(s: Stmt) -> bool
    decreases s,
{
    match s {
        Stmt::Main(b) => stmt_reads_back(*b),
        Stmt::Loop(b) => stmt_reads_back(*b),
        Stmt::Output(e) => expr_reads_back(e),
        Stmt::Let(_, _, e) => expr_reads_back(e),
        Stmt::Block(items) => forall|i: int| 0 <= i < items.len() ==> stmt_reads_back(#[trigger] items[i]),
        Stmt::Break => true,
    }
}

pub open spec fn expr_reads_back(e: ExpressionNode) -> bool {
    &&& expr_text(e, 0) == spell(expr_tokens(e, 0))
    &&& read_expr(expr_tokens(e, 0), 0) == Some((e, Seq::<TargetToken>::empty()))
}

proof fn lemma_expr_typed(toks: Seq<Token>, fr: Frames, pos: int, min: nat)
    ensures
        parse_expr(toks, fr, pos, min) is Ok ==> well_typed(parse_expr(toks, fr, pos, min)->Ok_0.0),
    decreases toks.len() - pos, 1nat,
{
    let t = tok_at(toks, pos);
    match literal_type(t.token_type) {
        Some(vt) => {
            if pos + 1 <= toks.len() {
                lemma_climb_typed(toks, fr, pos + 1, ExpressionNode {
                    node_type: ExpressionNodeType::Literal { value_token: Box::new(t) },
                    value_type: vt,
                }, min);
            }
        },
        None => match t.token_type {
            TokenType::Identifier(name) => match lookup(fr, name@) {
                Some(vt) => {
                    lemma_climb_typed(toks, fr, pos + 1, ExpressionNode {
                        node_type: ExpressionNodeType::Variable { identifier: name },
                        value_type: vt,
                    }, min);
                },
                None => {},
            },
            TokenType::LeftParen => {
                lemma_expr_typed(toks, fr, pos + 1, 0);
                match parse_expr(toks, fr, pos + 1, 0) {
                    Ok((inner, p)) => {
                        if pos < p && tok_at(toks, p).token_type is RightParen {
                            lemma_climb_typed(toks, fr, p + 1, inner, min);
                        }
                    },
                    Err(_) => {},
                }
            },
            _ => {},
        },
    }
}

proof fn lemma_climb_typed(toks: Seq<Token>, fr: Frames, pos: int, lhs: ExpressionNode, min: nat)
    ensures
        well_typed(lhs) && climb(toks, fr, pos, lhs, min) is Ok ==> well_typed(
            climb(toks, fr, pos, lhs, min)->Ok_0.0,
        ),
    decreases toks.len() - pos, 0nat,
{
    let op = tok_at(toks, pos);
    if is_binary_operator(op.token_type) && left_bp(op.token_type) >= min {
        if pos + 1 <= toks.len() {
            lemma_expr_typed(toks, fr, pos + 1, right_bp(op.token_type));
        }
        match parse_expr(toks, fr, pos + 1, right_bp(op.token_type)) {
            Ok((rhs, p)) => match binary_type(op.token_type, lhs.value_type, rhs.value_type) {
                Some(vt) => {
                    if advanced(toks, pos, p) {
                        lemma_climb_typed(toks, fr, p, binary_node(lhs, op, rhs, vt), min);
                    }
                },
                None => {},
            },
            Err(_) => {},
        }
    }
}

proof fn lemma_statement_typed(toks: Seq<Token>, fr: Frames, pos: int)
    ensures
        parse_statement(toks, fr, pos) is Ok ==> stmt_well_typed(parse_statement(toks, fr, pos)->Ok_0.0),
    decreases toks.len() - pos, 3nat,
{
    match tok_at(toks, pos).token_type {
        TokenType::Output => lemma_output_typed(toks, fr, pos + 1),
        TokenType::Let => lemma_let_typed(toks, fr, pos + 1),
        TokenType::Loop => lemma_loop_typed(toks, fr, pos + 1),
        _ => {},
    }
}

proof fn lemma_output_typed(toks: Seq<Token>, fr: Frames, pos: int)
    ensures
        parse_output(toks, fr, pos) is Ok ==> stmt_well_typed(parse_output(toks, fr, pos)->Ok_0.0),
    decreases toks.len() - pos, 2nat,
{
    if tok_at(toks, pos).token_type is LeftParen {
        lemma_expr_typed(toks, fr, pos + 1, 0);
    }
}

proof fn lemma_let_typed(toks: Seq<Token>, fr: Frames, pos: int)
    ensures
        parse_let(toks, fr, pos) is Ok ==> stmt_well_typed(parse_let(toks, fr, pos)->Ok_0.0),
    decreases toks.len() - pos, 2nat,
{
    if tok_at(toks, pos).token_type is Identifier && tok_at(toks, pos + 4).token_type is Equals {
        lemma_expr_typed(toks, fr, pos + 5, 0);
    }
}

proof fn lemma_loop_typed(toks: Seq<Token>, fr: Frames, pos: int)
    ensures
        parse_loop(toks, fr, pos) is Ok ==> stmt_well_typed(parse_loop(toks, fr, pos)->Ok_0.0),
    decreases toks.len() - pos, 2nat,
{
    if tok_at(toks, pos).token_type is LeftBrace {
        lemma_items_typed(toks, fr.push(Map::empty()), pos + 1, Seq::empty(), true);
        if parse_loop(toks, fr, pos) is Ok {
            let items = parse_items(toks, fr.push(Map::empty()), pos + 1, Seq::empty(), true)->Ok_0.0;
            assert(stmt_well_typed(Stmt::Block(items)));
        }
    }
}

proof fn lemma_items_typed(toks: Seq<Token>, fr: Frames, pos: int, acc: Seq<Stmt>, in_block: bool)
    requires
        forall|i: int| 0 <= i < acc.len() ==> stmt_well_typed(#[trigger] acc[i]),
    ensures
        parse_items(toks, fr, pos, acc, in_block) is Ok ==> forall|i: int|
            0 <= i < parse_items(toks, fr, pos, acc, in_block)->Ok_0.0.len() ==> stmt_well_typed(
                #[trigger] parse_items(toks, fr, pos, acc, in_block)->Ok_0.0[i],
            ),
    decreases toks.len() - pos, 4nat,
{
    let t = tok_at(toks, pos);
    if !(in_block && t.token_type is RightBrace) && !(t.token_type is EndOfFile) {
        lemma_statement_typed(toks, fr, pos);
        match parse_statement(toks, fr, pos) {
            Ok((s, fr2, p)) => {
                if advanced(toks, pos, p) {
                    let acc2 = acc.push(s);
                    assert forall|i: int| 0 <= i < acc2.len() implies stmt_well_typed(#[trigger] acc2[i]) by {
                        if i < acc.len() {
                            assert(acc2[i] == acc[i]);
                        }
                    }
                    lemma_items_typed(toks, fr2, p, acc2, in_block);
                }
            },
            Err(_) => {},
        }
    }
}

proof fn lemma_typed_reads_back(s: Stmt)
    requires
        stmt_well_typed(s),
    ensures
        stmt_reads_back(s),
    decreases s,
{
    match s {
        Stmt::Main(b) => lemma_typed_reads_back(*b),
        Stmt::Loop(b) => lemma_typed_reads_back(*b),
        Stmt::Output(e) => {
            lemma_render_read_back(e);
            lemma_text_spells_tokens(e, 0);
        },
        Stmt::Let(_, _, e) => {
            lemma_render_read_back(e);
            lemma_text_spells_tokens(e, 0);
        },
        Stmt::Block(items) => {
            assert forall|i: int| 0 <= i < items.len() implies stmt_reads_back(#[trigger] items[i]) by {
                lemma_typed_reads_back(items[i]);
            }
        },
        Stmt::Break => {},
    }
}

/// A parsed program is well typed, and each of its expressions reads back
/// from the generated text as the same tree with the same types: the
/// generated parentheses suffice to restore the grouping.
pub proof fn lemma_parsed_program_reads_back(toks: Seq<Token>)
    requires
        parse_program(toks) is Ok,
    ensures
        stmt_well_typed(parse_program(toks)->Ok_0),
        stmt_reads_back(parse_program(toks)->Ok_0),
{
    lemma_items_typed(toks, seq![Map::empty()], 0, Seq::empty(), false);
    let items = parse_items(toks, seq![Map::empty()], 0, Seq::empty(), false)->Ok_0.0;
    assert(stmt_well_typed(Stmt::Block(items)));
    lemma_typed_reads_back(parse_program(toks)->Ok_0);
}

} // verus!
