//! The generated expression text read back. Rendering an expression yields a
//! sequence of target tokens (operands, operators, parentheses); Java's
//! expression grammar reads such a sequence by its six precedence levels
//! (`||`, `&&`, `==`, relational, additive, multiplicative), grouping equal
//! levels to the left. Reading back what was rendered gives the same tree,
//! with the same types. The parentheses stand exactly at the precedence
//! inversions, and no sequence with fewer of them reads back as the tree, so
//! each generated pair is needed.
use vstd::prelude::*;

use crate::generator::{expr_text, literal_text, operator_text};
use crate::grammar::binary_node;
use crate::syntax_tree::{
    binary_type, is_binary_operator, precedence, well_typed, ExpressionNode, ExpressionNodeType,
};
use crate::token::Token;

verus! {

/// A token of generated expression text: an operand (a literal or a
/// variable, with its type), an infix operator, or a parenthesis.
pub ghost enum TargetToken {
    Operand(ExpressionNode),
    Operator(Token),
    Open,
    Close,
}

/// The target tokens of `e` rendered where precedence `ctx` is demanded;
/// they spell out the text that the generator produces.
pub open spec fn expr_tokens(e: ExpressionNode, ctx: nat) -> Seq<TargetToken>
    decreases e,
{
    match e.node_type {
        ExpressionNodeType::Binary { left, operator, right } => {
            let p = precedence(operator.token_type);
            let inner = expr_tokens(*left, p) + seq![TargetToken::Operator(*operator)]
                + expr_tokens(*right, p + 1);
            if p < ctx {
                seq![TargetToken::Open] + inner + seq![TargetToken::Close]
            } else {
                inner
            }
        },
        _ => seq![TargetToken::Operand(e)],
    }
}

/// Reads an expression whose operators have precedence at least `min`:
/// an operand or a parenthesised expression, then the operators after it.
/// Returns the tree and the tokens left over.
pub open spec fn read_expr(ts: Seq<TargetToken>, min: nat) -> Option<(ExpressionNode, Seq<TargetToken>)>
    decreases ts.len(), 1nat,
{
    if ts.len() == 0 {
        None
    } else {
        match ts[0] {
            TargetToken::Operand(a) => read_operators(ts.drop_first(), a, min),
            TargetToken::Open => match read_expr(ts.drop_first(), 0) {
                Some((inner, rest)) => if 0 < rest.len() < ts.len() && rest[0] is Close {
                    read_operators(rest.drop_first(), inner, min)
                } else {
                    None
                },
                None => None,
            },
            _ => None,
        }
    }
}

/// Having read `lhs`, takes in each following operator of precedence at
/// least `min`, its right operand read at one level higher; the type of
/// each new node is the one its operator gives.
pub open spec fn read_operators(ts: Seq<TargetToken>, lhs: ExpressionNode, min: nat) -> Option<
    (ExpressionNode, Seq<TargetToken>),
>
    decreases ts.len(), 0nat,
{
    if ts.len() > 0 && ts[0] is Operator {
        let op = ts[0]->Operator_0;
        let p = precedence(op.token_type);
        if is_binary_operator(op.token_type) && p >= min {
            match read_expr(ts.drop_first(), p + 1) {
                Some((rhs, rest)) => match binary_type(op.token_type, lhs.value_type, rhs.value_type) {
                    Some(t) => if rest.len() < ts.len() {
                        read_operators(rest, binary_node(lhs, op, rhs, t), min)
                    } else {
                        None
                    },
                    None => None,
                },
                None => None,
            }
        } else {
            Some((lhs, ts))
        }
    } else {
        Some((lhs, ts))
    }
}

/// Whether `rest` can follow an expression rendered at precedence `c`
/// without being drawn into it: it does not start with an operator that
/// binds more tightly than `c`.
pub open spec fn stops_at(rest: Seq<TargetToken>, c: nat) -> bool {
    rest.len() > 0 && rest[0] is Operator ==> precedence(rest[0]->Operator_0.token_type) <= c
}

pub open spec fn needs_parens(e: ExpressionNode, c: nat) -> nat {
    match e.node_type {
        ExpressionNodeType::Binary { operator, .. } => if precedence(operator.token_type) < c {
            1
        } else {
            0
        },
        _ => 0,
    }
}

proof fn lemma_read_rendered(e: ExpressionNode, c: nat, rest: Seq<TargetToken>, m: nat)
    requires
        well_typed(e),
        m <= c,
        stops_at(rest, c),
    ensures
        read_expr(expr_tokens(e, c) + rest, m) == read_operators(rest, e, m),
    decreases e, needs_parens(e, c),
{
    let ts = expr_tokens(e, c) + rest;
    match e.node_type {
        ExpressionNodeType::Binary { left, operator, right } => {
            let p = precedence(operator.token_type);
            let tl = expr_tokens(*left, p);
            let tr = expr_tokens(*right, p + 1);
            let inner = tl + seq![TargetToken::Operator(*operator)] + tr;
            if p < c {
                lemma_read_rendered(e, 0, seq![TargetToken::Close] + rest, 0);
                assert(expr_tokens(e, 0) == inner);
                assert(ts =~= seq![TargetToken::Open] + (inner + (seq![TargetToken::Close] + rest)));
                assert(ts.drop_first() =~= inner + (seq![TargetToken::Close] + rest));
                let r2 = seq![TargetToken::Close] + rest;
                assert(read_operators(r2, e, 0) == Some((e, r2)));
                assert(r2.drop_first() =~= rest);
            } else {
                let after_op = tr + rest;
                let rest_l = seq![TargetToken::Operator(*operator)] + after_op;
                assert(ts =~= tl + rest_l);
                lemma_read_rendered(*left, p, rest_l, m);
                assert(rest_l.drop_first() =~= after_op);
                lemma_read_rendered(*right, p + 1, rest, p + 1);
                assert(read_operators(rest, *right, p + 1) == Some((*right, rest)));
                assert(binary_node(*left, *operator, *right, e.value_type) == e);
            }
        },
        _ => {
            assert(ts.drop_first() =~= rest);
        },
    }
}

/// Reading back the rendering of a well-typed expression gives the same
/// expression: the same operators, grouped the same way, with the same
/// types, and nothing left over.
pub proof fn lemma_render_read_back(e: ExpressionNode)
    requires
        well_typed(e),
    ensures
        read_expr(expr_tokens(e, 0), 0) == Some((e, Seq::<TargetToken>::empty())),
{
    lemma_read_rendered(e, 0, Seq::empty(), 0);
    assert(expr_tokens(e, 0) + Seq::<TargetToken>::empty() =~= expr_tokens(e, 0));
}

/// The text of one target token; an operator stands between two spaces.
pub open spec fn token_text(t: TargetToken) -> Seq<char> {
    match t {
        TargetToken::Operand(a) => match a.node_type {
            ExpressionNodeType::Literal { value_token } => literal_text(value_token.token_type),
            ExpressionNodeType::Variable { identifier } => identifier@,
            _ => Seq::empty(),
        },
        TargetToken::Operator(op) => " "@ + operator_text(op.token_type) + " "@,
        TargetToken::Open => "("@,
        TargetToken::Close => ")"@,
    }
}

/// The text of a token sequence: the tokens' texts one after another.
pub open spec fn spell(ts: Seq<TargetToken>) -> Seq<char>
    decreases ts.len(),
{
    if ts.len() == 0 {
        Seq::empty()
    } else {
        token_text(ts[0]) + spell(ts.drop_first())
    }
}

proof fn lemma_spell_concat(a: Seq<TargetToken>, b: Seq<TargetToken>)
    ensures
        spell(a + b) == spell(a) + spell(b),
    decreases a.len(),
{
    if a.len() == 0 {
        assert(a + b =~= b);
        assert(spell(a) + spell(b) =~= spell(b));
    } else {
        lemma_spell_concat(a.drop_first(), b);
        assert((a + b).drop_first() =~= a.drop_first() + b);
        assert(spell(a + b) =~= token_text(a[0]) + (spell(a.drop_first()) + spell(b)));
    }
}

/// The generated text of an expression is exactly the spelling of its
/// target tokens.
pub proof fn lemma_text_spells_tokens(e: ExpressionNode, c: nat)
    ensures
        expr_text(e, c) == spell(expr_tokens(e, c)),
    decreases e,
{
    match e.node_type {
        ExpressionNodeType::Binary { left, operator, right } => {
            let p = precedence(operator.token_type);
            let tl = expr_tokens(*left, p);
            let top = seq![TargetToken::Operator(*operator)];
            let tr = expr_tokens(*right, p + 1);
            lemma_text_spells_tokens(*left, p);
            lemma_text_spells_tokens(*right, p + 1);
            lemma_spell_concat(tl, top);
            lemma_spell_concat(tl + top, tr);
            assert(top.drop_first() =~= Seq::<TargetToken>::empty());
            assert(spell(Seq::<TargetToken>::empty()) == Seq::<char>::empty());
            assert(spell(top) =~= " "@ + operator_text(operator.token_type) + " "@);
            let inner = tl + top + tr;
            assert(spell(inner) =~= expr_text(*left, p) + " "@ + operator_text(operator.token_type) + " "@
                + expr_text(*right, p + 1));
            if p < c {
                let open = seq![TargetToken::Open];
                let close = seq![TargetToken::Close];
                lemma_spell_concat(open, inner);
                lemma_spell_concat(open + inner, close);
                assert(open.drop_first() =~= Seq::<TargetToken>::empty());
                assert(close.drop_first() =~= Seq::<TargetToken>::empty());
                assert(spell(open) =~= "("@);
                assert(spell(close) =~= ")"@);
            }
        },
        _ => {
            let ts = seq![TargetToken::Operand(e)];
            assert(ts.drop_first() =~= Seq::<TargetToken>::empty());
            assert(spell(Seq::<TargetToken>::empty()) == Seq::<char>::empty());
            assert(spell(ts) =~= token_text(TargetToken::Operand(e)));
        },
    }
}

/// The number of opening parentheses among target tokens.
pub open spec fn count_open(ts: Seq<TargetToken>) -> nat
    decreases ts.len(),
{
    if ts.len() == 0 {
        0
    } else {
        (if ts[0] is Open { 1nat } else { 0nat }) + count_open(ts.drop_first())
    }
}

/// The precedence inversions of `e` placed where `ctx` is demanded: the
/// binary nodes whose operator binds more loosely than their position needs
/// (a left operand needs its parent's level, a right operand one more).
pub open spec fn inversions(e: ExpressionNode, ctx: nat) -> nat
    decreases e,
{
    match e.node_type {
        ExpressionNodeType::Binary { left, operator, right } => {
            let p = precedence(operator.token_type);
            (if p < ctx { 1nat } else { 0nat }) + inversions(*left, p) + inversions(*right, p + 1)
        },
        _ => 0,
    }
}

proof fn lemma_count_open_concat(a: Seq<TargetToken>, b: Seq<TargetToken>)
    ensures
        count_open(a + b) == count_open(a) + count_open(b),
    decreases a.len(),
{
    if a.len() == 0 {
        assert(a + b =~= b);
    } else {
        lemma_count_open_concat(a.drop_first(), b);
        assert((a + b).drop_first() =~= a.drop_first() + b);
    }
}

/// The rendering holds one pair of parentheses per precedence inversion
/// and no other.
pub proof fn lemma_parens_match_inversions(e: ExpressionNode, c: nat)
    ensures
        count_open(expr_tokens(e, c)) == inversions(e, c),
    decreases e,
{
    match e.node_type {
        ExpressionNodeType::Binary { left, operator, right } => {
            let p = precedence(operator.token_type);
            let tl = expr_tokens(*left, p);
            let top = seq![TargetToken::Operator(*operator)];
            let tr = expr_tokens(*right, p + 1);
            lemma_parens_match_inversions(*left, p);
            lemma_parens_match_inversions(*right, p + 1);
            lemma_count_open_concat(tl, top);
            lemma_count_open_concat(tl + top, tr);
            assert(top.drop_first() =~= Seq::<TargetToken>::empty());
            assert(count_open(Seq::<TargetToken>::empty()) == 0);
            assert(count_open(top) == 0);
            if p < c {
                let open = seq![TargetToken::Open];
                let close = seq![TargetToken::Close];
                lemma_count_open_concat(open, tl + top + tr);
                lemma_count_open_concat(open + (tl + top + tr), close);
                assert(open.drop_first() =~= Seq::<TargetToken>::empty());
                assert(close.drop_first() =~= Seq::<TargetToken>::empty());
                assert(count_open(open) == 1);
                assert(count_open(close) == 0);
            }
        },
        _ => {
            assert(seq![TargetToken::Operand(e)].drop_first() =~= Seq::<TargetToken>::empty());
            assert(count_open(Seq::<TargetToken>::empty()) == 0);
        },
    }
}

/// Every operand token is a literal or a variable.
pub open spec fn atomic_operands(ts: Seq<TargetToken>) -> bool {
    forall|i: int|
        0 <= i < ts.len() && (#[trigger] ts[i]) is Operand ==> !(ts[i]->Operand_0.node_type is Binary)
}

/// Where reading at level `m` stops: not before an infix operator that
/// binds at level `m` or tighter.
pub open spec fn ends_read(rest: Seq<TargetToken>, m: nat) -> bool {
    rest.len() > 0 && rest[0] is Operator && is_binary_operator(rest[0]->Operator_0.token_type)
        ==> precedence(rest[0]->Operator_0.token_type) < m
}

/// Rendered operands are literals and variables.
pub proof fn lemma_rendered_operands_atomic(e: ExpressionNode, c: nat)
    ensures
        atomic_operands(expr_tokens(e, c)),
    decreases e,
{
    match e.node_type {
        ExpressionNodeType::Binary { left, operator, right } => {
            let p = precedence(operator.token_type);
            lemma_rendered_operands_atomic(*left, p);
            lemma_rendered_operands_atomic(*right, p + 1);
            let tl = expr_tokens(*left, p);
            let tr = expr_tokens(*right, p + 1);
            let inner = tl + seq![TargetToken::Operator(*operator)] + tr;
            assert forall|i: int| 0 <= i < inner.len() && (#[trigger] inner[i]) is Operand implies !(
            inner[i]->Operand_0.node_type is Binary) by {
                if i < tl.len() {
                    assert(inner[i] == tl[i]);
                } else if i > tl.len() {
                    assert(inner[i] == tr[i - tl.len() - 1]);
                }
            }
            if p < c {
                let all = seq![TargetToken::Open] + inner + seq![TargetToken::Close];
                assert forall|i: int| 0 <= i < all.len() && (#[trigger] all[i]) is Operand implies !(
                all[i]->Operand_0.node_type is Binary) by {
                    if 0 < i < all.len() - 1 {
                        assert(all[i] == inner[i - 1]);
                    }
                }
            }
        },
        _ => {},
    }
}

proof fn lemma_inversions_any_context(x: ExpressionNode)
    ensures
        forall|t: nat| #[trigger] inversions(x, t) <= inversions(x, 0) + 1,
{
    assert forall|t: nat| #[trigger] inversions(x, t) <= inversions(x, 0) + 1 by {}
}

proof fn lemma_drop_first_keeps(ts: Seq<TargetToken>)
    requires
        ts.len() > 0,
        atomic_operands(ts),
    ensures
        atomic_operands(ts.drop_first()),
        count_open(ts) == count_open(ts.drop_first()) + if ts[0] is Open { 1nat } else { 0nat },
{
    let tail = ts.drop_first();
    assert forall|i: int| 0 <= i < tail.len() implies tail[i] == ts[i + 1] by {}
}

/// Each inversion in what is read was written inside a pair of parentheses.
proof fn lemma_read_counts_parens(ts: Seq<TargetToken>, m: nat)
    requires
        atomic_operands(ts),
    ensures
        read_expr(ts, m) is Some ==> ({
            let (x, rest) = read_expr(ts, m)->0;
            inversions(x, m) + count_open(rest) <= count_open(ts) && ends_read(rest, m)
                && atomic_operands(rest)
        }),
    decreases ts.len(), 1nat,
{
    if ts.len() > 0 {
        let tail = ts.drop_first();
        lemma_drop_first_keeps(ts);
        match ts[0] {
            TargetToken::Operand(a) => {
                lemma_read_operators_counts(tail, a, m, 0);
            },
            TargetToken::Open => {
                lemma_read_counts_parens(tail, 0);
                match read_expr(tail, 0) {
                    Some((inner, r)) => {
                        if 0 < r.len() < ts.len() && r[0] is Close {
                            lemma_drop_first_keeps(r);
                            lemma_inversions_any_context(inner);
                            lemma_read_operators_counts(r.drop_first(), inner, m, inversions(inner, 0) + 1);
                        }
                    },
                    None => {},
                }
            },
            _ => {},
        }
    }
}

proof fn lemma_read_operators_counts(ts: Seq<TargetToken>, lhs: ExpressionNode, m: nat, k: nat)
    requires
        atomic_operands(ts),
        inversions(lhs, m) <= k,
        ts.len() > 0 && ts[0] is Operator && is_binary_operator(ts[0]->Operator_0.token_type)
            && precedence(ts[0]->Operator_0.token_type) >= m ==> inversions(
            lhs,
            precedence(ts[0]->Operator_0.token_type),
        ) <= k,
    ensures
        read_operators(ts, lhs, m) is Some ==> ({
            let (x, rest) = read_operators(ts, lhs, m)->0;
            inversions(x, m) + count_open(rest) <= k + count_open(ts) && ends_read(rest, m)
                && atomic_operands(rest)
        }),
    decreases ts.len(), 0nat,
{
    if ts.len() > 0 && ts[0] is Operator {
        let op = ts[0]->Operator_0;
        let p = precedence(op.token_type);
        if is_binary_operator(op.token_type) && p >= m {
            let tail = ts.drop_first();
            lemma_drop_first_keeps(ts);
            lemma_read_counts_parens(tail, p + 1);
            match read_expr(tail, p + 1) {
                Some((rhs, rest)) => match binary_type(op.token_type, lhs.value_type, rhs.value_type) {
                    Some(t) => {
                        if rest.len() < ts.len() {
                            let node = binary_node(lhs, op, rhs, t);
                            let k2 = (k + count_open(tail) - count_open(rest)) as nat;
                            assert(inversions(node, m) <= k2);
                            if rest.len() > 0 && rest[0] is Operator && is_binary_operator(
                                rest[0]->Operator_0.token_type,
                            ) && precedence(rest[0]->Operator_0.token_type) >= m {
                                assert(inversions(node, precedence(rest[0]->Operator_0.token_type)) <= k2);
                            }
                            lemma_read_operators_counts(rest, node, m, k2);
                        }
                    },
                    None => {},
                },
                None => {},
            }
        }
    }
}

/// No token sequence with fewer opening parentheses than `e` has
/// precedence inversions reads back as `e`. The generated text has exactly
/// one pair per inversion, so taking out any single pair breaks it.
pub proof fn lemma_fewer_parens_cannot_read_back(e: ExpressionNode, ts: Seq<TargetToken>)
    requires
        atomic_operands(ts),
        count_open(ts) < inversions(e, 0),
    ensures
        read_expr(ts, 0) != Some((e, Seq::<TargetToken>::empty())),
{
    lemma_read_counts_parens(ts, 0);
    assert(count_open(Seq::<TargetToken>::empty()) == 0);
}

/// `ts` without the tokens at `i` and `j`.
pub open spec fn without_pair(ts: Seq<TargetToken>, i: int, j: int) -> Seq<TargetToken> {
    ts.subrange(0, i) + ts.subrange(i + 1, j) + ts.subrange(j + 1, ts.len() as int)
}

/// Every pair of parentheses in the generated tokens is needed: with any
/// one opening parenthesis and any closing one taken out, the tokens no
/// longer read back as the expression.
pub proof fn lemma_each_pair_needed(e: ExpressionNode, i: int, j: int)
    requires
        0 <= i < j < expr_tokens(e, 0).len(),
        expr_tokens(e, 0)[i] is Open,
        expr_tokens(e, 0)[j] is Close,
    ensures
        read_expr(without_pair(expr_tokens(e, 0), i, j), 0) != Some(
            (e, Seq::<TargetToken>::empty()),
        ),
{
    let ts = expr_tokens(e, 0);
    let a = ts.subrange(0, i);
    let b = ts.subrange(i + 1, j);
    let c = ts.subrange(j + 1, ts.len() as int);
    let open = seq![TargetToken::Open];
    let close = seq![TargetToken::Close];
    assert(ts =~= a + open + b + close + c);
    lemma_count_open_concat(a, open);
    lemma_count_open_concat(a + open, b);
    lemma_count_open_concat(a + open + b, close);
    lemma_count_open_concat(a + open + b + close, c);
    lemma_count_open_concat(a, b);
    lemma_count_open_concat(a + b, c);
    assert(open.drop_first() =~= Seq::<TargetToken>::empty());
    assert(close.drop_first() =~= Seq::<TargetToken>::empty());
    assert(count_open(Seq::<TargetToken>::empty()) == 0);
    assert(count_open(open) == 1);
    assert(count_open(close) == 0);
    lemma_parens_match_inversions(e, 0);
    lemma_rendered_operands_atomic(e, 0);
    let r = without_pair(ts, i, j);
    assert forall|k: int| 0 <= k < r.len() && (#[trigger] r[k]) is Operand implies !(
    r[k]->Operand_0.node_type is Binary) by {
        if k < i {
            assert(r[k] == ts[k]);
        } else if k < j - 1 {
            assert(r[k] == ts[k + 1]);
        } else {
            assert(r[k] == ts[k + 2]);
        }
    }
    lemma_fewer_parens_cannot_read_back(e, r);
}

} // verus!
