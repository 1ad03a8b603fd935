//! The generated statements read back. A rendered statement is a sequence of
//! statement tokens: expression tokens, and the fixed pieces of Java text
//! around them (the print call, a declaration's type and name, braces, line
//! breaks, the loop and entry-point headers). Reading back the tokens of a
//! well-typed statement gives the same statement: the same sequence of
//! statements, each expression with its operators, grouping and types.
use vstd::prelude::*;

use crate::compiler::program_text;
use crate::generator::{items_text, java_type, stmt_text};
use crate::grammar::parse_program;
use crate::reparse::{
    expr_tokens, lemma_render_read_back, lemma_text_spells_tokens, read_expr, spell, token_text,
    TargetToken,
};
use crate::syntax_tree::{type_of_keyword, Stmt, ValueType};
use crate::token::{declared_type, Token, TokenType};
use crate::typing::{lemma_parsed_program_reads_back, stmt_well_typed};

verus! {

/// A token of generated statement text.
pub ghost enum StatementToken {
    /// A token of an expression.
    Expr(TargetToken),
    /// `System.out.println(`
    PrintStart,
    /// `);` closing a print call
    PrintEnd,
    /// `<type> <name> = ` opening a declaration
    Declare(ValueType, Seq<char>),
    /// `;` closing a declaration
    Semicolon,
    /// `{`
    OpenBrace,
    /// the line break before each statement of a block
    NewLine,
    /// a line break and `}`
    CloseBrace,
    /// `while (true) `
    WhileTrue,
    /// the header of the entry point `main`, and a line break
    MainHeader,
    /// `break;`
    BreakStatement,
    /// `public class <name> {` and a line break
    ClassOpen(Seq<char>),
}

pub open spec fn lift(ts: Seq<TargetToken>) -> Seq<StatementToken> {
    ts.map_values(|t: TargetToken| StatementToken::Expr(t))
}

/// The type keyword token that declares a value type.
pub open spec fn keyword_of(t: ValueType) -> TokenType {
    match t {
        ValueType::Float => TokenType::F32,
        ValueType::String => TokenType::Str,
        ValueType::Boolean => TokenType::Bool,
    }
}

/// The statement tokens of a rendered statement.
pub open spec fn stmt_tokens(s: Stmt) -> Seq<StatementToken>
    decreases s, 0nat,
{
    match s {
        Stmt::Main(b) => seq![StatementToken::MainHeader] + stmt_tokens(*b),
        Stmt::Output(e) => seq![StatementToken::PrintStart] + lift(expr_tokens(e, 0)) + seq![
            StatementToken::PrintEnd,
        ],
        Stmt::Let(n, t, e) => seq![StatementToken::Declare(type_of_keyword(t), n)] + lift(
            expr_tokens(e, 0),
        ) + seq![StatementToken::Semicolon],
        Stmt::Block(items) => seq![StatementToken::OpenBrace] + items_tokens(items, items.len())
            + seq![StatementToken::CloseBrace],
        Stmt::Loop(b) => seq![StatementToken::WhileTrue] + stmt_tokens(*b),
        Stmt::Break => seq![StatementToken::BreakStatement],
    }
}

/// The tokens of the first `n` statements of a block, each after a line break.
pub open spec fn items_tokens(items: Seq<Stmt>, n: nat) -> Seq<StatementToken>
    decreases items, n,
{
    if n == 0 || n > items.len() {
        Seq::empty()
    } else {
        items_tokens(items, (n - 1) as nat) + seq![StatementToken::NewLine] + stmt_tokens(
            items[n - 1],
        )
    }
}

/// The text of one statement token.
pub open spec fn statement_token_text(t: StatementToken) -> Seq<char> {
    match t {
        StatementToken::Expr(x) => token_text(x),
        StatementToken::PrintStart => "System.out.println("@,
        StatementToken::PrintEnd => ");"@,
        StatementToken::Declare(vt, n) => java_type(vt) + " "@ + n + " = "@,
        StatementToken::Semicolon => ";"@,
        StatementToken::OpenBrace => "{"@,
        StatementToken::NewLine => "\n"@,
        StatementToken::CloseBrace => "\n}"@,
        StatementToken::WhileTrue => "while (true) "@,
        StatementToken::MainHeader => "public static void main(String[] args)\n"@,
        StatementToken::BreakStatement => "break;"@,
        StatementToken::ClassOpen(n) => "public class "@ + n + " {\n"@,
    }
}

/// The text of a sequence of statement tokens.
pub open spec fn spell_statements(ts: Seq<StatementToken>) -> Seq<char>
    decreases ts.len(),
{
    if ts.len() == 0 {
        Seq::empty()
    } else {
        statement_token_text(ts[0]) + spell_statements(ts.drop_first())
    }
}

/// The length of the run of expression tokens at the front.
pub open spec fn expr_run(ts: Seq<StatementToken>) -> nat
    decreases ts.len(),
{
    if ts.len() > 0 && ts[0] is Expr {
        1 + expr_run(ts.drop_first())
    } else {
        0
    }
}

pub open spec fn unlift(ts: Seq<StatementToken>) -> Seq<TargetToken> {
    ts.map_values(|t: StatementToken| t->Expr_0)
}

/// Reads the run of expression tokens at the front as one whole expression.
pub open spec fn read_embedded_expr(ts: Seq<StatementToken>) -> Option<
    (crate::syntax_tree::ExpressionNode, Seq<StatementToken>),
> {
    let k = expr_run(ts);
    if k <= ts.len() {
        match read_expr(unlift(ts.subrange(0, k as int)), 0) {
            Some((e, r)) => if r.len() == 0 {
                Some((e, ts.subrange(k as int, ts.len() as int)))
            } else {
                None
            },
            None => None,
        }
    } else {
        None
    }
}

/// Reads one statement from the front of `ts`; returns it and the tokens
/// after it.
pub open spec fn read_statement(ts: Seq<StatementToken>) -> Option<(Stmt, Seq<StatementToken>)>
    decreases ts.len(), 1nat,
{
    if ts.len() == 0 {
        None
    } else {
        match ts[0] {
            StatementToken::MainHeader => match read_statement(ts.drop_first()) {
                Some((b, r)) => Some((Stmt::Main(Box::new(b)), r)),
                None => None,
            },
            StatementToken::WhileTrue => match read_statement(ts.drop_first()) {
                Some((b, r)) => Some((Stmt::Loop(Box::new(b)), r)),
                None => None,
            },
            StatementToken::BreakStatement => Some((Stmt::Break, ts.drop_first())),
            StatementToken::PrintStart => match read_embedded_expr(ts.drop_first()) {
                Some((e, r)) => if r.len() > 0 && r[0] is PrintEnd {
                    Some((Stmt::Output(e), r.drop_first()))
                } else {
                    None
                },
                None => None,
            },
            StatementToken::Declare(vt, n) => match read_embedded_expr(ts.drop_first()) {
                Some((e, r)) => if r.len() > 0 && r[0] is Semicolon {
                    Some((Stmt::Let(n, keyword_of(vt), e), r.drop_first()))
                } else {
                    None
                },
                None => None,
            },
            StatementToken::OpenBrace => read_items(ts.drop_first(), Seq::empty()),
            _ => None,
        }
    }
}

/// Reads the statements of a block, each after a line break, up to the
/// closing brace; `acc` holds those read so far.
pub open spec fn read_items(ts: Seq<StatementToken>, acc: Seq<Stmt>) -> Option<
    (Stmt, Seq<StatementToken>),
>
    decreases ts.len(), 0nat,
{
    if ts.len() > 0 && ts[0] is CloseBrace {
        Some((Stmt::Block(acc), ts.drop_first()))
    } else if ts.len() > 0 && ts[0] is NewLine {
        match read_statement(ts.drop_first()) {
            Some((s, r)) => if r.len() < ts.len() {
                read_items(r, acc.push(s))
            } else {
                None
            },
            None => None,
        }
    } else {
        None
    }
}

proof fn lemma_expr_run(a: Seq<TargetToken>, b: Seq<StatementToken>)
    requires
        b.len() > 0 ==> !(b[0] is Expr),
    ensures
        expr_run(lift(a) + b) == a.len(),
    decreases a.len(),
{
    if a.len() == 0 {
        assert(lift(a) + b =~= b);
    } else {
        lemma_expr_run(a.drop_first(), b);
        assert((lift(a) + b).drop_first() =~= lift(a.drop_first()) + b);
    }
}

proof fn lemma_read_embedded(e: crate::syntax_tree::ExpressionNode, b: Seq<StatementToken>)
    requires
        crate::syntax_tree::well_typed(e),
        b.len() > 0 ==> !(b[0] is Expr),
    ensures
        read_embedded_expr(lift(expr_tokens(e, 0)) + b) == Some((e, b)),
{
    let a = expr_tokens(e, 0);
    let ts = lift(a) + b;
    lemma_expr_run(a, b);
    assert(ts.subrange(0, a.len() as int) =~= lift(a));
    assert(unlift(lift(a)) =~= a);
    assert(ts.subrange(a.len() as int, ts.len() as int) =~= b);
    lemma_render_read_back(e);
}

/// Reading back the tokens of a well-typed statement gives the statement,
/// whatever follows it.
proof fn lemma_read_statement(s: Stmt, rest: Seq<StatementToken>)
    requires
        stmt_well_typed(s),
    ensures
        read_statement(stmt_tokens(s) + rest) == Some((s, rest)),
    decreases s, 0nat,
{
    let ts = stmt_tokens(s) + rest;
    match s {
        Stmt::Main(b) => {
            assert(ts.drop_first() =~= stmt_tokens(*b) + rest);
            lemma_read_statement(*b, rest);
        },
        Stmt::Loop(b) => {
            assert(ts.drop_first() =~= stmt_tokens(*b) + rest);
            lemma_read_statement(*b, rest);
        },
        Stmt::Break => {
            assert(ts.drop_first() =~= rest);
        },
        Stmt::Output(e) => {
            let tail = seq![StatementToken::PrintEnd] + rest;
            assert(ts.drop_first() =~= lift(expr_tokens(e, 0)) + tail);
            lemma_read_embedded(e, tail);
            assert(tail.drop_first() =~= rest);
        },
        Stmt::Let(n, t, e) => {
            let tail = seq![StatementToken::Semicolon] + rest;
            assert(ts.drop_first() =~= lift(expr_tokens(e, 0)) + tail);
            lemma_read_embedded(e, tail);
            assert(tail.drop_first() =~= rest);
            assert(keyword_of(type_of_keyword(t)) == t) by {
                assert(declared_type(t) is Some);
            }
        },
        Stmt::Block(items) => {
            let tail = seq![StatementToken::CloseBrace] + rest;
            assert(ts.drop_first() =~= items_tokens(items, items.len()) + tail);
            lemma_read_items(items, items.len(), tail, Seq::empty());
            assert(Seq::<Stmt>::empty() + items.subrange(0, items.len() as int) =~= items);
            assert(tail.drop_first() =~= rest);
        },
    }
}

proof fn lemma_read_items(items: Seq<Stmt>, n: nat, tail: Seq<StatementToken>, acc: Seq<Stmt>)
    requires
        n <= items.len(),
        forall|i: int| 0 <= i < items.len() ==> stmt_well_typed(#[trigger] items[i]),
    ensures
        read_items(items_tokens(items, n) + tail, acc) == read_items(
            tail,
            acc + items.subrange(0, n as int),
        ),
    decreases items, n,
{
    if n == 0 {
        assert(items_tokens(items, n) + tail =~= tail);
        assert(acc + items.subrange(0, 0) =~= acc);
    } else {
        let last = items[n - 1];
        let t2 = seq![StatementToken::NewLine] + stmt_tokens(last) + tail;
        assert(items_tokens(items, n) + tail =~= items_tokens(items, (n - 1) as nat) + t2);
        lemma_read_items(items, (n - 1) as nat, t2, acc);
        let acc2 = acc + items.subrange(0, n - 1);
        assert(t2.drop_first() =~= stmt_tokens(last) + tail);
        lemma_read_statement(last, tail);
        assert(acc2.push(last) =~= acc + items.subrange(0, n as int));
    }
}

/// The tokens of a generated class named `name` around `program`.
pub open spec fn program_tokens(name: Seq<char>, program: Stmt) -> Seq<StatementToken> {
    seq![StatementToken::ClassOpen(name)] + stmt_tokens(program) + seq![StatementToken::CloseBrace]
}

/// Reads a generated class: its name and the program inside it, with
/// nothing after it.
pub open spec fn read_program(ts: Seq<StatementToken>) -> Option<(Seq<char>, Stmt)> {
    if ts.len() > 0 && ts[0] is ClassOpen {
        match read_statement(ts.drop_first()) {
            Some((s, r)) => if r == seq![StatementToken::CloseBrace] {
                Some((ts[0]->ClassOpen_0, s))
            } else {
                None
            },
            None => None,
        }
    } else {
        None
    }
}

proof fn lemma_spell_statements_concat(a: Seq<StatementToken>, b: Seq<StatementToken>)
    ensures
        spell_statements(a + b) == spell_statements(a) + spell_statements(b),
    decreases a.len(),
{
    if a.len() == 0 {
        assert(a + b =~= b);
        assert(spell_statements(a) + spell_statements(b) =~= spell_statements(b));
    } else {
        lemma_spell_statements_concat(a.drop_first(), b);
        assert((a + b).drop_first() =~= a.drop_first() + b);
        assert(spell_statements(a + b) =~= statement_token_text(a[0]) + (spell_statements(
            a.drop_first(),
        ) + spell_statements(b)));
    }
}

proof fn lemma_spell_single(t: StatementToken)
    ensures
        spell_statements(seq![t]) == statement_token_text(t),
{
    assert(seq![t].drop_first() =~= Seq::<StatementToken>::empty());
    assert(spell_statements(Seq::<StatementToken>::empty()) == Seq::<char>::empty());
    assert(statement_token_text(t) + Seq::<char>::empty() =~= statement_token_text(t));
}

proof fn lemma_spell_lift(a: Seq<TargetToken>)
    ensures
        spell_statements(lift(a)) == spell(a),
    decreases a.len(),
{
    if a.len() > 0 {
        lemma_spell_lift(a.drop_first());
        assert(lift(a).drop_first() =~= lift(a.drop_first()));
    } else {
        assert(lift(a).len() == 0);
    }
}

/// The generated text of a statement is the spelling of its tokens.
proof fn lemma_statement_text(s: Stmt)
    ensures
        stmt_text(s) == spell_statements(stmt_tokens(s)),
    decreases s, 0nat,
{
    match s {
        Stmt::Main(b) => {
            lemma_statement_text(*b);
            lemma_spell_statements_concat(seq![StatementToken::MainHeader], stmt_tokens(*b));
            lemma_spell_single(StatementToken::MainHeader);
        },
        Stmt::Loop(b) => {
            lemma_statement_text(*b);
            lemma_spell_statements_concat(seq![StatementToken::WhileTrue], stmt_tokens(*b));
            lemma_spell_single(StatementToken::WhileTrue);
        },
        Stmt::Break => {
            lemma_spell_single(StatementToken::BreakStatement);
        },
        Stmt::Output(e) => {
            let head = seq![StatementToken::PrintStart];
            let mid = lift(expr_tokens(e, 0));
            let end = seq![StatementToken::PrintEnd];
            lemma_spell_statements_concat(head, mid);
            lemma_spell_statements_concat(head + mid, end);
            lemma_spell_single(StatementToken::PrintStart);
            lemma_spell_single(StatementToken::PrintEnd);
            lemma_spell_lift(expr_tokens(e, 0));
            lemma_text_spells_tokens(e, 0);
        },
        Stmt::Let(n, t, e) => {
            let head = seq![StatementToken::Declare(type_of_keyword(t), n)];
            let mid = lift(expr_tokens(e, 0));
            let end = seq![StatementToken::Semicolon];
            lemma_spell_statements_concat(head, mid);
            lemma_spell_statements_concat(head + mid, end);
            lemma_spell_single(StatementToken::Declare(type_of_keyword(t), n));
            lemma_spell_single(StatementToken::Semicolon);
            lemma_spell_lift(expr_tokens(e, 0));
            lemma_text_spells_tokens(e, 0);
            assert(stmt_text(s) =~= spell_statements(stmt_tokens(s)));
        },
        Stmt::Block(items) => {
            let head = seq![StatementToken::OpenBrace];
            let mid = items_tokens(items, items.len());
            let end = seq![StatementToken::CloseBrace];
            lemma_items_text(items, items.len());
            lemma_spell_statements_concat(head, mid);
            lemma_spell_statements_concat(head + mid, end);
            lemma_spell_single(StatementToken::OpenBrace);
            lemma_spell_single(StatementToken::CloseBrace);
        },
    }
}

proof fn lemma_items_text(items: Seq<Stmt>, n: nat)
    requires
        n <= items.len(),
    ensures
        items_text(items, n) == spell_statements(items_tokens(items, n)),
    decreases items, n,
{
    if n > 0 {
        let last = items[n - 1];
        lemma_items_text(items, (n - 1) as nat);
        lemma_statement_text(last);
        let a = items_tokens(items, (n - 1) as nat);
        let nl = seq![StatementToken::NewLine];
        lemma_spell_statements_concat(a, nl);
        lemma_spell_statements_concat(a + nl, stmt_tokens(last));
        lemma_spell_single(StatementToken::NewLine);
    } else {
        assert(items_tokens(items, n).len() == 0);
    }
}

/// A compiled program reads back: the generated class text is the spelling
/// of its statement tokens, and reading those tokens gives back the class
/// name and the parsed program, with the same statements in the same order
/// and every expression with the same operators, grouping and types.
pub proof fn lemma_generated_program_reads_back(toks: Seq<Token>, name: Seq<char>)
    requires
        parse_program(toks) is Ok,
    ensures
        program_text(name, parse_program(toks)->Ok_0) == spell_statements(
            program_tokens(name, parse_program(toks)->Ok_0),
        ),
        read_program(program_tokens(name, parse_program(toks)->Ok_0)) == Some(
            (name, parse_program(toks)->Ok_0),
        ),
{
    let s = parse_program(toks)->Ok_0;
    lemma_parsed_program_reads_back(toks);
    let open = seq![StatementToken::ClassOpen(name)];
    let close = seq![StatementToken::CloseBrace];
    lemma_read_statement(s, close);
    let ts = program_tokens(name, s);
    assert(ts.drop_first() =~= stmt_tokens(s) + close);
    lemma_statement_text(s);
    lemma_spell_statements_concat(open, stmt_tokens(s));
    lemma_spell_statements_concat(open + stmt_tokens(s), close);
    lemma_spell_single(StatementToken::ClassOpen(name));
    lemma_spell_single(StatementToken::CloseBrace);
}

} // verus!
