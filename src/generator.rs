use vstd::prelude::*;

use crate::syntax_tree::{
    is_binary_operator, is_operator, precedence, stmt_view, stmts_view, ExpressionNode, ExpressionNodeType,
    StatementNode, Stmt, ValueType, type_of_keyword,
};
use crate::token::{int_text, nat_text, digit_char, Token, TokenType};

verus! {

/// Java spelling of a literal: strings are quoted, numbers carry the `f`
/// suffix of a single-precision literal.
pub open spec fn literal_text(t: TokenType) -> Seq<char> {
    match t {
        TokenType::StringLiteral(s) => "\""@ + s@ + "\""@,
        TokenType::Decimal(d) => d@ + "f"@,
        TokenType::Integer(n) => int_text(n as int) + "f"@,
        TokenType::True => "true"@,
        TokenType::False => "false"@,
        _ => Seq::empty(),
    }
}

/// Java spelling of an infix operator.
pub open spec fn operator_text(t: TokenType) -> Seq<char> {
    match t {
        TokenType::Plus => "+"@,
        TokenType::Minus => "-"@,
        TokenType::Star => "*"@,
        TokenType::Slash => "/"@,
        TokenType::GreaterThan => ">"@,
        TokenType::LessThan => "<"@,
        TokenType::GreaterEqualTo => ">="@,
        TokenType::LessEqualTo => "<="@,
        TokenType::DoubleEquals => "=="@,
        TokenType::And => "&&"@,
        TokenType::Or => "||"@,
        _ => ""@,
    }
}

/// Java text of an expression placed where precedence `ctx` is demanded:
/// a binary node whose own precedence is lower is wrapped in parentheses.
/// The left operand demands its parent's precedence, the right operand one
/// more, so that chains of equal precedence keep grouping to the left.
pub open spec fn expr_text(e: ExpressionNode, ctx: nat) -> Seq<char>
    decreases e,
{
    match e.node_type {
        ExpressionNodeType::Literal { value_token } => literal_text(value_token.token_type),
        ExpressionNodeType::Variable { identifier } => identifier@,
        ExpressionNodeType::Binary { left, operator, right } => {
            let p = precedence(operator.token_type);
            let inner = expr_text(*left, p) + " "@ + operator_text(operator.token_type) + " "@
                + expr_text(*right, p + 1);
            if p < ctx {
                "("@ + inner + ")"@
            } else {
                inner
            }
        },
    }
}

/// Java type keyword of a value type.
pub open spec fn java_type(t: ValueType) -> Seq<char> {
    match t {
        ValueType::Float => "float"@,
        ValueType::String => "String"@,
        ValueType::Boolean => "boolean"@,
    }
}

/// Java text of a statement. A block puts each child on a line of its own
/// between braces; a loop repeats its block until it breaks; the program
/// root is the entry point `main`.
pub open spec fn stmt_text(s: Stmt) -> Seq<char>
    decreases s, 0nat,
{
    match s {
        Stmt::Main(body) => "public static void main(String[] args)\n"@ + stmt_text(*body),
        Stmt::Output(e) => "System.out.println("@ + expr_text(e, 0) + ");"@,
        Stmt::Let(name, t, e) => java_type(type_of_keyword(t)) + " "@ + name + " = "@ + expr_text(e, 0) + ";"@,
        Stmt::Block(items) => "{"@ + items_text(items, items.len()) + "\n}"@,
        Stmt::Loop(body) => "while (true) "@ + stmt_text(*body),
        Stmt::Break => "break;"@,
    }
}

/// The first `n` statements of `items`, each on a new line.
pub open spec fn items_text(items: Seq<Stmt>, n: nat) -> Seq<char>
    decreases items, n,
{
    if n == 0 || n > items.len() {
        Seq::empty()
    } else {
        items_text(items, (n - 1) as nat) + "\n"@ + stmt_text(items[n - 1])
    }
}

/// One decimal digit.
fn digit_text(d: u64) -> (r: &'static str)
    requires
        d < 10,
    ensures
        r@ == seq![digit_char(d as nat)],
{
    proof {
        reveal_strlit("0");
        reveal_strlit("1");
        reveal_strlit("2");
        reveal_strlit("3");
        reveal_strlit("4");
        reveal_strlit("5");
        reveal_strlit("6");
        reveal_strlit("7");
        reveal_strlit("8");
        reveal_strlit("9");
    }
    if d == 0 { "0" }
    else if d == 1 { "1" }
    else if d == 2 { "2" }
    else if d == 3 { "3" }
    else if d == 4 { "4" }
    else if d == 5 { "5" }
    else if d == 6 { "6" }
    else if d == 7 { "7" }
    else if d == 8 { "8" }
    else { "9" }
}

/// Decimal digits of `n`.
fn natural_text(n: u64) -> (r: String)
    ensures
        r@ == nat_text(n as nat),
    decreases n,
{
    if n < 10 {
        String::from_str(digit_text(n))
    } else {
        let mut s = natural_text(n / 10);
        s.append(digit_text(n % 10));
        s
    }
}

/// Decimal spelling of `n`, with a minus sign when negative.
pub fn integer_text(n: i64) -> (r: String)
    ensures
        r@ == int_text(n as int),
{
    if n < 0 {
        let m: u64 = (0i128 - (n as i128)) as u64;
        let mut s = String::from_str("-");
        proof {
            reveal_strlit("-");
        }
        let d = natural_text(m);
        s.append(d.as_str());
        s
    } else {
        natural_text(n as u64)
    }
}

/// Java spelling of a literal token.
pub fn render_literal(t: &Token) -> (r: String)
    ensures
        r@ == literal_text(t.token_type),
{
    match &t.token_type {
        TokenType::StringLiteral(s) => {
            let mut out = String::from_str("\"");
            out.append(s.as_str());
            out.append("\"");
            out
        },
        TokenType::Decimal(d) => {
            let mut out = d.clone();
            out.append("f");
            out
        },
        TokenType::Integer(n) => {
            let mut out = integer_text(*n);
            out.append("f");
            out
        },
        TokenType::True => String::from_str("true"),
        TokenType::False => String::from_str("false"),
        _ => String::new(),
    }
}

/// Java's precedence level of an infix operator.
pub fn operator_precedence(operator: &Token) -> (r: u8)
    requires
        is_binary_operator(operator.token_type),
    ensures
        r as nat == precedence(operator.token_type),
        1 <= r <= 6,
{
    match operator.token_type {
        TokenType::Or => 1,
        TokenType::And => 2,
        TokenType::DoubleEquals => 3,
        TokenType::Plus | TokenType::Minus => 5,
        TokenType::Star | TokenType::Slash => 6,
        _ => 4,
    }
}

fn operator_symbol(operator: &Token) -> (r: &'static str)
    ensures
        r@ == operator_text(operator.token_type),
{
    match operator.token_type {
        TokenType::Plus => "+",
        TokenType::Minus => "-",
        TokenType::Star => "*",
        TokenType::Slash => "/",
        TokenType::GreaterThan => ">",
        TokenType::LessThan => "<",
        TokenType::GreaterEqualTo => ">=",
        TokenType::LessEqualTo => "<=",
        TokenType::DoubleEquals => "==",
        TokenType::And => "&&",
        TokenType::Or => "||",
        _ => "",
    }
}

/// Java text of `e` where precedence `parent_precedence` is demanded; the
/// root of an expression is rendered with 0.
pub fn render_expression(e: &ExpressionNode, parent_precedence: u8) -> (r: String)
    ensures
        r@ == expr_text(*e, parent_precedence as nat),
    decreases e,
{
    match &e.node_type {
        ExpressionNodeType::Literal { value_token } => render_literal(value_token),
        ExpressionNodeType::Variable { identifier } => identifier.clone(),
        ExpressionNodeType::Binary { left, operator, right } => {
            let p: u8 = if is_operator(operator) {
                operator_precedence(operator)
            } else {
                0
            };
            let lhs = render_expression(left, p);
            let rhs = render_expression(right, p + 1);
            let mut out = if p < parent_precedence {
                String::from_str("(")
            } else {
                String::new()
            };
            out.append(lhs.as_str());
            out.append(" ");
            out.append(operator_symbol(operator));
            out.append(" ");
            out.append(rhs.as_str());
            if p < parent_precedence {
                out.append(")");
            }
            proof {
                assert(p as nat == precedence(operator.token_type));
            }
            out
        },
    }
}

/// Java type keyword declared by a type keyword token.
fn type_keyword(t: &Token) -> (r: &'static str)
    ensures
        r@ == java_type(type_of_keyword(t.token_type)),
{
    match t.token_type {
        TokenType::Str => "String",
        TokenType::Bool => "boolean",
        _ => "float",
    }
}

/// Java text of a statement.
pub fn render_statement(s: &StatementNode) -> (r: String)
    ensures
        r@ == stmt_text(stmt_view(*s)),
    decreases s,
{
    match s {
        StatementNode::Main { body } => {
            let mut out = String::from_str("public static void main(String[] args)\n");
            let b = render_statement(body);
            out.append(b.as_str());
            out
        },
        StatementNode::Output { expression } => {
            let mut out = String::from_str("System.out.println(");
            let e = render_expression(expression, 0);
            out.append(e.as_str());
            out.append(");");
            out
        },
        StatementNode::Let { identifier, type_token, expression } => {
            let mut out = String::from_str(type_keyword(type_token));
            out.append(" ");
            out.append(identifier.as_str());
            out.append(" = ");
            let e = render_expression(expression, 0);
            out.append(e.as_str());
            out.append(";");
            out
        },
        StatementNode::Block { children } => {
            let mut out = String::from_str("{");
            proof {
                assert(decreases_to!(*s => *children));
            }
            let mut i: usize = 0;
            while i < children.len()
                invariant
                    0 <= i <= children@.len(),
                    out@ == "{"@ + items_text(stmts_view(children@, i as nat), i as nat),
                    decreases_to!(*s => *children),
                decreases children@.len() - i,
            {
                proof {
                    assert(decreases_to!(*children => children[i as int]));
                }
                let c = render_statement(&children[i]);
                proof {
                    lemma_stmts_view_prefix(children@, (i + 1) as nat);
                    lemma_stmts_view_prefix(children@, i as nat);
                    lemma_items_text_prefix(stmts_view(children@, (i + 1) as nat), i as nat);
                    assert(stmts_view(children@, (i + 1) as nat).subrange(0, i as int) =~= stmts_view(
                        children@,
                        i as nat,
                    ).subrange(0, i as int));
                    lemma_items_text_prefix(stmts_view(children@, i as nat), i as nat);
                }
                out.append("\n");
                out.append(c.as_str());
                i = i + 1;
            }
            proof {
                lemma_stmts_view_prefix(children@, children@.len());
            }
            out.append("\n}");
            out
        },
        StatementNode::Loop { body } => {
            let mut out = String::from_str("while (true) ");
            let b = render_statement(body);
            out.append(b.as_str());
            out
        },
        StatementNode::Break => String::from_str("break;"),
    }
}

proof fn lemma_stmts_view_prefix(cs: Seq<StatementNode>, n: nat)
    requires
        n <= cs.len(),
    ensures
        stmts_view(cs, n).len() == n,
        forall|i: int| 0 <= i < n ==> #[trigger] stmts_view(cs, n)[i] == stmt_view(cs[i]),
    decreases n,
{
    if n > 0 {
        lemma_stmts_view_prefix(cs, (n - 1) as nat);
    }
}

/// The text of a prefix depends only on the items in it.
proof fn lemma_items_text_prefix(items: Seq<Stmt>, n: nat)
    requires
        n <= items.len(),
    ensures
        items_text(items, n) == items_text(items.subrange(0, n as int), n),
    decreases n,
{
    if n > 0 {
        lemma_items_text_prefix(items, (n - 1) as nat);
        lemma_items_text_prefix(items.subrange(0, n as int), (n - 1) as nat);
        assert(items.subrange(0, n as int).subrange(0, n - 1) =~= items.subrange(0, n - 1));
    }
}

} // verus!
