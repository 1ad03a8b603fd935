use vstd::prelude::*;

use crate::token::{has_value, value_text, Token, TokenType};

verus! {

/// The static type of an expression.
#[derive(Debug, Clone, Copy, PartialEq, Eq, Structural)]
pub enum ValueType {
    Float,
    String,
    Boolean,
}

/// A typed expression: its shape and the type resolved when it was built.
#[derive(Debug)]
pub struct ExpressionNode {
    pub node_type: ExpressionNodeType,
    pub value_type: ValueType,
}

#[derive(Debug)]
pub enum ExpressionNodeType {
    Literal { value_token: Box<Token> },
    Variable { identifier: String },
    Binary { left: Box<ExpressionNode>, operator: Box<Token>, right: Box<ExpressionNode> },
}

#[derive(Debug)]
pub enum StatementNode {
    Main { body: Box<StatementNode> },
    Output { expression: ExpressionNode },
    Let { identifier: String, type_token: Token, expression: ExpressionNode },
    Block { children: Vec<StatementNode> },
    Loop { body: Box<StatementNode> },
    Break,
}

impl ExpressionNode {
    pub fn new(node_type: ExpressionNodeType, value_type: ValueType) -> (r: ExpressionNode)
        ensures
            r == (ExpressionNode { node_type, value_type }),
    {
        ExpressionNode { node_type, value_type }
    }
}

impl ExpressionNodeType {
    /// The spelling of a literal node's token.
    pub fn get_value(&self) -> (r: String)
        requires
            self is Literal,
            has_value(self->value_token.token_type),
        ensures
            r@ == value_text(self->value_token.token_type),
    {
        match self {
            ExpressionNodeType::Literal { value_token } => value_token.get_value(),
            _ => String::new(),
        }
    }
}

/// Whether a statement can take children: a block, or a program root
/// whose body can.
pub open spec fn holds_children(s: Stmt) -> bool
    decreases s,
{
    match s {
        Stmt::Block(_) => true,
        Stmt::Main(body) => holds_children(*body),
        _ => false,
    }
}

/// `s` with `child` appended to the block it holds.
pub open spec fn with_child(s: Stmt, child: Stmt) -> Stmt
    decreases s,
{
    match s {
        Stmt::Block(items) => Stmt::Block(items.push(child)),
        Stmt::Main(body) => Stmt::Main(Box::new(with_child(*body, child))),
        _ => s,
    }
}

/// Appending a statement appends its view.
pub proof fn lemma_stmts_view_push(cs: Seq<StatementNode>, s: StatementNode)
    ensures
        stmts_view(cs.push(s), cs.len() + 1) == stmts_view(cs, cs.len()).push(stmt_view(s)),
{
    lemma_stmts_view_same_prefix(cs, cs.push(s), cs.len());
}

proof fn lemma_stmts_view_same_prefix(cs: Seq<StatementNode>, ds: Seq<StatementNode>, n: nat)
    requires
        n <= cs.len(),
        n <= ds.len(),
        forall|i: int| 0 <= i < n ==> cs[i] == ds[i],
    ensures
        stmts_view(cs, n) == stmts_view(ds, n),
    decreases n,
{
    if n > 0 {
        lemma_stmts_view_same_prefix(cs, ds, (n - 1) as nat);
    }
}

impl StatementNode {
    /// Appends `child` to this block, or to the block under this program
    /// root.
    pub fn add_child(&mut self, child: StatementNode)
        requires
            holds_children(stmt_view(*old(self))),
        ensures
            stmt_view(*final(self)) == with_child(stmt_view(*old(self)), stmt_view(child)),
        decreases *old(self),
    {
        match self {
            StatementNode::Block { children } => {
                let ghost before = children@;
                children.push(child);
                proof {
                    lemma_stmts_view_push(before, child);
                }
            },
            StatementNode::Main { body } => {
                body.add_child(child);
            },
            _ => {},
        }
    }

    /// Whether this is the program root.
    pub fn is_main(&self) -> (r: bool)
        ensures
            r == (*self is Main),
    {
        match self {
            StatementNode::Main { .. } => true,
            _ => false,
        }
    }

    /// Whether this is a block, or a program root over one.
    pub fn has_body(&self) -> (r: bool)
        ensures
            r == holds_children(stmt_view(*self)),
        decreases *self,
    {
        match self {
            StatementNode::Main { body } => body.has_body(),
            StatementNode::Block { .. } => true,
            _ => false,
        }
    }
}

/// The mathematical shape of a statement: names are character sequences and
/// blocks are sequences of statements.
pub ghost enum Stmt {
    Main(Box<Stmt>),
    Output(ExpressionNode),
    /// A declaration: the name, the type keyword token, the initializer.
    Let(Seq<char>, TokenType, ExpressionNode),
    Block(Seq<Stmt>),
    Loop(Box<Stmt>),
    Break,
}

pub open spec fn stmt_view(s: StatementNode) -> Stmt
    decreases s, 0nat,
{
    match s {
        StatementNode::Main { body } => Stmt::Main(Box::new(stmt_view(*body))),
        StatementNode::Output { expression } => Stmt::Output(expression),
        StatementNode::Let { identifier, type_token, expression } => Stmt::Let(
            identifier@,
            type_token.token_type,
            expression,
        ),
        StatementNode::Block { children } => Stmt::Block(stmts_view(children@, children@.len() as nat)),
        StatementNode::Loop { body } => Stmt::Loop(Box::new(stmt_view(*body))),
        StatementNode::Break => Stmt::Break,
    }
}

/// The views of the first `n` statements of `cs`.
pub open spec fn stmts_view(cs: Seq<StatementNode>, n: nat) -> Seq<Stmt>
    decreases cs, n,
{
    if n == 0 || n > cs.len() {
        Seq::empty()
    } else {
        stmts_view(cs, (n - 1) as nat).push(stmt_view(cs[n - 1]))
    }
}

/// The type that a type keyword declares (`f32`, `str`, `bool`).
pub open spec fn type_of_keyword(t: TokenType) -> ValueType {
    match t {
        TokenType::Str => ValueType::String,
        TokenType::Bool => ValueType::Boolean,
        _ => ValueType::Float,
    }
}

/// The infix operators: arithmetic, comparison, equality and logic.
pub open spec fn is_binary_operator(t: TokenType) -> bool {
    match t {
        TokenType::Plus | TokenType::Minus | TokenType::Star | TokenType::Slash
        | TokenType::GreaterThan | TokenType::LessThan | TokenType::GreaterEqualTo
        | TokenType::LessEqualTo | TokenType::DoubleEquals | TokenType::And
        | TokenType::Or => true,
        _ => false,
    }
}

pub open spec fn is_arithmetic(t: TokenType) -> bool {
    t is Plus || t is Minus || t is Star || t is Slash
}

pub open spec fn is_comparison(t: TokenType) -> bool {
    t is GreaterThan || t is LessThan || t is GreaterEqualTo || t is LessEqualTo
}

pub open spec fn is_logical(t: TokenType) -> bool {
    t is And || t is Or
}

/// Java's precedence level of an operator, from `||` (lowest, 1) through
/// `&&`, `==`, the relational operators and the additive ones to the
/// multiplicative operators (highest, 6); 0 for anything else. Java ranks
/// `==` below `<`, `>`, `<=` and `>=`.
pub open spec fn precedence(t: TokenType) -> nat {
    match t {
        TokenType::Or => 1,
        TokenType::And => 2,
        TokenType::DoubleEquals => 3,
        TokenType::GreaterThan | TokenType::LessThan | TokenType::GreaterEqualTo
        | TokenType::LessEqualTo => 4,
        TokenType::Plus | TokenType::Minus => 5,
        TokenType::Star | TokenType::Slash => 6,
        _ => 0,
    }
}

/// The left binding power of an operator in the source grammar, from `or`
/// (lowest) through `and`, the comparisons together with `==`, and the
/// additive operators to the multiplicative ones. The right binding power
/// is one more, which makes chains of equal binding power group to the left.
pub open spec fn left_bp(t: TokenType) -> nat {
    match t {
        TokenType::And => 2,
        TokenType::GreaterThan | TokenType::LessThan | TokenType::GreaterEqualTo
        | TokenType::LessEqualTo | TokenType::DoubleEquals => 4,
        TokenType::Plus | TokenType::Minus => 6,
        TokenType::Star | TokenType::Slash => 8,
        _ => 0,
    }
}

pub open spec fn right_bp(t: TokenType) -> nat {
    left_bp(t) + 1
}

/// The type of a literal token, if it is a literal.
pub open spec fn literal_type(t: TokenType) -> Option<ValueType> {
    match t {
        TokenType::StringLiteral(_) => Some(ValueType::String),
        TokenType::Decimal(_) | TokenType::Integer(_) => Some(ValueType::Float),
        TokenType::True | TokenType::False => Some(ValueType::Boolean),
        _ => None,
    }
}

/// The type of `l op r`: arithmetic yields `String` when either side is a
/// string and `Float` otherwise; comparisons need two floats, logic two
/// booleans, equality takes anything; these three yield `Boolean`. `None` is
/// a type mismatch.
pub open spec fn binary_type(op: TokenType, l: ValueType, r: ValueType) -> Option<ValueType> {
    if is_arithmetic(op) {
        if l == ValueType::String || r == ValueType::String {
            Some(ValueType::String)
        } else {
            Some(ValueType::Float)
        }
    } else if is_comparison(op) {
        if l == ValueType::Float && r == ValueType::Float {
            Some(ValueType::Boolean)
        } else {
            None
        }
    } else if is_logical(op) {
        if l == ValueType::Boolean && r == ValueType::Boolean {
            Some(ValueType::Boolean)
        } else {
            None
        }
    } else if op is DoubleEquals {
        Some(ValueType::Boolean)
    } else {
        None
    }
}

/// Every node's type is the one its shape determines: literals by their
/// kind, binary nodes by their operator and operand types.
pub open spec fn well_typed(e: ExpressionNode) -> bool
    decreases e,
{
    match e.node_type {
        ExpressionNodeType::Literal { value_token } => literal_type(value_token.token_type) == Some(
            e.value_type,
        ),
        ExpressionNodeType::Variable { .. } => true,
        ExpressionNodeType::Binary { left, operator, right } => {
            &&& is_binary_operator(operator.token_type)
            &&& well_typed(*left)
            &&& well_typed(*right)
            &&& binary_type(operator.token_type, left.value_type, right.value_type) == Some(
                e.value_type,
            )
        },
    }
}

/// The binding powers of an infix operator.
pub fn infix_binding_power(op: &Token) -> (r: (u8, u8))
    requires
        is_binary_operator(op.token_type),
    ensures
        r.0 as nat == left_bp(op.token_type),
        r.1 as nat == right_bp(op.token_type),
{
    match op.token_type {
        TokenType::Or => (0, 1),
        TokenType::And => (2, 3),
        TokenType::Plus | TokenType::Minus => (6, 7),
        TokenType::Star | TokenType::Slash => (8, 9),
        _ => (4, 5),
    }
}

/// Whether a token is an infix operator.
pub fn is_operator(t: &Token) -> (r: bool)
    ensures
        r == is_binary_operator(t.token_type),
{
    match t.token_type {
        TokenType::Plus | TokenType::Minus | TokenType::Star | TokenType::Slash
        | TokenType::GreaterThan | TokenType::LessThan | TokenType::GreaterEqualTo
        | TokenType::LessEqualTo | TokenType::DoubleEquals | TokenType::And
        | TokenType::Or => true,
        _ => false,
    }
}

/// The type of `l op r`, or `None` when the operand types are refused.
pub fn resolve_binary_type(op: &Token, l: ValueType, r: ValueType) -> (res: Option<ValueType>)
    requires
        is_binary_operator(op.token_type),
    ensures
        res == binary_type(op.token_type, l, r),
{
    match op.token_type {
        TokenType::Plus | TokenType::Minus | TokenType::Star | TokenType::Slash => {
            if l == ValueType::String || r == ValueType::String {
                Some(ValueType::String)
            } else {
                Some(ValueType::Float)
            }
        },
        TokenType::And | TokenType::Or => {
            if l == ValueType::Boolean && r == ValueType::Boolean {
                Some(ValueType::Boolean)
            } else {
                None
            }
        },
        TokenType::DoubleEquals => Some(ValueType::Boolean),
        _ => {
            if l == ValueType::Float && r == ValueType::Float {
                Some(ValueType::Boolean)
            } else {
                None
            }
        },
    }
}

} // verus!
