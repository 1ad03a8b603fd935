use vstd::prelude::*;

use crate::error::{ParseError, ParseErrorKind};
use crate::grammar::{
    climb, parse_expr, parse_items, parse_let, parse_loop, parse_output, parse_program,
    parse_statement, tok_at,
};
use crate::scope::{bind, Frames, Scope};
use crate::syntax_tree::{
    infix_binding_power, is_operator, lemma_stmts_view_push, literal_type, resolve_binary_type,
    stmt_view, stmts_view, ExpressionNode, ExpressionNodeType, StatementNode, Stmt, ValueType,
};
use crate::token::{Token, TokenType};
use crate::typing::{lemma_parsed_program_reads_back, stmt_well_typed};

verus! {

/// Parses a token sequence into a typed syntax tree, resolving names and
/// checking types as it goes, and stops at the first error.
pub struct Parser<'a> {
    tokens: &'a Vec<Token>,
    index: usize,
    pub file_name: String,
    scope: Scope,
}

/// Whether `toks` is what a lexer hands over: nonempty, with the
/// end-of-input marker last.
pub open spec fn ends_with_marker(toks: Seq<Token>) -> bool {
    toks.len() > 0 && toks.last().token_type is EndOfFile
}

/// The statement `r` came out as the grammar says: on success its shape, the
/// frames and the position after it; on failure the same error.
pub open spec fn stmt_outcome(
    r: Result<StatementNode, ParseError>,
    expected: Result<(Stmt, Frames, int), ParseError>,
    frames_after: Frames,
    index_after: int,
) -> bool {
    match expected {
        Ok((s, f, p)) => r is Ok && stmt_view(r->Ok_0) == s && frames_after == f && index_after == p,
        Err(e) => r == Err::<StatementNode, ParseError>(e),
    }
}

/// Only the innermost frame differs: the same number of frames, the same
/// enclosing ones.
pub open spec fn same_enclosing(a: Frames, b: Frames) -> bool {
    a.len() == b.len() && a.drop_last() == b.drop_last()
}

/// The type of a literal token, if it is one.
fn literal_value_type(t: &Token) -> (r: Option<ValueType>)
    ensures
        r == literal_type(t.token_type),
{
    match t.token_type {
        TokenType::StringLiteral(_) => Some(ValueType::String),
        TokenType::Decimal(_) | TokenType::Integer(_) => Some(ValueType::Float),
        TokenType::True | TokenType::False => Some(ValueType::Boolean),
        _ => None,
    }
}

impl<'a> Parser<'a> {
    /// The tokens being parsed.
    pub closed spec fn token_seq(&self) -> Seq<Token> {
        self.tokens@
    }

    /// The position of the next token.
    pub closed spec fn position(&self) -> int {
        self.index as int
    }

    /// The scope frames open at this point.
    pub closed spec fn frames(&self) -> Frames {
        self.scope@
    }

    /// The name of the file being parsed.
    pub closed spec fn source_name(&self) -> String {
        self.file_name
    }

    /// The tokens end with the marker, the position is within them, and the
    /// scope is well formed.
    pub closed spec fn wf(&self) -> bool {
        &&& ends_with_marker(self.tokens@)
        &&& self.index <= self.tokens@.len()
        &&& self.scope.wf()
    }

    /// A parser at the first token, with one empty frame.
    pub fn new(file_name: String, tokens: &'a Vec<Token>) -> (r: Parser<'a>)
        requires
            ends_with_marker(tokens@),
        ensures
            r.wf(),
            r.token_seq() == tokens@,
            r.position() == 0,
            r.frames() == seq![Map::<Seq<char>, ValueType>::empty()],
            r.source_name() == file_name,
    {
        Parser { tokens, index: 0, file_name, scope: Scope::new() }
    }

    /// The next token; past the end, the end-of-input marker.
    pub fn peek(&self) -> (r: &'a Token)
        requires
            self.wf(),
        ensures
            *r == tok_at(self.token_seq(), self.position()),
    {
        if self.index < self.tokens.len() {
            &self.tokens[self.index]
        } else {
            let n = self.tokens.len();
            &self.tokens[n - 1]
        }
    }

    /// Returns the next token and moves past it; at the end, stays on the
    /// end-of-input marker.
    pub fn consume(&mut self) -> (r: &'a Token)
        requires
            old(self).wf(),
        ensures
            final(self).wf(),
            *r == tok_at(old(self).token_seq(), old(self).position()),
            final(self).token_seq() == old(self).token_seq(),
            final(self).frames() == old(self).frames(),
            final(self).source_name() == old(self).source_name(),
            final(self).position() == if old(self).position() < old(self).token_seq().len() {
                old(self).position() + 1
            } else {
                old(self).position()
            },
    {
        let t = self.peek();
        if self.index < self.tokens.len() {
            self.index = self.index + 1;
        }
        t
    }

    fn fail<T>(&self, kind: ParseErrorKind) -> (r: Result<T, ParseError>)
        requires
            self.wf(),
        ensures
            r == Err::<T, ParseError>(
                ParseError { kind, line_number: tok_at(self.tokens@, self.index as int).line_number },
            ),
    {
        Err(ParseError::new(kind, self.peek().line_number))
    }

    /// An expression whose operators bind at least as tightly as `min_bp`.
    fn expression(&mut self, min_bp: u8) -> (r: Result<ExpressionNode, ParseError>)
        requires
            old(self).wf(),
        ensures
            final(self).wf(),
            final(self).tokens@ == old(self).tokens@,
            final(self).scope@ == old(self).scope@,
            final(self).file_name == old(self).file_name,
            match parse_expr(old(self).tokens@, old(self).scope@, old(self).index as int, min_bp as nat) {
                Ok((e, p)) => r == Ok::<ExpressionNode, ParseError>(e) && final(self).index == p,
                Err(e) => r == Err::<ExpressionNode, ParseError>(e),
            },
        decreases old(self).tokens@.len() - old(self).index, 1nat,
    {
        let ghost toks = self.tokens@;
        let ghost fr = self.scope@;
        let start = self.index;
        let t = self.peek();
        let mut lhs = match literal_value_type(t) {
            Some(vt) => {
                ExpressionNode {
                    node_type: ExpressionNodeType::Literal { value_token: Box::new(t.duplicate()) },
                    value_type: vt,
                }
            },
            None => match &t.token_type {
                TokenType::Identifier(name) => match self.scope.resolve(name) {
                    Ok(vt) => ExpressionNode {
                        node_type: ExpressionNodeType::Variable { identifier: name.clone() },
                        value_type: vt,
                    },
                    Err(kind) => {
                        return Err(ParseError::new(kind, t.line_number));
                    },
                },
                TokenType::LeftParen => {
                    self.consume();
                    let inner = match self.expression(0) {
                        Ok(e) => e,
                        Err(e) => {
                            return Err(e);
                        },
                    };
                    if !(start < self.index && matches!(self.peek().token_type, TokenType::RightParen)) {
                        return self.fail(ParseErrorKind::MalformedGrouping);
                    }
                    inner
                },
                _ => {
                    return Err(ParseError::new(ParseErrorKind::UnexpectedToken, t.line_number));
                },
            },
        };
        self.consume();
        assert(parse_expr(toks, fr, start as int, min_bp as nat) == climb(toks, fr, self.index as int, lhs, min_bp as nat));
        loop
            invariant
                self.wf(),
                self.tokens@ == toks,
                self.scope@ == fr,
                self.file_name == old(self).file_name,
                toks == old(self).tokens@,
                fr == old(self).scope@,
                start == old(self).index,
                start < self.index,
                parse_expr(toks, fr, start as int, min_bp as nat) == climb(toks, fr, self.index as int, lhs, min_bp as nat),
            ensures
                self.wf(),
                self.tokens@ == toks,
                self.scope@ == fr,
                self.file_name == old(self).file_name,
                parse_expr(toks, fr, start as int, min_bp as nat) == Ok::<(ExpressionNode, int), ParseError>((lhs, self.index as int)),
            decreases toks.len() - self.index,
        {
            let op_pos = self.index;
            let op = self.peek();
            if !is_operator(op) {
                break;
            }
            let (lbp, rbp) = infix_binding_power(op);
            if lbp < min_bp {
                break;
            }
            self.consume();
            let rhs = match self.expression(rbp) {
                Ok(e) => e,
                Err(e) => {
                    return Err(e);
                },
            };
            let vt = match resolve_binary_type(op, lhs.value_type, rhs.value_type) {
                Some(vt) => vt,
                None => {
                    return Err(ParseError::new(ParseErrorKind::TypeMismatch, op.line_number));
                },
            };
            if !(op_pos < self.index && self.index <= self.tokens.len()) {
                return Err(ParseError::new(ParseErrorKind::UnexpectedToken, op.line_number));
            }
            lhs = ExpressionNode {
                node_type: ExpressionNodeType::Binary {
                    left: Box::new(lhs),
                    operator: Box::new(op.duplicate()),
                    right: Box::new(rhs),
                },
                value_type: vt,
            };
        }
        Ok(lhs)
    }

    /// A statement at the next token.
    fn statement(&mut self) -> (r: Result<StatementNode, ParseError>)
        requires
            old(self).wf(),
        ensures
            final(self).wf(),
            final(self).tokens@ == old(self).tokens@,
            final(self).file_name == old(self).file_name,
            stmt_outcome(
                r,
                parse_statement(old(self).tokens@, old(self).scope@, old(self).index as int),
                final(self).scope@,
                final(self).index as int,
            ),
            same_enclosing(old(self).scope@, final(self).scope@),
            r is Err ==> final(self).scope@ == old(self).scope@,
        decreases old(self).tokens@.len() - old(self).index, 3nat,
    {
        let t = self.peek();
        match t.token_type {
            TokenType::Output => {
                self.consume();
                self.output_statement()
            },
            TokenType::Let => {
                self.consume();
                self.let_statement()
            },
            TokenType::Loop => {
                self.consume();
                self.loop_statement()
            },
            _ => self.fail(ParseErrorKind::UnexpectedToken),
        }
    }

    /// `( e )` after `output`.
    fn output_statement(&mut self) -> (r: Result<StatementNode, ParseError>)
        requires
            old(self).wf(),
        ensures
            final(self).wf(),
            final(self).tokens@ == old(self).tokens@,
            final(self).file_name == old(self).file_name,
            stmt_outcome(
                r,
                parse_output(old(self).tokens@, old(self).scope@, old(self).index as int),
                final(self).scope@,
                final(self).index as int,
            ),
            final(self).scope@ == old(self).scope@,
        decreases old(self).tokens@.len() - old(self).index, 2nat,
    {
        if !matches!(self.peek().token_type, TokenType::LeftParen) {
            return self.fail(ParseErrorKind::UnexpectedToken);
        }
        self.consume();
        let expression = match self.expression(0) {
            Ok(e) => e,
            Err(e) => {
                return Err(e);
            },
        };
        if !matches!(self.peek().token_type, TokenType::RightParen) {
            return self.fail(ParseErrorKind::MalformedGrouping);
        }
        self.consume();
        Ok(StatementNode::Output { expression })
    }

    /// `x :: t = e` after `let`.
    fn let_statement(&mut self) -> (r: Result<StatementNode, ParseError>)
        requires
            old(self).wf(),
        ensures
            final(self).wf(),
            final(self).tokens@ == old(self).tokens@,
            final(self).file_name == old(self).file_name,
            stmt_outcome(
                r,
                parse_let(old(self).tokens@, old(self).scope@, old(self).index as int),
                final(self).scope@,
                final(self).index as int,
            ),
            same_enclosing(old(self).scope@, final(self).scope@),
            r is Err ==> final(self).scope@ == old(self).scope@,
        decreases old(self).tokens@.len() - old(self).index, 2nat,
    {
        let t = self.peek();
        let name = match &t.token_type {
            TokenType::Identifier(name) => name,
            _ => {
                return self.fail(ParseErrorKind::UnexpectedToken);
            },
        };
        self.consume();
        if !matches!(self.peek().token_type, TokenType::Colon) {
            return self.fail(ParseErrorKind::UnexpectedToken);
        }
        self.consume();
        if !matches!(self.peek().token_type, TokenType::Colon) {
            return self.fail(ParseErrorKind::UnexpectedToken);
        }
        self.consume();
        let type_token = self.peek();
        if !matches!(type_token.token_type, TokenType::F32 | TokenType::Str | TokenType::Bool) {
            return self.fail(ParseErrorKind::UnexpectedToken);
        }
        let declared = type_token.get_value_type_declaration();
        self.consume();
        if !matches!(self.peek().token_type, TokenType::Equals) {
            return self.fail(ParseErrorKind::UnexpectedToken);
        }
        self.consume();
        let expression = match self.expression(0) {
            Ok(e) => e,
            Err(e) => {
                return Err(e);
            },
        };
        if expression.value_type != declared {
            return self.fail(ParseErrorKind::TypeMismatch);
        }
        let ghost before = self.scope@;
        proof {
            self.scope.lemma_has_frame();
        }
        match self.scope.declare(name.clone(), declared) {
            Ok(()) => {
                assert(bind(before, name@, declared).drop_last() =~= before.drop_last());
            },
            Err(kind) => {
                return Err(ParseError::new(kind, t.line_number));
            },
        }
        Ok(StatementNode::Let { identifier: name.clone(), type_token: type_token.duplicate(), expression })
    }

    /// `{ ... }` after `loop`, parsed in a frame of its own.
    fn loop_statement(&mut self) -> (r: Result<StatementNode, ParseError>)
        requires
            old(self).wf(),
        ensures
            final(self).wf(),
            final(self).tokens@ == old(self).tokens@,
            final(self).file_name == old(self).file_name,
            stmt_outcome(
                r,
                parse_loop(old(self).tokens@, old(self).scope@, old(self).index as int),
                final(self).scope@,
                final(self).index as int,
            ),
            final(self).scope@ == old(self).scope@,
        decreases old(self).tokens@.len() - old(self).index, 2nat,
    {
        if !matches!(self.peek().token_type, TokenType::LeftBrace) {
            return self.fail(ParseErrorKind::UnexpectedToken);
        }
        self.consume();
        let ghost outer = self.scope@;
        proof {
            self.scope.lemma_has_frame();
        }
        self.scope.push();
        assert(self.scope@.drop_last() =~= outer);
        let items = self.items(true);
        if self.scope.depth() > 1 {
            self.scope.pop();
        }
        let children = match items {
            Ok(children) => children,
            Err(e) => {
                return Err(e);
            },
        };
        self.consume();
        let block = StatementNode::Block { children };
        assert(stmt_view(block) == Stmt::Block(stmts_view(children@, children@.len())));
        Ok(StatementNode::Loop { body: Box::new(block) })
    }

    /// Statements up to a closing brace (`in_block`) or the end of input.
    fn items(&mut self, in_block: bool) -> (r: Result<Vec<StatementNode>, ParseError>)
        requires
            old(self).wf(),
        ensures
            final(self).wf(),
            final(self).tokens@ == old(self).tokens@,
            final(self).file_name == old(self).file_name,
            match parse_items(old(self).tokens@, old(self).scope@, old(self).index as int, Seq::empty(), in_block) {
                Ok((items, f, p)) => r is Ok && stmts_view(r->Ok_0@, r->Ok_0@.len()) == items
                    && final(self).scope@ == f && final(self).index == p
                    && (in_block ==> tok_at(old(self).tokens@, p).token_type is RightBrace),
                Err(e) => r == Err::<Vec<StatementNode>, ParseError>(e),
            },
            same_enclosing(old(self).scope@, final(self).scope@),
        decreases old(self).tokens@.len() - old(self).index, 4nat,
    {
        let ghost toks = self.tokens@;
        let ghost fr = self.scope@;
        let ghost start = self.index as int;
        let mut children: Vec<StatementNode> = Vec::new();
        loop
            invariant
                self.wf(),
                self.tokens@ == toks,
                self.file_name == old(self).file_name,
                toks == old(self).tokens@,
                fr == old(self).scope@,
                start == old(self).index,
                start <= self.index,
                same_enclosing(fr, self.scope@),
                parse_items(toks, fr, start, Seq::empty(), in_block) == parse_items(
                    toks,
                    self.scope@,
                    self.index as int,
                    stmts_view(children@, children@.len()),
                    in_block,
                ),
            ensures
                self.wf(),
                self.tokens@ == toks,
                self.file_name == old(self).file_name,
                parse_items(toks, fr, start, Seq::empty(), in_block) == Ok::<(Seq<Stmt>, Frames, int), ParseError>(
                    (stmts_view(children@, children@.len()), self.scope@, self.index as int),
                ),
                in_block ==> tok_at(toks, self.index as int).token_type is RightBrace,
                same_enclosing(fr, self.scope@),
            decreases toks.len() - self.index,
        {
            let t = self.peek();
            if in_block && matches!(t.token_type, TokenType::RightBrace) {
                break;
            }
            if matches!(t.token_type, TokenType::EndOfFile) {
                if in_block {
                    return self.fail(ParseErrorKind::MalformedGrouping);
                }
                break;
            }
            let pos = self.index;
            let s = match self.statement() {
                Ok(s) => s,
                Err(e) => {
                    return Err(e);
                },
            };
            if !(pos < self.index && self.index <= self.tokens.len()) {
                return Err(ParseError::new(ParseErrorKind::UnexpectedToken, t.line_number));
            }
            let ghost before = children@;
            children.push(s);
            proof {
                lemma_stmts_view_push(before, s);
            }
        }
        Ok(children)
    }

    /// Parses the whole token sequence into a program root that wraps one
    /// block, or reports the first error.
    pub fn parse(&mut self) -> (r: Result<StatementNode, ParseError>)
        requires
            old(self).wf(),
            old(self).position() == 0,
            old(self).frames() == seq![Map::<Seq<char>, ValueType>::empty()],
        ensures
            final(self).wf(),
            match parse_program(old(self).token_seq()) {
                Ok(s) => r is Ok && stmt_view(r->Ok_0) == s,
                Err(e) => r == Err::<StatementNode, ParseError>(e),
            },
            r is Ok ==> stmt_well_typed(stmt_view(r->Ok_0)),
    {
        proof {
            if parse_program(self.tokens@) is Ok {
                lemma_parsed_program_reads_back(self.tokens@);
            }
        }
        let children = match self.items(false) {
            Ok(children) => children,
            Err(e) => {
                return Err(e);
            },
        };
        let block = StatementNode::Block { children };
        assert(stmt_view(block) == Stmt::Block(stmts_view(children@, children@.len())));
        Ok(StatementNode::Main { body: Box::new(block) })
    }
}

} // verus!
