use palladium::compiler::{class_name, Compiler};
use palladium::error::ParseErrorKind;
use palladium::generator::{integer_text, render_expression, render_literal};
use palladium::lexer::{LexError, LexErrorKind, Lexer};
use palladium::scope::Scope;
use palladium::syntax_tree::{
    infix_binding_power, resolve_binary_type, ExpressionNode, ExpressionNodeType, StatementNode,
    ValueType,
};
use palladium::token::{Token, TokenType};

fn lex(src: &str) -> Result<Vec<Token>, LexError> {
    let mut lexer = Lexer::new();
    lexer.lex(src.to_string())?;
    Ok(lexer.get_tokens().clone())
}

fn kinds(src: &str) -> Vec<String> {
    lex(src).unwrap().iter().map(|t| format!("{:?}@{}", t.token_type, t.line_number)).collect()
}

#[test]
fn lexer_reads_keywords_numbers_and_strings() {
    assert_eq!(
        kinds("let x :: f32 = 12.5\noutput(\"hi there\")"),
        vec![
            "Let@1", "Identifier(\"x\")@1", "Colon@1", "Colon@1", "F32@1", "Equals@1",
            "Decimal(\"12.5\")@1", "Output@2", "LeftParen@2", "StringLiteral(\"hi there\")@2",
            "RightParen@2", "EndOfFile@2",
        ]
    );
}

#[test]
fn lexer_reads_two_character_operators() {
    assert_eq!(
        kinds("a >= b <= c == d > e < f && g || h = i"),
        vec![
            "Identifier(\"a\")@1", "GreaterEqualTo@1", "Identifier(\"b\")@1", "LessEqualTo@1",
            "Identifier(\"c\")@1", "DoubleEquals@1", "Identifier(\"d\")@1", "GreaterThan@1",
            "Identifier(\"e\")@1", "LessThan@1", "Identifier(\"f\")@1", "And@1",
            "Identifier(\"g\")@1", "Or@1", "Identifier(\"h\")@1", "Equals@1",
            "Identifier(\"i\")@1", "EndOfFile@1",
        ]
    );
}

#[test]
fn lexer_skips_whitespace_and_counts_lines() {
    assert_eq!(kinds("\t{\n\n}  \r\n"), vec!["LeftBrace@1", "RightBrace@3", "EndOfFile@4"]);
}

#[test]
fn lexer_keywords_and_identifiers() {
    assert_eq!(
        kinds("loop break if else and or true false str bool my_var2"),
        vec![
            "Loop@1", "Break@1", "If@1", "Else@1", "And@1", "Or@1", "True@1", "False@1", "Str@1",
            "Bool@1", "Identifier(\"my_var2\")@1", "EndOfFile@1",
        ]
    );
}

#[test]
fn line_breaks_inside_strings_count() {
    assert_eq!(
        kinds("\"a\nb\n\" (\nx"),
        vec!["StringLiteral(\"a\\nb\\n\")@1", "LeftParen@3", "Identifier(\"x\")@4", "EndOfFile@4"]
    );
}

#[test]
fn lexer_refuses_a_lone_ampersand() {
    assert_eq!(lex("a & b").unwrap_err(), (LexError { kind: LexErrorKind::UnexpectedCharacter, line_number: 1 }));
}

#[test]
fn lexer_refuses_an_unknown_character() {
    assert_eq!(lex("\n;").unwrap_err(), (LexError { kind: LexErrorKind::UnexpectedCharacter, line_number: 2 }));
}

#[test]
fn lexer_refuses_an_open_string() {
    assert_eq!(lex("\"abc").unwrap_err(), (LexError { kind: LexErrorKind::UnterminatedString, line_number: 1 }));
}

#[test]
fn lexer_refuses_digits_outside_ascii() {
    assert_eq!(lex("\u{0663}").unwrap_err(), (LexError { kind: LexErrorKind::MalformedNumber, line_number: 1 }));
}

#[test]
fn lexer_stops_at_nul() {
    assert_eq!(kinds("a\0 b"), vec!["Identifier(\"a\")@1", "EndOfFile@1"]);
}

#[test]
fn token_values() {
    assert_eq!(Token::new(TokenType::Identifier("abc".to_string()), 1).get_value(), "abc");
    assert_eq!(Token::new(TokenType::Decimal("3.25".to_string()), 1).get_value(), "3.25");
    assert_eq!(Token::new(TokenType::Integer(-17), 1).get_value(), "-17");
    assert_eq!(Token::new(TokenType::StringLiteral("q".to_string()), 1).get_value(), "\"q\"");
    assert_eq!(Token::new(TokenType::True, 1).get_value(), "true");
    assert_eq!(Token::new(TokenType::False, 1).get_value(), "false");
}

#[test]
fn type_keywords() {
    assert_eq!(Token::new(TokenType::F32, 1).get_value_type_declaration(), ValueType::Float);
    assert_eq!(Token::new(TokenType::Str, 1).get_value_type_declaration(), ValueType::String);
    assert_eq!(Token::new(TokenType::Bool, 1).get_value_type_declaration(), ValueType::Boolean);
}

#[test]
fn integers_spelled_in_decimal() {
    assert_eq!(integer_text(0), "0");
    assert_eq!(integer_text(907), "907");
    assert_eq!(integer_text(-42), "-42");
    assert_eq!(integer_text(i64::MIN), "-9223372036854775808");
    assert_eq!(integer_text(i64::MAX), "9223372036854775807");
}

#[test]
fn literals_rendered_for_java() {
    assert_eq!(render_literal(&Token::new(TokenType::Integer(7), 1)), "7f");
    assert_eq!(render_literal(&Token::new(TokenType::Decimal("0.5".to_string()), 1)), "0.5f");
    assert_eq!(render_literal(&Token::new(TokenType::StringLiteral("x y".to_string()), 1)), "\"x y\"");
    assert_eq!(render_literal(&Token::new(TokenType::True, 1)), "true");
}

fn leaf(name: &str, t: ValueType) -> ExpressionNode {
    ExpressionNode::new(ExpressionNodeType::Variable { identifier: name.to_string() }, t)
}

fn bin(l: ExpressionNode, op: TokenType, r: ExpressionNode, t: ValueType) -> ExpressionNode {
    ExpressionNode::new(
        ExpressionNodeType::Binary { left: Box::new(l), operator: Box::new(Token::new(op, 1)), right: Box::new(r) },
        t,
    )
}

#[test]
fn rendering_follows_context_precedence() {
    let f = ValueType::Float;
    let sum = bin(leaf("a", f), TokenType::Plus, leaf("b", f), f);
    assert_eq!(render_expression(&sum, 0), "a + b");
    assert_eq!(render_expression(&sum, 5), "a + b");
    assert_eq!(render_expression(&sum, 6), "(a + b)");
    assert_eq!(render_expression(&sum, 200), "(a + b)");
    let product = bin(leaf("c", f), TokenType::Star, sum, f);
    assert_eq!(render_expression(&product, 0), "c * (a + b)");
}

#[test]
fn java_ranks_equality_below_relations() {
    let f = ValueType::Float;
    let b = ValueType::Boolean;
    let less = bin(leaf("a", f), TokenType::LessThan, leaf("b", f), b);
    let right = bin(leaf("c", b), TokenType::DoubleEquals, less, b);
    assert_eq!(render_expression(&right, 0), "c == a < b");
    let inner_eq = bin(leaf("d", b), TokenType::DoubleEquals, leaf("e", b), b);
    let nested = bin(leaf("c", b), TokenType::DoubleEquals, inner_eq, b);
    assert_eq!(render_expression(&nested, 0), "c == (d == e)");
}

#[test]
fn binding_powers_rise_with_precedence() {
    assert_eq!(infix_binding_power(&Token::new(TokenType::Or, 1)), (0, 1));
    assert_eq!(infix_binding_power(&Token::new(TokenType::And, 1)), (2, 3));
    assert_eq!(infix_binding_power(&Token::new(TokenType::DoubleEquals, 1)), (4, 5));
    assert_eq!(infix_binding_power(&Token::new(TokenType::Minus, 1)), (6, 7));
    assert_eq!(infix_binding_power(&Token::new(TokenType::Slash, 1)), (8, 9));
}

#[test]
fn binary_types() {
    let plus = Token::new(TokenType::Plus, 1);
    assert_eq!(resolve_binary_type(&plus, ValueType::Float, ValueType::String), Some(ValueType::String));
    assert_eq!(resolve_binary_type(&plus, ValueType::Float, ValueType::Boolean), Some(ValueType::Float));
    let less = Token::new(TokenType::LessThan, 1);
    assert_eq!(resolve_binary_type(&less, ValueType::Float, ValueType::Float), Some(ValueType::Boolean));
    assert_eq!(resolve_binary_type(&less, ValueType::Float, ValueType::Boolean), None);
    let or = Token::new(TokenType::Or, 1);
    assert_eq!(resolve_binary_type(&or, ValueType::Boolean, ValueType::Boolean), Some(ValueType::Boolean));
    assert_eq!(resolve_binary_type(&or, ValueType::String, ValueType::Boolean), None);
}

#[test]
fn scope_resolves_innermost_first() {
    let mut scope = Scope::new();
    assert_eq!(scope.declare("a".to_string(), ValueType::Float), Ok(()));
    assert_eq!(scope.declare("a".to_string(), ValueType::String), Err(ParseErrorKind::DuplicateBinding));
    scope.push();
    assert_eq!(scope.depth(), 2);
    assert_eq!(scope.resolve(&"a".to_string()), Ok(ValueType::Float));
    assert_eq!(scope.declare("a".to_string(), ValueType::Boolean), Ok(()));
    assert_eq!(scope.resolve(&"a".to_string()), Ok(ValueType::Boolean));
    scope.pop();
    assert_eq!(scope.resolve(&"a".to_string()), Ok(ValueType::Float));
    assert_eq!(scope.resolve(&"b".to_string()), Err(ParseErrorKind::UnresolvedName));
}

#[test]
fn children_added_to_blocks() {
    let mut program = StatementNode::Main { body: Box::new(StatementNode::Block { children: Vec::new() }) };
    assert!(program.is_main());
    assert!(program.has_body());
    program.add_child(StatementNode::Break);
    match &program {
        StatementNode::Main { body } => match body.as_ref() {
            StatementNode::Block { children } => assert_eq!(children.len(), 1),
            _ => panic!("body is not a block"),
        },
        _ => panic!("not a program root"),
    }
    assert!(!StatementNode::Break.is_main());
    assert!(!StatementNode::Break.has_body());
}

#[test]
fn literal_node_value() {
    let node = ExpressionNodeType::Literal { value_token: Box::new(Token::new(TokenType::Decimal("2".to_string()), 1)) };
    assert_eq!(node.get_value(), "2");
}

#[test]
fn compiler_name_drops_java_suffix() {
    assert_eq!(Compiler::new("Main.java".to_string(), String::new()).main_file_name, "Main");
    assert_eq!(Compiler::new("A.javaB.java".to_string(), String::new()).main_file_name, "AB");
    assert_eq!(Compiler::new("Plain".to_string(), String::new()).main_file_name, "Plain");
}

#[test]
fn class_names_from_stems() {
    assert_eq!(class_name("hello_world"), "Hello_world");
    assert_eq!(class_name("my-file 2"), "Myfile2");
    assert_eq!(class_name("éa"), "Éa");
    assert_eq!(class_name("--"), "");
}
