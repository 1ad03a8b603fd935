use palladium::compiler::Compiler;
use palladium::error::{ParseError, ParseErrorKind};
use palladium::generator::render_statement;
use palladium::lexer::Lexer;
use palladium::parser::Parser;
use palladium::syntax_tree::{StatementNode, ValueType};
use palladium::token::Token;

fn tokens(src: &str) -> Vec<Token> {
    let mut lexer = Lexer::new();
    lexer.lex(src.to_string()).expect("source lexes");
    lexer.get_tokens().clone()
}

fn parse(src: &str) -> Result<StatementNode, ParseError> {
    let toks = tokens(src);
    let mut parser = Parser::new("Main".to_string(), &toks);
    parser.parse()
}

fn block_children(program: &StatementNode) -> &Vec<StatementNode> {
    match program {
        StatementNode::Main { body } => match body.as_ref() {
            StatementNode::Block { children } => children,
            other => panic!("program root wraps {:?}", other),
        },
        other => panic!("not a program root: {:?}", other),
    }
}

fn generate(src: &str) -> String {
    let program = parse(src).expect("program parses");
    render_statement(&program)
}

#[test]
fn declared_float_is_usable_later() {
    let program = parse("let x :: f32 = 1 + 2\noutput(x)").unwrap();
    let children = block_children(&program);
    assert_eq!(children.len(), 2);
    match &children[0] {
        StatementNode::Let { identifier, expression, .. } => {
            assert_eq!(identifier, "x");
            assert_eq!(expression.value_type, ValueType::Float);
        }
        other => panic!("expected a declaration, got {:?}", other),
    }
    match &children[1] {
        StatementNode::Output { expression } => assert_eq!(expression.value_type, ValueType::Float),
        other => panic!("expected an output, got {:?}", other),
    }
}

#[test]
fn string_arithmetic_declares_a_java_string() {
    let text = generate("let s :: str = \"a\" + \"b\"");
    assert_eq!(text, "public static void main(String[] args)\n{\nString s = \"a\" + \"b\";\n}");
}

#[test]
fn comparison_yields_boolean() {
    let text = generate("let y :: bool = 1 > 2");
    assert_eq!(text, "public static void main(String[] args)\n{\nboolean y = 1f > 2f;\n}");
}

#[test]
fn float_initializer_for_boolean_is_a_mismatch() {
    let err = parse("let z :: bool = 1 + 2").unwrap_err();
    assert_eq!(err.kind, ParseErrorKind::TypeMismatch);
    assert_eq!(err.line_number, 1);
}

#[test]
fn output_of_undeclared_name_is_unresolved() {
    let err = parse("output(undeclared_name)").unwrap_err();
    assert_eq!(err, ParseError { kind: ParseErrorKind::UnresolvedName, line_number: 1 });
}

#[test]
fn grouping_kept_only_where_precedence_needs_it() {
    assert_eq!(
        generate("output((1 + 2) * 3)"),
        "public static void main(String[] args)\n{\nSystem.out.println((1f + 2f) * 3f);\n}"
    );
    assert_eq!(
        generate("output(1 + 2 * 3)"),
        "public static void main(String[] args)\n{\nSystem.out.println(1f + 2f * 3f);\n}"
    );
}

#[test]
fn loop_scope_ends_with_its_block() {
    let err = parse("loop { let x :: f32 = 1 }\noutput(x)").unwrap_err();
    assert_eq!(err, ParseError { kind: ParseErrorKind::UnresolvedName, line_number: 2 });
}

#[test]
fn equal_precedence_groups_left() {
    assert_eq!(
        generate("output(1 - 2 - 3)"),
        "public static void main(String[] args)\n{\nSystem.out.println(1f - 2f - 3f);\n}"
    );
    assert_eq!(
        generate("output(1 - (2 - 3))"),
        "public static void main(String[] args)\n{\nSystem.out.println(1f - (2f - 3f));\n}"
    );
}

#[test]
fn redundant_parentheses_disappear() {
    assert_eq!(
        generate("output((1 * 2) + ((3)))"),
        "public static void main(String[] args)\n{\nSystem.out.println(1f * 2f + 3f);\n}"
    );
}

#[test]
fn logic_below_comparison() {
    assert_eq!(
        generate("output(1 < 2 and (true or false))"),
        "public static void main(String[] args)\n{\nSystem.out.println(1f < 2f && (true || false));\n}"
    );
}

#[test]
fn logic_needs_booleans() {
    let err = parse("output(1 and true)").unwrap_err();
    assert_eq!(err.kind, ParseErrorKind::TypeMismatch);
}

#[test]
fn comparison_needs_floats() {
    let err = parse("output(\"a\" < 2)").unwrap_err();
    assert_eq!(err.kind, ParseErrorKind::TypeMismatch);
}

#[test]
fn equality_takes_any_operands() {
    assert_eq!(
        generate("output(\"a\" == 2)"),
        "public static void main(String[] args)\n{\nSystem.out.println(\"a\" == 2f);\n}"
    );
}

#[test]
fn redeclaring_in_one_frame_is_refused() {
    let err = parse("let a :: f32 = 1\nlet a :: f32 = 2").unwrap_err();
    assert_eq!(err, ParseError { kind: ParseErrorKind::DuplicateBinding, line_number: 2 });
}

#[test]
fn shadowing_in_a_loop_is_allowed() {
    let text = generate("let a :: f32 = 1\nloop {\nlet a :: str = \"s\"\noutput(a)\n}\noutput(a)");
    assert_eq!(
        text,
        "public static void main(String[] args)\n{\nfloat a = 1f;\nwhile (true) {\nString a = \"s\";\nSystem.out.println(a);\n}\nSystem.out.println(a);\n}"
    );
}

#[test]
fn initializer_cannot_see_its_own_name() {
    let err = parse("let a :: f32 = a").unwrap_err();
    assert_eq!(err.kind, ParseErrorKind::UnresolvedName);
}

#[test]
fn missing_right_parenthesis() {
    let err = parse("output((1 + 2)").unwrap_err();
    assert_eq!(err.kind, ParseErrorKind::MalformedGrouping);
}

#[test]
fn missing_closing_brace() {
    let err = parse("loop {\noutput(1)\n").unwrap_err();
    assert_eq!(err, ParseError { kind: ParseErrorKind::MalformedGrouping, line_number: 3 });
}

#[test]
fn statement_cannot_start_with_an_expression() {
    let err = parse("\n\n1 + 2").unwrap_err();
    assert_eq!(err, ParseError { kind: ParseErrorKind::UnexpectedToken, line_number: 3 });
}

#[test]
fn let_needs_two_colons() {
    let err = parse("let a : f32 = 1").unwrap_err();
    assert_eq!(err.kind, ParseErrorKind::UnexpectedToken);
}

#[test]
fn let_needs_a_type_keyword() {
    let err = parse("let a :: int = 1").unwrap_err();
    assert_eq!(err.kind, ParseErrorKind::UnexpectedToken);
}

#[test]
fn empty_program() {
    assert_eq!(generate(""), "public static void main(String[] args)\n{\n}");
}

#[test]
fn compiled_class_wraps_the_program() {
    let program = parse("let x :: f32 = 1.5 * 2\noutput(x)").unwrap();
    let compiler = Compiler::new("Hello.java".to_string(), "out".to_string());
    assert_eq!(compiler.main_file_name, "Hello");
    assert_eq!(compiler.directory, "out");
    assert_eq!(
        compiler.compile(&program),
        "public class Hello {\npublic static void main(String[] args)\n{\nfloat x = 1.5f * 2f;\nSystem.out.println(x);\n}\n}"
    );
}

/// Reads a generated Java expression back in source syntax: numbers lose
/// their `f` suffix and the logical operators are spelled as words.
fn java_expression_to_source(java: &str) -> String {
    let mut out = String::new();
    let mut previous = ' ';
    for c in java.chars() {
        if !(c == 'f' && previous.is_ascii_digit()) {
            out.push(c);
        }
        previous = c;
    }
    out.replace("&&", "and").replace("||", "or")
}

fn output_expression_debug(src: &str) -> String {
    let program = parse(src).expect("program parses");
    format!("{:?}", block_children(&program)[0])
}

#[test]
fn generated_expressions_read_back_unchanged() {
    let sources = [
        "(1 + 2) * 3",
        "1 - (2 - 3) - 4",
        "1 < 2 and (true or false)",
        "(1 + 2) * (3 - 4) / 5 == 6",
        "\"a\" + 1 + (2 + 3)",
        "true or false and (1 >= 2 or 3 <= 4)",
        "((((7))))",
    ];
    for src in sources {
        let program = format!("output({})", src);
        let generated = generate(&program);
        let line = generated.lines().nth(2).expect("one statement in the block");
        let java = line
            .strip_prefix("System.out.println(")
            .and_then(|rest| rest.strip_suffix(");"))
            .expect("an output statement");
        let back = format!("output({})", java_expression_to_source(java));
        assert_eq!(output_expression_debug(&back), output_expression_debug(&program), "{}", src);
    }
}
