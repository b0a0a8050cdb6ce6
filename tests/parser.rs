use ramon_templates::lexer::{Keyword, LexerError, Literal, Operator, Token};
use ramon_templates::node::Node;
use ramon_templates::parser::{ParseError, Parser};

fn text(s: &str) -> Node {
    Node::Value(Literal::String(s.to_string()))
}

fn num(s: &str) -> Node {
    Node::Value(Literal::Number(s.to_string()))
}

fn var(s: &str) -> Node {
    Node::Variable(s.to_string())
}

fn op(lhs: Node, o: Operator, rhs: Node) -> Node {
    Node::Operation(Box::new(lhs), o, Box::new(rhs))
}

fn parse(src: &str) -> Node {
    Parser::parse_input(src).unwrap()
}

#[test]
fn plain_text() {
    assert_eq!(parse("Hello, world!"), Node::Body(vec![text("Hello, world!")]));
    assert_eq!(parse(""), Node::Body(vec![]));
}

#[test]
fn string_literal_and_trailing_braces() {
    assert_eq!(parse("{{'{{'}}}}"), Node::Body(vec![text("{{"), text("}}")]));
}

#[test]
fn variable_in_text() {
    assert_eq!(parse("a = {{  _a}}"), Node::Body(vec![text("a = "), var("_a")]));
}

#[test]
fn precedence_and_grouping() {
    let a = || var("a");
    let b = || var("b");
    let expected = op(
        a(),
        Operator::Add,
        op(
            op(op(a(), Operator::Multiply, b()), Operator::Multiply, op(a(), Operator::Add, b())),
            Operator::Divide,
            b(),
        ),
    );
    assert_eq!(parse("{{ a + a * b * (a + b) / b}}"), Node::Body(vec![expected]));
}

#[test]
fn binary_minus_of_negation() {
    let expected = op(num("2"), Operator::Subtract, Node::Negate(Box::new(num("2"))));
    assert_eq!(parse("{{ 2--2 }}"), Node::Body(vec![expected]));
    assert_eq!(
        parse("{{ --x }}"),
        Node::Body(vec![Node::Negate(Box::new(Node::Negate(Box::new(var("x")))))])
    );
}

#[test]
fn logic_precedence() {
    let expected = op(
        op(var("a"), Operator::Or, op(var("b"), Operator::And, op(var("c"), Operator::IsEqualTo, var("d")))),
        Operator::Or,
        Node::Not(Box::new(var("e"))),
    );
    assert_eq!(parse("{{ a || b && c == d || !e }}"), Node::Body(vec![expected]));
}

#[test]
fn if_elif_chain() {
    let inner = Node::IfThenElse(
        Box::new(op(var("a"), Operator::IsNotEqualTo, var("b"))),
        Box::new(Node::Body(vec![text("a!=b")])),
        None,
    );
    let expected = Node::IfThenElse(
        Box::new(op(var("a"), Operator::IsEqualTo, var("b"))),
        Box::new(Node::Body(vec![text("a==b")])),
        Some(Box::new(Node::Body(vec![inner]))),
    );
    assert_eq!(
        parse("{{if a==b}}a==b{{elif a!=b}}a!=b{{/if}}"),
        Node::Body(vec![expected])
    );
}

#[test]
fn if_else() {
    let expected = Node::IfThenElse(
        Box::new(var("c")),
        Box::new(Node::Body(vec![text("yes")])),
        Some(Box::new(Node::Body(vec![text("no")]))),
    );
    assert_eq!(
        parse("{{ if c }}yes{{ else }}no{{ /if }}!"),
        Node::Body(vec![expected, text("!")])
    );
}

#[test]
fn nested_for_loops() {
    let arr = Node::Array(vec![
        Node::Array(vec![num("1"), num("2")]),
        Node::Array(vec![num("3"), num("4")]),
    ]);
    let inner = Node::ForIn(
        "n".to_string(),
        Box::new(var("arr")),
        Box::new(Node::Body(vec![var("n")])),
        Some(Box::new(text(","))),
    );
    let expected = Node::ForIn(
        "arr".to_string(),
        Box::new(arr),
        Box::new(Node::Body(vec![inner])),
        Some(Box::new(text(" "))),
    );
    assert_eq!(
        parse("{{ for arr in [[1,2],[3,4,],] ' ' }}{{ for n in arr ',' }}{{ n }}{{ /for }}{{ /for }}"),
        Node::Body(vec![expected])
    );
}

#[test]
fn for_without_separator() {
    let expected = Node::ForIn(
        "x".to_string(),
        Box::new(Node::Array(vec![])),
        Box::new(Node::Body(vec![text("body")])),
        None,
    );
    assert_eq!(parse("{{for x in []}}body{{/for}}"), Node::Body(vec![expected]));
}

#[test]
fn array_sum_and_string_repeat() {
    assert_eq!(
        parse("{{ [1,2] + [3,4] }}"),
        Node::Body(vec![op(
            Node::Array(vec![num("1"), num("2")]),
            Operator::Add,
            Node::Array(vec![num("3"), num("4")]),
        )])
    );
    assert_eq!(
        parse("{{ 'ab' * 3 }}"),
        Node::Body(vec![op(text("ab"), Operator::Multiply, num("3"))])
    );
}

#[test]
fn function_calls() {
    assert_eq!(
        parse("{{ f() }}{{ g(1, x,) }}"),
        Node::Body(vec![
            Node::FunctionCall("f".to_string(), vec![]),
            Node::FunctionCall("g".to_string(), vec![num("1"), var("x")]),
        ])
    );
}

#[test]
fn parse_errors() {
    assert_eq!(
        Parser::parse_input("{{}}"),
        Err(ParseError::UnexpectedToken(Token::TemplateClose, "factor"))
    );
    assert_eq!(Parser::parse_input("{{ a"), Err(ParseError::UnexpectedEOF));
    assert_eq!(Parser::parse_input("{{if a}}x"), Err(ParseError::UnexpectedEOF));
    assert_eq!(
        Parser::parse_input("{{/if}}"),
        Err(ParseError::UnexpectedToken(Token::Operator(Operator::Divide), "template"))
    );
    assert_eq!(
        Parser::parse_input("{{else}}"),
        Err(ParseError::UnexpectedToken(Token::Keyword(Keyword::Else), "template"))
    );
    assert_eq!(
        Parser::parse_input("{{for x in y}}{{else}}{{/for}}"),
        Err(ParseError::UnexpectedToken(Token::Keyword(Keyword::Else), "template for"))
    );
    assert_eq!(
        Parser::parse_input("{{if x}}{{/for}}"),
        Err(ParseError::UnexpectedToken(Token::Keyword(Keyword::For), "end if"))
    );
    assert_eq!(
        Parser::parse_input("{{ (a }}"),
        Err(ParseError::UnexpectedToken(Token::TemplateClose, "parentheses"))
    );
    assert_eq!(
        Parser::parse_input("{{ [1 2] }}"),
        Err(ParseError::UnexpectedToken(Token::Literal(Literal::Number("2".to_string())), "array"))
    );
    assert_eq!(
        Parser::parse_input("{{ 'x }}"),
        Err(ParseError::LexerError(LexerError::UnexpectedEOF))
    );
    assert_eq!(
        Parser::parse_input("'quoted' text"),
        Err(ParseError::UnexpectedToken(Token::Literal(Literal::String("quoted".to_string())), "template body"))
    );
}

#[test]
fn referenced_vars_skips_loop_variables() {
    let node = parse("{{ a }}{{ for x in xs sep }}{{ x }}{{ y }}{{ /for }}{{ f(z) }}{{ a }}");
    let mut names = node.referenced_vars();
    names.sort();
    assert_eq!(names, vec!["a", "sep", "xs", "y", "z"]);
    let node = parse("{{ for x in [x] }}{{ x }}{{ /for }}");
    assert_eq!(node.referenced_vars(), vec!["x"]);
}

#[test]
fn negated_variable() {
    assert_eq!(
        parse("{{-n}}"),
        Node::Body(vec![Node::Negate(Box::new(var("n")))])
    );
}

#[test]
fn numeric_literal_keeps_its_text() {
    assert_eq!(parse("{{42.42}}"), Node::Body(vec![num("42.42")]));
    assert_eq!(parse("{{ -42.42 }}"), Node::Body(vec![Node::Negate(Box::new(num("42.42")))]));
    assert_eq!(parse("{{.5}}"), Node::Body(vec![num(".5")]));
    assert_eq!(
        Parser::parse_input("{{1..2}}"),
        Err(ParseError::LexerError(LexerError::NumberParseError("1..2".to_string())))
    );
}

#[test]
fn whitespace_inside_templates_does_not_change_the_tree() {
    let expected = parse("{{a*b}}");
    assert_eq!(parse("{{a*b\n\n\t\t  }}"), expected);
    assert_eq!(parse("{{ a * b }}"), expected);
    assert_eq!(parse("{{\ta\n*\nb}}"), expected);
}

#[test]
fn single_brace_text_parses_as_text() {
    assert_eq!(parse("{a}"), Node::Body(vec![text("{a}")]));
}
