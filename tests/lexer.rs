use ramon_templates::lexer::{Keyword, Lexer, LexerError, Literal, Operator, Token};

fn tokens(src: &str) -> Result<Vec<Token>, LexerError> {
    let mut lexer = Lexer::new(src);
    let mut out = Vec::new();
    while let Some(token) = lexer.yield_token()? {
        out.push(token);
    }
    Ok(out)
}

fn text(s: &str) -> Token {
    Token::Text(s.to_string())
}

fn ident(s: &str) -> Token {
    Token::Identifier(s.to_string())
}

fn num(s: &str) -> Token {
    Token::Literal(Literal::Number(s.to_string()))
}

fn string(s: &str) -> Token {
    Token::Literal(Literal::String(s.to_string()))
}

#[test]
fn plain_text_is_one_token() {
    assert_eq!(tokens("Hello, world!").unwrap(), vec![text("Hello, world!")]);
}

#[test]
fn empty_source_yields_nothing() {
    assert_eq!(tokens("").unwrap(), vec![]);
}

#[test]
fn string_literal_then_braces_as_text() {
    assert_eq!(
        tokens("{{'{{'}}}}").unwrap(),
        vec![Token::TemplateOpen, string("{{"), Token::TemplateClose, text("}}")]
    );
}

#[test]
fn single_brace_is_text() {
    assert_eq!(tokens("{a}").unwrap(), vec![text("{a}")]);
    assert_eq!(tokens("x{").unwrap(), vec![text("x"), text("{")]);
    assert_eq!(tokens("a{b{{c}}").unwrap(), vec![
        text("a"),
        text("{b"),
        Token::TemplateOpen,
        ident("c"),
        Token::TemplateClose,
    ]);
}

#[test]
fn variable_after_whitespace() {
    assert_eq!(
        tokens("a = {{  _a}}").unwrap(),
        vec![text("a = "), Token::TemplateOpen, ident("_a"), Token::TemplateClose]
    );
}

#[test]
fn operators_and_punctuation() {
    assert_eq!(
        tokens("{{(a)[b],*/+-==!=&&||!c}}").unwrap(),
        vec![
            Token::TemplateOpen,
            Token::OpeningParen,
            ident("a"),
            Token::ClosingParen,
            Token::OpeningSqBracket,
            ident("b"),
            Token::ClosingSqBracket,
            Token::Comma,
            Token::Operator(Operator::Multiply),
            Token::Operator(Operator::Divide),
            Token::Operator(Operator::Add),
            Token::Operator(Operator::Subtract),
            Token::Operator(Operator::IsEqualTo),
            Token::Operator(Operator::IsNotEqualTo),
            Token::Operator(Operator::And),
            Token::Operator(Operator::Or),
            Token::Exclamation,
            ident("c"),
            Token::TemplateClose,
        ]
    );
}

#[test]
fn keywords() {
    assert_eq!(
        tokens("{{if elif else for in iff _if}}").unwrap(),
        vec![
            Token::TemplateOpen,
            Token::Keyword(Keyword::If),
            Token::Keyword(Keyword::Elif),
            Token::Keyword(Keyword::Else),
            Token::Keyword(Keyword::For),
            Token::Keyword(Keyword::In),
            ident("iff"),
            ident("_if"),
            Token::TemplateClose,
        ]
    );
}

#[test]
fn double_minus() {
    assert_eq!(
        tokens("{{ 2--2 }}").unwrap(),
        vec![
            Token::TemplateOpen,
            num("2"),
            Token::Operator(Operator::Subtract),
            Token::Operator(Operator::Subtract),
            num("2"),
            Token::TemplateClose,
        ]
    );
}

#[test]
fn numbers() {
    assert_eq!(
        tokens("{{ 42.42 .5 7. }}").unwrap(),
        vec![Token::TemplateOpen, num("42.42"), num(".5"), num("7."), Token::TemplateClose]
    );
    assert_eq!(
        tokens("{{ 1.2.3 }}"),
        Err(LexerError::NumberParseError("1.2.3".to_string()))
    );
    assert_eq!(tokens("{{ . }}"), Err(LexerError::NumberParseError(".".to_string())));
}

#[test]
fn string_escapes() {
    assert_eq!(
        tokens("{{ 'a\\nb\\\\c\\'d\\\ne' \"x\\\"y\" }}").unwrap(),
        vec![
            Token::TemplateOpen,
            string("a\nb\\c'de"),
            string("x\"y"),
            Token::TemplateClose,
        ]
    );
    assert_eq!(tokens("{{ 'a\\q' }}"), Err(LexerError::UnrecognizedEscape('q')));
    assert_eq!(tokens("{{ 'abc"), Err(LexerError::UnexpectedEOF));
    assert_eq!(tokens("{{ 'abc\\"), Err(LexerError::UnexpectedEOF));
}

#[test]
fn quoted_text_outside_a_template() {
    assert_eq!(tokens("'hi' there").unwrap(), vec![string("hi"), text(" there")]);
    assert_eq!(tokens("say 'hi'").unwrap(), vec![text("say 'hi'")]);
}

#[test]
fn unexpected_characters() {
    assert_eq!(tokens("{{ a # b }}"), Err(LexerError::UnexpectedCharacter('#')));
    assert_eq!(tokens("{{ a = b }}"), Err(LexerError::UnexpectedCharacter(' ')));
    assert_eq!(tokens("{{ a }x"), Err(LexerError::UnexpectedCharacter('x')));
    assert_eq!(tokens("{{ a &"), Err(LexerError::UnexpectedEOF));
    assert_eq!(tokens("{{ a |"), Err(LexerError::UnexpectedEOF));
}

#[test]
fn whitespace_inside_a_template_is_skipped() {
    let expected = tokens("{{a+b}}").unwrap();
    assert_eq!(tokens("{{ a +\n\tb \u{3000}}}").unwrap(), expected);
    assert_eq!(tokens("{{a\n\n\t\t  +   b\n}}").unwrap(), expected);
}

#[test]
fn text_keeps_non_ascii_characters() {
    assert_eq!(
        tokens("héllo {{ x }} wörld").unwrap(),
        vec![text("héllo "), Token::TemplateOpen, ident("x"), Token::TemplateClose, text(" wörld")]
    );
}
