use vstd::prelude::*;

use crate::grammar::{
    binary, binary_rest, block, body_items, else_block, expect_next_step, expect_step, factor,
    for_block, if_block, item, level_operator, list, next_token_step, no_growth, operand, parse,
    put_back, remaining, separator, shrinks, template, ItemView, ParseErrorView, ParseState,
    Parsed, EXPRESSION_LEVEL,
};
use crate::lexer::{
    lemma_lex_step_progress, Keyword, Lexer, LexerError, Literal, Operator, Token, TokenView,
};
use crate::node::{all_have_views, Node, NodeView};

verus! {

#[derive(Debug, PartialEq)]
pub enum ParseError {
    LexerError(LexerError),
    UnexpectedEOF,
    /// The token, and the construct that was being parsed.
    UnexpectedToken(Token, &'static str),
}

impl View for ParseError {
    type V = ParseErrorView;

    open spec fn view(&self) -> ParseErrorView {
        match self {
            ParseError::LexerError(e) => ParseErrorView::LexerError(e@),
            ParseError::UnexpectedEOF => ParseErrorView::UnexpectedEOF,
            ParseError::UnexpectedToken(t, _) => ParseErrorView::UnexpectedToken(t@),
        }
    }
}

/// What the next template item is: a node, the end of the source, or a
/// block terminator (`{{elif`, `{{else`, `{{in`, `{{/`) that the enclosing
/// block construct is to handle.
enum Item {
    Node(Node),
    End,
    Terminator(Token),
}

pub open spec fn token_option_view(t: Option<Token>) -> Option<TokenView> {
    match t {
        Some(t) => Some(t@),
        None => None,
    }
}

/// `r` is what `expected` describes, and `fin` the state it leaves.
pub open spec fn node_outcome(
    r: Result<Node, ParseError>,
    expected: Parsed<NodeView>,
    fin: ParseState,
) -> bool {
    match expected {
        Ok((v, st)) => r matches Ok(n) && n.has_view(v) && fin == st,
        Err(e) => r matches Err(x) && x@ == e,
    }
}

pub open spec fn nodes_outcome(
    r: Result<Vec<Node>, ParseError>,
    expected: Parsed<Seq<NodeView>>,
    fin: ParseState,
) -> bool {
    match expected {
        Ok((v, st)) => r matches Ok(n) && all_have_views(n@, v) && fin == st,
        Err(e) => r matches Err(x) && x@ == e,
    }
}

pub open spec fn token_outcome(
    r: Result<Token, ParseError>,
    expected: Parsed<TokenView>,
    fin: ParseState,
) -> bool {
    match expected {
        Ok((v, st)) => r matches Ok(t) && t@ == v && fin == st,
        Err(e) => r matches Err(x) && x@ == e,
    }
}

pub open spec fn unit_outcome(
    r: Result<(), ParseError>,
    expected: Result<ParseState, ParseErrorView>,
    fin: ParseState,
) -> bool {
    match expected {
        Ok(st) => r is Ok && fin == st,
        Err(e) => r matches Err(x) && x@ == e,
    }
}

pub open spec fn separator_outcome(
    r: Result<Option<Node>, ParseError>,
    expected: Parsed<Option<NodeView>>,
    fin: ParseState,
) -> bool {
    match expected {
        Ok((Some(v), st)) => r matches Ok(Some(n)) && n.has_view(v) && fin == st,
        Ok((None, st)) => r matches Ok(None) && fin == st,
        Err(e) => r matches Err(x) && x@ == e,
    }
}

spec fn item_outcome(r: Result<Item, ParseError>, expected: Parsed<ItemView>, fin: ParseState) -> bool {
    match expected {
        Ok((ItemView::Node(v), st)) => r matches Ok(Item::Node(n)) && n.has_view(v) && fin == st,
        Ok((ItemView::End, st)) => r matches Ok(Item::End) && fin == st,
        Ok((ItemView::Terminator(t), st)) => r matches Ok(Item::Terminator(x)) && x@ == t && fin
            == st,
        Err(e) => r matches Err(x) && x@ == e,
    }
}

spec fn block_outcome(
    r: Result<(Vec<Node>, Token), ParseError>,
    expected: Parsed<(Seq<NodeView>, TokenView)>,
    fin: ParseState,
) -> bool {
    match expected {
        Ok(((v, t), st)) => r matches Ok((n, x)) && all_have_views(n@, v) && x@ == t && fin == st,
        Err(e) => r matches Err(x) && x@ == e,
    }
}

/// Whether two tokens are the same.
fn same_token(a: &Token, b: &Token) -> (r: bool)
    ensures
        r == (a@ == b@),
{
    match a {
        Token::Text(x) => match b {
            Token::Text(y) => *x == *y,
            _ => false,
        },
        Token::TemplateOpen => matches!(b, Token::TemplateOpen),
        Token::TemplateClose => matches!(b, Token::TemplateClose),
        Token::OpeningParen => matches!(b, Token::OpeningParen),
        Token::ClosingParen => matches!(b, Token::ClosingParen),
        Token::OpeningSqBracket => matches!(b, Token::OpeningSqBracket),
        Token::ClosingSqBracket => matches!(b, Token::ClosingSqBracket),
        Token::Comma => matches!(b, Token::Comma),
        Token::Exclamation => matches!(b, Token::Exclamation),
        Token::Keyword(x) => match b {
            Token::Keyword(y) => *x == *y,
            _ => false,
        },
        Token::Identifier(x) => match b {
            Token::Identifier(y) => *x == *y,
            _ => false,
        },
        Token::Literal(Literal::String(x)) => match b {
            Token::Literal(Literal::String(y)) => *x == *y,
            _ => false,
        },
        Token::Literal(Literal::Number(x)) => match b {
            Token::Literal(Literal::Number(y)) => *x == *y,
            _ => false,
        },
        Token::Operator(x) => match b {
            Token::Operator(y) => *x == *y,
            _ => false,
        },
    }
}

/// The operator of precedence `level` that `t` stands for.
fn operator_at(level: u8, t: &Token) -> (r: Option<Operator>)
    ensures
        r == level_operator(level, t@),
{
    match t {
        Token::Operator(op) => {
            let at: u8 = match op {
                Operator::Or => 5,
                Operator::And => 4,
                Operator::IsEqualTo => 3,
                Operator::IsNotEqualTo => 3,
                Operator::Add => 2,
                Operator::Subtract => 2,
                Operator::Multiply => 1,
                Operator::Divide => 1,
            };
            if at == level {
                Some(*op)
            } else {
                None
            }
        },
        _ => None,
    }
}

/// A recursive-descent parser over the tokens of a [`Lexer`], with room to
/// put one token back.
pub struct Parser<'a> {
    lexer: Lexer<'a>,
    buffer: Option<Token>,
}

impl<'a> Parser<'a> {
    pub closed spec fn wf(&self) -> bool {
        &&& self.lexer.wf()
        &&& 0 <= remaining(self.source(), self.state())
    }

    /// The template source being parsed.
    pub closed spec fn source(&self) -> Seq<char> {
        self.lexer.source()
    }

    /// Where the parse stands.
    pub closed spec fn state(&self) -> ParseState {
        ParseState {
            pos: self.lexer.position(),
            inside: self.lexer.inside(),
            buf: token_option_view(self.buffer),
        }
    }

    pub closed spec fn measure(&self) -> nat {
        remaining(self.source(), self.state()) as nat
    }

    /// `self` is a later state than `old` of the same parse.
    pub open spec fn follows(&self, old: &Self) -> bool {
        &&& self.wf()
        &&& self.source() == old.source()
        &&& no_growth(self.source(), self.state(), old.state())
    }

    /// `self` is a later state than `old` of the same parse, with at least a
    /// token read.
    pub open spec fn advanced(&self, old: &Self) -> bool {
        shrinks(self.source(), self.state(), old.state())
    }

    /// Parses a whole template into a `Body`.
    pub fn parse_input(input: &str) -> (r: Result<Node, ParseError>)
        ensures
            match parse(input@) {
                Ok(v) => r matches Ok(n) && n.has_view(v),
                Err(e) => r matches Err(x) && x@ == e,
            },
            r matches Ok(n) ==> n.is_body(),
    {
        let lexer = Lexer::new(input);
        let parser = Parser::new(lexer);
        parser.parse_all()
    }

    pub fn new(lexer: Lexer<'a>) -> (r: Self)
        requires
            lexer.wf(),
        ensures
            r.wf(),
            r.source() == lexer.source(),
            r.state() == (ParseState { pos: lexer.position(), inside: lexer.inside(), buf: None }),
    {
        proof {
            lexer.lemma_wf();
        }
        Parser { lexer, buffer: None }
    }

    /// Parses the rest of the source into a `Body`.
    pub fn parse_all(self) -> (r: Result<Node, ParseError>)
        requires
            self.wf(),
        ensures
            match body_items(self.source(), self.state(), Seq::empty()) {
                Ok(v) => r matches Ok(n) && n.has_view(v),
                Err(e) => r matches Err(x) && x@ == e,
            },
            r matches Ok(n) ==> n.is_body(),
    {
        let mut parser = self;
        parser.parse_items()
    }

    /// Parses template items up to the end of the source.
    fn parse_items(&mut self) -> (r: Result<Node, ParseError>)
        requires
            old(self).wf(),
        ensures
            match body_items(old(self).source(), old(self).state(), Seq::empty()) {
                Ok(v) => r matches Ok(n) && n.has_view(v),
                Err(e) => r matches Err(x) && x@ == e,
            },
            r matches Ok(n) ==> n.is_body(),
    {
        let ghost s = self.source();
        let ghost st0 = self.state();
        let mut nodes: Vec<Node> = Vec::new();
        let ghost mut views: Seq<NodeView> = Seq::empty();
        loop
            invariant
                self.follows(old(self)),
                self.source() == s,
                old(self).source() == s,
                old(self).state() == st0,
                all_have_views(nodes@, views),
                body_items(s, st0, Seq::empty()) == body_items(s, self.state(), views),
                forall|i: int| 0 <= i < nodes.len() ==> (#[trigger] nodes[i]).is_template_node(),
            decreases self.measure(),
        {
            let ghost st = self.state();
            match self.next_item() {
                Ok(Item::Node(node)) => {
                    proof {
                        views = views.push(item(s, st)->Ok_0.0->Node_0);
                    }
                    nodes.push(node);
                },
                Ok(Item::End) => return Ok(Node::Body(nodes)),
                Ok(Item::Terminator(token)) => {
                    return Err(ParseError::UnexpectedToken(token, "template"));
                },
                Err(e) => return Err(e),
            }
        }
    }

    /// Parses the next node of a template body; `None` at the end of the
    /// source. A block terminator out of place is an unexpected token.
    pub fn next_node(&mut self) -> (r: Result<Option<Node>, ParseError>)
        requires
            old(self).wf(),
        ensures
            final(self).follows(old(self)),
            r matches Ok(Some(n)) ==> n.is_template_node() && final(self).advanced(old(self)),
            match item(old(self).source(), old(self).state()) {
                Ok((ItemView::Node(v), st)) => r matches Ok(Some(n)) && n.has_view(v)
                    && final(self).state() == st,
                Ok((ItemView::End, st)) => r matches Ok(None) && final(self).state() == st,
                Ok((ItemView::Terminator(t), _)) => r matches Err(x) && x@
                    == ParseErrorView::UnexpectedToken(t),
                Err(e) => r matches Err(x) && x@ == e,
            },
    {
        match self.next_item() {
            Ok(Item::Node(node)) => Ok(Some(node)),
            Ok(Item::End) => Ok(None),
            Ok(Item::Terminator(token)) => Err(ParseError::UnexpectedToken(token, "template")),
            Err(e) => Err(e),
        }
    }

    fn next_item(&mut self) -> (r: Result<Item, ParseError>)
        requires
            old(self).wf(),
        ensures
            final(self).follows(old(self)),
            item_outcome(r, item(old(self).source(), old(self).state()), final(self).state()),
            r matches Ok(Item::Node(n)) ==> n.is_template_node(),
            r matches Ok(Item::Node(_)) ==> final(self).advanced(old(self)),
            r matches Ok(Item::Terminator(_)) ==> final(self).advanced(old(self)),
        decreases old(self).measure(), 14nat,
    {
        let token = match self.next_token() {
            Ok(None) => return Ok(Item::End),
            Ok(Some(token)) => token,
            Err(e) => return Err(e),
        };
        match token {
            Token::Text(string) => Ok(Item::Node(Node::Value(Literal::String(string)))),
            Token::TemplateOpen => self.parse_template(),
            token => Err(ParseError::UnexpectedToken(token, "template body")),
        }
    }

    /// Parses what follows `{{`.
    fn parse_template(&mut self) -> (r: Result<Item, ParseError>)
        requires
            old(self).wf(),
        ensures
            final(self).follows(old(self)),
            item_outcome(r, template(old(self).source(), old(self).state()), final(self).state()),
            r matches Ok(Item::Node(n)) ==> n.is_template_node(),
            r is Ok ==> final(self).advanced(old(self)),
            r matches Ok(item) ==> !(item is End),
        decreases old(self).measure(), 13nat,
    {
        let token = match self.expect_next_token() {
            Ok(token) => token,
            Err(e) => return Err(e),
        };
        let node = match token {
            Token::Keyword(Keyword::If) => self.parse_if(),
            Token::Keyword(Keyword::For) => self.parse_for(),
            Token::Keyword(keyword) => return Ok(Item::Terminator(Token::Keyword(keyword))),
            Token::Operator(Operator::Divide) => return Ok(
                Item::Terminator(Token::Operator(Operator::Divide)),
            ),
            token => {
                self.restore(token);
                self.parse_binary(EXPRESSION_LEVEL)
            },
        };
        let node = match node {
            Ok(node) => node,
            Err(e) => return Err(e),
        };
        match self.expect(Token::TemplateClose, "template") {
            Ok(()) => Ok(Item::Node(node)),
            Err(e) => Err(e),
        }
    }

    /// Parses template items up to a block terminator, which it returns.
    fn parse_block(&mut self) -> (r: Result<(Vec<Node>, Token), ParseError>)
        requires
            old(self).wf(),
        ensures
            final(self).follows(old(self)),
            block_outcome(
                r,
                block(old(self).source(), old(self).state(), Seq::empty()),
                final(self).state(),
            ),
            r matches Ok((nodes, _)) ==> forall|i: int|
                0 <= i < nodes.len() ==> (#[trigger] nodes[i]).is_template_node(),
            r is Ok ==> final(self).advanced(old(self)),
        decreases old(self).measure(), 15nat,
    {
        let ghost s = self.source();
        let ghost st0 = self.state();
        let mut nodes: Vec<Node> = Vec::new();
        let ghost mut views: Seq<NodeView> = Seq::empty();
        loop
            invariant
                self.follows(old(self)),
                self.source() == s,
                old(self).source() == s,
                old(self).state() == st0,
                all_have_views(nodes@, views),
                block(s, st0, Seq::empty()) == block(s, self.state(), views),
                forall|i: int| 0 <= i < nodes.len() ==> (#[trigger] nodes[i]).is_template_node(),
            decreases self.measure(),
        {
            let ghost st = self.state();
            match self.next_item() {
                Ok(Item::Node(node)) => {
                    proof {
                        views = views.push(item(s, st)->Ok_0.0->Node_0);
                    }
                    nodes.push(node);
                },
                Ok(Item::End) => return Err(ParseError::UnexpectedEOF),
                Ok(Item::Terminator(token)) => return Ok((nodes, token)),
                Err(e) => return Err(e),
            }
        }
    }

    /// Parses the rest of `{{if COND}} ... {{/if`, after the `if` (or `elif`)
    /// keyword; the closing `}}` is left to the caller.
    fn parse_if(&mut self) -> (r: Result<Node, ParseError>)
        requires
            old(self).wf(),
        ensures
            final(self).follows(old(self)),
            node_outcome(r, if_block(old(self).source(), old(self).state()), final(self).state()),
            r matches Ok(n) ==> n.is_template_node() && n is IfThenElse,
            r is Ok ==> final(self).advanced(old(self)),
        decreases old(self).measure(), 12nat,
    {
        let ghost s = self.source();
        let ghost st0 = self.state();
        let condition = match self.parse_binary(EXPRESSION_LEVEL) {
            Ok(condition) => condition,
            Err(e) => return Err(e),
        };
        let ghost condition_view = binary(s, st0, EXPRESSION_LEVEL)->Ok_0.0;
        match self.expect(Token::TemplateClose, "template if") {
            Ok(()) => {},
            Err(e) => return Err(e),
        }
        let ghost st2 = self.state();
        let (then_nodes, terminator) = match self.parse_block() {
            Ok(block) => block,
            Err(e) => return Err(e),
        };
        let ghost then_views = block(s, st2, Seq::empty())->Ok_0.0.0;
        let ghost st3 = self.state();
        let ghost then_view = NodeView::Body(then_views);
        assert(Node::Body(then_nodes).has_view(then_view));
        match terminator {
            Token::Keyword(Keyword::Elif) => {
                let elif_node = match self.parse_if() {
                    Ok(node) => node,
                    Err(e) => return Err(e),
                };
                let ghost elif_view = if_block(s, st3)->Ok_0.0;
                let mut elif_body: Vec<Node> = Vec::new();
                elif_body.push(elif_node);
                let else_node = Node::Body(elif_body);
                assert(else_node.has_view(NodeView::Body(seq![elif_view])));
                let node = Node::IfThenElse(
                    Box::new(condition),
                    Box::new(Node::Body(then_nodes)),
                    Some(Box::new(else_node)),
                );
                assert(node.has_view(
                    NodeView::IfThenElse(
                        Box::new(condition_view),
                        Box::new(then_view),
                        Some(Box::new(NodeView::Body(seq![elif_view]))),
                    ),
                ));
                Ok(node)
            },
            Token::Keyword(Keyword::Else) => {
                let else_node = match self.parse_else() {
                    Ok(node) => node,
                    Err(e) => return Err(e),
                };
                let ghost else_view = else_block(s, st3)->Ok_0.0;
                let node = Node::IfThenElse(
                    Box::new(condition),
                    Box::new(Node::Body(then_nodes)),
                    Some(Box::new(else_node)),
                );
                assert(node.has_view(
                    NodeView::IfThenElse(
                        Box::new(condition_view),
                        Box::new(then_view),
                        Some(Box::new(else_view)),
                    ),
                ));
                Ok(node)
            },
            Token::Operator(Operator::Divide) => {
                match self.expect(Token::Keyword(Keyword::If), "end if") {
                    Ok(()) => {},
                    Err(e) => return Err(e),
                }
                let node = Node::IfThenElse(
                    Box::new(condition),
                    Box::new(Node::Body(then_nodes)),
                    None,
                );
                assert(node.has_view(
                    NodeView::IfThenElse(Box::new(condition_view), Box::new(then_view), None),
                ));
                Ok(node)
            },
            token => Err(ParseError::UnexpectedToken(token, "template if")),
        }
    }

    /// Parses the rest of `{{else}} ... {{/if`, after the `else` keyword.
    fn parse_else(&mut self) -> (r: Result<Node, ParseError>)
        requires
            old(self).wf(),
        ensures
            final(self).follows(old(self)),
            node_outcome(r, else_block(old(self).source(), old(self).state()), final(self).state()),
            r matches Ok(n) ==> n.is_body(),
            r is Ok ==> final(self).advanced(old(self)),
        decreases old(self).measure(), 12nat,
    {
        match self.expect(Token::TemplateClose, "template else") {
            Ok(()) => {},
            Err(e) => return Err(e),
        }
        let (nodes, terminator) = match self.parse_block() {
            Ok(block) => block,
            Err(e) => return Err(e),
        };
        match terminator {
            Token::Operator(Operator::Divide) => {},
            token => return Err(ParseError::UnexpectedToken(token, "template else")),
        }
        match self.expect(Token::Keyword(Keyword::If), "else end if") {
            Ok(()) => Ok(Node::Body(nodes)),
            Err(e) => Err(e),
        }
    }

    /// Parses the optional separator of a loop and the `}}` after it.
    fn parse_separator(&mut self, Ghost(outer): Ghost<ParseState>) -> (r: Result<
        Option<Node>,
        ParseError,
    >)
        requires
            old(self).wf(),
            no_growth(old(self).source(), old(self).state(), outer),
        ensures
            final(self).follows(old(self)),
            separator_outcome(
                r,
                separator(old(self).source(), old(self).state(), outer),
                final(self).state(),
            ),
            r matches Ok(Some(n)) ==> n.is_expression(),
            r is Ok ==> final(self).advanced(old(self)),
        decreases remaining(old(self).source(), outer), 11nat,
    {
        let token = match self.expect_next_token() {
            Ok(token) => token,
            Err(e) => return Err(e),
        };
        match token {
            Token::TemplateClose => Ok(None),
            token => {
                self.restore(token);
                let separator = match self.parse_binary(EXPRESSION_LEVEL) {
                    Ok(separator) => separator,
                    Err(e) => return Err(e),
                };
                match self.expect(Token::TemplateClose, "template for") {
                    Ok(()) => Ok(Some(separator)),
                    Err(e) => Err(e),
                }
            },
        }
    }

    /// Parses the rest of `{{for ID in EXPR SEP}} ... {{/for`, after the
    /// `for` keyword; the closing `}}` is left to the caller.
    fn parse_for(&mut self) -> (r: Result<Node, ParseError>)
        requires
            old(self).wf(),
        ensures
            final(self).follows(old(self)),
            node_outcome(r, for_block(old(self).source(), old(self).state()), final(self).state()),
            r matches Ok(n) ==> n.is_template_node() && n is ForIn,
            r is Ok ==> final(self).advanced(old(self)),
        decreases old(self).measure(), 12nat,
    {
        let ghost s = self.source();
        let ghost st0 = self.state();
        let identifier = match self.expect_next_token() {
            Ok(Token::Identifier(identifier)) => identifier,
            Ok(token) => return Err(ParseError::UnexpectedToken(token, "template for")),
            Err(e) => return Err(e),
        };
        match self.expect(Token::Keyword(Keyword::In), "template for") {
            Ok(()) => {},
            Err(e) => return Err(e),
        }
        let ghost st2 = self.state();
        let iterable = match self.parse_binary(EXPRESSION_LEVEL) {
            Ok(iterable) => iterable,
            Err(e) => return Err(e),
        };
        let ghost iterable_view = binary(s, st2, EXPRESSION_LEVEL)->Ok_0.0;
        let ghost st3 = self.state();
        let sep = match self.parse_separator(Ghost(st0)) {
            Ok(sep) => sep,
            Err(e) => return Err(e),
        };
        let ghost separator_view = separator(s, st3, st0)->Ok_0.0;
        let ghost st4 = self.state();
        let (body, terminator) = match self.parse_block() {
            Ok(block) => block,
            Err(e) => return Err(e),
        };
        let ghost body_view = NodeView::Body(block(s, st4, Seq::empty())->Ok_0.0.0);
        match terminator {
            Token::Operator(Operator::Divide) => {},
            token => return Err(ParseError::UnexpectedToken(token, "template for")),
        }
        match self.expect(Token::Keyword(Keyword::For), "end for") {
            Ok(()) => {},
            Err(e) => return Err(e),
        }
        let sep = match sep {
            Some(sep) => Some(Box::new(sep)),
            None => None,
        };
        let ghost id_view = identifier@;
        assert(iterable.has_view(iterable_view));
        assert(Node::Body(body).has_view(body_view));
        assert(match sep {
            Some(x) => separator_view is Some && x.has_view(separator_view->Some_0),
            None => separator_view is None,
        });
        let node = Node::ForIn(identifier, Box::new(iterable), Box::new(Node::Body(body)), sep);
        assert(node.has_view(
            NodeView::ForIn(
                id_view,
                Box::new(iterable_view),
                Box::new(body_view),
                match separator_view {
                    Some(x) => Some(Box::new(x)),
                    None => None,
                },
            ),
        ));
        Ok(node)
    }

    /// Parses an operand of an operator of precedence `level`.
    fn parse_operand(&mut self, level: u8) -> (r: Result<Node, ParseError>)
        requires
            old(self).wf(),
            1 <= level <= 5,
        ensures
            final(self).follows(old(self)),
            node_outcome(r, operand(old(self).source(), old(self).state(), level), final(self).state()),
            r matches Ok(n) ==> n.is_expression(),
            r is Ok ==> final(self).advanced(old(self)),
        decreases old(self).measure(), 2 * level - 1,
    {
        if level == 1 {
            self.parse_factor()
        } else {
            self.parse_binary(level - 1)
        }
    }

    /// Parses a left-associative chain of operators of precedence `level`:
    /// `||` at 5, `&&` at 4, `==` and `!=` at 3, `+` and `-` at 2, `*` and `/`
    /// at 1. Level 5 is a whole expression.
    fn parse_binary(&mut self, level: u8) -> (r: Result<Node, ParseError>)
        requires
            old(self).wf(),
            1 <= level <= 5,
        ensures
            final(self).follows(old(self)),
            node_outcome(r, binary(old(self).source(), old(self).state(), level), final(self).state()),
            r matches Ok(n) ==> n.is_expression(),
            r is Ok ==> final(self).advanced(old(self)),
        decreases old(self).measure(), 2 * level,
    {
        let ghost s = self.source();
        let ghost st0 = self.state();
        let mut expression = match self.parse_operand(level) {
            Ok(node) => node,
            Err(e) => return Err(e),
        };
        let ghost mut lhs: NodeView = operand(s, st0, level)->Ok_0.0;
        loop
            invariant_except_break
                binary(s, st0, level) == binary_rest(s, self.state(), level, lhs),
            invariant
                self.wf(),
                self.source() == s,
                old(self).source() == s,
                old(self).state() == st0,
                1 <= level <= 5,
                shrinks(s, self.state(), st0),
                expression.has_view(lhs),
                expression.is_expression(),
            ensures
                binary(s, st0, level) == Ok::<(NodeView, ParseState), ParseErrorView>(
                    (lhs, self.state()),
                ),
            decreases self.measure(),
        {
            let ghost st = self.state();
            let token = match self.next_token() {
                Ok(None) => break,
                Ok(Some(token)) => token,
                Err(e) => return Err(e),
            };
            match operator_at(level, &token) {
                Some(op) => {
                    let ghost st1 = self.state();
                    let rhs = match self.parse_operand(level) {
                        Ok(node) => node,
                        Err(e) => return Err(e),
                    };
                    proof {
                        lhs = NodeView::Operation(
                            Box::new(lhs),
                            op,
                            Box::new(operand(s, st1, level)->Ok_0.0),
                        );
                    }
                    expression = Node::Operation(Box::new(expression), op, Box::new(rhs));
                },
                None => {
                    self.restore(token);
                    break;
                },
            }
        }
        Ok(expression)
    }

    /// Literals, arrays, parentheses, variables, calls and the unary operators.
    fn parse_factor(&mut self) -> (r: Result<Node, ParseError>)
        requires
            old(self).wf(),
        ensures
            final(self).follows(old(self)),
            node_outcome(r, factor(old(self).source(), old(self).state()), final(self).state()),
            r matches Ok(n) ==> n.is_expression(),
            r is Ok ==> final(self).advanced(old(self)),
        decreases old(self).measure(), 0nat,
    {
        let token = match self.expect_next_token() {
            Ok(token) => token,
            Err(e) => return Err(e),
        };
        let factor = match token {
            Token::Literal(value) => Node::Value(value),
            Token::OpeningSqBracket => match self.parse_array() {
                Ok(array) => array,
                Err(e) => return Err(e),
            },
            Token::OpeningParen => {
                let expression = match self.parse_binary(EXPRESSION_LEVEL) {
                    Ok(expression) => expression,
                    Err(e) => return Err(e),
                };
                match self.expect(Token::ClosingParen, "parentheses") {
                    Ok(()) => {},
                    Err(e) => return Err(e),
                }
                expression
            },
            Token::Identifier(identifier) => {
                let next_token = match self.expect_next_token() {
                    Ok(token) => token,
                    Err(e) => return Err(e),
                };
                match next_token {
                    Token::OpeningParen => match self.parse_function_call(identifier) {
                        Ok(call) => call,
                        Err(e) => return Err(e),
                    },
                    next_token => {
                        self.restore(next_token);
                        Node::Variable(identifier)
                    },
                }
            },
            Token::Exclamation => match self.parse_factor() {
                Ok(node) => Node::Not(Box::new(node)),
                Err(e) => return Err(e),
            },
            Token::Operator(Operator::Subtract) => match self.parse_factor() {
                Ok(node) => Node::Negate(Box::new(node)),
                Err(e) => return Err(e),
            },
            token => return Err(ParseError::UnexpectedToken(token, "factor")),
        };
        Ok(factor)
    }

    /// Parses the arguments of a call, after the opening parenthesis.
    fn parse_function_call(&mut self, identifier: String) -> (r: Result<Node, ParseError>)
        requires
            old(self).wf(),
        ensures
            final(self).follows(old(self)),
            node_outcome(
                r,
                match list(old(self).source(), old(self).state(), TokenView::ClosingParen, Seq::empty()) {
                    Ok((args, st)) => Ok((NodeView::FunctionCall(identifier@, args), st)),
                    Err(e) => Err(e),
                },
                final(self).state(),
            ),
            r matches Ok(n) ==> n.is_expression(),
            r is Ok ==> final(self).advanced(old(self)),
        decreases old(self).measure(), 12nat,
    {
        match self.parse_list(Token::ClosingParen, "function call") {
            Ok(args) => Ok(Node::FunctionCall(identifier, args)),
            Err(e) => Err(e),
        }
    }

    /// Parses the elements of an array literal, after the opening bracket.
    fn parse_array(&mut self) -> (r: Result<Node, ParseError>)
        requires
            old(self).wf(),
        ensures
            final(self).follows(old(self)),
            node_outcome(
                r,
                match list(old(self).source(), old(self).state(), TokenView::ClosingSqBracket, Seq::empty()) {
                    Ok((elements, st)) => Ok((NodeView::Array(elements), st)),
                    Err(e) => Err(e),
                },
                final(self).state(),
            ),
            r matches Ok(n) ==> n.is_expression(),
            r is Ok ==> final(self).advanced(old(self)),
        decreases old(self).measure(), 12nat,
    {
        match self.parse_list(Token::ClosingSqBracket, "array") {
            Ok(elements) => Ok(Node::Array(elements)),
            Err(e) => Err(e),
        }
    }

    /// Parses comma-separated expressions up to `close`, after the opening
    /// token (a trailing comma is allowed, and so is an empty list).
    fn parse_list(&mut self, close: Token, parsing: &'static str) -> (r: Result<
        Vec<Node>,
        ParseError,
    >)
        requires
            old(self).wf(),
        ensures
            final(self).follows(old(self)),
            nodes_outcome(
                r,
                list(old(self).source(), old(self).state(), close@, Seq::empty()),
                final(self).state(),
            ),
            r matches Ok(nodes) ==> forall|i: int|
                0 <= i < nodes.len() ==> (#[trigger] nodes[i]).is_expression(),
            r is Ok ==> final(self).advanced(old(self)),
        decreases old(self).measure(), 11nat,
    {
        let ghost s = self.source();
        let ghost st0 = self.state();
        let mut nodes: Vec<Node> = Vec::new();
        let ghost mut views: Seq<NodeView> = Seq::empty();
        loop
            invariant
                self.follows(old(self)),
                self.source() == s,
                old(self).source() == s,
                old(self).state() == st0,
                all_have_views(nodes@, views),
                list(s, st0, close@, Seq::empty()) == list(s, self.state(), close@, views),
                nodes.len() > 0 ==> shrinks(s, self.state(), st0),
                forall|i: int| 0 <= i < nodes.len() ==> (#[trigger] nodes[i]).is_expression(),
            decreases self.measure(),
        {
            let token = match self.expect_next_token() {
                Ok(token) => token,
                Err(e) => return Err(e),
            };
            if same_token(&token, &close) {
                return Ok(nodes);
            }
            self.restore(token);
            let ghost st1 = self.state();
            let element = match self.parse_binary(EXPRESSION_LEVEL) {
                Ok(element) => element,
                Err(e) => return Err(e),
            };
            proof {
                views = views.push(binary(s, st1, EXPRESSION_LEVEL)->Ok_0.0);
            }
            nodes.push(element);
            let token = match self.expect_next_token() {
                Ok(token) => token,
                Err(e) => return Err(e),
            };
            if same_token(&token, &close) {
                return Ok(nodes);
            }
            match token {
                Token::Comma => {},
                token => return Err(ParseError::UnexpectedToken(token, parsing)),
            }
        }
    }

    /// The next token, from the one put back if there is one.
    fn next_token(&mut self) -> (r: Result<Option<Token>, ParseError>)
        requires
            old(self).wf(),
        ensures
            final(self).follows(old(self)),
            final(self).buffer is None,
            r matches Ok(Some(_)) ==> final(self).advanced(old(self)),
            match next_token_step(old(self).source(), old(self).state()) {
                (Ok(t), st) => r matches Ok(x) && token_option_view(x) == t && final(self).state()
                    == st,
                (Err(e), _) => r matches Err(x) && x@ == e,
            },
    {
        proof {
            self.lexer.lemma_wf();
        }
        match self.buffer.take() {
            Some(token) => Ok(Some(token)),
            None => {
                proof {
                    lemma_lex_step_progress(
                        self.lexer.source(),
                        self.lexer.position(),
                        self.lexer.inside(),
                    );
                }
                let result = self.lexer.yield_token();
                proof {
                    self.lexer.lemma_wf();
                }
                match result {
                    Ok(token) => Ok(token),
                    Err(err) => Err(ParseError::LexerError(err)),
                }
            },
        }
    }

    fn expect_next_token(&mut self) -> (r: Result<Token, ParseError>)
        requires
            old(self).wf(),
        ensures
            final(self).follows(old(self)),
            final(self).buffer is None,
            r is Ok ==> final(self).advanced(old(self)),
            token_outcome(r, expect_next_step(old(self).source(), old(self).state()), final(self).state()),
    {
        match self.next_token() {
            Ok(Some(token)) => Ok(token),
            Ok(None) => Err(ParseError::UnexpectedEOF),
            Err(e) => Err(e),
        }
    }

    /// Consumes the next token, which must be `expected_token`.
    fn expect(&mut self, expected_token: Token, parsing: &'static str) -> (r: Result<
        (),
        ParseError,
    >)
        requires
            old(self).wf(),
        ensures
            final(self).follows(old(self)),
            r is Ok ==> final(self).advanced(old(self)),
            unit_outcome(
                r,
                expect_step(old(self).source(), old(self).state(), expected_token@),
                final(self).state(),
            ),
    {
        let next_token = match self.expect_next_token() {
            Ok(token) => token,
            Err(e) => return Err(e),
        };
        if same_token(&next_token, &expected_token) {
            Ok(())
        } else {
            Err(ParseError::UnexpectedToken(next_token, parsing))
        }
    }

    /// Puts back a token that was read and not needed.
    fn restore(&mut self, token: Token)
        requires
            old(self).wf(),
            old(self).buffer is None,
        ensures
            final(self).wf(),
            final(self).source() == old(self).source(),
            final(self).state() == put_back(old(self).state(), token@),
            final(self).measure() == old(self).measure() + 1,
    {
        self.buffer = Some(token);
    }
}

} // verus!
