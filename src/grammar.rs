use vstd::prelude::*;

use crate::lexer::{
    in_class, lemma_literal_steps, lex_step, literal_template, valid_number, CharClass, Keyword,
    LexerErrorView, Operator, TokenView,
};
use crate::node::NodeView;

verus! {

/// Where a parse stands: the scanner's position and mode, and the token that
/// was put back, if any.
pub struct ParseState {
    pub pos: int,
    pub inside: bool,
    pub buf: Option<TokenView>,
}

pub enum ParseErrorView {
    LexerError(LexerErrorView),
    UnexpectedEOF,
    UnexpectedToken(TokenView),
}

/// What a template item is: a node, the end of the source, or a block
/// terminator (the token after `{{`: `elif`, `else`, `in` or `/`).
pub enum ItemView {
    Node(NodeView),
    End,
    Terminator(TokenView),
}

/// A parse result and the state after it.
pub type Parsed<A> = Result<(A, ParseState), ParseErrorView>;

/// The precedence level of a whole expression.
pub const EXPRESSION_LEVEL: u8 = 5;

pub open spec fn initial_state() -> ParseState {
    ParseState { pos: 0, inside: false, buf: None }
}

/// What is left to read: twice the characters left, and one for a token put
/// back. Every token read makes it smaller.
pub open spec fn remaining(s: Seq<char>, st: ParseState) -> int {
    2 * (s.len() - st.pos) + if st.buf is Some {
        1int
    } else {
        0int
    }
}

/// `st2` comes strictly later than `st` (a guard that every recursive step
/// below meets; it keeps the definitions well-founded).
pub open spec fn shrinks(s: Seq<char>, st2: ParseState, st: ParseState) -> bool {
    0 <= remaining(s, st2) < remaining(s, st)
}

pub open spec fn no_growth(s: Seq<char>, st2: ParseState, st: ParseState) -> bool {
    0 <= remaining(s, st2) <= remaining(s, st)
}

pub open spec fn put_back(st: ParseState, t: TokenView) -> ParseState {
    ParseState { pos: st.pos, inside: st.inside, buf: Some(t) }
}

/// The next token: the one put back, else the next one scanned.
pub open spec fn next_token_step(s: Seq<char>, st: ParseState) -> (
    Result<Option<TokenView>, ParseErrorView>,
    ParseState,
) {
    match st.buf {
        Some(t) => (Ok(Some(t)), ParseState { pos: st.pos, inside: st.inside, buf: None }),
        None => {
            let step = lex_step(s, st.pos, st.inside);
            match step.result {
                Ok(t) => (Ok(t), ParseState { pos: step.next, inside: step.inside, buf: None }),
                Err(e) => (Err(ParseErrorView::LexerError(e)), st),
            }
        },
    }
}

/// The next token, which must exist.
pub open spec fn expect_next_step(s: Seq<char>, st: ParseState) -> Parsed<TokenView> {
    match next_token_step(s, st) {
        (Ok(Some(t)), st1) => Ok((t, st1)),
        (Ok(None), _) => Err(ParseErrorView::UnexpectedEOF),
        (Err(e), _) => Err(e),
    }
}

/// The next token, which must be `expected`.
pub open spec fn expect_step(s: Seq<char>, st: ParseState, expected: TokenView) -> Result<
    ParseState,
    ParseErrorView,
> {
    match expect_next_step(s, st) {
        Ok((t, st1)) => if t == expected {
            Ok(st1)
        } else {
            Err(ParseErrorView::UnexpectedToken(t))
        },
        Err(e) => Err(e),
    }
}

/// The binary operator that token `t` stands for at precedence `level`:
/// `||` at 5, `&&` at 4, `==` and `!=` at 3, `+` and `-` at 2, `*` and `/` at 1.
pub open spec fn level_operator(level: u8, t: TokenView) -> Option<Operator> {
    match t {
        TokenView::Operator(op) => {
            let at = match op {
                Operator::Or => 5u8,
                Operator::And => 4u8,
                Operator::IsEqualTo => 3u8,
                Operator::IsNotEqualTo => 3u8,
                Operator::Add => 2u8,
                Operator::Subtract => 2u8,
                Operator::Multiply => 1u8,
                Operator::Divide => 1u8,
            };
            if at == level {
                Some(op)
            } else {
                None
            }
        },
        _ => None,
    }
}

/// A factor: a literal, an array, a parenthesised expression, a variable, a
/// call, or `!` or `-` before a factor.
pub open spec fn factor(s: Seq<char>, st: ParseState) -> Parsed<NodeView>
    decreases remaining(s, st), 0nat,
{
    match expect_next_step(s, st) {
        Err(e) => Err(e),
        Ok((t, st1)) => if !shrinks(s, st1, st) {
            Err(ParseErrorView::UnexpectedEOF)
        } else {
            match t {
                TokenView::Num(x) => Ok((NodeView::Num(x), st1)),
                TokenView::Str(x) => Ok((NodeView::Str(x), st1)),
                TokenView::OpeningSqBracket => match list(
                    s,
                    st1,
                    TokenView::ClosingSqBracket,
                    Seq::empty(),
                ) {
                    Ok((elements, st2)) => Ok((NodeView::Array(elements), st2)),
                    Err(e) => Err(e),
                },
                TokenView::OpeningParen => match binary(s, st1, EXPRESSION_LEVEL) {
                    Ok((e, st2)) => match expect_step(s, st2, TokenView::ClosingParen) {
                        Ok(st3) => Ok((e, st3)),
                        Err(x) => Err(x),
                    },
                    Err(x) => Err(x),
                },
                TokenView::Identifier(id) => match expect_next_step(s, st1) {
                    Ok((t2, st2)) => if t2 == TokenView::OpeningParen {
                        if shrinks(s, st2, st) {
                            match list(s, st2, TokenView::ClosingParen, Seq::empty()) {
                                Ok((args, st3)) => Ok((NodeView::FunctionCall(id, args), st3)),
                                Err(e) => Err(e),
                            }
                        } else {
                            Err(ParseErrorView::UnexpectedEOF)
                        }
                    } else {
                        Ok((NodeView::Variable(id), put_back(st2, t2)))
                    },
                    Err(e) => Err(e),
                },
                TokenView::Exclamation => match factor(s, st1) {
                    Ok((n, st2)) => Ok((NodeView::Not(Box::new(n)), st2)),
                    Err(e) => Err(e),
                },
                TokenView::Operator(Operator::Subtract) => match factor(s, st1) {
                    Ok((n, st2)) => Ok((NodeView::Negate(Box::new(n)), st2)),
                    Err(e) => Err(e),
                },
                _ => Err(ParseErrorView::UnexpectedToken(t)),
            }
        },
    }
}

/// An operand of an operator of precedence `level` (1 to 5): a factor at 1,
/// else a chain of the level below.
pub open spec fn operand(s: Seq<char>, st: ParseState, level: u8) -> Parsed<NodeView>
    decreases remaining(s, st), 2 * level - 1,
{
    if level == 1 {
        factor(s, st)
    } else if level == 0 || level > 5 {
        Err(ParseErrorView::UnexpectedEOF)
    } else {
        binary(s, st, (level - 1) as u8)
    }
}

/// An operand of precedence `level` (1 to 5) and the left-associative chain
/// of operators of that level after it.
pub open spec fn binary(s: Seq<char>, st: ParseState, level: u8) -> Parsed<NodeView>
    decreases remaining(s, st), 2 * level,
{
    if level == 0 || level > 5 {
        Err(ParseErrorView::UnexpectedEOF)
    } else {
        match operand(s, st, level) {
            Ok((lhs, st1)) => if shrinks(s, st1, st) {
                binary_rest(s, st1, level, lhs)
            } else {
                Err(ParseErrorView::UnexpectedEOF)
            },
            Err(e) => Err(e),
        }
    }
}

/// The rest of a chain at precedence `level` after its left part `lhs`.
pub open spec fn binary_rest(s: Seq<char>, st: ParseState, level: u8, lhs: NodeView) -> Parsed<
    NodeView,
>
    decreases remaining(s, st), 2 * level + 1,
{
    if level == 0 || level > 5 {
        Err(ParseErrorView::UnexpectedEOF)
    } else {
        match next_token_step(s, st) {
            (Ok(Some(t)), st1) => match level_operator(level, t) {
                Some(op) => if shrinks(s, st1, st) {
                    match operand(s, st1, level) {
                        Ok((r, st2)) => if shrinks(s, st2, st) {
                            binary_rest(
                                s,
                                st2,
                                level,
                                NodeView::Operation(Box::new(lhs), op, Box::new(r)),
                            )
                        } else {
                            Err(ParseErrorView::UnexpectedEOF)
                        },
                        Err(e) => Err(e),
                    }
                } else {
                    Err(ParseErrorView::UnexpectedEOF)
                },
                None => Ok((lhs, put_back(st1, t))),
            },
            (Ok(None), st1) => Ok((lhs, st1)),
            (Err(e), _) => Err(e),
        }
    }
}

/// Comma-separated expressions up to the token `close`, after the opening
/// one, appended to `acc`. A trailing comma and an empty list are allowed.
pub open spec fn list(s: Seq<char>, st: ParseState, close: TokenView, acc: Seq<NodeView>) -> Parsed<
    Seq<NodeView>,
>
    decreases remaining(s, st), 11nat,
{
    match expect_next_step(s, st) {
        Err(e) => Err(e),
        Ok((t, st1)) => if t == close {
            Ok((acc, st1))
        } else if !no_growth(s, put_back(st1, t), st) {
            Err(ParseErrorView::UnexpectedEOF)
        } else {
            match binary(s, put_back(st1, t), EXPRESSION_LEVEL) {
                Err(e) => Err(e),
                Ok((e, st2)) => match expect_next_step(s, st2) {
                    Err(x) => Err(x),
                    Ok((t2, st3)) => if t2 == close {
                        Ok((acc.push(e), st3))
                    } else if t2 == TokenView::Comma {
                        if shrinks(s, st3, st) {
                            list(s, st3, close, acc.push(e))
                        } else {
                            Err(ParseErrorView::UnexpectedEOF)
                        }
                    } else {
                        Err(ParseErrorView::UnexpectedToken(t2))
                    },
                },
            }
        },
    }
}

/// What follows `{{`: a block, an expression and `}}`, or a terminator.
pub open spec fn template(s: Seq<char>, st: ParseState) -> Parsed<ItemView>
    decreases remaining(s, st), 13nat,
{
    match expect_next_step(s, st) {
        Err(e) => Err(e),
        Ok((t, st1)) => if !shrinks(s, st1, st) {
            Err(ParseErrorView::UnexpectedEOF)
        } else if t == TokenView::Operator(Operator::Divide) || (t is Keyword && t
            != TokenView::Keyword(Keyword::If) && t != TokenView::Keyword(Keyword::For)) {
            Ok((ItemView::Terminator(t), st1))
        } else {
            let node = if t == TokenView::Keyword(Keyword::If) {
                if_block(s, st1)
            } else if t == TokenView::Keyword(Keyword::For) {
                for_block(s, st1)
            } else {
                binary(s, put_back(st1, t), EXPRESSION_LEVEL)
            };
            match node {
                Ok((n, st2)) => match expect_step(s, st2, TokenView::TemplateClose) {
                    Ok(st3) => Ok((ItemView::Node(n), st3)),
                    Err(e) => Err(e),
                },
                Err(e) => Err(e),
            }
        },
    }
}

/// The next item of a template body.
pub open spec fn item(s: Seq<char>, st: ParseState) -> Parsed<ItemView>
    decreases remaining(s, st), 14nat,
{
    match next_token_step(s, st) {
        (Err(e), _) => Err(e),
        (Ok(None), st1) => Ok((ItemView::End, st1)),
        (Ok(Some(t)), st1) => match t {
            TokenView::Text(x) => Ok((ItemView::Node(NodeView::Str(x)), st1)),
            TokenView::TemplateOpen => if shrinks(s, st1, st) {
                template(s, st1)
            } else {
                Err(ParseErrorView::UnexpectedEOF)
            },
            _ => Err(ParseErrorView::UnexpectedToken(t)),
        },
    }
}

/// The items of a block up to its terminator, appended to `acc`.
pub open spec fn block(s: Seq<char>, st: ParseState, acc: Seq<NodeView>) -> Parsed<
    (Seq<NodeView>, TokenView),
>
    decreases remaining(s, st), 15nat,
{
    match item(s, st) {
        Err(e) => Err(e),
        Ok((ItemView::Node(n), st1)) => if shrinks(s, st1, st) {
            block(s, st1, acc.push(n))
        } else {
            Err(ParseErrorView::UnexpectedEOF)
        },
        Ok((ItemView::End, _)) => Err(ParseErrorView::UnexpectedEOF),
        Ok((ItemView::Terminator(t), st1)) => Ok(((acc, t), st1)),
    }
}

/// `COND}} ... {{elif ...` / `{{else}} ... {{/if` / `{{/if`, after `if` or
/// `elif`; the closing `}}` is left.
pub open spec fn if_block(s: Seq<char>, st: ParseState) -> Parsed<NodeView>
    decreases remaining(s, st), 12nat,
{
    match binary(s, st, EXPRESSION_LEVEL) {
        Err(e) => Err(e),
        Ok((condition, st1)) => match expect_step(s, st1, TokenView::TemplateClose) {
            Err(e) => Err(e),
            Ok(st2) => if !shrinks(s, st2, st) {
                Err(ParseErrorView::UnexpectedEOF)
            } else {
                match block(s, st2, Seq::empty()) {
                    Err(e) => Err(e),
                    Ok(((nodes, terminator), st3)) => if !shrinks(s, st3, st) {
                        Err(ParseErrorView::UnexpectedEOF)
                    } else if terminator == TokenView::Keyword(Keyword::Elif) {
                        match if_block(s, st3) {
                            Ok((n, st4)) => Ok(
                                (
                                    NodeView::IfThenElse(
                                        Box::new(condition),
                                        Box::new(NodeView::Body(nodes)),
                                        Some(Box::new(NodeView::Body(seq![n]))),
                                    ),
                                    st4,
                                ),
                            ),
                            Err(e) => Err(e),
                        }
                    } else if terminator == TokenView::Keyword(Keyword::Else) {
                        match else_block(s, st3) {
                            Ok((e, st4)) => Ok(
                                (
                                    NodeView::IfThenElse(
                                        Box::new(condition),
                                        Box::new(NodeView::Body(nodes)),
                                        Some(Box::new(e)),
                                    ),
                                    st4,
                                ),
                            ),
                            Err(e) => Err(e),
                        }
                    } else if terminator == TokenView::Operator(Operator::Divide) {
                        match expect_step(s, st3, TokenView::Keyword(Keyword::If)) {
                            Ok(st4) => Ok(
                                (
                                    NodeView::IfThenElse(
                                        Box::new(condition),
                                        Box::new(NodeView::Body(nodes)),
                                        None,
                                    ),
                                    st4,
                                ),
                            ),
                            Err(e) => Err(e),
                        }
                    } else {
                        Err(ParseErrorView::UnexpectedToken(terminator))
                    },
                }
            },
        },
    }
}

/// `}} ... {{/if`, after `else`; the closing `}}` is left.
pub open spec fn else_block(s: Seq<char>, st: ParseState) -> Parsed<NodeView>
    decreases remaining(s, st), 12nat,
{
    match expect_step(s, st, TokenView::TemplateClose) {
        Err(e) => Err(e),
        Ok(st1) => if !shrinks(s, st1, st) {
            Err(ParseErrorView::UnexpectedEOF)
        } else {
            match block(s, st1, Seq::empty()) {
                Err(e) => Err(e),
                Ok(((nodes, terminator), st2)) => if terminator == TokenView::Operator(
                    Operator::Divide,
                ) {
                    match expect_step(s, st2, TokenView::Keyword(Keyword::If)) {
                        Ok(st3) => Ok((NodeView::Body(nodes), st3)),
                        Err(e) => Err(e),
                    }
                } else {
                    Err(ParseErrorView::UnexpectedToken(terminator))
                },
            }
        },
    }
}

/// The optional separator of a loop and the `}}` after it.
pub open spec fn separator(s: Seq<char>, st: ParseState, outer: ParseState) -> Parsed<
    Option<NodeView>,
>
    decreases remaining(s, outer), 11nat,
{
    match expect_next_step(s, st) {
        Err(e) => Err(e),
        Ok((t, st1)) => if t == TokenView::TemplateClose {
            Ok((None, st1))
        } else if !no_growth(s, put_back(st1, t), outer) {
            Err(ParseErrorView::UnexpectedEOF)
        } else {
            match binary(s, put_back(st1, t), EXPRESSION_LEVEL) {
                Err(e) => Err(e),
                Ok((sep, st2)) => match expect_step(s, st2, TokenView::TemplateClose) {
                    Ok(st3) => Ok((Some(sep), st3)),
                    Err(e) => Err(e),
                },
            }
        },
    }
}

/// `ID in EXPR SEP}} ... {{/for`, after `for`; the closing `}}` is left.
pub open spec fn for_block(s: Seq<char>, st: ParseState) -> Parsed<NodeView>
    decreases remaining(s, st), 12nat,
{
    match expect_next_step(s, st) {
        Err(e) => Err(e),
        Ok((TokenView::Identifier(id), st1)) => match expect_step(
            s,
            st1,
            TokenView::Keyword(Keyword::In),
        ) {
            Err(e) => Err(e),
            Ok(st2) => if !no_growth(s, st2, st) {
                Err(ParseErrorView::UnexpectedEOF)
            } else {
                match binary(s, st2, EXPRESSION_LEVEL) {
                    Err(e) => Err(e),
                    Ok((iterable, st3)) => if !no_growth(s, st3, st) {
                        Err(ParseErrorView::UnexpectedEOF)
                    } else {
                        match separator(s, st3, st) {
                            Err(e) => Err(e),
                            Ok((sep, st4)) => if !shrinks(s, st4, st) {
                                Err(ParseErrorView::UnexpectedEOF)
                            } else {
                                match block(s, st4, Seq::empty()) {
                                    Err(e) => Err(e),
                                    Ok(((body, terminator), st5)) => if terminator
                                        == TokenView::Operator(Operator::Divide) {
                                        match expect_step(
                                            s,
                                            st5,
                                            TokenView::Keyword(Keyword::For),
                                        ) {
                                            Ok(st6) => Ok(
                                                (
                                                    NodeView::ForIn(
                                                        id,
                                                        Box::new(iterable),
                                                        Box::new(NodeView::Body(body)),
                                                        match sep {
                                                            Some(x) => Some(Box::new(x)),
                                                            None => None,
                                                        },
                                                    ),
                                                    st6,
                                                ),
                                            ),
                                            Err(e) => Err(e),
                                        }
                                    } else {
                                        Err(ParseErrorView::UnexpectedToken(terminator))
                                    },
                                }
                            },
                        }
                    },
                }
            },
        },
        Ok((t, _)) => Err(ParseErrorView::UnexpectedToken(t)),
    }
}

/// The items of a template body up to the end of the source, appended to `acc`.
pub open spec fn body_items(s: Seq<char>, st: ParseState, acc: Seq<NodeView>) -> Result<
    NodeView,
    ParseErrorView,
>
    decreases remaining(s, st), 15nat,
{
    match item(s, st) {
        Err(e) => Err(e),
        Ok((ItemView::Node(n), st1)) => if shrinks(s, st1, st) {
            body_items(s, st1, acc.push(n))
        } else {
            Err(ParseErrorView::UnexpectedEOF)
        },
        Ok((ItemView::End, _)) => Ok(NodeView::Body(acc)),
        Ok((ItemView::Terminator(t), _)) => Err(ParseErrorView::UnexpectedToken(t)),
    }
}

/// The syntax tree of a template source, or why it has none.
pub open spec fn parse(s: Seq<char>) -> Result<NodeView, ParseErrorView> {
    body_items(s, initial_state(), Seq::empty())
}

/// The chain at every precedence level, from `st`, holds just the number
/// put back in `st`, when `}}` follows it.
proof fn lemma_lone_number_chain(s: Seq<char>, l: Seq<char>, st: ParseState, level: u8)
    requires
        1 <= level <= 5,
        st.buf == Some(TokenView::Num(l)),
        0 <= st.pos,
        st.pos + 2 == s.len(),
        lex_step(s, st.pos, st.inside) == crate::lexer::emit(
            TokenView::TemplateClose,
            s.len() as int,
            false,
        ),
    ensures
        binary(s, st, level) == Ok::<(NodeView, ParseState), ParseErrorView>(
            (
                NodeView::Num(l),
                ParseState { pos: s.len() as int, inside: false, buf: Some(TokenView::TemplateClose) },
            ),
        ),
    decreases level,
{
    let after = ParseState { pos: st.pos, inside: st.inside, buf: None };
    let end = ParseState { pos: s.len() as int, inside: false, buf: Some(TokenView::TemplateClose) };
    if level == 1 {
        assert(factor(s, st) == Ok::<(NodeView, ParseState), ParseErrorView>((NodeView::Num(l), after)));
        assert(next_token_step(s, after) == (
            Ok::<Option<TokenView>, ParseErrorView>(Some(TokenView::TemplateClose)),
            ParseState { pos: s.len() as int, inside: false, buf: None },
        ));
        assert(binary_rest(s, after, 1, NodeView::Num(l)) == Ok::<
            (NodeView, ParseState),
            ParseErrorView,
        >((NodeView::Num(l), end)));
    } else {
        lemma_lone_number_chain(s, l, st, (level - 1) as u8);
        assert(operand(s, st, level) == Ok::<(NodeView, ParseState), ParseErrorView>(
            (NodeView::Num(l), end),
        ));
        assert(binary_rest(s, end, level, NodeView::Num(l)) == Ok::<
            (NodeView, ParseState),
            ParseErrorView,
        >((NodeView::Num(l), end)));
    }
}

/// A numeric literal alone in a template parses to a body that holds that
/// number, with its text as written; one that is no number is refused with
/// an error that holds its text.
pub proof fn lemma_number_literal_parse(l: Seq<char>)
    requires
        l.len() > 0,
        forall|i: int| 0 <= i < l.len() ==> in_class(CharClass::Numeric, #[trigger] l[i]),
    ensures
        parse(literal_template(l)) == if valid_number(l) {
            Ok::<NodeView, ParseErrorView>(NodeView::Body(seq![NodeView::Num(l)]))
        } else {
            Err(ParseErrorView::LexerError(LexerErrorView::NumberParseError(l)))
        },
{
    let s = literal_template(l);
    let n = l.len() as int;
    lemma_literal_steps(l);
    let st0 = initial_state();
    let st1 = ParseState { pos: 2, inside: true, buf: None };
    if !valid_number(l) {
        assert(next_token_step(s, st0) == (
            Ok::<Option<TokenView>, ParseErrorView>(Some(TokenView::TemplateOpen)),
            st1,
        ));
        assert(template(s, st1) == Err::<(ItemView, ParseState), ParseErrorView>(
            ParseErrorView::LexerError(LexerErrorView::NumberParseError(l)),
        ));
    } else {
        let st2 = ParseState { pos: n + 2, inside: true, buf: None };
        let st2b = put_back(st2, TokenView::Num(l));
        let st5 = ParseState { pos: n + 4, inside: false, buf: Some(TokenView::TemplateClose) };
        let st6 = ParseState { pos: n + 4, inside: false, buf: None };
        assert(next_token_step(s, st0) == (
            Ok::<Option<TokenView>, ParseErrorView>(Some(TokenView::TemplateOpen)),
            st1,
        ));
        assert(expect_next_step(s, st1) == Ok::<(TokenView, ParseState), ParseErrorView>(
            (TokenView::Num(l), st2),
        ));
        lemma_lone_number_chain(s, l, st2b, EXPRESSION_LEVEL);
        assert(expect_step(s, st5, TokenView::TemplateClose) == Ok::<ParseState, ParseErrorView>(
            st6,
        ));
        assert(template(s, st1) == Ok::<(ItemView, ParseState), ParseErrorView>(
            (ItemView::Node(NodeView::Num(l)), st6),
        ));
        assert(item(s, st0) == Ok::<(ItemView, ParseState), ParseErrorView>(
            (ItemView::Node(NodeView::Num(l)), st6),
        ));
        assert(item(s, st6) == Ok::<(ItemView, ParseState), ParseErrorView>((ItemView::End, st6)));
        assert(Seq::<NodeView>::empty().push(NodeView::Num(l)) =~= seq![NodeView::Num(l)]);
        assert(body_items(s, st6, seq![NodeView::Num(l)]) == Ok::<NodeView, ParseErrorView>(
            NodeView::Body(seq![NodeView::Num(l)]),
        ));
    }
}

} // verus!
