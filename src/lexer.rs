use vstd::prelude::*;
use vstd::string::*;

verus! {

/// A reserved word of the template language.
#[derive(Clone, Copy, Debug, PartialEq, Eq, Structural)]
pub enum Keyword {
    If,
    Elif,
    Else,
    For,
    In,
}

/// A binary operator of the expression language.
#[derive(Clone, Copy, Debug, PartialEq, Eq, Structural)]
pub enum Operator {
    Multiply,
    Divide,
    Add,
    Subtract,
    IsEqualTo,
    IsNotEqualTo,
    And,
    Or,
}

/// A literal written inside a template: a quoted string (escapes already
/// resolved) or a numeric literal, kept as the text that was written.
#[derive(Debug, PartialEq)]
pub enum Literal {
    String(String),
    Number(String),
}

#[derive(Debug, PartialEq)]
pub enum Token {
    Text(String),
    TemplateOpen,
    TemplateClose,
    OpeningParen,
    ClosingParen,
    OpeningSqBracket,
    ClosingSqBracket,
    Comma,
    Exclamation,
    Keyword(Keyword),
    Identifier(String),
    Literal(Literal),
    Operator(Operator),
}

#[derive(Debug, PartialEq)]
pub enum LexerError {
    UnexpectedCharacter(char),
    /// The numeric literal (its text) is not a number.
    NumberParseError(String),
    UnexpectedEOF,
    UnrecognizedEscape(char),
}

/// What a token stands for, with its text as a sequence of characters.
pub enum TokenView {
    Text(Seq<char>),
    TemplateOpen,
    TemplateClose,
    OpeningParen,
    ClosingParen,
    OpeningSqBracket,
    ClosingSqBracket,
    Comma,
    Exclamation,
    Keyword(Keyword),
    Identifier(Seq<char>),
    Str(Seq<char>),
    Num(Seq<char>),
    Operator(Operator),
}

pub enum LexerErrorView {
    UnexpectedCharacter(char),
    NumberParseError(Seq<char>),
    UnexpectedEOF,
    UnrecognizedEscape(char),
}

impl View for Token {
    type V = TokenView;

    open spec fn view(&self) -> TokenView {
        match self {
            Token::Text(s) => TokenView::Text(s@),
            Token::TemplateOpen => TokenView::TemplateOpen,
            Token::TemplateClose => TokenView::TemplateClose,
            Token::OpeningParen => TokenView::OpeningParen,
            Token::ClosingParen => TokenView::ClosingParen,
            Token::OpeningSqBracket => TokenView::OpeningSqBracket,
            Token::ClosingSqBracket => TokenView::ClosingSqBracket,
            Token::Comma => TokenView::Comma,
            Token::Exclamation => TokenView::Exclamation,
            Token::Keyword(k) => TokenView::Keyword(*k),
            Token::Identifier(s) => TokenView::Identifier(s@),
            Token::Literal(Literal::String(s)) => TokenView::Str(s@),
            Token::Literal(Literal::Number(s)) => TokenView::Num(s@),
            Token::Operator(o) => TokenView::Operator(*o),
        }
    }
}

impl View for LexerError {
    type V = LexerErrorView;

    open spec fn view(&self) -> LexerErrorView {
        match self {
            LexerError::UnexpectedCharacter(c) => LexerErrorView::UnexpectedCharacter(*c),
            LexerError::NumberParseError(s) => LexerErrorView::NumberParseError(s@),
            LexerError::UnexpectedEOF => LexerErrorView::UnexpectedEOF,
            LexerError::UnrecognizedEscape(c) => LexerErrorView::UnrecognizedEscape(*c),
        }
    }
}

/// The character classes that the scanner advances over.
#[derive(Clone, Copy, PartialEq, Eq, Structural)]
pub enum CharClass {
    /// `[A-Za-z0-9_]`
    Word,
    /// `[0-9.]`
    Numeric,
    /// anything but `{`
    Text,
    /// Unicode `White_Space`
    Whitespace,
}

pub open spec fn is_ascii_letter(c: char) -> bool {
    ('a' as u32 <= c as u32 <= 'z' as u32) || ('A' as u32 <= c as u32 <= 'Z' as u32)
}

pub open spec fn is_ascii_digit(c: char) -> bool {
    '0' as u32 <= c as u32 <= '9' as u32
}

/// The characters with the Unicode `White_Space` property (what
/// `char::is_whitespace` documents).
pub open spec fn is_white_space(c: char) -> bool {
    let u = c as u32;
    (0x9 <= u <= 0xd) || u == 0x20 || u == 0x85 || u == 0xa0 || u == 0x1680 || (0x2000 <= u
        <= 0x200a) || u == 0x2028 || u == 0x2029 || u == 0x202f || u == 0x205f || u == 0x3000
}

pub open spec fn in_class(k: CharClass, c: char) -> bool {
    match k {
        CharClass::Word => is_ascii_letter(c) || is_ascii_digit(c) || c == '_',
        CharClass::Numeric => is_ascii_digit(c) || c == '.',
        CharClass::Text => c != '{',
        CharClass::Whitespace => is_white_space(c),
    }
}

/// The first position at or after `i` whose character is not in `k`
/// (or the end of `s`).
pub open spec fn run_end(s: Seq<char>, i: int, k: CharClass) -> int
    decreases s.len() - i,
{
    if 0 <= i < s.len() && in_class(k, s[i]) {
        run_end(s, i + 1, k)
    } else {
        i
    }
}

pub proof fn lemma_run_end_bounds(s: Seq<char>, i: int, k: CharClass)
    requires
        0 <= i <= s.len(),
    ensures
        i <= run_end(s, i, k) <= s.len(),
        run_end(s, i, k) < s.len() ==> !in_class(k, s[run_end(s, i, k)]),
        forall|j: int| i <= j < run_end(s, i, k) ==> in_class(k, #[trigger] s[j]),
    decreases s.len() - i,
{
    if i < s.len() && in_class(k, s[i]) {
        lemma_run_end_bounds(s, i + 1, k);
    }
}

/// A numeric literal made of digits and dots is a number when it holds at
/// least one digit and at most one dot (the grammar of `f64`'s `FromStr`
/// restricted to these characters).
pub open spec fn valid_number(t: Seq<char>) -> bool {
    &&& exists|k: int| 0 <= k < t.len() && is_ascii_digit(#[trigger] t[k])
    &&& forall|a: int, b: int| 0 <= a < b < t.len() ==> !(t[a] == '.' && t[b] == '.')
}

/// The token that a word `[A-Za-z_][A-Za-z0-9_]*` stands for.
pub open spec fn word_token(w: Seq<char>) -> TokenView {
    if w == seq!['i', 'f'] {
        TokenView::Keyword(Keyword::If)
    } else if w == seq!['e', 'l', 'i', 'f'] {
        TokenView::Keyword(Keyword::Elif)
    } else if w == seq!['e', 'l', 's', 'e'] {
        TokenView::Keyword(Keyword::Else)
    } else if w == seq!['f', 'o', 'r'] {
        TokenView::Keyword(Keyword::For)
    } else if w == seq!['i', 'n'] {
        TokenView::Keyword(Keyword::In)
    } else {
        TokenView::Identifier(w)
    }
}

/// Prefixes `p` to the text of a successful scan.
pub open spec fn prepend(p: Seq<char>, r: Result<(Seq<char>, int), LexerErrorView>) -> Result<
    (Seq<char>, int),
    LexerErrorView,
> {
    match r {
        Ok((v, j)) => Ok((p + v, j)),
        Err(e) => Err(e),
    }
}

/// Scans the body of a string literal that starts at `i` (just after the
/// opening quote `q`): the characters it stands for, and the position just
/// after the closing quote.
pub open spec fn scan_str(s: Seq<char>, i: int, q: char) -> Result<(Seq<char>, int), LexerErrorView>
    decreases s.len() - i,
{
    if i < 0 || i >= s.len() {
        Err(LexerErrorView::UnexpectedEOF)
    } else if s[i] == q {
        Ok((Seq::empty(), i + 1))
    } else if s[i] == '\\' {
        if i + 1 >= s.len() {
            Err(LexerErrorView::UnexpectedEOF)
        } else {
            let e = s[i + 1];
            if e == 'n' {
                prepend(seq!['\n'], scan_str(s, i + 2, q))
            } else if e == '\\' {
                prepend(seq!['\\'], scan_str(s, i + 2, q))
            } else if e == '\n' {
                prepend(Seq::empty(), scan_str(s, i + 2, q))
            } else if e == q {
                prepend(seq![q], scan_str(s, i + 2, q))
            } else {
                Err(LexerErrorView::UnrecognizedEscape(e))
            }
        }
    } else {
        prepend(seq![s[i]], scan_str(s, i + 1, q))
    }
}

pub proof fn lemma_scan_str_bounds(s: Seq<char>, i: int, q: char)
    requires
        0 <= i,
    ensures
        scan_str(s, i, q) matches Ok((v, j)) ==> i < j <= s.len(),
    decreases s.len() - i,
{
    if 0 <= i < s.len() && s[i] != q {
        if s[i] == '\\' {
            if i + 1 < s.len() {
                lemma_scan_str_bounds(s, i + 2, q);
            }
        } else {
            lemma_scan_str_bounds(s, i + 1, q);
        }
    }
}

/// The outcome of one scan from a position: the token (or the end of the
/// source, or an error), where the next scan starts and in which mode.
pub struct LexStep {
    pub result: Result<Option<TokenView>, LexerErrorView>,
    pub next: int,
    pub inside: bool,
}

pub open spec fn emit(t: TokenView, next: int, inside: bool) -> LexStep {
    LexStep { result: Ok(Some(t)), next, inside }
}

pub open spec fn fail(e: LexerErrorView, at: int, inside: bool) -> LexStep {
    LexStep { result: Err(e), next: at, inside }
}

/// A token of two characters whose second character must be `second`.
pub open spec fn pair_step(s: Seq<char>, i: int, second: char, t: TokenView, inside: bool) -> LexStep {
    if i + 1 >= s.len() {
        fail(LexerErrorView::UnexpectedEOF, i, true)
    } else if s[i + 1] == second {
        emit(t, i + 2, inside)
    } else {
        fail(LexerErrorView::UnexpectedCharacter(s[i + 1]), i, true)
    }
}

pub open spec fn string_step(s: Seq<char>, i: int, q: char, inside: bool) -> LexStep {
    match scan_str(s, i + 1, q) {
        Ok((v, j)) => emit(TokenView::Str(v), j, inside),
        Err(e) => fail(e, i, inside),
    }
}

/// The tokens of one character inside a template.
pub open spec fn single_token(c: char) -> Option<TokenView> {
    if c == '(' {
        Some(TokenView::OpeningParen)
    } else if c == ')' {
        Some(TokenView::ClosingParen)
    } else if c == '[' {
        Some(TokenView::OpeningSqBracket)
    } else if c == ']' {
        Some(TokenView::ClosingSqBracket)
    } else if c == ',' {
        Some(TokenView::Comma)
    } else if c == '*' {
        Some(TokenView::Operator(Operator::Multiply))
    } else if c == '/' {
        Some(TokenView::Operator(Operator::Divide))
    } else if c == '+' {
        Some(TokenView::Operator(Operator::Add))
    } else if c == '-' {
        Some(TokenView::Operator(Operator::Subtract))
    } else {
        None
    }
}

/// Scanning plain text at `i < s.len()`.
pub open spec fn outside_step(s: Seq<char>, i: int) -> LexStep {
    let c = s[i];
    if c == '{' && i + 1 < s.len() && s[i + 1] == '{' {
        emit(TokenView::TemplateOpen, i + 2, true)
    } else if c == '"' || c == '\'' {
        string_step(s, i, c, false)
    } else {
        let j = run_end(s, i + 1, CharClass::Text);
        emit(TokenView::Text(s.subrange(i, j)), j, false)
    }
}

/// Scanning inside a template at `i < s.len()`, where `s[i]` is no whitespace.
pub open spec fn inside_step(s: Seq<char>, i: int) -> LexStep {
    let c = s[i];
    if c == '}' {
        pair_step(s, i, '}', TokenView::TemplateClose, false)
    } else if c == '=' {
        pair_step(s, i, '=', TokenView::Operator(Operator::IsEqualTo), true)
    } else if c == '&' {
        pair_step(s, i, '&', TokenView::Operator(Operator::And), true)
    } else if c == '|' {
        pair_step(s, i, '|', TokenView::Operator(Operator::Or), true)
    } else if c == '!' {
        if i + 1 < s.len() && s[i + 1] == '=' {
            emit(TokenView::Operator(Operator::IsNotEqualTo), i + 2, true)
        } else {
            emit(TokenView::Exclamation, i + 1, true)
        }
    } else if single_token(c) is Some {
        emit(single_token(c)->Some_0, i + 1, true)
    } else if is_ascii_letter(c) || c == '_' {
        let j = run_end(s, i + 1, CharClass::Word);
        emit(word_token(s.subrange(i, j)), j, true)
    } else if is_ascii_digit(c) || c == '.' {
        let j = run_end(s, i + 1, CharClass::Numeric);
        let t = s.subrange(i, j);
        if valid_number(t) {
            emit(TokenView::Num(t), j, true)
        } else {
            fail(LexerErrorView::NumberParseError(t), i, true)
        }
    } else if c == '"' || c == '\'' {
        string_step(s, i, c, true)
    } else {
        fail(LexerErrorView::UnexpectedCharacter(c), i, true)
    }
}

/// One scan of the source `s` from position `pos`, inside a template or not.
/// Inside a template, whitespace before the token is skipped.
pub open spec fn lex_step(s: Seq<char>, pos: int, inside: bool) -> LexStep {
    let i = if inside {
        run_end(s, pos, CharClass::Whitespace)
    } else {
        pos
    };
    if i >= s.len() {
        LexStep { result: Ok(None), next: i, inside }
    } else if inside {
        inside_step(s, i)
    } else {
        outside_step(s, i)
    }
}

/// Scanning is total and moves forward: every scan from a position in the
/// source ends at a position in the source; one that yields a token has
/// consumed at least one character, and one that yields nothing has reached
/// the end. Positions count characters, so no token splits one.
pub proof fn lemma_lex_step_progress(s: Seq<char>, pos: int, inside: bool)
    requires
        0 <= pos <= s.len(),
    ensures
        lex_step(s, pos, inside).result is Ok ==> pos <= lex_step(s, pos, inside).next <= s.len(),
        lex_step(s, pos, inside).result matches Ok(Some(_)) ==> pos < lex_step(s, pos, inside).next,
        lex_step(s, pos, inside).result matches Ok(None) ==> lex_step(s, pos, inside).next
            == s.len(),
{
    lemma_run_end_bounds(s, pos, CharClass::Whitespace);
    let i = if inside {
        run_end(s, pos, CharClass::Whitespace)
    } else {
        pos
    };
    if i < s.len() {
        lemma_run_end_bounds(s, i + 1, CharClass::Text);
        lemma_run_end_bounds(s, i + 1, CharClass::Word);
        lemma_run_end_bounds(s, i + 1, CharClass::Numeric);
        lemma_scan_str_bounds(s, i + 1, s[i]);
    }
}

pub open spec fn lex_outcome(r: Result<Option<Token>, LexerError>) -> Result<
    Option<TokenView>,
    LexerErrorView,
> {
    match r {
        Ok(Some(t)) => Ok(Some(t@)),
        Ok(None) => Ok(None),
        Err(e) => Err(e@),
    }
}

pub proof fn lemma_prepend_assoc(a: Seq<char>, b: Seq<char>, r: Result<(Seq<char>, int), LexerErrorView>)
    ensures
        prepend(a, prepend(b, r)) == prepend(a + b, r),
{
    if let Ok((v, j)) = r {
        assert(a + (b + v) =~= (a + b) + v);
    }
}

fn is_letter(c: char) -> (r: bool)
    ensures
        r == is_ascii_letter(c),
{
    ('a' as u32 <= c as u32 && c as u32 <= 'z' as u32) || ('A' as u32 <= c as u32 && c as u32
        <= 'Z' as u32)
}

fn is_digit(c: char) -> (r: bool)
    ensures
        r == is_ascii_digit(c),
{
    '0' as u32 <= c as u32 && c as u32 <= '9' as u32
}

fn is_whitespace(c: char) -> (r: bool)
    ensures
        r == is_white_space(c),
{
    let u = c as u32;
    (0x9 <= u && u <= 0xd) || u == 0x20 || u == 0x85 || u == 0xa0 || u == 0x1680 || (0x2000 <= u
        && u <= 0x200a) || u == 0x2028 || u == 0x2029 || u == 0x202f || u == 0x205f || u == 0x3000
}

fn class_contains(k: CharClass, c: char) -> (r: bool)
    ensures
        r == in_class(k, c),
{
    match k {
        CharClass::Word => is_letter(c) || is_digit(c) || c == '_',
        CharClass::Numeric => is_digit(c) || c == '.',
        CharClass::Text => c != '{',
        CharClass::Whitespace => is_whitespace(c),
    }
}

fn single_char_token(c: char) -> (r: Option<Token>)
    ensures
        r matches Some(t) ==> single_token(c) == Some(t@),
        r is None ==> single_token(c) is None,
{
    if c == '(' {
        Some(Token::OpeningParen)
    } else if c == ')' {
        Some(Token::ClosingParen)
    } else if c == '[' {
        Some(Token::OpeningSqBracket)
    } else if c == ']' {
        Some(Token::ClosingSqBracket)
    } else if c == ',' {
        Some(Token::Comma)
    } else if c == '*' {
        Some(Token::Operator(Operator::Multiply))
    } else if c == '/' {
        Some(Token::Operator(Operator::Divide))
    } else if c == '+' {
        Some(Token::Operator(Operator::Add))
    } else if c == '-' {
        Some(Token::Operator(Operator::Subtract))
    } else {
        None
    }
}

/// Whether a run of digits and dots is a number.
fn is_number(t: &str) -> (r: bool)
    ensures
        r == valid_number(t@),
{
    let n = t.unicode_len();
    let mut i: usize = 0;
    let mut seen_dot = false;
    let mut seen_digit = false;
    let mut single_dot = true;
    while i < n
        invariant
            i <= n,
            n == t@.len(),
            seen_dot == exists|k: int| 0 <= k < i && #[trigger] t@[k] == '.',
            seen_digit == exists|k: int| 0 <= k < i && is_ascii_digit(#[trigger] t@[k]),
            single_dot == forall|a: int, b: int|
                0 <= a < b < i ==> !(#[trigger] t@[a] == '.' && #[trigger] t@[b] == '.'),
        decreases n - i,
    {
        let c = t.get_char(i);
        proof {
            if single_dot && !(seen_dot && c == '.') {
                assert forall|a: int, b: int| 0 <= a < b < i + 1 implies !(#[trigger] t@[a] == '.'
                    && #[trigger] t@[b] == '.') by {
                    if b == i && t@[a] == '.' {
                        assert(seen_dot);
                    }
                }
            }
            if seen_dot && c == '.' {
                let k = choose|k: int| 0 <= k < i && #[trigger] t@[k] == '.';
                assert(t@[k] == '.' && t@[i as int] == '.');
            }
            if !single_dot {
                let (a, b) = choose|a: int, b: int|
                    0 <= a < b < i && #[trigger] t@[a] == '.' && #[trigger] t@[b] == '.';
                assert(t@[a] == '.' && t@[b] == '.');
            }
        }
        if c == '.' {
            if seen_dot {
                single_dot = false;
            }
            seen_dot = true;
        }
        if is_digit(c) {
            seen_digit = true;
        }
        i = i + 1;
    }
    seen_digit && single_dot
}

fn word_to_token(w: String) -> (r: Token)
    ensures
        r@ == word_token(w@),
{
    let ws = w.as_str();
    let n = ws.unicode_len();
    if n == 2 && ws.get_char(0) == 'i' && ws.get_char(1) == 'f' {
        assert(w@ =~= seq!['i', 'f']);
        Token::Keyword(Keyword::If)
    } else if n == 4 && ws.get_char(0) == 'e' && ws.get_char(1) == 'l' && ws.get_char(2) == 'i'
        && ws.get_char(3) == 'f' {
        assert(w@ =~= seq!['e', 'l', 'i', 'f']);
        Token::Keyword(Keyword::Elif)
    } else if n == 4 && ws.get_char(0) == 'e' && ws.get_char(1) == 'l' && ws.get_char(2) == 's'
        && ws.get_char(3) == 'e' {
        assert(w@ =~= seq!['e', 'l', 's', 'e']);
        Token::Keyword(Keyword::Else)
    } else if n == 3 && ws.get_char(0) == 'f' && ws.get_char(1) == 'o' && ws.get_char(2) == 'r' {
        assert(w@ =~= seq!['f', 'o', 'r']);
        Token::Keyword(Keyword::For)
    } else if n == 2 && ws.get_char(0) == 'i' && ws.get_char(1) == 'n' {
        assert(w@ =~= seq!['i', 'n']);
        Token::Keyword(Keyword::In)
    } else {
        Token::Identifier(w)
    }
}

/// A scanner over a template source. Outside a template it cuts the source
/// into runs of text; inside one (between `{{` and `}}`) it yields the tokens
/// of the expression language. Positions count characters.
pub struct Lexer<'a> {
    src: &'a str,
    len: usize,
    token_start: usize,
    cursor: usize,
    is_inside_template: bool,
}

impl<'a> Lexer<'a> {
    /// The source being scanned.
    pub closed spec fn source(&self) -> Seq<char> {
        self.src@
    }

    /// Where the next scan starts.
    pub closed spec fn position(&self) -> int {
        self.cursor as int
    }

    /// Whether the scanner is between `{{` and `}}`.
    pub closed spec fn inside(&self) -> bool {
        self.is_inside_template
    }

    pub closed spec fn wf(&self) -> bool {
        &&& self.len == self.src@.len()
        &&& self.token_start <= self.cursor <= self.len
    }

    pub proof fn lemma_wf(&self)
        requires
            self.wf(),
        ensures
            0 <= self.position() <= self.source().len(),
    {
    }

    spec fn same_but_cursor(&self, o: &Self) -> bool {
        &&& self.src == o.src
        &&& self.len == o.len
        &&& self.token_start == o.token_start
        &&& self.is_inside_template == o.is_inside_template
    }

    pub fn new(src: &'a str) -> (r: Self)
        ensures
            r.wf(),
            r.source() == src@,
            r.position() == 0,
            !r.inside(),
    {
        Lexer { src, len: src.unicode_len(), token_start: 0, cursor: 0, is_inside_template: false }
    }

    fn peek(&self) -> (r: Option<char>)
        requires
            self.wf(),
        ensures
            self.cursor < self.len ==> r == Some(self.src@[self.cursor as int]),
            self.cursor >= self.len ==> r is None,
    {
        if self.cursor < self.len {
            Some(self.src.get_char(self.cursor))
        } else {
            None
        }
    }

    fn get_next_char(&mut self) -> (r: Option<char>)
        requires
            old(self).wf(),
        ensures
            final(self).wf(),
            final(self).same_but_cursor(old(self)),
            old(self).cursor < old(self).len ==> r == Some(old(self).src@[old(self).cursor as int])
                && final(self).cursor == old(self).cursor + 1,
            old(self).cursor >= old(self).len ==> r is None && final(self).cursor
                == old(self).cursor,
    {
        let next_char = self.peek();
        if next_char.is_some() {
            self.cursor = self.cursor + 1;
        }
        next_char
    }

    fn expect_next_char(&mut self) -> (r: Result<char, LexerError>)
        requires
            old(self).wf(),
        ensures
            final(self).wf(),
            final(self).same_but_cursor(old(self)),
            old(self).cursor < old(self).len ==> r == Ok::<char, LexerError>(
                old(self).src@[old(self).cursor as int],
            ) && final(self).cursor == old(self).cursor + 1,
            old(self).cursor >= old(self).len ==> r matches Err(LexerError::UnexpectedEOF),
            old(self).cursor <= final(self).cursor,
    {
        match self.get_next_char() {
            Some(c) => Ok(c),
            None => Err(LexerError::UnexpectedEOF),
        }
    }

    /// Consumes the next character, which must be `expected`.
    fn expect_char(&mut self, expected: char) -> (r: Result<(), LexerError>)
        requires
            old(self).wf(),
        ensures
            final(self).wf(),
            old(self).cursor <= final(self).cursor,
            final(self).same_but_cursor(old(self)),
            ({
                let s = old(self).src@;
                let i = old(self).cursor as int;
                if i >= s.len() {
                    r matches Err(e) && e@ == LexerErrorView::UnexpectedEOF
                } else if s[i] == expected {
                    r is Ok && final(self).cursor == i + 1
                } else {
                    r matches Err(e) && e@ == LexerErrorView::UnexpectedCharacter(s[i])
                }
            }),
    {
        let next_char = match self.expect_next_char() {
            Ok(c) => c,
            Err(e) => return Err(e),
        };
        if next_char == expected {
            Ok(())
        } else {
            Err(LexerError::UnexpectedCharacter(next_char))
        }
    }

    /// Consumes the next character if it is `c`.
    fn get_if_is(&mut self, c: char) -> (r: bool)
        requires
            old(self).wf(),
        ensures
            final(self).wf(),
            final(self).same_but_cursor(old(self)),
            r == (old(self).cursor < old(self).len && old(self).src@[old(self).cursor as int] == c),
            r ==> final(self).cursor == old(self).cursor + 1,
            !r ==> final(self).cursor == old(self).cursor,
    {
        let next_char = self.peek();
        if next_char == Some(c) {
            self.cursor = self.cursor + 1;
            true
        } else {
            false
        }
    }

    /// Advances over the characters of class `k`.
    fn advance_while(&mut self, k: CharClass)
        requires
            old(self).wf(),
        ensures
            final(self).wf(),
            final(self).same_but_cursor(old(self)),
            final(self).cursor == run_end(old(self).src@, old(self).cursor as int, k),
    {
        proof {
            lemma_run_end_bounds(self.src@, self.cursor as int, k);
        }
        while self.cursor < self.len && class_contains(k, self.src.get_char(self.cursor))
            invariant
                self.wf(),
                self.same_but_cursor(old(self)),
                run_end(self.src@, self.cursor as int, k) == run_end(
                    old(self).src@,
                    old(self).cursor as int,
                    k,
                ),
            decreases self.len - self.cursor,
        {
            self.cursor = self.cursor + 1;
        }
    }

    /// The text of the current token.
    fn get_slice(&self) -> (r: String)
        requires
            self.wf(),
        ensures
            r@ == self.src@.subrange(self.token_start as int, self.cursor as int),
    {
        String::from_str(self.src.substring_char(self.token_start, self.cursor))
    }

    fn end_token(&mut self)
        requires
            old(self).wf(),
        ensures
            final(self).wf(),
            final(self).src == old(self).src,
            final(self).len == old(self).len,
            final(self).cursor == old(self).cursor,
            final(self).is_inside_template == old(self).is_inside_template,
            final(self).token_start == old(self).cursor,
    {
        self.token_start = self.cursor;
    }

    /// Scans the next token. At the end of the source it yields nothing.
    pub fn yield_token(&mut self) -> (r: Result<Option<Token>, LexerError>)
        requires
            old(self).wf(),
        ensures
            final(self).wf(),
            final(self).source() == old(self).source(),
            old(self).position() <= final(self).position(),
            lex_outcome(r) == lex_step(old(self).source(), old(self).position(), old(self).inside()).result,
            r is Ok ==> final(self).position() == lex_step(
                old(self).source(),
                old(self).position(),
                old(self).inside(),
            ).next && final(self).inside() == lex_step(
                old(self).source(),
                old(self).position(),
                old(self).inside(),
            ).inside,
    {
        let ghost s = self.src@;
        proof {
            lemma_run_end_bounds(s, self.cursor as int, CharClass::Whitespace);
        }
        if self.is_inside_template {
            self.consume_whitespace();
        }
        self.end_token();
        let ghost i = self.cursor as int;
        let next_char = match self.get_next_char() {
            None => return Ok(None),
            Some(next_char) => next_char,
        };
        if !self.is_inside_template {
            if next_char == '{' && self.get_if_is('{') {
                self.is_inside_template = true;
                self.end_token();
                return Ok(Some(Token::TemplateOpen));
            }
            if next_char == '"' || next_char == '\'' {
                return match self.yield_string(next_char) {
                    Ok(token) => Ok(Some(token)),
                    Err(e) => Err(e),
                };
            }
            self.advance_while(CharClass::Text);
            let text = self.get_slice();
            self.end_token();
            return Ok(Some(Token::Text(text)));
        }
        let token = if next_char == '}' {
            match self.expect_char('}') {
                Ok(()) => {},
                Err(e) => return Err(e),
            }
            self.is_inside_template = false;
            Token::TemplateClose
        } else if next_char == '=' {
            match self.expect_char('=') {
                Ok(()) => {},
                Err(e) => return Err(e),
            }
            Token::Operator(Operator::IsEqualTo)
        } else if next_char == '&' {
            match self.expect_char('&') {
                Ok(()) => {},
                Err(e) => return Err(e),
            }
            Token::Operator(Operator::And)
        } else if next_char == '|' {
            match self.expect_char('|') {
                Ok(()) => {},
                Err(e) => return Err(e),
            }
            Token::Operator(Operator::Or)
        } else if next_char == '!' {
            if self.get_if_is('=') {
                Token::Operator(Operator::IsNotEqualTo)
            } else {
                Token::Exclamation
            }
        } else if let Some(token) = single_char_token(next_char) {
            token
        } else if is_letter(next_char) || next_char == '_' {
            self.yield_identifier()
        } else if is_digit(next_char) || next_char == '.' {
            match self.yield_number() {
                Ok(token) => token,
                Err(e) => return Err(e),
            }
        } else if next_char == '"' || next_char == '\'' {
            match self.yield_string(next_char) {
                Ok(token) => token,
                Err(e) => return Err(e),
            }
        } else {
            return Err(LexerError::UnexpectedCharacter(next_char));
        };
        self.end_token();
        Ok(Some(token))
    }

    /// Scans a string literal whose opening quote `quote` has just been read.
    fn yield_string(&mut self, quote: char) -> (r: Result<Token, LexerError>)
        requires
            old(self).wf(),
            quote == '"' || quote == '\'',
        ensures
            final(self).wf(),
            old(self).cursor <= final(self).cursor,
            final(self).src == old(self).src,
            final(self).len == old(self).len,
            final(self).is_inside_template == old(self).is_inside_template,
            match scan_str(old(self).src@, old(self).cursor as int, quote) {
                Ok((v, j)) => r matches Ok(t) && t@ == TokenView::Str(v) && final(self).cursor == j,
                Err(e) => r matches Err(x) && x@ == e,
            },
    {
        let ghost s = self.src@;
        let ghost start = self.cursor as int;
        self.end_token();
        let mut string = String::new();
        proof {
            assert(string@ + s.subrange(start, start) =~= Seq::<char>::empty());
            lemma_prepend_assoc(Seq::empty(), Seq::empty(), scan_str(s, start, quote));
            assert(Seq::<char>::empty() + Seq::<char>::empty() =~= Seq::<char>::empty());
            assert(prepend(Seq::empty(), scan_str(s, start, quote)) == scan_str(s, start, quote)) by {
                if let Ok((v, j)) = scan_str(s, start, quote) {
                    assert(Seq::<char>::empty() + v =~= v);
                }
            }
        }
        loop
            invariant
                self.wf(),
                self.src@ == s,
                old(self).src@ == s,
                start == old(self).cursor,
                self.src == old(self).src,
                self.len == old(self).len,
                self.is_inside_template == old(self).is_inside_template,
                start <= self.token_start <= self.cursor,
                old(self).cursor <= self.cursor,
                quote == '"' || quote == '\'',
                scan_str(s, start, quote) == prepend(
                    string@ + s.subrange(self.token_start as int, self.cursor as int),
                    scan_str(s, self.cursor as int, quote),
                ),
            decreases self.len - self.cursor,
        {
            let ghost pending = string@ + s.subrange(self.token_start as int, self.cursor as int);
            let c = match self.peek() {
                None => {
                    assert(scan_str(s, self.cursor as int, quote) == Err::<
                        (Seq<char>, int),
                        LexerErrorView,
                    >(LexerErrorView::UnexpectedEOF));
                    assert(scan_str(s, start, quote) == Err::<(Seq<char>, int), LexerErrorView>(
                        LexerErrorView::UnexpectedEOF,
                    ));
                    return Err(LexerError::UnexpectedEOF);
                },
                Some(c) => c,
            };
            if c == quote {
                let piece = self.get_slice();
                string.append(piece.as_str());
                self.cursor = self.cursor + 1;
                self.end_token();
                proof {
                    assert(string@ =~= pending);
                    assert(pending + Seq::<char>::empty() =~= pending);
                }
                return Ok(Token::Literal(Literal::String(string)));
            } else if c == '\\' {
                let piece = self.get_slice();
                self.cursor = self.cursor + 1;
                let e = match self.peek() {
                    None => return Err(LexerError::UnexpectedEOF),
                    Some(e) => e,
                };
                string.append(piece.as_str());
                let ghost at = self.cursor - 1;
                proof {
                    assert(string@ =~= pending);
                    reveal_strlit("\n");
                    reveal_strlit("\\");
                    reveal_strlit("\"");
                    reveal_strlit("'");
                }
                if e == 'n' {
                    string.append("\n");
                    proof {
                        assert(string@ =~= pending + seq!['\n']);
                        lemma_prepend_assoc(pending, seq!['\n'], scan_str(s, at + 2, quote));
                    }
                } else if e == '\\' {
                    string.append("\\");
                    proof {
                        assert(string@ =~= pending + seq!['\\']);
                        lemma_prepend_assoc(pending, seq!['\\'], scan_str(s, at + 2, quote));
                    }
                } else if e == '\n' {
                    proof {
                        assert(string@ =~= pending + Seq::<char>::empty());
                        lemma_prepend_assoc(pending, Seq::empty(), scan_str(s, at + 2, quote));
                        assert(pending + Seq::<char>::empty() =~= pending);
                    }
                } else if e == quote {
                    if quote == '"' {
                        string.append("\"");
                    } else {
                        string.append("'");
                    }
                    proof {
                        assert(string@ =~= pending + seq![quote]);
                        lemma_prepend_assoc(pending, seq![quote], scan_str(s, at + 2, quote));
                    }
                } else {
                    assert(scan_str(s, at, quote) == Err::<(Seq<char>, int), LexerErrorView>(
                        LexerErrorView::UnrecognizedEscape(e),
                    ));
                    assert(scan_str(s, start, quote) == Err::<(Seq<char>, int), LexerErrorView>(
                        LexerErrorView::UnrecognizedEscape(e),
                    ));
                    return Err(LexerError::UnrecognizedEscape(e));
                }
                self.cursor = self.cursor + 1;
                self.end_token();
                proof {
                    assert(s[at] == '\\');
                    assert(s[at + 1] == e);
                    assert(at + 2 == self.cursor);
                    assert(string@ + s.subrange(self.token_start as int, self.cursor as int)
                        =~= string@);
                    assert(scan_str(s, start, quote) == prepend(pending, scan_str(s, at, quote)));
                }
            } else {
                self.cursor = self.cursor + 1;
                proof {
                    let i = self.cursor - 1;
                    lemma_prepend_assoc(
                        string@ + s.subrange(self.token_start as int, i),
                        seq![c],
                        scan_str(s, i + 1, quote),
                    );
                    assert(string@ + s.subrange(self.token_start as int, i) + seq![c] =~= string@
                        + s.subrange(self.token_start as int, i + 1));
                }
            }
        }
    }

    /// Scans the rest of a word whose first character has just been read.
    fn yield_identifier(&mut self) -> (r: Token)
        requires
            old(self).wf(),
        ensures
            final(self).wf(),
            final(self).same_but_cursor(old(self)),
            final(self).cursor == run_end(old(self).src@, old(self).cursor as int, CharClass::Word),
            r@ == word_token(
                old(self).src@.subrange(
                    old(self).token_start as int,
                    run_end(old(self).src@, old(self).cursor as int, CharClass::Word),
                ),
            ),
    {
        self.advance_while(CharClass::Word);
        let identifier = self.get_slice();
        word_to_token(identifier)
    }

    /// Scans the rest of a numeric literal whose first character has just
    /// been read.
    fn yield_number(&mut self) -> (r: Result<Token, LexerError>)
        requires
            old(self).wf(),
        ensures
            final(self).wf(),
            final(self).same_but_cursor(old(self)),
            final(self).cursor == run_end(old(self).src@, old(self).cursor as int, CharClass::Numeric),
            ({
                let t = old(self).src@.subrange(
                    old(self).token_start as int,
                    run_end(old(self).src@, old(self).cursor as int, CharClass::Numeric),
                );
                if valid_number(t) {
                    r matches Ok(tok) && tok@ == TokenView::Num(t)
                } else {
                    r matches Err(e) && e@ == LexerErrorView::NumberParseError(t)
                }
            }),
    {
        self.advance_while(CharClass::Numeric);
        let slice = self.get_slice();
        if is_number(slice.as_str()) {
            Ok(Token::Literal(Literal::Number(slice)))
        } else {
            Err(LexerError::NumberParseError(slice))
        }
    }

    fn consume_whitespace(&mut self)
        requires
            old(self).wf(),
        ensures
            final(self).wf(),
            final(self).src == old(self).src,
            final(self).len == old(self).len,
            final(self).is_inside_template == old(self).is_inside_template,
            final(self).cursor == run_end(old(self).src@, old(self).cursor as int, CharClass::Whitespace),
            final(self).token_start == final(self).cursor,
    {
        self.advance_while(CharClass::Whitespace);
        self.end_token();
    }
}

} // verus!

verus! {

/// `r` with its positions moved by `d`.
pub open spec fn shift_step(r: LexStep, d: int) -> LexStep {
    LexStep { result: r.result, next: r.next + d, inside: r.inside }
}

proof fn lemma_run_end_suffix(x: Seq<char>, z: Seq<char>, y: Seq<char>, j: int, k: CharClass)
    requires
        0 <= j <= y.len(),
    ensures
        run_end(x + y, x.len() + j, k) == run_end(z + y, z.len() + j, k) + x.len() - z.len(),
    decreases y.len() - j,
{
    let s1 = x + y;
    let s2 = z + y;
    if j < y.len() {
        assert(s1[x.len() + j] == y[j]);
        assert(s2[z.len() + j] == y[j]);
        lemma_run_end_suffix(x, z, y, j + 1, k);
    }
}

proof fn lemma_scan_str_suffix(x: Seq<char>, z: Seq<char>, y: Seq<char>, j: int, q: char)
    requires
        0 <= j <= y.len(),
    ensures
        scan_str(x + y, x.len() + j, q) == match scan_str(z + y, z.len() + j, q) {
            Ok((v, e)) => Ok((v, e + x.len() - z.len())),
            Err(err) => Err::<(Seq<char>, int), LexerErrorView>(err),
        },
    decreases y.len() - j,
{
    let s1 = x + y;
    let s2 = z + y;
    if j < y.len() {
        assert(s1[x.len() + j] == y[j]);
        assert(s2[z.len() + j] == y[j]);
        if j + 1 < y.len() {
            assert(s1[x.len() + j + 1] == y[j + 1]);
            assert(s2[z.len() + j + 1] == y[j + 1]);
        }
        if j + 2 <= y.len() {
            lemma_scan_str_suffix(x, z, y, j + 2, q);
        }
        lemma_scan_str_suffix(x, z, y, j + 1, q);
    }
}

proof fn lemma_step_at_suffix(x: Seq<char>, z: Seq<char>, y: Seq<char>, jj: int)
    requires
        0 <= jj < y.len(),
    ensures
        outside_step(x + y, x.len() + jj) == shift_step(
            outside_step(z + y, z.len() + jj),
            x.len() - z.len(),
        ),
        inside_step(x + y, x.len() + jj) == shift_step(
            inside_step(z + y, z.len() + jj),
            x.len() - z.len(),
        ),
{
    let s1 = x + y;
    let s2 = z + y;
    let d = x.len() - z.len();
    let i1 = x.len() + jj;
    let i2 = z.len() + jj;
    assert(s1[i1] == y[jj] && s2[i2] == y[jj]);
    if jj + 1 < y.len() {
        assert(s1[i1 + 1] == y[jj + 1] && s2[i2 + 1] == y[jj + 1]);
    }
    lemma_run_end_suffix(x, z, y, jj + 1, CharClass::Text);
    lemma_run_end_suffix(x, z, y, jj + 1, CharClass::Word);
    lemma_run_end_suffix(x, z, y, jj + 1, CharClass::Numeric);
    lemma_run_end_bounds(s2, i2 + 1, CharClass::Text);
    lemma_run_end_bounds(s2, i2 + 1, CharClass::Word);
    lemma_run_end_bounds(s2, i2 + 1, CharClass::Numeric);
    lemma_scan_str_suffix(x, z, y, jj + 1, y[jj]);
    let jt = run_end(s2, i2 + 1, CharClass::Text);
    let jw = run_end(s2, i2 + 1, CharClass::Word);
    let jn = run_end(s2, i2 + 1, CharClass::Numeric);
    assert(s1.subrange(i1, jt + d) =~= s2.subrange(i2, jt));
    assert(s1.subrange(i1, jw + d) =~= s2.subrange(i2, jw));
    assert(s1.subrange(i1, jn + d) =~= s2.subrange(i2, jn));
}

/// A scan looks only at the source from where it starts: two sources that
/// end alike scan alike there, at positions that differ by the lengths of
/// what comes before.
pub proof fn lemma_lex_step_suffix(x: Seq<char>, z: Seq<char>, y: Seq<char>, j: int, inside: bool)
    requires
        0 <= j <= y.len(),
    ensures
        lex_step(x + y, x.len() + j, inside) == shift_step(
            lex_step(z + y, z.len() + j, inside),
            x.len() - z.len(),
        ),
{
    let s2 = z + y;
    lemma_run_end_suffix(x, z, y, j, CharClass::Whitespace);
    lemma_run_end_bounds(s2, z.len() + j, CharClass::Whitespace);
    let i2 = if inside {
        run_end(s2, z.len() + j, CharClass::Whitespace)
    } else {
        z.len() + j
    };
    if i2 < s2.len() {
        lemma_step_at_suffix(x, z, y, i2 - z.len());
    }
}

/// The tokens scanned from `pos` to the end of the source, and the error
/// that stopped the scan, if one did.
pub open spec fn lex_tokens(s: Seq<char>, pos: int, inside: bool) -> (Seq<TokenView>, Option<LexerErrorView>)
    decreases s.len() - pos,
{
    let st = lex_step(s, pos, inside);
    match st.result {
        Ok(Some(t)) => if pos < st.next <= s.len() {
            let rest = lex_tokens(s, st.next, st.inside);
            (seq![t] + rest.0, rest.1)
        } else {
            (Seq::empty(), None)
        },
        Ok(None) => (Seq::empty(), None),
        Err(e) => (Seq::empty(), Some(e)),
    }
}

proof fn lemma_lex_tokens_suffix(x: Seq<char>, z: Seq<char>, y: Seq<char>, j: int, inside: bool)
    requires
        0 <= j <= y.len(),
    ensures
        lex_tokens(x + y, x.len() + j, inside) == lex_tokens(z + y, z.len() + j, inside),
    decreases y.len() - j,
{
    lemma_lex_step_suffix(x, z, y, j, inside);
    lemma_lex_step_progress(z + y, z.len() + j, inside);
    lemma_lex_step_progress(x + y, x.len() + j, inside);
    let st = lex_step(z + y, z.len() + j, inside);
    if st.result is Ok && st.result->Ok_0 is Some {
        lemma_lex_tokens_suffix(x, z, y, st.next - z.len(), st.inside);
    }
}

/// Whitespace between tokens inside a template does not matter: where a
/// scan inside a template starts, inserting a run of whitespace `w` leaves
/// the tokens scanned from there to the end (and the error that may stop
/// them) as they were.
pub proof fn lemma_whitespace_insertion(a: Seq<char>, w: Seq<char>, b: Seq<char>)
    requires
        forall|i: int| 0 <= i < w.len() ==> is_white_space(#[trigger] w[i]),
    ensures
        lex_tokens(a + w + b, a.len() as int, true) == lex_tokens(a + b, a.len() as int, true),
{
    let s1 = a + w + b;
    let s2 = a + b;
    let x = a + w;
    assert(s1 =~= x + b);
    lemma_skip_white_space(a, w, b, 0);
    lemma_run_end_bounds(s1, a.len() as int, CharClass::Whitespace);
    lemma_run_end_bounds(s1, x.len() as int, CharClass::Whitespace);
    assert(lex_step(s1, a.len() as int, true) == lex_step(s1, x.len() as int, true));
    lemma_lex_step_suffix(x, a, b, 0, true);
    lemma_lex_step_progress(s1, a.len() as int, true);
    lemma_lex_step_progress(s1, x.len() as int, true);
    lemma_lex_step_progress(s2, a.len() as int, true);
    let st = lex_step(s2, a.len() as int, true);
    if st.result is Ok && st.result->Ok_0 is Some {
        lemma_lex_tokens_suffix(x, a, b, st.next - a.len(), st.inside);
    }
}

proof fn lemma_skip_white_space(a: Seq<char>, w: Seq<char>, b: Seq<char>, k: int)
    requires
        0 <= k <= w.len(),
        forall|i: int| 0 <= i < w.len() ==> is_white_space(#[trigger] w[i]),
    ensures
        run_end(a + w + b, a.len() + k, CharClass::Whitespace) == run_end(
            a + w + b,
            (a.len() + w.len()) as int,
            CharClass::Whitespace,
        ),
    decreases w.len() - k,
{
    let s = a + w + b;
    if k < w.len() {
        assert(s[a.len() + k] == w[k]);
        lemma_skip_white_space(a, w, b, k + 1);
    }
}

/// The source `{{L}}`.
pub open spec fn literal_template(l: Seq<char>) -> Seq<char> {
    seq!['{', '{'] + l + seq!['}', '}']
}

proof fn lemma_run_over_literal(l: Seq<char>, k: int)
    requires
        2 <= k <= l.len() + 2,
        forall|i: int| 0 <= i < l.len() ==> in_class(CharClass::Numeric, #[trigger] l[i]),
    ensures
        run_end(literal_template(l), k, CharClass::Numeric) == l.len() + 2,
    decreases l.len() + 2 - k,
{
    let s = literal_template(l);
    if k < l.len() + 2 {
        assert(s[k] == l[k - 2]);
        lemma_run_over_literal(l, k + 1);
    } else {
        assert(s[k] == '}');
    }
}

/// The scans of `{{L}}` one by one.
pub proof fn lemma_literal_steps(l: Seq<char>)
    requires
        l.len() > 0,
        forall|i: int| 0 <= i < l.len() ==> in_class(CharClass::Numeric, #[trigger] l[i]),
    ensures
        lex_step(literal_template(l), 0, false) == emit(TokenView::TemplateOpen, 2, true),
        lex_step(literal_template(l), 2, true) == if valid_number(l) {
            emit(TokenView::Num(l), (l.len() + 2) as int, true)
        } else {
            fail(LexerErrorView::NumberParseError(l), 2, true)
        },
        lex_step(literal_template(l), (l.len() + 2) as int, true) == emit(
            TokenView::TemplateClose,
            (l.len() + 4) as int,
            false,
        ),
        lex_step(literal_template(l), (l.len() + 4) as int, false) == (LexStep {
            result: Ok(None),
            next: (l.len() + 4) as int,
            inside: false,
        }),
{
    let s = literal_template(l);
    let n = l.len() as int;
    assert(s.len() == n + 4);
    assert(s[0] == '{' && s[1] == '{');
    assert(s[2] == l[0]);
    assert(s[n + 2] == '}' && s[n + 3] == '}');
    assert(!is_white_space(l[0])) by {
        assert(in_class(CharClass::Numeric, l[0]));
    }
    lemma_run_over_literal(l, 3);
    assert(s.subrange(2, n + 2) =~= l);
    assert(run_end(s, 2, CharClass::Whitespace) == 2);
    assert(run_end(s, n + 2, CharClass::Whitespace) == n + 2);
    assert(run_end(s, n + 4, CharClass::Whitespace) == n + 4);
}

/// A numeric literal alone in a template scans as one number token, with its
/// text as written, between the template's braces; one that is no number
/// stops the scan with an error that holds its text.
pub proof fn lemma_number_literal_tokens(l: Seq<char>)
    requires
        l.len() > 0,
        forall|i: int| 0 <= i < l.len() ==> in_class(CharClass::Numeric, #[trigger] l[i]),
    ensures
        lex_tokens(literal_template(l), 0, false) == if valid_number(l) {
            (
                seq![TokenView::TemplateOpen, TokenView::Num(l), TokenView::TemplateClose],
                None::<LexerErrorView>,
            )
        } else {
            (seq![TokenView::TemplateOpen], Some(LexerErrorView::NumberParseError(l)))
        },
{
    let s = literal_template(l);
    let n = l.len() as int;
    lemma_literal_steps(l);
    if valid_number(l) {
        assert(lex_tokens(s, n + 4, false) == (Seq::<TokenView>::empty(), None::<LexerErrorView>));
        assert(lex_tokens(s, n + 2, true).0 =~= seq![TokenView::TemplateClose]);
        assert(lex_tokens(s, 2, true).0 =~= seq![TokenView::Num(l), TokenView::TemplateClose]);
        assert(lex_tokens(s, 0, false).0 =~= seq![
            TokenView::TemplateOpen,
            TokenView::Num(l),
            TokenView::TemplateClose,
        ]);
        assert(lex_tokens(s, 0, false).1 == None::<LexerErrorView>);
    } else {
        assert(lex_tokens(s, 2, true) == (
            Seq::<TokenView>::empty(),
            Some(LexerErrorView::NumberParseError(l)),
        ));
        assert(lex_tokens(s, 0, false).0 =~= seq![TokenView::TemplateOpen]);
        assert(lex_tokens(s, 0, false).1 == Some(LexerErrorView::NumberParseError(l)));
    }
}

} // verus!
