use vstd::prelude::*;
use vstd::std_specs::iter::IteratorSpec;
use crate::plain::{constant, plain_tokens};
use crate::text::{push_char, same_text};
use crate::token::{Literal, LiteralView, Token, TokenView, tokens_view};
use crate::token_type::TokenType;
use crate::utils::Soo;

verus! {

broadcast use vstd::string::group_string_axioms;

/// A lexical error: the line it is on and what is wrong.
pub type ScanError = (usize, Seq<char>);

/// What scanning gives: the tokens in source order, and the lexical errors
/// in the order in which they were met.
pub struct Scanned {
    pub tokens: Seq<TokenView>,
    pub errors: Seq<ScanError>,
}

/// Whether `c` is one of `0` to `9`.
pub open spec fn digit(c: char) -> bool {
    '0' <= c && c <= '9'
}

/// Whether `c` can begin an identifier: a letter or `_`.
pub open spec fn alpha(c: char) -> bool {
    ('a' <= c && c <= 'z') || ('A' <= c && c <= 'Z') || c == '_'
}

/// What a run of characters is made of.
#[derive(Clone, Copy, Debug, PartialEq, Eq, Structural)]
pub enum Run {
    /// Digits.
    Digits,
    /// Letters, digits and `_`.
    Name,
    /// Anything but a line break.
    Comment,
    /// Anything but a double quote.
    Text,
}

/// Whether `c` belongs to a run of kind `run`.
pub open spec fn belongs(run: Run, c: char) -> bool {
    match run {
        Run::Digits => digit(c),
        Run::Name => alpha(c) || digit(c),
        Run::Comment => c != '\n',
        Run::Text => c != '"',
    }
}

/// Where the run of kind `run` that begins at `pos` ends: the index of the
/// first character from `pos` on that does not belong to it, or the end of
/// the source.
pub open spec fn run_end(source: Seq<char>, pos: int, run: Run) -> int
    decreases source.len() - pos,
{
    if pos < 0 || pos >= source.len() {
        source.len() as int
    } else if !belongs(run, source[pos]) {
        pos
    } else {
        run_end(source, pos + 1, run)
    }
}

/// The line after one more line break; the count stops at the largest
/// number that fits.
pub open spec fn next_line(line: usize) -> usize {
    if line < usize::MAX {
        (line + 1) as usize
    } else {
        line
    }
}

/// The line reached from `line` over the characters from `from` up to `to`.
pub open spec fn line_after(source: Seq<char>, from: int, to: int, line: usize) -> usize
    decreases to - from,
{
    if from >= to || from < 0 || from >= source.len() {
        line
    } else {
        line_after(
            source,
            from + 1,
            to,
            if source[from] == '\n' {
                next_line(line)
            } else {
                line
            },
        )
    }
}

/// The kind of the token that `c` makes alone, where it makes one whatever
/// follows.
pub open spec fn single_kind(c: char) -> Option<TokenType> {
    if c == '(' {
        Some(TokenType::LeftParen)
    } else if c == ')' {
        Some(TokenType::RightParen)
    } else if c == '{' {
        Some(TokenType::LeftBrace)
    } else if c == '}' {
        Some(TokenType::RightBrace)
    } else if c == ',' {
        Some(TokenType::Comma)
    } else if c == '.' {
        Some(TokenType::Dot)
    } else if c == '-' {
        Some(TokenType::Minus)
    } else if c == '+' {
        Some(TokenType::Plus)
    } else if c == ';' {
        Some(TokenType::Semicolon)
    } else if c == '*' {
        Some(TokenType::Star)
    } else {
        None
    }
}

/// The kinds of the tokens that `c` makes alone and with `=` behind it,
/// where it is one of `! = < >`.
pub open spec fn operator_kinds(c: char) -> Option<(TokenType, TokenType)> {
    if c == '!' {
        Some((TokenType::Bang, TokenType::BangEqual))
    } else if c == '=' {
        Some((TokenType::Equal, TokenType::EqualEqual))
    } else if c == '<' {
        Some((TokenType::Less, TokenType::LessEqual))
    } else if c == '>' {
        Some((TokenType::Greater, TokenType::GreaterEqual))
    } else {
        None
    }
}

/// The keyword that `text` spells, if it spells one.
pub open spec fn keyword(text: Seq<char>) -> Option<TokenType> {
    if text == "and"@ {
        Some(TokenType::And)
    } else if text == "class"@ {
        Some(TokenType::Class)
    } else if text == "else"@ {
        Some(TokenType::Else)
    } else if text == "false"@ {
        Some(TokenType::False)
    } else if text == "for"@ {
        Some(TokenType::For)
    } else if text == "fun"@ {
        Some(TokenType::Fun)
    } else if text == "if"@ {
        Some(TokenType::If)
    } else if text == "nil"@ {
        Some(TokenType::Nil)
    } else if text == "or"@ {
        Some(TokenType::Or)
    } else if text == "print"@ {
        Some(TokenType::Print)
    } else if text == "return"@ {
        Some(TokenType::Return)
    } else if text == "super"@ {
        Some(TokenType::Super)
    } else if text == "this"@ {
        Some(TokenType::This)
    } else if text == "true"@ {
        Some(TokenType::True)
    } else if text == "var"@ {
        Some(TokenType::Var)
    } else if text == "while"@ {
        Some(TokenType::While)
    } else {
        None
    }
}

/// What one step of the scanner finds at `pos`: where the next step
/// begins, the line there, and the token or the error met, if any.
pub struct Step {
    pub next: int,
    pub line: usize,
    pub token: Option<TokenView>,
    pub error: Option<ScanError>,
}

/// A token of kind `typ` without payload, read from `from` up to `to`.
pub open spec fn plain(source: Seq<char>, from: int, to: int, typ: TokenType, line: usize) -> Step {
    Step {
        next: to,
        line,
        token: Some(
            TokenView { typ, lexeme: source.subrange(from, to), literal: LiteralView::Nil, line },
        ),
        error: None,
    }
}

/// Where the number that begins at `pos` ends: behind its digits, and
/// behind a fraction where a `.` and a digit follow them.
pub open spec fn number_end(source: Seq<char>, pos: int) -> int {
    let whole = run_end(source, pos + 1, Run::Digits);
    if whole + 1 < source.len() && source[whole] == '.' && digit(source[whole + 1]) {
        run_end(source, whole + 1, Run::Digits)
    } else {
        whole
    }
}

/// The step of the scanner at `pos`, which lies inside the source.
pub open spec fn scan_step(source: Seq<char>, pos: int, line: usize) -> Step {
    let c = source[pos];
    let followed = pos + 1 < source.len();
    if single_kind(c) is Some {
        plain(source, pos, pos + 1, single_kind(c)->0, line)
    } else if operator_kinds(c) is Some {
        let (alone, with_equal) = operator_kinds(c)->0;
        if followed && source[pos + 1] == '=' {
            plain(source, pos, pos + 2, with_equal, line)
        } else {
            plain(source, pos, pos + 1, alone, line)
        }
    } else if c == '/' {
        if followed && source[pos + 1] == '/' {
            Step { next: run_end(source, pos + 2, Run::Comment), line, token: None, error: None }
        } else {
            plain(source, pos, pos + 1, TokenType::Slash, line)
        }
    } else if c == ' ' || c == '\r' || c == '\t' {
        Step { next: pos + 1, line, token: None, error: None }
    } else if c == '\n' {
        Step { next: pos + 1, line: next_line(line), token: None, error: None }
    } else if c == '"' {
        let end = run_end(source, pos + 1, Run::Text);
        let reached = line_after(source, pos + 1, end, line);
        if end >= source.len() {
            Step {
                next: source.len() as int,
                line: reached,
                token: None,
                error: Some((reached, "Unterminated string."@)),
            }
        } else {
            Step {
                next: end + 1,
                line: reached,
                token: Some(
                    TokenView {
                        typ: TokenType::StringToken,
                        lexeme: source.subrange(pos, end + 1),
                        literal: LiteralView::StringLiteral(source.subrange(pos + 1, end)),
                        line: reached,
                    },
                ),
                error: None,
            }
        }
    } else if digit(c) {
        let end = number_end(source, pos);
        Step {
            next: end,
            line,
            token: Some(
                TokenView {
                    typ: TokenType::Number,
                    lexeme: source.subrange(pos, end),
                    literal: LiteralView::NumberLiteral(source.subrange(pos, end)),
                    line,
                },
            ),
            error: None,
        }
    } else if alpha(c) {
        let end = run_end(source, pos + 1, Run::Name);
        let text = source.subrange(pos, end);
        match keyword(text) {
            Some(typ) => plain(source, pos, end, typ, line),
            None => Step {
                next: end,
                line,
                token: Some(
                    TokenView {
                        typ: TokenType::Identifier,
                        lexeme: text,
                        literal: LiteralView::IdentifierLiteral(text),
                        line,
                    },
                ),
                error: None,
            },
        }
    } else {
        Step { next: pos + 1, line, token: None, error: Some((line, "Unexpected character."@)) }
    }
}

/// What is found so far, with what a step found added.
pub open spec fn collected(so_far: Scanned, step: Step) -> Scanned {
    Scanned {
        tokens: match step.token {
            Some(token) => so_far.tokens.push(token),
            None => so_far.tokens,
        },
        errors: match step.error {
            Some(error) => so_far.errors.push(error),
            None => so_far.errors,
        },
    }
}

/// What scanning from `pos` on adds to what was found before.
pub open spec fn scanned_from(source: Seq<char>, pos: int, line: usize, so_far: Scanned) -> Scanned
    decreases source.len() - pos,
{
    if pos < 0 || pos >= source.len() {
        so_far
    } else {
        let step = scan_step(source, pos, line);
        if pos < step.next <= source.len() {
            scanned_from(source, step.next, step.line, collected(so_far, step))
        } else {
            collected(so_far, step)
        }
    }
}

/// What scanning `source` gives. Lines are counted from 1.
pub open spec fn scanned(source: Seq<char>) -> Scanned {
    scanned_from(source, 0, 1, Scanned { tokens: Seq::empty(), errors: Seq::empty() })
}

/// Scanning adds plain tokens to plain tokens.
pub proof fn lemma_scanned_from_plain(source: Seq<char>, pos: int, line: usize, so_far: Scanned)
    requires
        plain_tokens(so_far.tokens),
    ensures
        plain_tokens(scanned_from(source, pos, line, so_far).tokens),
    decreases source.len() - pos,
{
    reveal(plain_tokens);
    if 0 <= pos < source.len() {
        let step = scan_step(source, pos, line);
        let next = collected(so_far, step);
        assert(plain_tokens(next.tokens)) by {
            assert forall|i: int| 0 <= i < next.tokens.len() implies constant(
                (#[trigger] next.tokens[i]).literal,
            ) by {
                if i < so_far.tokens.len() {
                    assert(next.tokens[i] == so_far.tokens[i]);
                }
            }
        }
        if pos < step.next <= source.len() {
            lemma_scanned_from_plain(source, step.next, step.line, next);
        }
    }
}

/// No token that the scanner makes holds a callable or an instance: the
/// payload of a token is nothing, a name, the text of a string or the
/// digits of a number.
pub proof fn scanned_tokens_are_plain(source: Seq<char>)
    ensures
        plain_tokens(scanned(source).tokens),
{
    reveal(plain_tokens);
    lemma_scanned_from_plain(source, 0, 1, Scanned { tokens: Seq::empty(), errors: Seq::empty() });
}

/// A scanner over a source text.
#[derive(Debug)]
pub struct Scanner {
    pub source: Vec<char>,
    pub tokens: Vec<Token>,
    pub errors: Vec<(usize, Soo)>,
    pub pos: usize,
    pub line: usize,
}

/// The views of a list of lexical errors, one for one.
pub open spec fn scan_errors_view(errors: Seq<(usize, Soo)>) -> Seq<ScanError> {
    Seq::new(errors.len(), |i: int| (errors[i].0, errors[i].1@))
}

impl Scanner {
    /// What the scanner has found so far.
    pub open spec fn found(&self) -> Scanned {
        Scanned { tokens: tokens_view(self.tokens@), errors: scan_errors_view(self.errors@) }
    }

    /// A scanner at the beginning of `source`, on line 1.
    pub fn new(source: &str) -> (scanner: Self)
        ensures
            scanner.source@ == source@,
            scanner.pos == 0,
            scanner.line == 1,
            scanner.found() == (Scanned { tokens: Seq::empty(), errors: Seq::empty() }),
            scanned_from(source@, 0, 1, scanner.found()) == scanned(source@),
            plain_tokens(tokens_view(scanner.tokens@)),
    {
        let mut chars: Vec<char> = Vec::new();
        let mut rest = source.chars();
        loop
            invariant
                chars@ + rest.remaining() == source@,
                rest.obeys_prophetic_iter_laws(),
                rest.decrease() is Some,
            ensures
                chars@ == source@,
            decreases rest.decrease()->0,
        {
            match rest.next() {
                Some(c) => {
                    chars.push(c);
                    assert(chars@ + rest.remaining() =~= source@);
                },
                None => {
                    assert(chars@ =~= source@);
                    break ;
                },
            }
        }
        let scanner = Scanner { source: chars, tokens: Vec::new(), errors: Vec::new(), pos: 0, line: 1 };
        proof {
            reveal(plain_tokens);
        }
        assert(scanner.found().tokens =~= Seq::<TokenView>::empty());
        assert(scanner.found().errors =~= Seq::<ScanError>::empty());
        scanner
    }
}

/// Whether `c` is a digit.
fn is_digit(c: char) -> (r: bool)
    ensures
        r == digit(c),
{
    '0' <= c && c <= '9'
}

/// Whether `c` can begin an identifier.
fn is_alpha(c: char) -> (r: bool)
    ensures
        r == alpha(c),
{
    ('a' <= c && c <= 'z') || ('A' <= c && c <= 'Z') || c == '_'
}

/// Whether `c` can stand inside an identifier.
fn is_alpha_num(c: char) -> (r: bool)
    ensures
        r == (alpha(c) || digit(c)),
{
    is_alpha(c) || is_digit(c)
}

fn in_run(run: Run, c: char) -> (r: bool)
    ensures
        r == belongs(run, c),
{
    match run {
        Run::Digits => is_digit(c),
        Run::Name => is_alpha_num(c),
        Run::Comment => c != '\n',
        Run::Text => c != '"',
    }
}

fn single(c: char) -> (r: Option<TokenType>)
    ensures
        r == single_kind(c),
{
    if c == '(' {
        Some(TokenType::LeftParen)
    } else if c == ')' {
        Some(TokenType::RightParen)
    } else if c == '{' {
        Some(TokenType::LeftBrace)
    } else if c == '}' {
        Some(TokenType::RightBrace)
    } else if c == ',' {
        Some(TokenType::Comma)
    } else if c == '.' {
        Some(TokenType::Dot)
    } else if c == '-' {
        Some(TokenType::Minus)
    } else if c == '+' {
        Some(TokenType::Plus)
    } else if c == ';' {
        Some(TokenType::Semicolon)
    } else if c == '*' {
        Some(TokenType::Star)
    } else {
        None
    }
}

fn operator(c: char) -> (r: Option<(TokenType, TokenType)>)
    ensures
        r == operator_kinds(c),
{
    if c == '!' {
        Some((TokenType::Bang, TokenType::BangEqual))
    } else if c == '=' {
        Some((TokenType::Equal, TokenType::EqualEqual))
    } else if c == '<' {
        Some((TokenType::Less, TokenType::LessEqual))
    } else if c == '>' {
        Some((TokenType::Greater, TokenType::GreaterEqual))
    } else {
        None
    }
}

/// The keyword that `text` spells, if it spells one.
pub fn keyword_of(text: &str) -> (r: Option<TokenType>)
    ensures
        r == keyword(text@),
{
    if same_text(text, "and") {
        Some(TokenType::And)
    } else if same_text(text, "class") {
        Some(TokenType::Class)
    } else if same_text(text, "else") {
        Some(TokenType::Else)
    } else if same_text(text, "false") {
        Some(TokenType::False)
    } else if same_text(text, "for") {
        Some(TokenType::For)
    } else if same_text(text, "fun") {
        Some(TokenType::Fun)
    } else if same_text(text, "if") {
        Some(TokenType::If)
    } else if same_text(text, "nil") {
        Some(TokenType::Nil)
    } else if same_text(text, "or") {
        Some(TokenType::Or)
    } else if same_text(text, "print") {
        Some(TokenType::Print)
    } else if same_text(text, "return") {
        Some(TokenType::Return)
    } else if same_text(text, "super") {
        Some(TokenType::Super)
    } else if same_text(text, "this") {
        Some(TokenType::This)
    } else if same_text(text, "true") {
        Some(TokenType::True)
    } else if same_text(text, "var") {
        Some(TokenType::Var)
    } else if same_text(text, "while") {
        Some(TokenType::While)
    } else {
        None
    }
}

impl Scanner {
    /// The scanner stands inside its source.
    pub open spec fn ready(&self) -> bool {
        self.pos <= self.source@.len()
    }

    /// Where the run of kind `run` that begins at `from` ends.
    fn run(&self, from: usize, run: Run) -> (end: usize)
        requires
            from <= self.source@.len(),
        ensures
            end == run_end(self.source@, from as int, run),
            from <= end <= self.source@.len(),
    {
        let mut end = from;
        while end < self.source.len() && in_run(run, self.source[end])
            invariant
                from <= end <= self.source@.len(),
                run_end(self.source@, from as int, run) == run_end(self.source@, end as int, run),
            decreases self.source@.len() - end,
        {
            end += 1;
        }
        end
    }

    /// The source text from `from` up to `to`.
    fn text(&self, from: usize, to: usize) -> (text: String)
        requires
            from <= to <= self.source@.len(),
        ensures
            text@ == self.source@.subrange(from as int, to as int),
    {
        let mut text = String::new();
        let mut i = from;
        while i < to
            invariant
                from <= i <= to <= self.source@.len(),
                text@ == self.source@.subrange(from as int, i as int),
            decreases to - i,
        {
            push_char(&mut text, self.source[i]);
            assert(text@ =~= self.source@.subrange(from as int, i + 1));
            i += 1;
        }
        text
    }

    /// The line reached from `line` over the characters from `from` up to
    /// `to`.
    fn lines(&self, from: usize, to: usize, line: usize) -> (reached: usize)
        requires
            from <= to <= self.source@.len(),
        ensures
            reached == line_after(self.source@, from as int, to as int, line),
    {
        let mut reached = line;
        let mut i = from;
        while i < to
            invariant
                from <= i <= to <= self.source@.len(),
                line_after(self.source@, from as int, to as int, line) == line_after(
                    self.source@,
                    i as int,
                    to as int,
                    reached,
                ),
            decreases to - i,
        {
            if self.source[i] == '\n' && reached < usize::MAX {
                reached += 1;
            }
            i += 1;
        }
        reached
    }

    /// Whether the character behind the one at `self.pos` is `expected`.
    fn match_next(&self, expected: char) -> (r: bool)
        requires
            self.pos < self.source@.len(),
        ensures
            r == (self.pos + 1 < self.source@.len() && self.source@[self.pos + 1] == expected),
    {
        let len = self.source.len();
        self.pos + 1 < len && self.source[self.pos + 1] == expected
    }

    /// Adds the token of kind `typ` read from `self.pos` up to `to`, and
    /// goes on at `to`.
    fn add_token(&mut self, typ: TokenType, to: usize, literal: Literal)
        requires
            old(self).pos <= to <= old(self).source@.len(),
        ensures
            final(self).source == old(self).source,
            final(self).pos == to,
            final(self).line == old(self).line,
            final(self).found() == collected(
                old(self).found(),
                Step {
                    next: to as int,
                    line: old(self).line,
                    token: Some(
                        TokenView {
                            typ,
                            lexeme: old(self).source@.subrange(old(self).pos as int, to as int),
                            literal: literal@,
                            line: old(self).line,
                        },
                    ),
                    error: None,
                },
            ),
    {
        let lexeme = self.text(self.pos, to);
        let ghost before = tokens_view(self.tokens@);
        let token = Token { typ, lexeme, literal, line: self.line };
        self.tokens.push(token);
        self.pos = to;
        assert(tokens_view(self.tokens@) =~= before.push(token@));
    }

    /// Records a lexical error on the line the scanner is on.
    fn error(&mut self, message: &'static str)
        ensures
            final(self).source == old(self).source,
            final(self).pos == old(self).pos,
            final(self).line == old(self).line,
            final(self).found() == (Scanned {
                tokens: old(self).found().tokens,
                errors: old(self).found().errors.push((old(self).line, message@)),
            }),
    {
        let ghost before = scan_errors_view(self.errors@);
        self.errors.push((self.line, Soo::Static(message)));
        assert(scan_errors_view(self.errors@) =~= before.push((old(self).line, message@)));
    }

    /// Reads a string literal, whose opening quote stands at `self.pos`.
    fn scan_string(&mut self)
        requires
            old(self).pos < old(self).source@.len(),
            old(self).source@[old(self).pos as int] == '"',
        ensures
            final(self).source == old(self).source,
            final(self).pos == scan_step(
                old(self).source@,
                old(self).pos as int,
                old(self).line,
            ).next,
            final(self).line == scan_step(old(self).source@, old(self).pos as int, old(self).line).line,
            final(self).found() == collected(
                old(self).found(),
                scan_step(old(self).source@, old(self).pos as int, old(self).line),
            ),
            final(self).pos > old(self).pos,
            final(self).ready(),
    {
        let len = self.source.len();
        let end = self.run(self.pos + 1, Run::Text);
        self.line = self.lines(self.pos + 1, end, self.line);
        if end >= self.source.len() {
            self.error("Unterminated string.");
            self.pos = self.source.len();
        } else {
            let content = self.text(self.pos + 1, end);
            self.add_token(TokenType::StringToken, end + 1, Literal::StringLiteral(content));
        }
    }

    /// Where the number that begins at `self.pos` ends.
    fn advance_digits(&self) -> (end: usize)
        requires
            self.pos < self.source@.len(),
        ensures
            end == number_end(self.source@, self.pos as int),
            self.pos < end <= self.source@.len(),
    {
        let len = self.source.len();
        let whole = self.run(self.pos + 1, Run::Digits);
        if whole < len - 1 && self.source[whole] == '.' && is_digit(
            self.source[whole + 1],
        ) {
            self.run(whole + 1, Run::Digits)
        } else {
            whole
        }
    }

    /// Reads a number, whose first digit stands at `self.pos`.
    fn scan_number(&mut self)
        requires
            old(self).pos < old(self).source@.len(),
            digit(old(self).source@[old(self).pos as int]),
        ensures
            final(self).source == old(self).source,
            final(self).pos == scan_step(
                old(self).source@,
                old(self).pos as int,
                old(self).line,
            ).next,
            final(self).line == scan_step(old(self).source@, old(self).pos as int, old(self).line).line,
            final(self).found() == collected(
                old(self).found(),
                scan_step(old(self).source@, old(self).pos as int, old(self).line),
            ),
            final(self).pos > old(self).pos,
            final(self).ready(),
    {
        let end = self.advance_digits();
        let digits = self.text(self.pos, end);
        self.add_token(TokenType::Number, end, Literal::NumberLiteral(digits));
    }

    /// Reads an identifier or a keyword, whose first character stands at
    /// `self.pos`.
    fn scan_identifier(&mut self)
        requires
            old(self).pos < old(self).source@.len(),
            alpha(old(self).source@[old(self).pos as int]),
        ensures
            final(self).source == old(self).source,
            final(self).pos == scan_step(
                old(self).source@,
                old(self).pos as int,
                old(self).line,
            ).next,
            final(self).line == scan_step(old(self).source@, old(self).pos as int, old(self).line).line,
            final(self).found() == collected(
                old(self).found(),
                scan_step(old(self).source@, old(self).pos as int, old(self).line),
            ),
            final(self).pos > old(self).pos,
            final(self).ready(),
    {
        let len = self.source.len();
        let end = self.run(self.pos + 1, Run::Name);
        let name = self.text(self.pos, end);
        match keyword_of(name.as_str()) {
            Some(typ) => self.add_token(typ, end, Literal::Nil),
            None => self.add_token(TokenType::Identifier, end, Literal::IdentifierLiteral(name)),
        }
    }

    /// Reads what begins at `self.pos`: a token, or what stands between
    /// tokens, or a character that can begin nothing.
    fn scan_token(&mut self)
        requires
            old(self).pos < old(self).source@.len(),
        ensures
            final(self).source == old(self).source,
            final(self).pos == scan_step(
                old(self).source@,
                old(self).pos as int,
                old(self).line,
            ).next,
            final(self).line == scan_step(old(self).source@, old(self).pos as int, old(self).line).line,
            final(self).found() == collected(
                old(self).found(),
                scan_step(old(self).source@, old(self).pos as int, old(self).line),
            ),
            final(self).pos > old(self).pos,
            final(self).ready(),
    {
        let len = self.source.len();
        let c = self.source[self.pos];
        match single(c) {
            Some(typ) => {
                self.add_token(typ, self.pos + 1, Literal::Nil);
                return ;
            },
            None => {},
        }
        match operator(c) {
            Some((alone, with_equal)) => {
                if self.match_next('=') {
                    self.add_token(with_equal, self.pos + 2, Literal::Nil);
                } else {
                    self.add_token(alone, self.pos + 1, Literal::Nil);
                }
                return ;
            },
            None => {},
        }
        if c == '/' {
            if self.match_next('/') {
                self.pos = self.run(self.pos + 2, Run::Comment);
            } else {
                self.add_token(TokenType::Slash, self.pos + 1, Literal::Nil);
            }
        } else if c == ' ' || c == '\r' || c == '\t' {
            self.pos += 1;
        } else if c == '\n' {
            if self.line < usize::MAX {
                self.line += 1;
            }
            self.pos += 1;
        } else if c == '"' {
            self.scan_string();
        } else if is_digit(c) {
            self.scan_number();
        } else if is_alpha(c) {
            self.scan_identifier();
        } else {
            self.error("Unexpected character.");
            self.pos += 1;
        }
    }

    /// Scans the source from where the scanner stands to its end: the
    /// tokens in source order, and the lexical errors in the order in which
    /// they were met. No token is made for the end of the source.
    pub fn scan(self) -> (r: (Vec<Token>, Vec<(usize, Soo)>))
        ensures
            (Scanned { tokens: tokens_view(r.0@), errors: scan_errors_view(r.1@) }) == scanned_from(
                self.source@,
                self.pos as int,
                self.line,
                self.found(),
            ),
            plain_tokens(tokens_view(self.tokens@)) ==> plain_tokens(tokens_view(r.0@)),
    {
        proof {
            if plain_tokens(tokens_view(self.tokens@)) {
                lemma_scanned_from_plain(self.source@, self.pos as int, self.line, self.found());
            }
        }
        let mut scanner = self;
        while scanner.pos < scanner.source.len()
            invariant
                scanner.source == self.source,
                scanned_from(self.source@, self.pos as int, self.line, self.found())
                    == scanned_from(
                    scanner.source@,
                    scanner.pos as int,
                    scanner.line,
                    scanner.found(),
                ),
            decreases scanner.source@.len() - scanner.pos,
        {
            scanner.scan_token();
        }
        (scanner.tokens, scanner.errors)
    }

    /// Scans the source from where the scanner stands to its end: the
    /// tokens, and whether a lexical error was met. On a scanner fresh
    /// from `new` these are the tokens of the whole source.
    pub fn scan_tokens(self) -> (r: (Vec<Token>, bool))
        ensures
            tokens_view(r.0@) == scanned_from(
                self.source@,
                self.pos as int,
                self.line,
                self.found(),
            ).tokens,
            r.1 == (scanned_from(
                self.source@,
                self.pos as int,
                self.line,
                self.found(),
            ).errors.len() > 0),
            plain_tokens(tokens_view(self.tokens@)) ==> plain_tokens(tokens_view(r.0@)),
    {
        proof {
            if plain_tokens(tokens_view(self.tokens@)) {
                lemma_scanned_from_plain(self.source@, self.pos as int, self.line, self.found());
            }
        }
        let (tokens, errors) = self.scan();
        (tokens, errors.len() > 0)
    }
}

} // verus!
