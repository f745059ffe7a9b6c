//! Source locations, tokens and the lexer.
use vstd::prelude::*;
use crate::machine::Mnemonic;
use crate::text::{append_decimal, chars_of, decimal, push_char, string_of, text};
use crate::util::{
    diagnostic, problem_at, rcstr, Diagnostic, DiagnosticView, Problem, ProblemView, SharedString,
};

verus! {

/// A place in a source file.
#[derive(PartialEq, Eq, Debug)]
pub struct SourceLocation {
    pub filename: SharedString,
    pub lineno: usize,
}

/// The mathematical content of a [`SourceLocation`].
pub struct LocationView {
    pub filename: Seq<char>,
    pub lineno: usize,
}

impl View for SourceLocation {
    type V = LocationView;

    open spec fn view(&self) -> LocationView {
        LocationView { filename: self.filename@, lineno: self.lineno }
    }
}

impl DeepView for SourceLocation {
    type V = LocationView;

    open spec fn deep_view(&self) -> LocationView {
        self@
    }
}

impl Clone for SourceLocation {
    fn clone(&self) -> (r: Self)
        ensures
            r@ == self@,
    {
        SourceLocation { filename: self.filename.clone(), lineno: self.lineno }
    }
}

/// The location of what has no place in a file: `<input>`, line 0.
pub open spec fn dummy_location() -> LocationView {
    LocationView { filename: "<input>"@, lineno: 0 }
}

/// A location for what has no place in a file.
pub fn dummy_source() -> (r: SourceLocation)
    ensures
        r@ == dummy_location(),
{
    SourceLocation { filename: rcstr("<input>"), lineno: 0 }
}

// --- Tokens --------------------------------------------------------------------

/// A token of the source language.
#[derive(PartialEq, Eq, Debug)]
pub enum Token {
    HASH,
    COLON,
    DOLLAR,
    AT,
    COMMA,
    EQ,
    UNDERSCORE,
    LPAREN,
    RPAREN,
    LBRACKET,
    RBRACKET,
    MNEMONIC(Mnemonic),
    IDENT(SharedString),
    INTEGER(u8),
    CHAR(u8),
    PATH(SharedString),
    EOF,
    PLACEHOLDER,
}

/// The mathematical content of a [`Token`].
pub enum TokenView {
    HASH,
    COLON,
    DOLLAR,
    AT,
    COMMA,
    EQ,
    UNDERSCORE,
    LPAREN,
    RPAREN,
    LBRACKET,
    RBRACKET,
    MNEMONIC(Mnemonic),
    IDENT(Seq<char>),
    INTEGER(u8),
    CHAR(u8),
    PATH(Seq<char>),
    EOF,
    PLACEHOLDER,
}

impl View for Token {
    type V = TokenView;

    open spec fn view(&self) -> TokenView {
        match self {
            Token::HASH => TokenView::HASH,
            Token::COLON => TokenView::COLON,
            Token::DOLLAR => TokenView::DOLLAR,
            Token::AT => TokenView::AT,
            Token::COMMA => TokenView::COMMA,
            Token::EQ => TokenView::EQ,
            Token::UNDERSCORE => TokenView::UNDERSCORE,
            Token::LPAREN => TokenView::LPAREN,
            Token::RPAREN => TokenView::RPAREN,
            Token::LBRACKET => TokenView::LBRACKET,
            Token::RBRACKET => TokenView::RBRACKET,
            Token::MNEMONIC(m) => TokenView::MNEMONIC(*m),
            Token::IDENT(name) => TokenView::IDENT(name@),
            Token::INTEGER(i) => TokenView::INTEGER(*i),
            Token::CHAR(c) => TokenView::CHAR(*c),
            Token::PATH(path) => TokenView::PATH(path@),
            Token::EOF => TokenView::EOF,
            Token::PLACEHOLDER => TokenView::PLACEHOLDER,
        }
    }
}

impl DeepView for Token {
    type V = TokenView;

    open spec fn deep_view(&self) -> TokenView {
        self@
    }
}

impl Clone for Token {
    fn clone(&self) -> (r: Self)
        ensures
            r@ == self@,
    {
        match self {
            Token::HASH => Token::HASH,
            Token::COLON => Token::COLON,
            Token::DOLLAR => Token::DOLLAR,
            Token::AT => Token::AT,
            Token::COMMA => Token::COMMA,
            Token::EQ => Token::EQ,
            Token::UNDERSCORE => Token::UNDERSCORE,
            Token::LPAREN => Token::LPAREN,
            Token::RPAREN => Token::RPAREN,
            Token::LBRACKET => Token::LBRACKET,
            Token::RBRACKET => Token::RBRACKET,
            Token::MNEMONIC(m) => Token::MNEMONIC(*m),
            Token::IDENT(name) => Token::IDENT(name.clone()),
            Token::INTEGER(i) => Token::INTEGER(*i),
            Token::CHAR(c) => Token::CHAR(*c),
            Token::PATH(path) => Token::PATH(path.clone()),
            Token::EOF => Token::EOF,
            Token::PLACEHOLDER => Token::PLACEHOLDER,
        }
    }
}

impl Token {
    /// Whether two tokens are the same.
    pub fn same(&self, other: &Token) -> (r: bool)
        ensures
            r == (self@ == other@),
    {
        match (self, other) {
            (Token::HASH, Token::HASH) => true,
            (Token::COLON, Token::COLON) => true,
            (Token::DOLLAR, Token::DOLLAR) => true,
            (Token::AT, Token::AT) => true,
            (Token::COMMA, Token::COMMA) => true,
            (Token::EQ, Token::EQ) => true,
            (Token::UNDERSCORE, Token::UNDERSCORE) => true,
            (Token::LPAREN, Token::LPAREN) => true,
            (Token::RPAREN, Token::RPAREN) => true,
            (Token::LBRACKET, Token::LBRACKET) => true,
            (Token::RBRACKET, Token::RBRACKET) => true,
            (Token::MNEMONIC(a), Token::MNEMONIC(b)) => *a == *b,
            (Token::IDENT(a), Token::IDENT(b)) => *a == *b,
            (Token::INTEGER(a), Token::INTEGER(b)) => *a == *b,
            (Token::CHAR(a), Token::CHAR(b)) => *a == *b,
            (Token::PATH(a), Token::PATH(b)) => *a == *b,
            (Token::EOF, Token::EOF) => true,
            (Token::PLACEHOLDER, Token::PLACEHOLDER) => true,
            _ => false,
        }
    }
}

// --- Classes of characters -----------------------------------------------------

/// Whether a character is alphabetic, as `char::is_alphabetic` says.
pub uninterp spec fn is_alphabetic(c: char) -> bool;

/// Whether a character is upper-case, as `char::is_uppercase` says.
pub uninterp spec fn is_uppercase(c: char) -> bool;

/// Whether a character is lower-case, as `char::is_lowercase` says.
pub uninterp spec fn is_lowercase(c: char) -> bool;

/// Whether a character is numeric, as `char::is_numeric` says.
pub uninterp spec fn is_numeric(c: char) -> bool;

/// Whether a character is white space, as `char::is_whitespace` says.
pub uninterp spec fn is_whitespace(c: char) -> bool;

/// Trusted: the result of `char::is_alphabetic`, which depends on the
/// character alone, is given the name [`is_alphabetic`].
#[verifier::external_body]
fn char_is_alphabetic(c: char) -> (r: bool)
    ensures
        r == is_alphabetic(c),
{
    c.is_alphabetic()
}

/// Trusted: the result of `char::is_uppercase`, which depends on the
/// character alone, is given the name [`is_uppercase`].
#[verifier::external_body]
fn char_is_uppercase(c: char) -> (r: bool)
    ensures
        r == is_uppercase(c),
{
    c.is_uppercase()
}

/// Trusted: the result of `char::is_lowercase`, which depends on the
/// character alone, is given the name [`is_lowercase`].
#[verifier::external_body]
fn char_is_lowercase(c: char) -> (r: bool)
    ensures
        r == is_lowercase(c),
{
    c.is_lowercase()
}

/// Trusted: the result of `char::is_numeric`, which depends on the
/// character alone, is given the name [`is_numeric`].
#[verifier::external_body]
fn char_is_numeric(c: char) -> (r: bool)
    ensures
        r == is_numeric(c),
{
    c.is_numeric()
}

/// Trusted: the result of `char::is_whitespace`, which depends on the
/// character alone, is given the name [`is_whitespace`].
#[verifier::external_body]
fn char_is_whitespace(c: char) -> (r: bool)
    ensures
        r == is_whitespace(c),
{
    c.is_whitespace()
}

/// The classes of characters that the lexer collects runs of.
#[derive(Clone, Copy, PartialEq, Eq, Structural, Debug)]
pub enum CharClass {
    /// Upper-case letters: the characters of a mnemonic.
    Mnemonic,
    /// Lower-case letters, numeric characters and `_`: the characters of a
    /// name.
    Name,
    /// Numeric characters.
    Number,
    /// Everything but `>`: the characters of a path.
    Path,
    /// Everything but a line feed: the characters of a comment.
    Comment,
}

impl CharClass {
    /// Whether a character belongs to the class.
    pub open spec fn holds(self, c: char) -> bool {
        match self {
            CharClass::Mnemonic => is_alphabetic(c) && is_uppercase(c),
            CharClass::Name => (is_alphabetic(c) && is_lowercase(c)) || is_numeric(c) || c == '_',
            CharClass::Number => is_numeric(c),
            CharClass::Path => c != '>',
            CharClass::Comment => c != '\n',
        }
    }

    /// Computes [`CharClass::holds`].
    pub fn test(self, c: char) -> (r: bool)
        ensures
            r == self.holds(c),
    {
        match self {
            CharClass::Mnemonic => char_is_alphabetic(c) && char_is_uppercase(c),
            CharClass::Name => (char_is_alphabetic(c) && char_is_lowercase(c)) || char_is_numeric(c)
                || c == '_',
            CharClass::Number => char_is_numeric(c),
            CharClass::Path => c != '>',
            CharClass::Comment => c != '\n',
        }
    }
}

/// The end of the longest run of characters of a class that begins at `pos`.
pub open spec fn run_end(source: Seq<char>, class: CharClass, pos: int) -> int
    decreases source.len() - pos,
{
    if pos < 0 || pos >= source.len() || !class.holds(source[pos]) {
        pos
    } else {
        run_end(source, class, pos + 1)
    }
}

/// A run ends at or behind its beginning, and within the source.
pub proof fn lemma_run_end(source: Seq<char>, class: CharClass, pos: int)
    requires
        0 <= pos <= source.len(),
    ensures
        pos <= run_end(source, class, pos) <= source.len(),
        pos < source.len() && class.holds(source[pos]) ==> pos < run_end(source, class, pos),
    decreases source.len() - pos,
{
    if pos < source.len() && class.holds(source[pos]) {
        lemma_run_end(source, class, pos + 1);
    }
}

// --- Numbers -------------------------------------------------------------------

/// The number that a text of ASCII digits writes in decimal. A text with
/// another character writes no number.
pub open spec fn digits_value(text: Seq<char>) -> Option<nat>
    decreases text.len(),
{
    if text.len() == 0 {
        Some(0)
    } else {
        match digits_value(text.drop_last()) {
            None => None,
            Some(front) => if '0' <= text.last() && text.last() <= '9' {
                Some(front * 10 + (text.last() as nat - 48) as nat)
            } else {
                None
            },
        }
    }
}

/// The byte that a text writes in decimal: the text is not empty, holds
/// ASCII digits only and writes a number below 256.
pub open spec fn byte_value(text: Seq<char>) -> Option<u8> {
    match digits_value(text) {
        Some(value) => if text.len() > 0 && value <= u8::MAX {
            Some(value as u8)
        } else {
            None
        },
        None => None,
    }
}

/// A text that has no value as a prefix has none as a whole.
pub proof fn lemma_digits_fail(text: Seq<char>, n: int)
    requires
        0 <= n <= text.len(),
        digits_value(text.take(n)).is_none(),
    ensures
        digits_value(text).is_none(),
    decreases text.len() - n,
{
    if n < text.len() {
        assert(text.take(n + 1).drop_last() =~= text.take(n));
        lemma_digits_fail(text, n + 1);
    } else {
        assert(text.take(n) =~= text);
    }
}

/// Computes [`byte_value`].
pub fn parse_byte(text: &Vec<char>) -> (r: Option<u8>)
    ensures
        r == byte_value(text@),
{
    if text.len() == 0 {
        return None;
    }
    let mut value: usize = 0;
    let mut big = false;
    let mut i: usize = 0;
    assert(text@.take(0) =~= Seq::empty());
    while i < text.len()
        invariant
            i <= text.len(),
            value <= u8::MAX,
            digits_value(text@.take(i as int)) matches Some(v) && (big ==> v > u8::MAX) && (!big
                ==> v == value),
        decreases text.len() - i,
    {
        assert(text@.take(i + 1).drop_last() =~= text@.take(i as int));
        let c = text[i];
        if !('0' <= c && c <= '9') {
            proof {
                lemma_digits_fail(text@, i + 1);
            }
            return None;
        }
        if !big {
            value = value * 10 + ((c as u8) - 48) as usize;
            if value > 255 {
                big = true;
                value = 0;
            }
        }
        i += 1;
    }
    assert(text@.take(i as int) =~= text@);
    if big {
        None
    } else {
        Some(value as u8)
    }
}

// --- What the lexer reads ------------------------------------------------------

/// The result of reading at one position: a token, or nothing where a
/// comment or white space was passed over; and the position and the line
/// behind what was read.
pub struct Reading {
    pub token: Option<TokenView>,
    pub pos: int,
    pub lineno: usize,
}

/// The token that a single character is.
pub open spec fn punctuation(c: char) -> Option<TokenView> {
    if c == '#' {
        Some(TokenView::HASH)
    } else if c == ':' {
        Some(TokenView::COLON)
    } else if c == '$' {
        Some(TokenView::DOLLAR)
    } else if c == '@' {
        Some(TokenView::AT)
    } else if c == ',' {
        Some(TokenView::COMMA)
    } else if c == '=' {
        Some(TokenView::EQ)
    } else if c == '_' {
        Some(TokenView::UNDERSCORE)
    } else if c == '(' {
        Some(TokenView::LPAREN)
    } else if c == ')' {
        Some(TokenView::RPAREN)
    } else if c == '[' {
        Some(TokenView::LBRACKET)
    } else if c == ']' {
        Some(TokenView::RBRACKET)
    } else {
        None
    }
}

/// The byte of a character: its code, reduced modulo 256.
pub open spec fn char_byte(c: char) -> u8 {
    (c as u32 % 256) as u8
}

/// The position behind the character `expected`, which has to stand at
/// `pos`.
pub open spec fn expected_at(
    source: Seq<char>,
    place: LocationView,
    pos: int,
    expected: char,
) -> Result<int, DiagnosticView> {
    if 0 <= pos < source.len() && source[pos] == expected {
        Ok(pos + 1)
    } else {
        Err(
            problem_at(
                ProblemView::ExpectedChar {
                    needed: expected,
                    actual: if 0 <= pos < source.len() {
                        Some(source[pos])
                    } else {
                        None
                    },
                },
                place,
            ),
        )
    }
}

/// The character literal whose opening quote stands at `pos`: the byte of
/// the character, or of the escape sequence `\n` or `\'`, and the position
/// behind the closing quote.
pub open spec fn char_literal(source: Seq<char>, place: LocationView, pos: int) -> Result<
    (u8, int),
    DiagnosticView,
> {
    if pos + 1 >= source.len() {
        Err(problem_at(ProblemView::UnfinishedChar, place))
    } else if source[pos + 1] == '\\' {
        if pos + 2 >= source.len() {
            Err(problem_at(ProblemView::UnfinishedChar, place))
        } else if source[pos + 2] == 'n' {
            match expected_at(source, place, pos + 3, '\'') {
                Ok(behind) => Ok((10u8, behind)),
                Err(d) => Err(d),
            }
        } else if source[pos + 2] == '\'' {
            match expected_at(source, place, pos + 3, '\'') {
                Ok(behind) => Ok((39u8, behind)),
                Err(d) => Err(d),
            }
        } else {
            Err(problem_at(ProblemView::InvalidEscape(source[pos + 2]), place))
        }
    } else {
        match expected_at(source, place, pos + 2, '\'') {
            Ok(behind) => Ok((char_byte(source[pos + 1]), behind)),
            Err(d) => Err(d),
        }
    }
}

/// The next line number. It stays at the end of the range of the machine's
/// integers.
pub open spec fn next_line(lineno: usize) -> usize {
    if lineno < usize::MAX {
        (lineno + 1) as usize
    } else {
        lineno
    }
}

/// What stands at a position of a source: a token, a comment or white
/// space; or an error.
///
/// A word of upper-case letters is a mnemonic. A word that begins with a
/// lower-case letter and goes on with lower-case letters, numeric characters
/// and `_` is a name. A run of numeric characters is a number. `'c'` is a
/// character, `<...>` a path, and `;` begins a comment that ends with the
/// line. A line feed ends a line. At the end of the source stands `EOF`.
pub open spec fn read(source: Seq<char>, file: Seq<char>, pos: int, lineno: usize) -> Result<
    Reading,
    DiagnosticView,
> {
    let place = LocationView { filename: file, lineno };
    if pos < 0 || pos >= source.len() {
        Ok(Reading { token: Some(TokenView::EOF), pos, lineno })
    } else {
        let c = source[pos];
        if punctuation(c).is_some() {
            Ok(Reading { token: punctuation(c), pos: pos + 1, lineno })
        } else if is_alphabetic(c) && is_uppercase(c) {
            let end = run_end(source, CharClass::Mnemonic, pos);
            match Mnemonic::named(source.subrange(pos, end)) {
                Some(mnem) => Ok(Reading { token: Some(TokenView::MNEMONIC(mnem)), pos: end, lineno }),
                None => Err(
                    problem_at(ProblemView::InvalidMnemonic(source.subrange(pos, end)), place),
                ),
            }
        } else if is_alphabetic(c) && is_lowercase(c) {
            let end = run_end(source, CharClass::Name, pos);
            Ok(
                Reading {
                    token: Some(TokenView::IDENT(source.subrange(pos, end))),
                    pos: end,
                    lineno,
                },
            )
        } else if is_numeric(c) {
            let end = run_end(source, CharClass::Number, pos);
            match byte_value(source.subrange(pos, end)) {
                Some(value) => Ok(
                    Reading { token: Some(TokenView::INTEGER(value)), pos: end, lineno },
                ),
                None => Err(
                    problem_at(ProblemView::InvalidInteger(source.subrange(pos, end)), place),
                ),
            }
        } else if c == '\'' {
            match char_literal(source, place, pos) {
                Ok((byte, behind)) => Ok(
                    Reading { token: Some(TokenView::CHAR(byte)), pos: behind, lineno },
                ),
                Err(d) => Err(d),
            }
        } else if c == '<' {
            let end = run_end(source, CharClass::Path, pos + 1);
            match expected_at(source, place, end, '>') {
                Ok(behind) => Ok(
                    Reading {
                        token: Some(TokenView::PATH(source.subrange(pos + 1, end))),
                        pos: behind,
                        lineno,
                    },
                ),
                Err(d) => Err(d),
            }
        } else if c == ';' {
            Ok(Reading { token: None, pos: run_end(source, CharClass::Comment, pos), lineno })
        } else if is_whitespace(c) {
            Ok(
                Reading {
                    token: None,
                    pos: pos + 1,
                    lineno: if c == '\n' {
                        next_line(lineno)
                    } else {
                        lineno
                    },
                },
            )
        } else {
            Err(problem_at(ProblemView::UnknownToken(c), place))
        }
    }
}

/// Reading moves forward: behind everything but `EOF` the position is
/// greater, and it stays within the source.
pub proof fn lemma_read_advances(source: Seq<char>, file: Seq<char>, pos: int, lineno: usize)
    requires
        0 <= pos <= source.len(),
    ensures
        read(source, file, pos, lineno) matches Ok(reading) ==> pos <= reading.pos <= source.len()
            && (reading.token != Some(TokenView::EOF) ==> pos < reading.pos) && (reading.token
            == Some(TokenView::EOF) ==> pos == source.len()),
{
    if pos < source.len() {
        lemma_run_end(source, CharClass::Mnemonic, pos);
        lemma_run_end(source, CharClass::Name, pos);
        lemma_run_end(source, CharClass::Number, pos);
        lemma_run_end(source, CharClass::Path, pos + 1);
        lemma_run_end(source, CharClass::Comment, pos);
    }
}

/// The next token at or behind a position, with the position and the line
/// behind it; comments and white space are passed over.
pub open spec fn next(source: Seq<char>, file: Seq<char>, pos: int, lineno: usize) -> Result<
    (TokenView, int, usize),
    DiagnosticView,
>
    decreases source.len() - pos,
{
    if pos < 0 || pos > source.len() {
        Ok((TokenView::EOF, pos, lineno))
    } else {
        match read(source, file, pos, lineno) {
            Err(d) => Err(d),
            Ok(reading) => match reading.token {
                Some(token) => Ok((token, reading.pos, reading.lineno)),
                None => {
                    proof {
                        lemma_read_advances(source, file, pos, lineno);
                    }
                    next(source, file, reading.pos, reading.lineno)
                },
            },
        }
    }
}

/// The next token moves forward as reading does.
pub proof fn lemma_next_advances(source: Seq<char>, file: Seq<char>, pos: int, lineno: usize)
    requires
        0 <= pos <= source.len(),
    ensures
        next(source, file, pos, lineno) matches Ok(found) ==> pos <= found.1 <= source.len() && (
        found.0 != TokenView::EOF ==> pos < found.1) && (found.0 == TokenView::EOF ==> found.1
            == source.len()),
    decreases source.len() - pos,
{
    lemma_read_advances(source, file, pos, lineno);
    if let Ok(reading) = read(source, file, pos, lineno) {
        if reading.token.is_none() {
            lemma_next_advances(source, file, reading.pos, reading.lineno);
        }
    }
}

/// What a lexer will hand out: tokens, each with the place that the lexer
/// reports once the token is handed out; and behind them either `EOF` for
/// ever, reported at a place, or an error.
pub struct Stream {
    pub tokens: Seq<(TokenView, LocationView)>,
    pub end: Result<LocationView, DiagnosticView>,
}

/// The tokens of a source from a position on.
pub open spec fn stream_from(source: Seq<char>, file: Seq<char>, pos: int, lineno: usize) -> Stream
    decreases source.len() - pos,
{
    if pos < 0 || pos > source.len() {
        Stream { tokens: Seq::empty(), end: Ok(LocationView { filename: file, lineno }) }
    } else {
        match next(source, file, pos, lineno) {
            Err(d) => Stream { tokens: Seq::empty(), end: Err(d) },
            Ok((token, behind, line)) => if token == TokenView::EOF {
                Stream {
                    tokens: Seq::empty(),
                    end: Ok(LocationView { filename: file, lineno: line }),
                }
            } else {
                proof {
                    lemma_next_advances(source, file, pos, lineno);
                }
                let rest = stream_from(source, file, behind, line);
                Stream {
                    tokens: seq![(token, LocationView { filename: file, lineno: line })]
                        + rest.tokens,
                    end: rest.end,
                }
            },
        }
    }
}

/// The tokens of a stream without their places.
pub open spec fn token_views(tokens: Seq<(TokenView, LocationView)>) -> Seq<TokenView> {
    Seq::new(tokens.len(), |i: int| tokens[i].0)
}

// --- The lexer -----------------------------------------------------------------

/// A source of tokens.
pub trait Lexer {
    /// The lexer is in a state that its methods can work on.
    spec fn wf(&self) -> bool;

    /// The place that the lexer reports: that of the token handed out last.
    spec fn place(&self) -> LocationView;

    /// What the lexer will hand out.
    spec fn stream(&self) -> Stream;

    /// The place of the token that was handed out last.
    fn get_source(&self) -> (r: SourceLocation)
        requires
            self.wf(),
        ensures
            r@ == self.place(),
    ;

    /// Hands out the next token. Behind the last token, `EOF` is handed out
    /// for ever. After an error nothing is known of the lexer but that it is
    /// well-formed.
    fn next_token(&mut self) -> (r: Result<Token, Diagnostic>)
        requires
            old(self).wf(),
        ensures
            final(self).wf(),
            handed_out(old(self).stream(), r, final(self).stream(), final(self).place()),
    ;

    /// All tokens that are left, without the `EOF` behind them.
    fn tokenize(&mut self) -> (r: Result<Vec<Token>, Diagnostic>)
        requires
            old(self).wf(),
        ensures
            final(self).wf(),
            match r {
                Ok(tokens) => tokens.deep_view() == token_views(old(self).stream().tokens)
                    && old(self).stream().end is Ok,
                Err(d) => old(self).stream().end == Err::<LocationView, _>(d@),
            },
    ;
}

/// What handing out a token means: the first token of the stream is handed
/// out and leaves the stream, and its place is reported from then on; behind
/// the last token the stream hands out `EOF` or its error.
pub open spec fn handed_out(
    before: Stream,
    result: Result<Token, Diagnostic>,
    after: Stream,
    place: LocationView,
) -> bool {
    if before.tokens.len() > 0 {
        &&& result matches Ok(token)
        &&& token@ == before.tokens[0].0
        &&& place == before.tokens[0].1
        &&& after == (Stream { tokens: before.tokens.drop_first(), end: before.end })
    } else {
        match before.end {
            Ok(last) => {
                &&& result matches Ok(token)
                &&& token@ == TokenView::EOF
                &&& place == last
                &&& after == before
            },
            Err(d) => result matches Err(e) && e@ == d,
        }
    }
}

/// A lexer for the text of a file.
pub struct FileLexer {
    pub source: Vec<char>,
    pub file: SharedString,
    pub pos: usize,
    pub lineno: usize,
}

impl FileLexer {
    /// A lexer at the beginning of a source. `file` is the name that the
    /// places of the tokens carry.
    pub fn new(source: &str, file: &str) -> (r: FileLexer)
        ensures
            r.source@ == source@,
            r.file@ == file@,
            r.pos == 0,
            r.lineno == 1,
            r.wf(),
    {
        FileLexer { source: chars_of(source), file: rcstr(file), pos: 0, lineno: 1 }
    }

    /// A diagnostic at the current line.
    fn fatal(&self, problem: Problem) -> (r: Diagnostic)
        ensures
            r@ == problem_at(problem@, self.place()),
    {
        Diagnostic {
            problem,
            location: SourceLocation { filename: self.file.clone(), lineno: self.lineno },
        }
    }

    /// Whether the whole source is read.
    pub fn is_eof(&self) -> (r: bool)
        ensures
            r == (self.pos >= self.source@.len()),
    {
        self.pos >= self.source.len()
    }

    /// The character at the current position.
    fn curr(&self) -> (r: Option<char>)
        ensures
            r == if self.pos < self.source@.len() {
                Some(self.source@[self.pos as int])
            } else {
                None
            },
    {
        if self.pos < self.source.len() {
            Some(self.source[self.pos])
        } else {
            None
        }
    }

    /// Moves on by one character.
    fn bump(&mut self)
        requires
            old(self).pos < old(self).source@.len(),
        ensures
            final(self).pos == old(self).pos + 1,
            final(self).source == old(self).source,
            final(self).file == old(self).file,
            final(self).lineno == old(self).lineno,
    {
        let length = self.source.len();
        assert(self.pos < length);
        self.pos = self.pos + 1;
    }

    /// Passes over the character `expect`, which has to be the current one.
    fn expect(&mut self, expect: char) -> (r: Result<(), Diagnostic>)
        requires
            old(self).wf(),
        ensures
            final(self).source == old(self).source,
            final(self).file == old(self).file,
            final(self).lineno == old(self).lineno,
            final(self).wf(),
            match r {
                Ok(()) => expected_at(
                    old(self).source@,
                    old(self).place(),
                    old(self).pos as int,
                    expect,
                ) == Ok::<_, DiagnosticView>(final(self).pos as int),
                Err(d) => expected_at(
                    old(self).source@,
                    old(self).place(),
                    old(self).pos as int,
                    expect,
                ) == Err::<int, _>(d@),
            },
    {
        let curr = self.curr();
        match curr {
            Some(c) => {
                if c == expect {
                    self.bump();
                    return Ok(());
                }
            },
            None => {},
        }
        Err(self.fatal(Problem::ExpectedChar { needed: expect, actual: curr }))
    }

    /// Collects the run of characters of a class that begins at the current
    /// position, and moves behind it.
    fn collect(&mut self, class: CharClass) -> (r: Vec<char>)
        requires
            old(self).wf(),
        ensures
            final(self).source == old(self).source,
            final(self).file == old(self).file,
            final(self).lineno == old(self).lineno,
            final(self).wf(),
            final(self).pos == run_end(old(self).source@, class, old(self).pos as int),
            r@ == old(self).source@.subrange(old(self).pos as int, final(self).pos as int),
    {
        let start = self.pos;
        let mut chars: Vec<char> = Vec::new();
        while self.pos < self.source.len() && class.test(self.source[self.pos])
            invariant
                self.source == old(self).source,
                self.file == old(self).file,
                self.lineno == old(self).lineno,
                start == old(self).pos,
                start <= self.pos <= self.source@.len(),
                run_end(self.source@, class, start as int) == run_end(
                    self.source@,
                    class,
                    self.pos as int,
                ),
                chars@ == self.source@.subrange(start as int, self.pos as int),
            decreases self.source@.len() - self.pos,
        {
            chars.push(self.source[self.pos]);
            self.pos = self.pos + 1;
            assert(chars@ =~= self.source@.subrange(start as int, self.pos as int));
        }
        chars
    }

    /// Moves behind the run of characters of a class that begins at the
    /// current position.
    fn eat_all(&mut self, class: CharClass)
        requires
            old(self).wf(),
        ensures
            final(self).source == old(self).source,
            final(self).file == old(self).file,
            final(self).lineno == old(self).lineno,
            final(self).wf(),
            final(self).pos == run_end(old(self).source@, class, old(self).pos as int),
    {
        while self.pos < self.source.len() && class.test(self.source[self.pos])
            invariant
                self.source == old(self).source,
                self.file == old(self).file,
                self.lineno == old(self).lineno,
                self.pos <= self.source@.len(),
                run_end(self.source@, class, old(self).pos as int) == run_end(
                    self.source@,
                    class,
                    self.pos as int,
                ),
            decreases self.source@.len() - self.pos,
        {
            self.pos = self.pos + 1;
        }
    }
}

impl FileLexer {
    /// Reads the mnemonic that begins at the current position.
    fn tokenize_mnemonic(&mut self) -> (r: Result<Token, Diagnostic>)
        requires
            old(self).wf(),
        ensures
            final(self).source == old(self).source,
            final(self).file == old(self).file,
            final(self).lineno == old(self).lineno,
            final(self).wf(),
            final(self).pos == run_end(old(self).source@, CharClass::Mnemonic, old(self).pos as int),
            match r {
                Ok(token) => Mnemonic::named(
                    old(self).source@.subrange(old(self).pos as int, final(self).pos as int),
                ) matches Some(m) && token@ == TokenView::MNEMONIC(m),
                Err(d) => Mnemonic::named(
                    old(self).source@.subrange(old(self).pos as int, final(self).pos as int),
                ).is_none() && d@ == problem_at(
                    ProblemView::InvalidMnemonic(
                        old(self).source@.subrange(old(self).pos as int, final(self).pos as int),
                    ),
                    old(self).place(),
                ),
            },
    {
        let text = self.collect(CharClass::Mnemonic);
        match Mnemonic::from_chars(&text) {
            Some(mnemonic) => Ok(Token::MNEMONIC(mnemonic)),
            None => Err(self.fatal(Problem::InvalidMnemonic(string_of(&text)))),
        }
    }

    /// Reads the name that begins at the current position.
    fn tokenize_ident(&mut self) -> (r: Token)
        requires
            old(self).wf(),
        ensures
            final(self).source == old(self).source,
            final(self).file == old(self).file,
            final(self).lineno == old(self).lineno,
            final(self).wf(),
            final(self).pos == run_end(old(self).source@, CharClass::Name, old(self).pos as int),
            r@ == TokenView::IDENT(
                old(self).source@.subrange(old(self).pos as int, final(self).pos as int),
            ),
    {
        let text = self.collect(CharClass::Name);
        Token::IDENT(string_of(&text))
    }

    /// Reads the number that begins at the current position.
    fn tokenize_digit(&mut self) -> (r: Result<Token, Diagnostic>)
        requires
            old(self).wf(),
        ensures
            final(self).source == old(self).source,
            final(self).file == old(self).file,
            final(self).lineno == old(self).lineno,
            final(self).wf(),
            final(self).pos == run_end(old(self).source@, CharClass::Number, old(self).pos as int),
            match r {
                Ok(token) => byte_value(
                    old(self).source@.subrange(old(self).pos as int, final(self).pos as int),
                ) matches Some(value) && token@ == TokenView::INTEGER(value),
                Err(d) => byte_value(
                    old(self).source@.subrange(old(self).pos as int, final(self).pos as int),
                ).is_none() && d@ == problem_at(
                    ProblemView::InvalidInteger(
                        old(self).source@.subrange(old(self).pos as int, final(self).pos as int),
                    ),
                    old(self).place(),
                ),
            },
    {
        let text = self.collect(CharClass::Number);
        match parse_byte(&text) {
            Some(value) => Ok(Token::INTEGER(value)),
            None => Err(self.fatal(Problem::InvalidInteger(string_of(&text)))),
        }
    }

    /// Reads the character literal whose opening quote is the current
    /// character.
    fn tokenize_char(&mut self) -> (r: Result<Token, Diagnostic>)
        requires
            old(self).wf(),
            old(self).pos < old(self).source@.len(),
        ensures
            final(self).source == old(self).source,
            final(self).file == old(self).file,
            final(self).lineno == old(self).lineno,
            final(self).wf(),
            match r {
                Ok(token) => char_literal(
                    old(self).source@,
                    old(self).place(),
                    old(self).pos as int,
                ) matches Ok(found) && token@ == TokenView::CHAR(found.0)
                    && found.1 == final(self).pos,
                Err(d) => char_literal(old(self).source@, old(self).place(), old(self).pos as int)
                    == Err::<(u8, int), _>(d@),
            },
    {
        self.bump();
        let c = match self.curr() {
            Some(c) => c,
            None => {
                return Err(self.fatal(Problem::UnfinishedChar));
            },
        };
        let byte: u8 = if c == '\\' {
            self.bump();
            match self.curr() {
                Some(escaped) => {
                    if escaped == 'n' {
                        10
                    } else if escaped == '\'' {
                        39
                    } else {
                        return Err(self.fatal(Problem::InvalidEscape(escaped)));
                    }
                },
                None => {
                    return Err(self.fatal(Problem::UnfinishedChar));
                },
            }
        } else {
            ((c as u32) % 256) as u8
        };
        self.bump();
        match self.expect('\'') {
            Ok(()) => Ok(Token::CHAR(byte)),
            Err(d) => Err(d),
        }
    }

    /// Reads the path whose opening `<` is the current character.
    fn tokenize_path(&mut self) -> (r: Result<Token, Diagnostic>)
        requires
            old(self).wf(),
            old(self).pos < old(self).source@.len(),
        ensures
            final(self).source == old(self).source,
            final(self).file == old(self).file,
            final(self).lineno == old(self).lineno,
            final(self).wf(),
            match r {
                Ok(token) => expected_at(
                    old(self).source@,
                    old(self).place(),
                    run_end(old(self).source@, CharClass::Path, old(self).pos + 1),
                    '>',
                ) == Ok::<_, DiagnosticView>(final(self).pos as int) && token@ == TokenView::PATH(
                    old(self).source@.subrange(
                        old(self).pos + 1,
                        run_end(old(self).source@, CharClass::Path, old(self).pos + 1),
                    ),
                ),
                Err(d) => expected_at(
                    old(self).source@,
                    old(self).place(),
                    run_end(old(self).source@, CharClass::Path, old(self).pos + 1),
                    '>',
                ) == Err::<int, _>(d@),
            },
    {
        self.bump();
        let path = self.collect(CharClass::Path);
        match self.expect('>') {
            Ok(()) => Ok(Token::PATH(string_of(&path))),
            Err(d) => Err(d),
        }
    }

    /// The token that a single character is.
    fn punctuation_token(c: char) -> (r: Option<Token>)
        ensures
            r.deep_view() == punctuation(c),
    {
        if c == '#' {
            Some(Token::HASH)
        } else if c == ':' {
            Some(Token::COLON)
        } else if c == '$' {
            Some(Token::DOLLAR)
        } else if c == '@' {
            Some(Token::AT)
        } else if c == ',' {
            Some(Token::COMMA)
        } else if c == '=' {
            Some(Token::EQ)
        } else if c == '_' {
            Some(Token::UNDERSCORE)
        } else if c == '(' {
            Some(Token::LPAREN)
        } else if c == ')' {
            Some(Token::RPAREN)
        } else if c == '[' {
            Some(Token::LBRACKET)
        } else if c == ']' {
            Some(Token::RBRACKET)
        } else {
            None
        }
    }

    /// Reads what stands at the current position. `None` says that a
    /// comment or white space was passed over.
    pub fn read_token(&mut self) -> (r: Result<Option<Token>, Diagnostic>)
        requires
            old(self).wf(),
        ensures
            final(self).source == old(self).source,
            final(self).file == old(self).file,
            final(self).wf(),
            match r {
                Ok(token) => read(
                    old(self).source@,
                    old(self).file@,
                    old(self).pos as int,
                    old(self).lineno,
                ) == Ok::<_, DiagnosticView>(
                    Reading {
                        token: token.deep_view(),
                        pos: final(self).pos as int,
                        lineno: final(self).lineno,
                    },
                ),
                Err(d) => read(
                    old(self).source@,
                    old(self).file@,
                    old(self).pos as int,
                    old(self).lineno,
                ) == Err::<Reading, _>(d@),
            },
    {
        let c = match self.curr() {
            Some(c) => c,
            None => {
                return Ok(Some(Token::EOF));
            },
        };
        match FileLexer::punctuation_token(c) {
            Some(token) => {
                self.bump();
                return Ok(Some(token));
            },
            None => {},
        }
        if char_is_alphabetic(c) && char_is_uppercase(c) {
            match self.tokenize_mnemonic() {
                Ok(token) => Ok(Some(token)),
                Err(d) => Err(d),
            }
        } else if char_is_alphabetic(c) && char_is_lowercase(c) {
            Ok(Some(self.tokenize_ident()))
        } else if char_is_numeric(c) {
            match self.tokenize_digit() {
                Ok(token) => Ok(Some(token)),
                Err(d) => Err(d),
            }
        } else if c == '\'' {
            match self.tokenize_char() {
                Ok(token) => Ok(Some(token)),
                Err(d) => Err(d),
            }
        } else if c == '<' {
            match self.tokenize_path() {
                Ok(token) => Ok(Some(token)),
                Err(d) => Err(d),
            }
        } else if c == ';' {
            self.eat_all(CharClass::Comment);
            Ok(None)
        } else if char_is_whitespace(c) {
            if c == '\n' && self.lineno < usize::MAX {
                self.lineno = self.lineno + 1;
            }
            self.bump();
            Ok(None)
        } else {
            Err(self.fatal(Problem::UnknownToken(c)))
        }
    }
}

/// Where two positions have the same next token, they have the same
/// stream.
pub proof fn lemma_stream_by_next(
    source: Seq<char>,
    file: Seq<char>,
    pos: int,
    lineno: usize,
    other: int,
    line: usize,
)
    requires
        0 <= pos <= source.len(),
        0 <= other <= source.len(),
        next(source, file, pos, lineno) == next(source, file, other, line),
    ensures
        stream_from(source, file, pos, lineno) == stream_from(source, file, other, line),
{
}

impl Lexer for FileLexer {
    open spec fn wf(&self) -> bool {
        self.pos <= self.source@.len()
    }

    open spec fn place(&self) -> LocationView {
        LocationView { filename: self.file@, lineno: self.lineno }
    }

    open spec fn stream(&self) -> Stream {
        stream_from(self.source@, self.file@, self.pos as int, self.lineno)
    }

    fn get_source(&self) -> (r: SourceLocation) {
        SourceLocation { filename: self.file.clone(), lineno: self.lineno }
    }

    fn next_token(&mut self) -> (r: Result<Token, Diagnostic>) {
        loop
            invariant
                self.wf(),
                old(self).wf(),
                self.source == old(self).source,
                self.file == old(self).file,
                next(self.source@, self.file@, self.pos as int, self.lineno) == next(
                    old(self).source@,
                    old(self).file@,
                    old(self).pos as int,
                    old(self).lineno,
                ),
            decreases self.source@.len() - self.pos,
        {
            let ghost pos = self.pos as int;
            let ghost lineno = self.lineno;
            proof {
                lemma_read_advances(self.source@, self.file@, pos, lineno);
                lemma_next_advances(
                    old(self).source@,
                    old(self).file@,
                    old(self).pos as int,
                    old(self).lineno,
                );
            }
            match self.read_token() {
                Ok(Some(token)) => {
                    proof {
                        let before = old(self).stream();
                        let after = self.stream();
                        if token@ == TokenView::EOF {
                            assert(self.pos == self.source@.len());
                            assert(read(self.source@, self.file@, self.pos as int, self.lineno)
                                == Ok::<_, DiagnosticView>(
                                Reading {
                                    token: Some(TokenView::EOF),
                                    pos: self.pos as int,
                                    lineno: self.lineno,
                                },
                            ));
                            assert(after == before);
                        } else {
                            assert(before.tokens.drop_first() =~= after.tokens);
                        }
                    }
                    return Ok(token);
                },
                Ok(None) => {},
                Err(d) => {
                    return Err(d);
                },
            }
        }
    }

    fn tokenize(&mut self) -> (r: Result<Vec<Token>, Diagnostic>) {
        let mut tokens: Vec<Token> = Vec::new();
        assert(tokens.deep_view() + token_views(self.stream().tokens) =~= token_views(
            self.stream().tokens,
        ));
        while !self.is_eof()
            invariant
                self.wf(),
                self.source == old(self).source,
                self.file == old(self).file,
                tokens.deep_view() + token_views(self.stream().tokens) == token_views(
                    old(self).stream().tokens,
                ),
                self.stream().end == old(self).stream().end,
            decreases self.source@.len() - self.pos,
        {
            let ghost pos = self.pos as int;
            let ghost lineno = self.lineno;
            let ghost before = self.stream();
            let ghost collected = tokens.deep_view();
            proof {
                lemma_read_advances(self.source@, self.file@, pos, lineno);
            }
            match self.read_token() {
                Ok(Some(token)) => {
                    let ghost view = token@;
                    tokens.push(token);
                    proof {
                        let after = self.stream();
                        assert(view != TokenView::EOF);
                        assert(before.tokens =~= seq![(view, self.place())] + after.tokens);
                        assert(tokens.deep_view() =~= collected.push(view));
                        assert(tokens.deep_view() + token_views(after.tokens) =~= collected
                            + token_views(before.tokens));
                    }
                },
                Ok(None) => {
                    proof {
                        lemma_stream_by_next(
                            self.source@,
                            self.file@,
                            pos,
                            lineno,
                            self.pos as int,
                            self.lineno,
                        );
                    }
                },
                Err(d) => {
                    return Err(d);
                },
            }
        }
        proof {
            assert(self.stream().tokens =~= Seq::empty());
            assert(tokens.deep_view() =~= token_views(old(self).stream().tokens));
        }
        Ok(tokens)
    }
}

// --- A list of tokens as a lexer -----------------------------------------------

/// The tokens of a list, each at the place of what has no place in a file.
pub open spec fn listed_tokens(tokens: Seq<Token>) -> Seq<(TokenView, LocationView)> {
    Seq::new(tokens.len(), |i: int| (tokens[i]@, dummy_location()))
}

impl Lexer for Vec<Token> {
    open spec fn wf(&self) -> bool {
        true
    }

    open spec fn place(&self) -> LocationView {
        dummy_location()
    }

    open spec fn stream(&self) -> Stream {
        Stream { tokens: listed_tokens(self@), end: Ok(dummy_location()) }
    }

    fn get_source(&self) -> (r: SourceLocation) {
        dummy_source()
    }

    fn next_token(&mut self) -> (r: Result<Token, Diagnostic>) {
        if self.len() >= 1 {
            let token = self.remove(0);
            assert(listed_tokens(self@) =~= listed_tokens(old(self)@).drop_first());
            Ok(token)
        } else {
            Ok(Token::EOF)
        }
    }

    fn tokenize(&mut self) -> (r: Result<Vec<Token>, Diagnostic>) {
        let mut tokens: Vec<Token> = Vec::new();
        let mut i: usize = 0;
        while i < self.len()
            invariant
                i <= self.len(),
                *self == *old(self),
                tokens@.len() == i,
                forall|j: int| 0 <= j < i ==> tokens@[j]@ == self@[j]@,
            decreases self.len() - i,
        {
            tokens.push(self[i].clone());
            i += 1;
        }
        assert(tokens.deep_view() =~= token_views(self.stream().tokens));
        Ok(tokens)
    }
}

// --- Texts ---------------------------------------------------------------------

/// A place as a text: the file, a colon and the line.
pub open spec fn location_text(location: LocationView) -> Seq<char> {
    location.filename + ":"@ + decimal(location.lineno as nat)
}

impl SourceLocation {
    /// The place as a text.
    pub fn to_string(&self) -> (r: String)
        ensures
            r@ == location_text(self@),
    {
        let mut r = self.filename.clone();
        r.append(":");
        append_decimal(&mut r, self.lineno);
        r
    }
}

/// A token as a text.
pub open spec fn token_text(token: TokenView) -> Seq<char> {
    match token {
        TokenView::HASH => "#"@,
        TokenView::COLON => ":"@,
        TokenView::DOLLAR => "$"@,
        TokenView::AT => "@"@,
        TokenView::COMMA => ","@,
        TokenView::EQ => "="@,
        TokenView::UNDERSCORE => "_"@,
        TokenView::LPAREN => "("@,
        TokenView::RPAREN => ")"@,
        TokenView::LBRACKET => "["@,
        TokenView::RBRACKET => "]"@,
        TokenView::MNEMONIC(mnem) => mnem.name(),
        TokenView::IDENT(name) => name,
        TokenView::INTEGER(i) => decimal(i as nat),
        TokenView::CHAR(c) => seq![c as char],
        TokenView::PATH(path) => path,
        TokenView::EOF => "EOF"@,
        TokenView::PLACEHOLDER => "PLACEHOLDER"@,
    }
}

impl Token {
    /// The token as a text.
    pub fn to_string(&self) -> (r: String)
        ensures
            r@ == token_text(self@),
    {
        match self {
            Token::HASH => text("#"),
            Token::COLON => text(":"),
            Token::DOLLAR => text("$"),
            Token::AT => text("@"),
            Token::COMMA => text(","),
            Token::EQ => text("="),
            Token::UNDERSCORE => text("_"),
            Token::LPAREN => text("("),
            Token::RPAREN => text(")"),
            Token::LBRACKET => text("["),
            Token::RBRACKET => text("]"),
            Token::MNEMONIC(mnem) => text(mnem.as_str()),
            Token::IDENT(name) => name.clone(),
            Token::INTEGER(i) => crate::text::to_decimal(*i as usize),
            Token::CHAR(c) => {
                let mut r = String::new();
                push_char(&mut r, *c as char);
                assert(r@ =~= seq![*c as char]);
                r
            },
            Token::PATH(path) => path.clone(),
            Token::EOF => text("EOF"),
            Token::PLACEHOLDER => text("PLACEHOLDER"),
        }
    }
}

} // verus!
