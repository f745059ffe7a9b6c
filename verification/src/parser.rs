//! The parser: from tokens to a program.
//!
//! A recursive descent parser for the statements
//! `#import <path>`, `name:`, `$name = value`, `MNEMONIC arg...` and
//! `@name(arg, ...)`, with the arguments `7`, `[7]`, `[_]`, `$name`, `:name`
//! and `'c'`.
use vstd::prelude::*;
use crate::ast::{
    Argument, ArgumentNode, ArgumentNodeView, ArgumentView, IPath, Ident, MacroArgument,
    MacroArgumentNode, MacroArgumentNodeView, MacroArgumentView, Mnemonic, Program, Statement,
    StatementNode, StatementNodeView, StatementView,
};
use crate::lexer::{
    FileLexer, Lexer, LocationView, SourceLocation, Stream, Token, TokenView,
};
use crate::util::{diagnostic, problem_at, rcstr, Diagnostic, DiagnosticView, Problem, ProblemView};

verus! {

// --- The state of the parser ---------------------------------------------------

/// The mathematical content of a [`Parser`]: the token at hand, the tokens
/// that were looked ahead at, and what the lexer has yet to hand out.
pub struct ParserView {
    /// The place of the statement or argument that is being parsed.
    pub location: LocationView,
    /// The token at hand.
    pub token: TokenView,
    /// The tokens behind the token at hand that the lexer handed out
    /// already.
    pub buffer: Seq<TokenView>,
    /// The place that the lexer reports.
    pub place: LocationView,
    /// What the lexer will hand out.
    pub stream: Stream,
}

/// What the lexer hands out next: the token, its place, and the stream
/// behind it.
pub open spec fn pulled(stream: Stream) -> Result<(TokenView, LocationView, Stream), DiagnosticView> {
    if stream.tokens.len() > 0 {
        Ok(
            (
                stream.tokens[0].0,
                stream.tokens[0].1,
                Stream { tokens: stream.tokens.drop_first(), end: stream.end },
            ),
        )
    } else {
        match stream.end {
            Ok(last) => Ok((TokenView::EOF, last, stream)),
            Err(d) => Err(d),
        }
    }
}

/// The parser with one more token looked ahead at.
pub open spec fn buffered(p: ParserView) -> Result<ParserView, DiagnosticView> {
    match pulled(p.stream) {
        Ok((token, place, stream)) => Ok(
            ParserView {
                location: p.location,
                token: p.token,
                buffer: p.buffer.push(token),
                place,
                stream,
            },
        ),
        Err(d) => Err(d),
    }
}

/// The parser with the next token at hand.
pub open spec fn bumped(p: ParserView) -> Result<ParserView, DiagnosticView> {
    if p.buffer.len() > 0 {
        Ok(
            ParserView {
                location: p.location,
                token: p.buffer[0],
                buffer: p.buffer.drop_first(),
                place: p.place,
                stream: p.stream,
            },
        )
    } else {
        match pulled(p.stream) {
            Ok((token, place, stream)) => Ok(
                ParserView { location: p.location, token, buffer: p.buffer, place, stream },
            ),
            Err(d) => Err(d),
        }
    }
}

/// The parser with at least `distance` tokens looked ahead at.
pub open spec fn looked_ahead(p: ParserView, distance: nat) -> Result<ParserView, DiagnosticView>
    decreases distance - p.buffer.len(),
{
    if p.buffer.len() >= distance {
        Ok(p)
    } else {
        match buffered(p) {
            Ok(next) => looked_ahead(next, distance),
            Err(d) => Err(d),
        }
    }
}

/// The parser at the place that the lexer reports.
pub open spec fn relocated(p: ParserView) -> ParserView {
    ParserView {
        location: p.place,
        token: p.token,
        buffer: p.buffer,
        place: p.place,
        stream: p.stream,
    }
}

/// The error for a token that cannot stand where it stands.
pub open spec fn unexpected(p: ParserView, rule: Seq<char>) -> DiagnosticView {
    problem_at(ProblemView::UnexpectedToken { token: p.token, rule }, p.location)
}

/// The parser behind the token `wanted`, which has to be at hand.
pub open spec fn expected(p: ParserView, wanted: TokenView) -> Result<ParserView, DiagnosticView> {
    if p.token == wanted {
        bumped(p)
    } else {
        Err(problem_at(ProblemView::ExpectedToken { wanted, token: p.token }, p.location))
    }
}

/// Whether the token at hand begins an argument. A `$` does unless `=`
/// stands two tokens behind it: then it begins the definition of a constant.
pub open spec fn begins_argument(p: ParserView) -> Result<(bool, ParserView), DiagnosticView> {
    match p.token {
        TokenView::INTEGER(_) | TokenView::CHAR(_) | TokenView::LBRACKET | TokenView::COLON => Ok(
            (true, p),
        ),
        TokenView::DOLLAR => match looked_ahead(p, 2) {
            Ok(next) => Ok((next.buffer[1] != TokenView::EQ, next)),
            Err(d) => Err(d),
        },
        _ => Ok((false, p)),
    }
}

// --- How much is left ----------------------------------------------------------

/// The weight of a token: one, unless the token is `EOF`.
pub open spec fn token_weight(token: TokenView) -> nat {
    if token == TokenView::EOF {
        0
    } else {
        1
    }
}

/// The number of tokens of a list that are not `EOF`.
pub open spec fn weight_of(tokens: Seq<TokenView>) -> nat
    decreases tokens.len(),
{
    if tokens.len() == 0 {
        0
    } else {
        weight_of(tokens.drop_last()) + token_weight(tokens.last())
    }
}

/// The number of tokens of a stream that are not `EOF`.
pub open spec fn stream_weight(stream: Stream) -> nat {
    weight_of(crate::lexer::token_views(stream.tokens))
}

/// The number of tokens, from the one at hand on, that are not `EOF`.
pub open spec fn weight(p: ParserView) -> nat {
    token_weight(p.token) + weight_of(p.buffer) + stream_weight(p.stream)
}

/// The weight of a list is that of its first token and of the rest.
pub proof fn lemma_weight_first(tokens: Seq<TokenView>)
    requires
        tokens.len() > 0,
    ensures
        weight_of(tokens) == token_weight(tokens[0]) + weight_of(tokens.drop_first()),
    decreases tokens.len(),
{
    if tokens.len() == 1 {
        assert(tokens.drop_last() =~= Seq::<TokenView>::empty());
        assert(tokens.drop_first() =~= Seq::<TokenView>::empty());
    } else {
        lemma_weight_first(tokens.drop_last());
        assert(tokens.drop_last().drop_first() =~= tokens.drop_first().drop_last());
        assert(tokens.drop_last()[0] == tokens[0]);
    }
}

/// Handing out a token takes its weight from the stream.
pub proof fn lemma_pulled_weight(stream: Stream)
    ensures
        pulled(stream) matches Ok(found) ==> stream_weight(stream) == token_weight(found.0)
            + stream_weight(found.2),
{
    let views = crate::lexer::token_views(stream.tokens);
    if stream.tokens.len() > 0 {
        lemma_weight_first(views);
        assert(views.drop_first() =~= crate::lexer::token_views(stream.tokens.drop_first()));
    }
}

/// Looking ahead at one more token leaves the weight as it is.
pub proof fn lemma_buffered_weight(p: ParserView)
    ensures
        buffered(p) matches Ok(next) ==> weight(next) == weight(p) && next.token == p.token
            && next.location == p.location && next.buffer.len() == p.buffer.len() + 1,
{
    lemma_pulled_weight(p.stream);
    if let Ok(next) = buffered(p) {
        assert(next.buffer.drop_last() =~= p.buffer);
    }
}

/// Looking ahead leaves the weight, the token at hand and the location as
/// they are.
pub proof fn lemma_looked_ahead_weight(p: ParserView, distance: nat)
    ensures
        looked_ahead(p, distance) matches Ok(next) ==> weight(next) == weight(p) && next.token
            == p.token && next.location == p.location && next.buffer.len() >= distance,
    decreases distance - p.buffer.len(),
{
    if p.buffer.len() < distance {
        lemma_buffered_weight(p);
        if let Ok(next) = buffered(p) {
            lemma_looked_ahead_weight(next, distance);
        }
    }
}

/// Moving on takes the weight of the token at hand away.
pub proof fn lemma_bumped_weight(p: ParserView)
    ensures
        bumped(p) matches Ok(next) ==> weight(p) == token_weight(p.token) + weight(next)
            && next.location == p.location,
{
    if p.buffer.len() > 0 {
        lemma_weight_first(p.buffer);
    } else {
        lemma_pulled_weight(p.stream);
        assert(p.buffer =~= Seq::<TokenView>::empty());
    }
}

// --- The grammar ---------------------------------------------------------------

/// A name, which has to be at hand.
pub open spec fn parsed_ident(p: ParserView) -> Result<(Seq<char>, ParserView), DiagnosticView> {
    match p.token {
        TokenView::IDENT(name) => match bumped(p) {
            Ok(next) => Ok((name, next)),
            Err(d) => Err(d),
        },
        _ => Err(unexpected(p, "a identifier"@)),
    }
}

/// A path, which has to be at hand.
pub open spec fn parsed_path(p: ParserView) -> Result<(Seq<char>, ParserView), DiagnosticView> {
    match p.token {
        TokenView::PATH(path) => match bumped(p) {
            Ok(next) => Ok((path, next)),
            Err(d) => Err(d),
        },
        _ => Err(unexpected(p, "a path"@)),
    }
}

/// The address of `[7]`, or nothing for `[_]`.
pub open spec fn parsed_address(p: ParserView) -> Result<(Option<u8>, ParserView), DiagnosticView> {
    match expected(p, TokenView::LBRACKET) {
        Err(d) => Err(d),
        Ok(inside) => {
            let value = match inside.token {
                TokenView::INTEGER(i) => Some(Some(i)),
                TokenView::UNDERSCORE => Some(None),
                _ => None,
            };
            match value {
                None => Err(unexpected(inside, "an address"@)),
                Some(address) => match bumped(inside) {
                    Err(d) => Err(d),
                    Ok(closing) => match expected(closing, TokenView::RBRACKET) {
                        Err(d) => Err(d),
                        Ok(next) => Ok((address, next)),
                    },
                },
            }
        },
    }
}

/// The name of `:name`.
pub open spec fn parsed_label(p: ParserView) -> Result<(Seq<char>, ParserView), DiagnosticView> {
    match expected(p, TokenView::COLON) {
        Err(d) => Err(d),
        Ok(next) => parsed_ident(next),
    }
}

/// The name of `$name`.
pub open spec fn parsed_constant(p: ParserView) -> Result<(Seq<char>, ParserView), DiagnosticView> {
    match expected(p, TokenView::DOLLAR) {
        Err(d) => Err(d),
        Ok(next) => parsed_ident(next),
    }
}

/// An argument: `7`, `'c'`, `[7]`, `[_]`, `$name` or `:name`. Its place is
/// the place that the lexer reports when the argument begins.
pub open spec fn parsed_argument(p: ParserView) -> Result<
    (ArgumentNodeView, ParserView),
    DiagnosticView,
> {
    let start = relocated(p);
    let value: Result<(ArgumentView, ParserView), DiagnosticView> = match start.token {
        TokenView::INTEGER(i) => match bumped(start) {
            Ok(next) => Ok((ArgumentView::Literal(i), next)),
            Err(d) => Err(d),
        },
        TokenView::CHAR(c) => match bumped(start) {
            Ok(next) => Ok((ArgumentView::Char(c), next)),
            Err(d) => Err(d),
        },
        TokenView::LBRACKET => match parsed_address(start) {
            Ok((address, next)) => Ok((ArgumentView::Address(address), next)),
            Err(d) => Err(d),
        },
        TokenView::DOLLAR => match parsed_constant(start) {
            Ok((name, next)) => Ok((ArgumentView::Const(name), next)),
            Err(d) => Err(d),
        },
        TokenView::COLON => match parsed_label(start) {
            Ok((name, next)) => Ok((ArgumentView::Label(name), next)),
            Err(d) => Err(d),
        },
        _ => Err(unexpected(start, "an argument"@)),
    };
    match value {
        Ok((value, next)) => Ok((ArgumentNodeView { value, location: start.location }, next)),
        Err(d) => Err(d),
    }
}

/// An argument of a macro: an argument, or a bare name.
pub open spec fn parsed_macro_argument(p: ParserView) -> Result<
    (MacroArgumentNodeView, ParserView),
    DiagnosticView,
> {
    let start = relocated(p);
    match begins_argument(start) {
        Err(d) => Err(d),
        Ok((true, inner)) => match parsed_argument(inner) {
            Ok((arg, next)) => Ok(
                (
                    MacroArgumentNodeView {
                        value: MacroArgumentView::Argument(arg),
                        location: start.location,
                    },
                    next,
                ),
            ),
            Err(d) => Err(d),
        },
        Ok((false, inner)) => match parsed_ident(inner) {
            Ok((name, next)) => Ok(
                (
                    MacroArgumentNodeView {
                        value: MacroArgumentView::Ident(name),
                        location: start.location,
                    },
                    next,
                ),
            ),
            Err(d) => Err(d),
        },
    }
}

/// `#import <path>`.
pub open spec fn parsed_include(p: ParserView) -> Result<
    (StatementNodeView, ParserView),
    DiagnosticView,
> {
    let start = relocated(p);
    match bumped(start) {
        Err(d) => Err(d),
        Ok(keyword) => match expected(keyword, TokenView::IDENT("import"@)) {
            Err(d) => Err(d),
            Ok(target) => match parsed_path(target) {
                Err(d) => Err(d),
                Ok((path, next)) => Ok(
                    (
                        StatementNodeView {
                            value: StatementView::Include(path),
                            location: start.location,
                        },
                        next,
                    ),
                ),
            },
        },
    }
}

/// `name:`.
pub open spec fn parsed_label_def(p: ParserView) -> Result<
    (StatementNodeView, ParserView),
    DiagnosticView,
> {
    let start = relocated(p);
    match parsed_ident(start) {
        Err(d) => Err(d),
        Ok((name, colon)) => match expected(colon, TokenView::COLON) {
            Err(d) => Err(d),
            Ok(next) => Ok(
                (
                    StatementNodeView { value: StatementView::Label(name), location: start.location },
                    next,
                ),
            ),
        },
    }
}

/// `$name = value`.
pub open spec fn parsed_constant_def(p: ParserView) -> Result<
    (StatementNodeView, ParserView),
    DiagnosticView,
> {
    let start = relocated(p);
    match parsed_constant(start) {
        Err(d) => Err(d),
        Ok((name, equals)) => match expected(equals, TokenView::EQ) {
            Err(d) => Err(d),
            Ok(value) => match parsed_argument(value) {
                Err(d) => Err(d),
                Ok((value, next)) => Ok(
                    (
                        StatementNodeView {
                            value: StatementView::Const(name, value),
                            location: start.location,
                        },
                        next,
                    ),
                ),
            },
        },
    }
}

/// Looking for the beginning of an argument leaves the weight and the
/// location as they are.
pub proof fn lemma_begins_argument(p: ParserView)
    ensures
        begins_argument(p) matches Ok(found) ==> weight(found.1) == weight(p) && found.1.token
            == p.token && found.1.location == p.location && (found.0 ==> p.token
            != TokenView::EOF),
{
    lemma_looked_ahead_weight(p, 2);
}

/// What was parsed took at least one token.
pub proof fn lemma_parsed_ident(p: ParserView)
    ensures
        parsed_ident(p) matches Ok(found) ==> weight(found.1) < weight(p),
        parsed_path(p) matches Ok(found) ==> weight(found.1) < weight(p),
{
    lemma_bumped_weight(p);
}

/// Behind an expected token the weight is less, unless the token is `EOF`.
pub proof fn lemma_expected(p: ParserView, wanted: TokenView)
    ensures
        expected(p, wanted) matches Ok(next) ==> weight(next) + token_weight(wanted) == weight(p)
            && next.location == p.location,
{
    lemma_bumped_weight(p);
}

/// What was parsed took at least one token.
pub proof fn lemma_parsed_argument(p: ParserView)
    ensures
        parsed_argument(p) matches Ok(found) ==> weight(found.1) < weight(p),
{
    let start = relocated(p);
    lemma_bumped_weight(start);
    lemma_expected(start, TokenView::LBRACKET);
    lemma_expected(start, TokenView::DOLLAR);
    lemma_expected(start, TokenView::COLON);
    if let Ok(inside) = expected(start, TokenView::LBRACKET) {
        lemma_bumped_weight(inside);
        if let Ok(closing) = bumped(inside) {
            lemma_expected(closing, TokenView::RBRACKET);
        }
    }
    if let Ok(name) = expected(start, TokenView::DOLLAR) {
        lemma_parsed_ident(name);
    }
    if let Ok(name) = expected(start, TokenView::COLON) {
        lemma_parsed_ident(name);
    }
}

/// What was parsed took at least one token.
pub proof fn lemma_parsed_macro_argument(p: ParserView)
    ensures
        parsed_macro_argument(p) matches Ok(found) ==> weight(found.1) < weight(p),
{
    let start = relocated(p);
    lemma_begins_argument(start);
    if let Ok((_, inner)) = begins_argument(start) {
        lemma_parsed_argument(inner);
        lemma_parsed_ident(inner);
    }
}

/// The arguments of an operation: as many as there are, added to `found`.
pub open spec fn parsed_arguments(p: ParserView, found: Seq<ArgumentNodeView>) -> Result<
    (Seq<ArgumentNodeView>, ParserView),
    DiagnosticView,
>
    decreases weight(p),
{
    match begins_argument(p) {
        Err(d) => Err(d),
        Ok((false, next)) => Ok((found, next)),
        Ok((true, inner)) => match parsed_argument(inner) {
            Err(d) => Err(d),
            Ok((arg, next)) => {
                proof {
                    lemma_begins_argument(p);
                    lemma_parsed_argument(inner);
                }
                parsed_arguments(next, found.push(arg))
            },
        },
    }
}

/// The arguments of a macro, separated by commas: at least one, added to
/// `found`.
pub open spec fn parsed_macro_arguments(p: ParserView, found: Seq<MacroArgumentNodeView>) -> Result<
    (Seq<MacroArgumentNodeView>, ParserView),
    DiagnosticView,
>
    decreases weight(p),
{
    match parsed_macro_argument(p) {
        Err(d) => Err(d),
        Ok((arg, comma)) => if comma.token == TokenView::COMMA {
            match bumped(comma) {
                Err(d) => Err(d),
                Ok(next) => {
                    proof {
                        lemma_parsed_macro_argument(p);
                        lemma_bumped_weight(comma);
                    }
                    parsed_macro_arguments(next, found.push(arg))
                },
            }
        } else {
            Ok((found.push(arg), comma))
        },
    }
}

/// `MNEMONIC arg...`.
pub open spec fn parsed_operation(p: ParserView) -> Result<
    (StatementNodeView, ParserView),
    DiagnosticView,
> {
    let start = relocated(p);
    match start.token {
        TokenView::MNEMONIC(mnem) => match bumped(start) {
            Err(d) => Err(d),
            Ok(first) => match parsed_arguments(first, Seq::empty()) {
                Err(d) => Err(d),
                Ok((args, next)) => Ok(
                    (
                        StatementNodeView {
                            value: StatementView::Operation(mnem, args),
                            location: start.location,
                        },
                        next,
                    ),
                ),
            },
        },
        _ => Err(unexpected(start, "a mnemonic"@)),
    }
}

/// `@name(arg, ...)`.
pub open spec fn parsed_macro(p: ParserView) -> Result<
    (StatementNodeView, ParserView),
    DiagnosticView,
> {
    let start = relocated(p);
    match expected(start, TokenView::AT) {
        Err(d) => Err(d),
        Ok(name) => match parsed_ident(name) {
            Err(d) => Err(d),
            Ok((name, opening)) => match expected(opening, TokenView::LPAREN) {
                Err(d) => Err(d),
                Ok(first) => {
                    let args = if first.token != TokenView::RPAREN {
                        parsed_macro_arguments(first, Seq::empty())
                    } else {
                        Ok((Seq::empty(), first))
                    };
                    match args {
                        Err(d) => Err(d),
                        Ok((args, closing)) => match expected(closing, TokenView::RPAREN) {
                            Err(d) => Err(d),
                            Ok(next) => Ok(
                                (
                                    StatementNodeView {
                                        value: StatementView::Macro(name, args),
                                        location: start.location,
                                    },
                                    next,
                                ),
                            ),
                        },
                    }
                },
            },
        },
    }
}

/// A statement.
pub open spec fn parsed_statement(p: ParserView) -> Result<
    (StatementNodeView, ParserView),
    DiagnosticView,
> {
    match p.token {
        TokenView::HASH => parsed_include(p),
        TokenView::DOLLAR => parsed_constant_def(p),
        TokenView::IDENT(_) => parsed_label_def(p),
        TokenView::MNEMONIC(_) => parsed_operation(p),
        TokenView::AT => parsed_macro(p),
        _ => Err(unexpected(p, "a statement"@)),
    }
}

/// The arguments that were parsed took no weight back.
pub proof fn lemma_parsed_arguments(p: ParserView, found: Seq<ArgumentNodeView>)
    ensures
        parsed_arguments(p, found) matches Ok(end) ==> weight(end.1) <= weight(p),
    decreases weight(p),
{
    lemma_begins_argument(p);
    if let Ok((true, inner)) = begins_argument(p) {
        lemma_parsed_argument(inner);
        if let Ok((arg, next)) = parsed_argument(inner) {
            lemma_parsed_arguments(next, found.push(arg));
        }
    }
}

/// The macro arguments that were parsed took at least one token.
pub proof fn lemma_parsed_macro_arguments(p: ParserView, found: Seq<MacroArgumentNodeView>)
    ensures
        parsed_macro_arguments(p, found) matches Ok(end) ==> weight(end.1) < weight(p),
    decreases weight(p),
{
    lemma_parsed_macro_argument(p);
    if let Ok((arg, comma)) = parsed_macro_argument(p) {
        if comma.token == TokenView::COMMA {
            lemma_bumped_weight(comma);
            if let Ok(next) = bumped(comma) {
                lemma_parsed_macro_arguments(next, found.push(arg));
            }
        }
    }
}

/// A statement that was parsed took at least one token.
pub proof fn lemma_parsed_statement(p: ParserView)
    ensures
        parsed_statement(p) matches Ok(found) ==> weight(found.1) < weight(p),
{
    let start = relocated(p);
    lemma_bumped_weight(start);
    lemma_parsed_ident(start);
    lemma_expected(start, TokenView::DOLLAR);
    lemma_expected(start, TokenView::AT);
    match p.token {
        TokenView::HASH => {
            if let Ok(keyword) = bumped(start) {
                lemma_expected(keyword, TokenView::IDENT("import"@));
                if let Ok(target) = expected(keyword, TokenView::IDENT("import"@)) {
                    lemma_parsed_ident(target);
                }
            }
        },
        TokenView::DOLLAR => {
            if let Ok(name) = expected(start, TokenView::DOLLAR) {
                lemma_parsed_ident(name);
                if let Ok((_, equals)) = parsed_ident(name) {
                    lemma_expected(equals, TokenView::EQ);
                    if let Ok(value) = expected(equals, TokenView::EQ) {
                        lemma_parsed_argument(value);
                    }
                }
            }
        },
        TokenView::IDENT(_) => {
            if let Ok((_, colon)) = parsed_ident(start) {
                lemma_expected(colon, TokenView::COLON);
            }
        },
        TokenView::MNEMONIC(_) => {
            if let Ok(first) = bumped(start) {
                lemma_parsed_arguments(first, Seq::empty());
            }
        },
        TokenView::AT => {
            if let Ok(name) = expected(start, TokenView::AT) {
                lemma_parsed_ident(name);
                if let Ok((_, opening)) = parsed_ident(name) {
                    lemma_expected(opening, TokenView::LPAREN);
                    if let Ok(first) = expected(opening, TokenView::LPAREN) {
                        if first.token != TokenView::RPAREN {
                            lemma_parsed_macro_arguments(first, Seq::empty());
                            if let Ok((_, closing)) = parsed_macro_arguments(first, Seq::empty()) {
                                lemma_expected(closing, TokenView::RPAREN);
                            }
                        } else {
                            lemma_expected(first, TokenView::RPAREN);
                        }
                    }
                }
            }
        },
        _ => {},
    }
}

/// The statements up to `EOF`, added to `found`.
pub open spec fn parsed_program(p: ParserView, found: Seq<StatementNodeView>) -> Result<
    (Seq<StatementNodeView>, ParserView),
    DiagnosticView,
>
    decreases weight(p),
{
    if p.token == TokenView::EOF {
        Ok((found, p))
    } else {
        match parsed_statement(p) {
            Err(d) => Err(d),
            Ok((stmt, next)) => {
                proof {
                    lemma_parsed_statement(p);
                }
                parsed_program(next, found.push(stmt))
            },
        }
    }
}

// --- The parser ----------------------------------------------------------------

/// A parser over a lexer.
pub struct Parser<L: Lexer> {
    pub location: SourceLocation,
    pub token: Token,
    pub buffer: Vec<Token>,
    pub lexer: L,
}

impl<L: Lexer> View for Parser<L> {
    type V = ParserView;

    open spec fn view(&self) -> ParserView {
        ParserView {
            location: self.location@,
            token: self.token@,
            buffer: self.buffer.deep_view(),
            place: self.lexer.place(),
            stream: self.lexer.stream(),
        }
    }
}

/// The parser at the beginning of a stream: the first token is at hand.
pub open spec fn started(stream: Stream) -> Result<ParserView, DiagnosticView> {
    match pulled(stream) {
        Ok((token, place, stream)) => Ok(
            ParserView { location: place, token, buffer: Seq::empty(), place, stream },
        ),
        Err(d) => Err(d),
    }
}

impl Parser<FileLexer> {
    /// A parser for the text of a file.
    pub fn new(source: &str, file: &str) -> (r: Result<Parser<FileLexer>, Diagnostic>)
        ensures
            match r {
                Ok(parser) => parser.wf() && started(
                    crate::lexer::stream_from(source@, file@, 0, 1),
                ) == Ok::<_, DiagnosticView>(parser@),
                Err(d) => started(crate::lexer::stream_from(source@, file@, 0, 1)) matches Err(e)
                    && e == d@,
            },
    {
        Parser::with_lexer(FileLexer::new(source, file))
    }
}

impl<L: Lexer> Parser<L> {
    /// The lexer is in a state that its methods can work on.
    pub open spec fn wf(&self) -> bool {
        self.lexer.wf()
    }

    /// A parser over a lexer. The first token is handed out at once.
    pub fn with_lexer(lx: L) -> (r: Result<Parser<L>, Diagnostic>)
        requires
            lx.wf(),
        ensures
            match r {
                Ok(parser) => parser.wf() && started(lx.stream()) == Ok::<_, DiagnosticView>(
                    parser@,
                ),
                Err(d) => started(lx.stream()) matches Err(e) && e == d@,
            },
    {
        let mut lx = lx;
        let token = match lx.next_token() {
            Ok(token) => token,
            Err(d) => {
                return Err(d);
            },
        };
        let location = lx.get_source();
        let parser = Parser { token, location, buffer: Vec::new(), lexer: lx };
        assert(parser@.buffer =~= Seq::empty());
        Ok(parser)
    }

    /// Parses the statements up to the end of the source.
    pub fn parse(&mut self) -> (r: Result<Program, Diagnostic>)
        requires
            old(self).wf(),
        ensures
            final(self).wf(),
            match r {
                Ok(x) => parsed_program(old(self)@, Seq::empty()) == Ok::<_, DiagnosticView>(
                    (x.deep_view(), final(self)@),
                ),
                Err(d) => parsed_program(old(self)@, Seq::empty()) matches Err(e) && e == d@,
            },
    {
        let mut source: Vec<StatementNode> = Vec::new();
        assert(source.deep_view() =~= Seq::empty());
        while !self.token.same(&Token::EOF)
            invariant
                self.wf(),
                parsed_program(self@, source.deep_view()) == parsed_program(
                    old(self)@,
                    Seq::empty(),
                ),
            decreases weight(self@),
        {
            proof {
                lemma_parsed_statement(self@);
            }
            let ghost before = source.deep_view();
            match self.parse_statement() {
                Ok(stmt) => {
                    source.push(stmt);
                    assert(source.deep_view() =~= before.push(source@[source@.len() - 1]@));
                },
                Err(d) => {
                    return Err(d);
                },
            }
        }
        Ok(source)
    }

    // --- Errors ------------------------------------------------------------

    /// A diagnostic at the place of what is being parsed.
    fn fatal(&self, problem: Problem) -> (r: Diagnostic)
        ensures
            r@ == problem_at(problem@, self@.location),
    {
        diagnostic(problem, &self.location)
    }

    /// The error for the token at hand, which cannot stand where it stands.
    fn unexpected_token(&self, rule: &str) -> (r: Diagnostic)
        ensures
            r@ == unexpected(self@, rule@),
    {
        self.fatal(Problem::UnexpectedToken { token: self.token.clone(), rule: rcstr(rule) })
    }

    // --- Tokens ------------------------------------------------------------

    /// Takes the place that the lexer reports as the place of what is
    /// parsed next.
    fn update_location(&mut self) -> (r: SourceLocation)
        requires
            old(self).wf(),
        ensures
            final(self).wf(),
            final(self)@ == relocated(old(self)@),
            r@ == final(self)@.location,
    {
        self.location = self.lexer.get_source();
        self.location.clone()
    }

    /// Moves on to the next token.
    fn bump(&mut self) -> (r: Result<(), Diagnostic>)
        requires
            old(self).wf(),
        ensures
            final(self).wf(),
            match r {
                Ok(()) => bumped(old(self)@) == Ok::<_, DiagnosticView>(final(self)@),
                Err(d) => bumped(old(self)@) matches Err(e) && e == d@,
            },
    {
        if self.buffer.len() > 0 {
            self.token = self.buffer.remove(0);
            assert(self.buffer.deep_view() =~= old(self).buffer.deep_view().drop_first());
            Ok(())
        } else {
            assert(self.buffer.deep_view() =~= Seq::empty());
            match self.lexer.next_token() {
                Ok(token) => {
                    self.token = token;
                    Ok(())
                },
                Err(d) => Err(d),
            }
        }
    }

    /// Moves on if the token at hand is the given one, and says whether it
    /// was.
    fn eat(&mut self, tok: &Token) -> (r: Result<bool, Diagnostic>)
        requires
            old(self).wf(),
        ensures
            final(self).wf(),
            match r {
                Ok(eaten) => eaten == (old(self)@.token == tok@) && if eaten {
                    bumped(old(self)@) == Ok::<_, DiagnosticView>(final(self)@)
                } else {
                    final(self)@ == old(self)@
                },
                Err(d) => old(self)@.token == tok@ && bumped(old(self)@) == Err::<ParserView, _>(
                    d@,
                ),
            },
    {
        if self.token.same(tok) {
            match self.bump() {
                Ok(()) => Ok(true),
                Err(d) => Err(d),
            }
        } else {
            Ok(false)
        }
    }

    /// Moves on behind the given token, which has to be at hand.
    fn expect(&mut self, tok: &Token) -> (r: Result<(), Diagnostic>)
        requires
            old(self).wf(),
        ensures
            final(self).wf(),
            match r {
                Ok(()) => expected(old(self)@, tok@) == Ok::<_, DiagnosticView>(final(self)@),
                Err(d) => expected(old(self)@, tok@) matches Err(e) && e == d@,
            },
    {
        match self.eat(tok) {
            Ok(true) => Ok(()),
            Ok(false) => Err(
                self.fatal(
                    Problem::ExpectedToken { wanted: tok.clone(), token: self.token.clone() },
                ),
            ),
            Err(d) => Err(d),
        }
    }

    /// Looks at the token that stands `distance` tokens behind the one at
    /// hand.
    pub fn look_ahead(&mut self, distance: usize) -> (r: Result<Token, Diagnostic>)
        requires
            old(self).wf(),
            distance >= 1,
        ensures
            final(self).wf(),
            match r {
                Ok(token) => looked_ahead(old(self)@, distance as nat) == Ok::<_, DiagnosticView>(
                    final(self)@,
                ) && final(self)@.buffer.len() >= distance && token@ == final(self)@.buffer[distance
                    - 1],
                Err(d) => looked_ahead(old(self)@, distance as nat) matches Err(e) && e == d@,
            },
    {
        while self.buffer.len() < distance
            invariant
                self.wf(),
                looked_ahead(self@, distance as nat) == looked_ahead(old(self)@, distance as nat),
            decreases distance - self.buffer.len(),
        {
            let ghost before = self.buffer.deep_view();
            match self.lexer.next_token() {
                Ok(token) => {
                    self.buffer.push(token);
                    assert(self.buffer.deep_view() =~= before.push(
                        self.buffer@[self.buffer@.len() - 1]@,
                    ));
                },
                Err(d) => {
                    return Err(d);
                },
            }
        }
        Ok(self.buffer[distance - 1].clone())
    }

    // --- Parsing -----------------------------------------------------------

    /// Whether the token at hand begins an argument.
    fn token_is_argument(&mut self) -> (r: Result<bool, Diagnostic>)
        requires
            old(self).wf(),
        ensures
            final(self).wf(),
            match r {
                Ok(x) => begins_argument(old(self)@) == Ok::<_, DiagnosticView>((x, final(self)@)),
                Err(d) => begins_argument(old(self)@) matches Err(e) && e == d@,
            },
    {
        match &self.token {
            Token::INTEGER(_) | Token::CHAR(_) | Token::LBRACKET | Token::COLON => Ok(true),
            Token::DOLLAR => match self.look_ahead(2) {
                Ok(token) => Ok(!token.same(&Token::EQ)),
                Err(d) => Err(d),
            },
            _ => Ok(false),
        }
    }

    /// Parses a name.
    fn parse_ident(&mut self) -> (r: Result<Ident, Diagnostic>)
        requires
            old(self).wf(),
        ensures
            final(self).wf(),
            match r {
                Ok(x) => parsed_ident(old(self)@) == Ok::<_, DiagnosticView>((x@, final(self)@)),
                Err(d) => parsed_ident(old(self)@) matches Err(e) && e == d@,
            },
    {
        let ident = match &self.token {
            Token::IDENT(id) => Ident(id.clone()),
            _ => {
                return Err(self.unexpected_token("a identifier"));
            },
        };
        match self.bump() {
            Ok(()) => Ok(ident),
            Err(d) => Err(d),
        }
    }

    /// Parses a path.
    fn parse_path(&mut self) -> (r: Result<IPath, Diagnostic>)
        requires
            old(self).wf(),
        ensures
            final(self).wf(),
            match r {
                Ok(x) => parsed_path(old(self)@) == Ok::<_, DiagnosticView>((x@, final(self)@)),
                Err(d) => parsed_path(old(self)@) matches Err(e) && e == d@,
            },
    {
        let path = match &self.token {
            Token::PATH(p) => IPath(p.clone()),
            _ => {
                return Err(self.unexpected_token("a path"));
            },
        };
        match self.bump() {
            Ok(()) => Ok(path),
            Err(d) => Err(d),
        }
    }

    /// Parses `[7]` or `[_]`.
    fn parse_address(&mut self) -> (r: Result<Option<u8>, Diagnostic>)
        requires
            old(self).wf(),
        ensures
            final(self).wf(),
            match r {
                Ok(x) => parsed_address(old(self)@) == Ok::<_, DiagnosticView>((x, final(self)@)),
                Err(d) => parsed_address(old(self)@) matches Err(e) && e == d@,
            },
    {
        match self.expect(&Token::LBRACKET) {
            Ok(()) => {},
            Err(d) => {
                return Err(d);
            },
        }
        let value = match &self.token {
            Token::INTEGER(i) => Some(*i),
            Token::UNDERSCORE => None,
            _ => {
                return Err(self.unexpected_token("an address"));
            },
        };
        match self.bump() {
            Ok(()) => {},
            Err(d) => {
                return Err(d);
            },
        }
        match self.expect(&Token::RBRACKET) {
            Ok(()) => Ok(value),
            Err(d) => Err(d),
        }
    }

    /// Parses `:name`.
    fn parse_label(&mut self) -> (r: Result<Ident, Diagnostic>)
        requires
            old(self).wf(),
        ensures
            final(self).wf(),
            match r {
                Ok(x) => parsed_label(old(self)@) == Ok::<_, DiagnosticView>((x@, final(self)@)),
                Err(d) => parsed_label(old(self)@) matches Err(e) && e == d@,
            },
    {
        match self.expect(&Token::COLON) {
            Ok(()) => self.parse_ident(),
            Err(d) => Err(d),
        }
    }

    /// Parses `$name`.
    fn parse_constant(&mut self) -> (r: Result<Ident, Diagnostic>)
        requires
            old(self).wf(),
        ensures
            final(self).wf(),
            match r {
                Ok(x) => parsed_constant(old(self)@) == Ok::<_, DiagnosticView>((x@, final(self)@)),
                Err(d) => parsed_constant(old(self)@) matches Err(e) && e == d@,
            },
    {
        match self.expect(&Token::DOLLAR) {
            Ok(()) => self.parse_ident(),
            Err(d) => Err(d),
        }
    }

    /// Parses an argument.
    pub fn parse_argument(&mut self) -> (r: Result<ArgumentNode, Diagnostic>)
        requires
            old(self).wf(),
        ensures
            final(self).wf(),
            match r {
                Ok(x) => parsed_argument(old(self)@) == Ok::<_, DiagnosticView>((x@, final(self)@)),
                Err(d) => parsed_argument(old(self)@) matches Err(e) && e == d@,
            },
    {
        let location = self.update_location();
        let arg = match &self.token {
            Token::INTEGER(i) => {
                let value = *i;
                match self.bump() {
                    Ok(()) => Argument::Literal(value),
                    Err(d) => {
                        return Err(d);
                    },
                }
            },
            Token::CHAR(c) => {
                let value = *c;
                match self.bump() {
                    Ok(()) => Argument::Char(value),
                    Err(d) => {
                        return Err(d);
                    },
                }
            },
            Token::LBRACKET => match self.parse_address() {
                Ok(address) => Argument::Address(address),
                Err(d) => {
                    return Err(d);
                },
            },
            Token::DOLLAR => match self.parse_constant() {
                Ok(name) => Argument::Const(name),
                Err(d) => {
                    return Err(d);
                },
            },
            Token::COLON => match self.parse_label() {
                Ok(name) => Argument::Label(name),
                Err(d) => {
                    return Err(d);
                },
            },
            _ => {
                return Err(self.unexpected_token("an argument"));
            },
        };
        Ok(Argument::new(arg, location))
    }

    /// Parses an argument of a macro.
    pub fn parse_macro_argument(&mut self) -> (r: Result<MacroArgumentNode, Diagnostic>)
        requires
            old(self).wf(),
        ensures
            final(self).wf(),
            match r {
                Ok(x) => parsed_macro_argument(old(self)@) == Ok::<_, DiagnosticView>((x@, final(self)@)),
                Err(d) => parsed_macro_argument(old(self)@) matches Err(e) && e == d@,
            },
    {
        let location = self.update_location();
        let is_argument = match self.token_is_argument() {
            Ok(is_argument) => is_argument,
            Err(d) => {
                return Err(d);
            },
        };
        if is_argument {
            match self.parse_argument() {
                Ok(arg) => Ok(MacroArgument::new(MacroArgument::Argument(arg), location)),
                Err(d) => Err(d),
            }
        } else {
            match self.parse_ident() {
                Ok(name) => Ok(MacroArgument::new(MacroArgument::Ident(name), location)),
                Err(d) => Err(d),
            }
        }
    }

    /// Parses `#import <path>`.
    fn parse_include(&mut self) -> (r: Result<StatementNode, Diagnostic>)
        requires
            old(self).wf(),
        ensures
            final(self).wf(),
            match r {
                Ok(x) => parsed_include(old(self)@) == Ok::<_, DiagnosticView>((x@, final(self)@)),
                Err(d) => parsed_include(old(self)@) matches Err(e) && e == d@,
            },
    {
        let location = self.update_location();
        match self.bump() {
            Ok(()) => {},
            Err(d) => {
                return Err(d);
            },
        }
        match self.expect(&Token::IDENT(rcstr("import"))) {
            Ok(()) => {},
            Err(d) => {
                return Err(d);
            },
        }
        match self.parse_path() {
            Ok(path) => Ok(Statement::new(Statement::Include(path), location)),
            Err(d) => Err(d),
        }
    }

    /// Parses `name:`.
    fn parse_label_def(&mut self) -> (r: Result<StatementNode, Diagnostic>)
        requires
            old(self).wf(),
        ensures
            final(self).wf(),
            match r {
                Ok(x) => parsed_label_def(old(self)@) == Ok::<_, DiagnosticView>((x@, final(self)@)),
                Err(d) => parsed_label_def(old(self)@) matches Err(e) && e == d@,
            },
    {
        let location = self.update_location();
        let label = match self.parse_ident() {
            Ok(label) => label,
            Err(d) => {
                return Err(d);
            },
        };
        match self.expect(&Token::COLON) {
            Ok(()) => Ok(Statement::new(Statement::Label(label), location)),
            Err(d) => Err(d),
        }
    }

    /// Parses `$name = value`.
    fn parse_constant_def(&mut self) -> (r: Result<StatementNode, Diagnostic>)
        requires
            old(self).wf(),
        ensures
            final(self).wf(),
            match r {
                Ok(x) => parsed_constant_def(old(self)@) == Ok::<_, DiagnosticView>((x@, final(self)@)),
                Err(d) => parsed_constant_def(old(self)@) matches Err(e) && e == d@,
            },
    {
        let location = self.update_location();
        let name = match self.parse_constant() {
            Ok(name) => name,
            Err(d) => {
                return Err(d);
            },
        };
        match self.expect(&Token::EQ) {
            Ok(()) => {},
            Err(d) => {
                return Err(d);
            },
        }
        match self.parse_argument() {
            Ok(value) => Ok(Statement::new(Statement::Const(name, value), location)),
            Err(d) => Err(d),
        }
    }

    /// Parses the arguments of an operation.
    fn parse_arguments(&mut self) -> (r: Result<Vec<ArgumentNode>, Diagnostic>)
        requires
            old(self).wf(),
        ensures
            final(self).wf(),
            match r {
                Ok(x) => parsed_arguments(old(self)@, Seq::empty()) == Ok::<_, DiagnosticView>(
                    (x.deep_view(), final(self)@),
                ),
                Err(d) => parsed_arguments(old(self)@, Seq::empty()) matches Err(e) && e == d@,
            },
    {
        let mut args: Vec<ArgumentNode> = Vec::new();
        assert(args.deep_view() =~= Seq::empty());
        loop
            invariant
                self.wf(),
                parsed_arguments(self@, args.deep_view()) == parsed_arguments(
                    old(self)@,
                    Seq::empty(),
                ),
            decreases weight(self@),
        {
            let ghost before = self@;
            proof {
                lemma_begins_argument(before);
            }
            match self.token_is_argument() {
                Ok(true) => {},
                Ok(false) => {
                    return Ok(args);
                },
                Err(d) => {
                    return Err(d);
                },
            }
            proof {
                lemma_parsed_argument(self@);
            }
            let ghost found = args.deep_view();
            match self.parse_argument() {
                Ok(arg) => {
                    args.push(arg);
                    assert(args.deep_view() =~= found.push(args@[args@.len() - 1]@));
                },
                Err(d) => {
                    return Err(d);
                },
            }
        }
    }

    /// Parses `MNEMONIC arg...`.
    fn parse_operation(&mut self) -> (r: Result<StatementNode, Diagnostic>)
        requires
            old(self).wf(),
        ensures
            final(self).wf(),
            match r {
                Ok(x) => parsed_operation(old(self)@) == Ok::<_, DiagnosticView>((x@, final(self)@)),
                Err(d) => parsed_operation(old(self)@) matches Err(e) && e == d@,
            },
    {
        let location = self.update_location();
        let mn = match &self.token {
            Token::MNEMONIC(mn) => Mnemonic(*mn),
            _ => {
                return Err(self.unexpected_token("a mnemonic"));
            },
        };
        match self.bump() {
            Ok(()) => {},
            Err(d) => {
                return Err(d);
            },
        }
        match self.parse_arguments() {
            Ok(args) => Ok(Statement::new(Statement::Operation(mn, args), location)),
            Err(d) => Err(d),
        }
    }

    /// Parses the arguments of a macro, of which there is at least one.
    fn parse_macro_arguments(&mut self) -> (r: Result<Vec<MacroArgumentNode>, Diagnostic>)
        requires
            old(self).wf(),
        ensures
            final(self).wf(),
            match r {
                Ok(x) => parsed_macro_arguments(old(self)@, Seq::empty()) == Ok::<
                    _,
                    DiagnosticView,
                >((x.deep_view(), final(self)@)),
                Err(d) => parsed_macro_arguments(old(self)@, Seq::empty()) matches Err(e) && e
                    == d@,
            },
    {
        let mut args: Vec<MacroArgumentNode> = Vec::new();
        assert(args.deep_view() =~= Seq::empty());
        loop
            invariant
                self.wf(),
                parsed_macro_arguments(self@, args.deep_view()) == parsed_macro_arguments(
                    old(self)@,
                    Seq::empty(),
                ),
            decreases weight(self@),
        {
            proof {
                lemma_parsed_macro_argument(self@);
            }
            let ghost found = args.deep_view();
            match self.parse_macro_argument() {
                Ok(arg) => {
                    args.push(arg);
                    assert(args.deep_view() =~= found.push(args@[args@.len() - 1]@));
                },
                Err(d) => {
                    return Err(d);
                },
            }
            proof {
                lemma_bumped_weight(self@);
            }
            match self.eat(&Token::COMMA) {
                Ok(true) => {},
                Ok(false) => {
                    return Ok(args);
                },
                Err(d) => {
                    return Err(d);
                },
            }
        }
    }

    /// Parses `@name(arg, ...)`.
    fn parse_macro(&mut self) -> (r: Result<StatementNode, Diagnostic>)
        requires
            old(self).wf(),
        ensures
            final(self).wf(),
            match r {
                Ok(x) => parsed_macro(old(self)@) == Ok::<_, DiagnosticView>((x@, final(self)@)),
                Err(d) => parsed_macro(old(self)@) matches Err(e) && e == d@,
            },
    {
        let location = self.update_location();
        match self.expect(&Token::AT) {
            Ok(()) => {},
            Err(d) => {
                return Err(d);
            },
        }
        let name = match self.parse_ident() {
            Ok(name) => name,
            Err(d) => {
                return Err(d);
            },
        };
        match self.expect(&Token::LPAREN) {
            Ok(()) => {},
            Err(d) => {
                return Err(d);
            },
        }
        let args = if !self.token.same(&Token::RPAREN) {
            match self.parse_macro_arguments() {
                Ok(args) => args,
                Err(d) => {
                    return Err(d);
                },
            }
        } else {
            let args: Vec<MacroArgumentNode> = Vec::new();
            assert(args.deep_view() =~= Seq::empty());
            args
        };
        match self.expect(&Token::RPAREN) {
            Ok(()) => Ok(Statement::new(Statement::Macro(name, args), location)),
            Err(d) => Err(d),
        }
    }

    /// Parses a statement.
    pub fn parse_statement(&mut self) -> (r: Result<StatementNode, Diagnostic>)
        requires
            old(self).wf(),
        ensures
            final(self).wf(),
            match r {
                Ok(x) => parsed_statement(old(self)@) == Ok::<_, DiagnosticView>((x@, final(self)@)),
                Err(d) => parsed_statement(old(self)@) matches Err(e) && e == d@,
            },
    {
        match &self.token {
            Token::HASH => self.parse_include(),
            Token::DOLLAR => self.parse_constant_def(),
            Token::IDENT(_) => self.parse_label_def(),
            Token::MNEMONIC(_) => self.parse_operation(),
            Token::AT => self.parse_macro(),
            _ => Err(self.unexpected_token("a statement")),
        }
    }
}

// --- A whole source ------------------------------------------------------------

/// The program that the text of a file spells, or the first error of the
/// lexer or the parser. `file` is the name that the places carry.
pub open spec fn parsed_source(source: Seq<char>, file: Seq<char>) -> Result<
    Seq<StatementNodeView>,
    DiagnosticView,
> {
    match started(crate::lexer::stream_from(source, file, 0, 1)) {
        Err(d) => Err(d),
        Ok(p) => match parsed_program(p, Seq::empty()) {
            Err(d) => Err(d),
            Ok((program, _)) => Ok(program),
        },
    }
}

/// Parses the text of a file.
pub fn parse_source(source: &str, file: &str) -> (r: Result<Program, Diagnostic>)
    ensures
        match r {
            Ok(program) => parsed_source(source@, file@) == Ok::<_, DiagnosticView>(
                program.deep_view(),
            ),
            Err(d) => parsed_source(source@, file@) == Err::<Seq<StatementNodeView>, _>(d@),
        },
{
    let mut parser = match Parser::new(source, file) {
        Ok(parser) => parser,
        Err(d) => {
            return Err(d);
        },
    };
    parser.parse()
}

} // verus!
