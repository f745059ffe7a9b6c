//! Shared strings and the diagnostics that the passes report.
use vstd::prelude::*;
use crate::ast::Ident;
use crate::lexer::{location_text, token_text, LocationView, SourceLocation, Token, TokenView};
use crate::machine::{
    format_shape, format_shapes, shape_text, shapes_text, ArgumentType, Mnemonic,
};
use crate::text::{append_decimal, decimal, push_char, text};

verus! {

/// The string type of names and paths. Only the characters matter.
pub type SharedString = String;

/// Makes a shared string from a string slice.
pub fn rcstr(s: &str) -> (r: SharedString)
    ensures
        r@ == s@,
{
    s.to_owned()
}

/// Makes a shared string from an owned string.
pub fn rcstring(s: String) -> (r: SharedString)
    ensures
        r@ == s@,
{
    s
}

// --- Diagnostics ---------------------------------------------------------------

/// What went wrong, or what a pass warns about.
#[derive(PartialEq, Eq, Debug)]
pub enum Problem {
    /// `@start` was given another number of arguments than two.
    StartArgumentCount(usize),
    /// The first argument of `@start` or `@call` is not a name.
    ExpectedSubroutineName,
    /// The second argument of `@start` is not a literal number.
    ExpectedArgumentCount,
    /// A subroutine of this name was declared before.
    SubroutineRedefinition(Ident),
    /// `@start` inside a subroutine.
    NestedSubroutine,
    /// `@end` was given arguments.
    EndTakesNoArguments,
    /// `@call` without the name of a subroutine.
    CallWithoutName,
    /// `@call` of a subroutine that no `@start` declares.
    UnknownSubroutine(Ident),
    /// `@call` with another number of arguments than the subroutine declares.
    WrongArgumentCount { found: usize, expected: usize },
    /// A bare name where `@call` needs a value.
    ExpectedArgument(Ident),
    /// The program holds more address placeholders than there are addresses.
    OutOfAddresses,
    /// A constant is bound to something else than a literal or an address.
    InvalidConstantValue,
    /// A reference to a constant that is not defined.
    UnknownConstant(Ident),
    /// A constant is defined again; the later definition holds. A warning.
    ConstantRedefinition(Ident),
    /// A reference to a label that is not defined.
    UnknownLabel(Ident),
    /// A reference to a label whose offset does not fit into a byte.
    LabelOverflow { name: Ident, offset: usize },
    /// A label is defined again; the later definition holds. A warning.
    LabelRedefinition(Ident),
    /// An include directive whose file was not inlined.
    UnresolvedInclude,
    /// A file includes the file that was included just before.
    CircularImport(SharedString),
    /// An operand that the passes should have replaced.
    UnprocessedArgument,
    /// A statement that the passes should have replaced.
    UnprocessedStatement,
    /// An address placeholder that was never assigned.
    UnresolvedAddress,
    /// No opcode of the mnemonic takes operands of the given shape.
    InvalidArguments { mnemonic: Mnemonic, shape: Vec<ArgumentType>, allowed: Vec<Vec<ArgumentType>> },
    /// A word of upper-case letters that names no instruction.
    InvalidMnemonic(SharedString),
    /// A number that is no decimal byte.
    InvalidInteger(SharedString),
    /// The source ends inside a character literal.
    UnfinishedChar,
    /// An escape sequence other than `\n` and `\'`.
    InvalidEscape(char),
    /// Another character than the one that is needed; `None` is the end
    /// of the source.
    ExpectedChar { needed: char, actual: Option<char> },
    /// A character that begins no token.
    UnknownToken(char),
    /// A token that cannot stand where it stands; `rule` says what can.
    UnexpectedToken { token: Token, rule: SharedString },
    /// Another token than the one that has to follow.
    ExpectedToken { wanted: Token, token: Token },
}

/// The mathematical content of a [`Problem`].
pub enum ProblemView {
    StartArgumentCount(usize),
    ExpectedSubroutineName,
    ExpectedArgumentCount,
    SubroutineRedefinition(Seq<char>),
    NestedSubroutine,
    EndTakesNoArguments,
    CallWithoutName,
    UnknownSubroutine(Seq<char>),
    WrongArgumentCount { found: usize, expected: usize },
    ExpectedArgument(Seq<char>),
    OutOfAddresses,
    InvalidConstantValue,
    UnknownConstant(Seq<char>),
    ConstantRedefinition(Seq<char>),
    UnknownLabel(Seq<char>),
    LabelOverflow { name: Seq<char>, offset: usize },
    LabelRedefinition(Seq<char>),
    UnresolvedInclude,
    CircularImport(Seq<char>),
    UnprocessedArgument,
    UnprocessedStatement,
    UnresolvedAddress,
    InvalidArguments { mnemonic: Mnemonic, shape: Seq<ArgumentType>, allowed: Seq<Seq<ArgumentType>> },
    InvalidMnemonic(Seq<char>),
    InvalidInteger(Seq<char>),
    UnfinishedChar,
    InvalidEscape(char),
    ExpectedChar { needed: char, actual: Option<char> },
    UnknownToken(char),
    UnexpectedToken { token: TokenView, rule: Seq<char> },
    ExpectedToken { wanted: TokenView, token: TokenView },
}

/// The shapes of a list, each as a sequence.
pub open spec fn shapes_view(shapes: Seq<Vec<ArgumentType>>) -> Seq<Seq<ArgumentType>> {
    Seq::new(shapes.len(), |i: int| shapes[i]@)
}

impl View for Problem {
    type V = ProblemView;

    open spec fn view(&self) -> ProblemView {
        match self {
            Problem::StartArgumentCount(n) => ProblemView::StartArgumentCount(*n),
            Problem::ExpectedSubroutineName => ProblemView::ExpectedSubroutineName,
            Problem::ExpectedArgumentCount => ProblemView::ExpectedArgumentCount,
            Problem::SubroutineRedefinition(name) => ProblemView::SubroutineRedefinition(name@),
            Problem::NestedSubroutine => ProblemView::NestedSubroutine,
            Problem::EndTakesNoArguments => ProblemView::EndTakesNoArguments,
            Problem::CallWithoutName => ProblemView::CallWithoutName,
            Problem::UnknownSubroutine(name) => ProblemView::UnknownSubroutine(name@),
            Problem::WrongArgumentCount { found, expected } => ProblemView::WrongArgumentCount {
                found: *found,
                expected: *expected,
            },
            Problem::ExpectedArgument(name) => ProblemView::ExpectedArgument(name@),
            Problem::OutOfAddresses => ProblemView::OutOfAddresses,
            Problem::InvalidConstantValue => ProblemView::InvalidConstantValue,
            Problem::UnknownConstant(name) => ProblemView::UnknownConstant(name@),
            Problem::ConstantRedefinition(name) => ProblemView::ConstantRedefinition(name@),
            Problem::UnknownLabel(name) => ProblemView::UnknownLabel(name@),
            Problem::LabelOverflow { name, offset } => ProblemView::LabelOverflow {
                name: name@,
                offset: *offset,
            },
            Problem::LabelRedefinition(name) => ProblemView::LabelRedefinition(name@),
            Problem::UnresolvedInclude => ProblemView::UnresolvedInclude,
            Problem::CircularImport(path) => ProblemView::CircularImport(path@),
            Problem::UnprocessedArgument => ProblemView::UnprocessedArgument,
            Problem::UnprocessedStatement => ProblemView::UnprocessedStatement,
            Problem::UnresolvedAddress => ProblemView::UnresolvedAddress,
            Problem::InvalidArguments { mnemonic, shape, allowed } => ProblemView::InvalidArguments {
                mnemonic: *mnemonic,
                shape: shape@,
                allowed: shapes_view(allowed@),
            },
            Problem::InvalidMnemonic(text) => ProblemView::InvalidMnemonic(text@),
            Problem::InvalidInteger(text) => ProblemView::InvalidInteger(text@),
            Problem::UnfinishedChar => ProblemView::UnfinishedChar,
            Problem::InvalidEscape(c) => ProblemView::InvalidEscape(*c),
            Problem::ExpectedChar { needed, actual } => ProblemView::ExpectedChar {
                needed: *needed,
                actual: *actual,
            },
            Problem::UnknownToken(c) => ProblemView::UnknownToken(*c),
            Problem::UnexpectedToken { token, rule } => ProblemView::UnexpectedToken {
                token: token@,
                rule: rule@,
            },
            Problem::ExpectedToken { wanted, token } => ProblemView::ExpectedToken {
                wanted: wanted@,
                token: token@,
            },
        }
    }
}

/// A problem at a place.
pub open spec fn problem_at(problem: ProblemView, location: LocationView) -> DiagnosticView {
    DiagnosticView { problem, location }
}

/// A problem and the place in the source that it concerns.
#[derive(PartialEq, Eq, Debug)]
pub struct Diagnostic {
    pub problem: Problem,
    pub location: SourceLocation,
}

/// The mathematical content of a [`Diagnostic`].
pub struct DiagnosticView {
    pub problem: ProblemView,
    pub location: LocationView,
}

impl View for Diagnostic {
    type V = DiagnosticView;

    open spec fn view(&self) -> DiagnosticView {
        DiagnosticView { problem: self.problem@, location: self.location@ }
    }
}

impl DeepView for Diagnostic {
    type V = DiagnosticView;

    open spec fn deep_view(&self) -> DiagnosticView {
        self@
    }
}

/// A diagnostic for a problem at a place. The place is copied.
pub fn diagnostic(problem: Problem, location: &SourceLocation) -> (r: Diagnostic)
    ensures
        r.problem == problem,
        r.location@ == location@,
{
    Diagnostic { problem, location: location.clone() }
}

// --- Tables of names -----------------------------------------------------------

/// The value that a list of bindings gives a name: that of the last entry
/// that binds the name.
pub open spec fn lookup<T>(entries: Seq<(Seq<char>, T)>, name: Seq<char>) -> Option<T>
    decreases entries.len(),
{
    if entries.len() == 0 {
        None
    } else if entries.last().0 == name {
        Some(entries.last().1)
    } else {
        lookup(entries.drop_last(), name)
    }
}

/// A value that is looked up is the value of an entry.
pub proof fn lemma_lookup_is_entry<T>(entries: Seq<(Seq<char>, T)>, name: Seq<char>)
    ensures
        lookup(entries, name) matches Some(value) ==> exists|i: int|
            0 <= i < entries.len() && (#[trigger] entries[i]) == (name, value),
    decreases entries.len(),
{
    if entries.len() > 0 {
        if entries.last().0 == name {
            assert(entries[entries.len() - 1] == (name, entries.last().1));
        } else {
            lemma_lookup_is_entry(entries.drop_last(), name);
            if let Some(value) = lookup(entries, name) {
                let i = choose|i: int|
                    0 <= i < entries.drop_last().len() && (#[trigger] entries.drop_last()[i]) == (
                        name,
                        value,
                    );
                assert(entries[i] == (name, value));
            }
        }
    }
}

/// A table from names to values. Binding a name again replaces its value.
pub struct Table<V> {
    pub entries: Vec<(Ident, V)>,
}

impl<V: DeepView> Table<V> {
    /// The bindings in the order in which they were made.
    pub open spec fn history(&self) -> Seq<(Seq<char>, V::V)> {
        self.entries.deep_view()
    }

    /// An empty table.
    pub fn new() -> (r: Self)
        ensures
            r.history() == Seq::<(Seq<char>, V::V)>::empty(),
    {
        let r = Table { entries: Vec::new() };
        assert(r.history() =~= Seq::<(Seq<char>, V::V)>::empty());
        r
    }

    /// The number of bindings that were made.
    pub fn len(&self) -> (r: usize)
        ensures
            r == self.history().len(),
    {
        self.entries.len()
    }

    /// The value that a name is bound to.
    pub fn get(&self, name: &Ident) -> (r: Option<&V>)
        ensures
            match r {
                Some(v) => lookup(self.history(), name@) == Some(v.deep_view()),
                None => lookup(self.history(), name@).is_none(),
            },
    {
        let mut i: usize = self.entries.len();
        assert(self.history().take(i as int) =~= self.history());
        while i > 0
            invariant
                i <= self.entries.len(),
                lookup(self.history(), name@) == lookup(self.history().take(i as int), name@),
            decreases i,
        {
            i -= 1;
            assert(self.history().take(i + 1).drop_last() =~= self.history().take(i as int));
            assert(self.history().take(i + 1).last() == self.history()[i as int]);
            if self.entries[i].0.same(name) {
                return Some(&self.entries[i].1);
            }
        }
        None
    }

    /// Binds a name to a value and says whether the name was bound before.
    pub fn insert(&mut self, name: Ident, value: V) -> (r: bool)
        ensures
            final(self).history() == old(self).history().push((name@, value.deep_view())),
            r == lookup(old(self).history(), name@).is_some(),
    {
        let bound = self.get(&name).is_some();
        let ghost entry = (name@, value.deep_view());
        self.entries.push((name, value));
        assert(self.history() =~= old(self).history().push(entry));
        bound
    }
}

// --- Messages ------------------------------------------------------------------

/// A character as a text, or `EOF` for the end of a source.
pub open spec fn optional_char_text(c: Option<char>) -> Seq<char> {
    match c {
        Some(c) => seq![c],
        None => "EOF"@,
    }
}

/// What a problem says.
pub open spec fn message_text(problem: ProblemView) -> Seq<char> {
    match problem {
        ProblemView::StartArgumentCount(n) => "invalid number of arguments for @start: "@ + decimal(n as nat),
        ProblemView::ExpectedSubroutineName => "expected subroutine name"@,
        ProblemView::ExpectedArgumentCount => "expected argument count"@,
        ProblemView::SubroutineRedefinition(name) => "redefinition of subroutine: "@ + name,
        ProblemView::NestedSubroutine => "can't nest subroutines"@,
        ProblemView::EndTakesNoArguments => "@end takes no args"@,
        ProblemView::CallWithoutName => "expected (name, args...), found `)`"@,
        ProblemView::UnknownSubroutine(name) => "unknown subroutine: "@ + name,
        ProblemView::WrongArgumentCount { found, expected } => "wrong argument count: found "@ + decimal(found as nat) + " args, expected "@ + decimal(expected as nat),
        ProblemView::ExpectedArgument(name) => "expected argument, got `"@ + name + "`"@,
        ProblemView::OutOfAddresses => "more address placeholders than addresses"@,
        ProblemView::InvalidConstantValue => "invalid constant value"@,
        ProblemView::UnknownConstant(name) => "unknown constant: $"@ + name,
        ProblemView::ConstantRedefinition(name) => "redefinition of $"@ + name,
        ProblemView::UnknownLabel(name) => "unknown label: "@ + name,
        ProblemView::LabelOverflow { name, offset } => "overflow: label "@ + name + " stands at "@ + decimal(offset as nat) + " > 255"@,
        ProblemView::LabelRedefinition(name) => "redefinition of label: "@ + name,
        ProblemView::UnresolvedInclude => "the included file is not inlined"@,
        ProblemView::CircularImport(path) => "circular import of "@ + path,
        ProblemView::UnprocessedArgument => "unprocessed argument"@,
        ProblemView::UnprocessedStatement => "unprocessed operation"@,
        ProblemView::UnresolvedAddress => "unresolved address"@,
        ProblemView::InvalidArguments { mnemonic, shape, allowed } => "invalid arguments for "@ + mnemonic.name() + ": found "@ + shape_text(shape) + ", allowed: "@ + shapes_text(allowed),
        ProblemView::InvalidMnemonic(word) => "invalid mnemonic: "@ + word,
        ProblemView::InvalidInteger(word) => "invalid integer: "@ + word,
        ProblemView::UnfinishedChar => "expected a char, found EOF"@,
        ProblemView::InvalidEscape(c) => "unsupported or invalid escape sequence: \\"@ + seq![c],
        ProblemView::ExpectedChar { needed, actual } => "Expected `"@ + seq![needed] + "`, found `"@ + optional_char_text(actual) + "`"@,
        ProblemView::UnknownToken(c) => "unknown token: "@ + seq![c],
        ProblemView::UnexpectedToken { token, rule } => "unexpected token: `"@ + token_text(token) + "`, expected "@ + rule,
        ProblemView::ExpectedToken { wanted, token } => "expected `"@ + token_text(wanted) + "`, found `"@ + token_text(token) + "`"@,
    }
}

impl Problem {
    /// What the problem says.
    pub fn message(&self) -> (r: String)
        ensures
            r@ == message_text(self@),
    {
        match self {
            Problem::StartArgumentCount(n) => {
                let mut r = text("invalid number of arguments for @start: ");
                append_decimal(&mut r, *n);
                r
            },
            Problem::ExpectedSubroutineName => {
                let mut r = text("expected subroutine name");
                r
            },
            Problem::ExpectedArgumentCount => {
                let mut r = text("expected argument count");
                r
            },
            Problem::SubroutineRedefinition(name) => {
                let mut r = text("redefinition of subroutine: ");
                r.append(name.0.as_str());
                r
            },
            Problem::NestedSubroutine => {
                let mut r = text("can't nest subroutines");
                r
            },
            Problem::EndTakesNoArguments => {
                let mut r = text("@end takes no args");
                r
            },
            Problem::CallWithoutName => {
                let mut r = text("expected (name, args...), found `)`");
                r
            },
            Problem::UnknownSubroutine(name) => {
                let mut r = text("unknown subroutine: ");
                r.append(name.0.as_str());
                r
            },
            Problem::WrongArgumentCount { found, expected } => {
                let mut r = text("wrong argument count: found ");
                append_decimal(&mut r, *found);
                r.append(" args, expected ");
                append_decimal(&mut r, *expected);
                r
            },
            Problem::ExpectedArgument(name) => {
                let mut r = text("expected argument, got `");
                r.append(name.0.as_str());
                r.append("`");
                r
            },
            Problem::OutOfAddresses => {
                let mut r = text("more address placeholders than addresses");
                r
            },
            Problem::InvalidConstantValue => {
                let mut r = text("invalid constant value");
                r
            },
            Problem::UnknownConstant(name) => {
                let mut r = text("unknown constant: $");
                r.append(name.0.as_str());
                r
            },
            Problem::ConstantRedefinition(name) => {
                let mut r = text("redefinition of $");
                r.append(name.0.as_str());
                r
            },
            Problem::UnknownLabel(name) => {
                let mut r = text("unknown label: ");
                r.append(name.0.as_str());
                r
            },
            Problem::LabelOverflow { name, offset } => {
                let mut r = text("overflow: label ");
                r.append(name.0.as_str());
                r.append(" stands at ");
                append_decimal(&mut r, *offset);
                r.append(" > 255");
                r
            },
            Problem::LabelRedefinition(name) => {
                let mut r = text("redefinition of label: ");
                r.append(name.0.as_str());
                r
            },
            Problem::UnresolvedInclude => {
                let mut r = text("the included file is not inlined");
                r
            },
            Problem::CircularImport(path) => {
                let mut r = text("circular import of ");
                r.append(path.as_str());
                r
            },
            Problem::UnprocessedArgument => {
                let mut r = text("unprocessed argument");
                r
            },
            Problem::UnprocessedStatement => {
                let mut r = text("unprocessed operation");
                r
            },
            Problem::UnresolvedAddress => {
                let mut r = text("unresolved address");
                r
            },
            Problem::InvalidArguments { mnemonic, shape, allowed } => {
                let mut r = text("invalid arguments for ");
                r.append(mnemonic.as_str());
                r.append(": found ");
                let part = format_shape(shape);
                r.append(part.as_str());
                r.append(", allowed: ");
                let part = format_shapes(allowed);
                r.append(part.as_str());
                r
            },
            Problem::InvalidMnemonic(word) => {
                let mut r = text("invalid mnemonic: ");
                r.append(word.as_str());
                r
            },
            Problem::InvalidInteger(word) => {
                let mut r = text("invalid integer: ");
                r.append(word.as_str());
                r
            },
            Problem::UnfinishedChar => {
                let mut r = text("expected a char, found EOF");
                r
            },
            Problem::InvalidEscape(c) => {
                let mut r = text("unsupported or invalid escape sequence: \\");
                push_char(&mut r, *c);
                r
            },
            Problem::ExpectedChar { needed, actual } => {
                let mut r = text("Expected `");
                push_char(&mut r, *needed);
                r.append("`, found `");
                match actual {
                    Some(c) => push_char(&mut r, *c),
                    None => r.append("EOF"),
                }
                r.append("`");
                r
            },
            Problem::UnknownToken(c) => {
                let mut r = text("unknown token: ");
                push_char(&mut r, *c);
                r
            },
            Problem::UnexpectedToken { token, rule } => {
                let mut r = text("unexpected token: `");
                let part = token.to_string();
                r.append(part.as_str());
                r.append("`, expected ");
                r.append(rule.as_str());
                r
            },
            Problem::ExpectedToken { wanted, token } => {
                let mut r = text("expected `");
                let part = wanted.to_string();
                r.append(part.as_str());
                r.append("`, found `");
                let part = token.to_string();
                r.append(part.as_str());
                r.append("`");
                r
            },
        }
    }
}

/// A diagnostic as a text: the place, a colon and what the problem says.
pub open spec fn diagnostic_text(d: DiagnosticView) -> Seq<char> {
    location_text(d.location) + ": "@ + message_text(d.problem)
}

impl Diagnostic {
    /// The diagnostic as a text.
    pub fn to_string(&self) -> (r: String)
        ensures
            r@ == diagnostic_text(self@),
    {
        let mut r = self.location.to_string();
        r.append(": ");
        let message = self.problem.message();
        r.append(message.as_str());
        r
    }
}

} // verus!
