//! The program representation: statements and their arguments, each with the
//! place in the source that it came from.
use vstd::prelude::*;
use crate::lexer::{LocationView, SourceLocation};
use crate::text::{append_decimal, decimal, text, to_decimal};
use crate::util::{rcstr, rcstring, SharedString};

verus! {

/// A program: statements in source order.
pub type Program = Vec<StatementNode>;

// --- Names ---------------------------------------------------------------------

/// A name: of a label, a constant, a subroutine or a macro.
#[derive(PartialEq, Eq, Hash, Debug)]
pub struct Ident(pub SharedString);

impl View for Ident {
    type V = Seq<char>;

    open spec fn view(&self) -> Seq<char> {
        self.0@
    }
}

impl DeepView for Ident {
    type V = Seq<char>;

    open spec fn deep_view(&self) -> Seq<char> {
        self@
    }
}

impl Ident {
    pub fn from_str(s: &str) -> (r: Ident)
        ensures
            r@ == s@,
    {
        Ident(rcstr(s))
    }

    pub fn from_string(s: String) -> (r: Ident)
        ensures
            r@ == s@,
    {
        Ident(rcstring(s))
    }

    /// The characters of the name.
    pub fn as_str(&self) -> (r: SharedString)
        ensures
            r@ == self@,
    {
        self.0.clone()
    }

    pub fn clone(&self) -> (r: Ident)
        ensures
            r@ == self@,
    {
        Ident(self.as_str())
    }

    /// Whether two names are spelled alike.
    pub fn same(&self, other: &Ident) -> (r: bool)
        ensures
            r == (self@ == other@),
    {
        self.0 == other.0
    }

    /// Whether the name is spelled as the given word.
    pub fn is(&self, word: &str) -> (r: bool)
        ensures
            r == (self@ == word@),
    {
        let w = rcstr(word);
        self.0 == w
    }
}

impl Clone for Ident {
    fn clone(&self) -> (r: Self)
        ensures
            r@ == self@,
    {
        Ident(self.0.clone())
    }
}

/// The mnemonic of an operation statement.
#[derive(Clone, Copy, PartialEq, Eq, Structural, Debug)]
pub struct Mnemonic(pub crate::machine::Mnemonic);

/// The path of an include directive.
#[derive(PartialEq, Eq, Debug)]
pub struct IPath(pub SharedString);

impl View for IPath {
    type V = Seq<char>;

    open spec fn view(&self) -> Seq<char> {
        self.0@
    }
}

impl DeepView for IPath {
    type V = Seq<char>;

    open spec fn deep_view(&self) -> Seq<char> {
        self@
    }
}

impl IPath {
    pub fn from_str(s: &str) -> (r: IPath)
        ensures
            r@ == s@,
    {
        IPath(rcstr(s))
    }

    pub fn from_string(s: String) -> (r: IPath)
        ensures
            r@ == s@,
    {
        IPath(rcstring(s))
    }

    /// The characters of the path.
    pub fn as_str(&self) -> (r: SharedString)
        ensures
            r@ == self@,
    {
        self.0.clone()
    }
}

impl Clone for IPath {
    fn clone(&self) -> (r: Self)
        ensures
            r@ == self@,
    {
        IPath(self.0.clone())
    }
}

// --- Arguments -----------------------------------------------------------------

/// An argument of an operation or of a constant definition.
#[derive(PartialEq, Eq, Debug)]
pub enum Argument {
    /// An immediate value.
    Literal(u8),
    /// A memory address; `None` is the placeholder `[_]`.
    Address(Option<u8>),
    /// A reference to a constant (`$name`).
    Const(Ident),
    /// A reference to a label (`:name`).
    Label(Ident),
    /// A character literal.
    Char(u8),
}

/// The mathematical content of an [`Argument`].
pub enum ArgumentView {
    Literal(u8),
    Address(Option<u8>),
    Const(Seq<char>),
    Label(Seq<char>),
    Char(u8),
}

impl View for Argument {
    type V = ArgumentView;

    open spec fn view(&self) -> ArgumentView {
        match self {
            Argument::Literal(i) => ArgumentView::Literal(*i),
            Argument::Address(a) => ArgumentView::Address(*a),
            Argument::Const(name) => ArgumentView::Const(name@),
            Argument::Label(name) => ArgumentView::Label(name@),
            Argument::Char(c) => ArgumentView::Char(*c),
        }
    }
}

impl DeepView for Argument {
    type V = ArgumentView;

    open spec fn deep_view(&self) -> ArgumentView {
        self@
    }
}

impl Clone for Argument {
    fn clone(&self) -> (r: Self)
        ensures
            r@ == self@,
    {
        match self {
            Argument::Literal(i) => Argument::Literal(*i),
            Argument::Address(a) => Argument::Address(*a),
            Argument::Const(name) => Argument::Const(name.clone()),
            Argument::Label(name) => Argument::Label(name.clone()),
            Argument::Char(c) => Argument::Char(*c),
        }
    }
}

impl Argument {
    /// Puts an argument at a place in the source.
    pub fn new(arg: Argument, location: SourceLocation) -> (r: ArgumentNode)
        ensures
            r.value == arg,
            r.location == location,
    {
        ArgumentNode { value: arg, location }
    }
}

/// An argument and where it stands in the source.
#[derive(PartialEq, Eq, Debug)]
pub struct ArgumentNode {
    pub value: Argument,
    pub location: SourceLocation,
}

/// The mathematical content of an [`ArgumentNode`].
pub struct ArgumentNodeView {
    pub value: ArgumentView,
    pub location: LocationView,
}

impl View for ArgumentNode {
    type V = ArgumentNodeView;

    open spec fn view(&self) -> ArgumentNodeView {
        ArgumentNodeView { value: self.value@, location: self.location@ }
    }
}

impl DeepView for ArgumentNode {
    type V = ArgumentNodeView;

    open spec fn deep_view(&self) -> ArgumentNodeView {
        self@
    }
}

impl Clone for ArgumentNode {
    fn clone(&self) -> (r: Self)
        ensures
            r@ == self@,
    {
        ArgumentNode { value: self.value.clone(), location: self.location.clone() }
    }
}

// --- Macro arguments -----------------------------------------------------------

/// An argument of a macro: an ordinary argument or a bare name.
#[derive(PartialEq, Eq, Debug)]
pub enum MacroArgument {
    Argument(ArgumentNode),
    Ident(Ident),
}

/// The mathematical content of a [`MacroArgument`].
pub enum MacroArgumentView {
    Argument(ArgumentNodeView),
    Ident(Seq<char>),
}

impl View for MacroArgument {
    type V = MacroArgumentView;

    open spec fn view(&self) -> MacroArgumentView {
        match self {
            MacroArgument::Argument(arg) => MacroArgumentView::Argument(arg@),
            MacroArgument::Ident(name) => MacroArgumentView::Ident(name@),
        }
    }
}

impl Clone for MacroArgument {
    fn clone(&self) -> (r: Self)
        ensures
            r@ == self@,
    {
        match self {
            MacroArgument::Argument(arg) => MacroArgument::Argument(arg.clone()),
            MacroArgument::Ident(name) => MacroArgument::Ident(name.clone()),
        }
    }
}

impl MacroArgument {
    /// Puts a macro argument at a place in the source.
    pub fn new(arg: MacroArgument, location: SourceLocation) -> (r: MacroArgumentNode)
        ensures
            r.value == arg,
            r.location == location,
    {
        MacroArgumentNode { value: arg, location }
    }
}

/// A macro argument and where it stands in the source.
#[derive(PartialEq, Eq, Debug)]
pub struct MacroArgumentNode {
    pub value: MacroArgument,
    pub location: SourceLocation,
}

/// The mathematical content of a [`MacroArgumentNode`].
pub struct MacroArgumentNodeView {
    pub value: MacroArgumentView,
    pub location: LocationView,
}

impl View for MacroArgumentNode {
    type V = MacroArgumentNodeView;

    open spec fn view(&self) -> MacroArgumentNodeView {
        MacroArgumentNodeView { value: self.value@, location: self.location@ }
    }
}

impl DeepView for MacroArgumentNode {
    type V = MacroArgumentNodeView;

    open spec fn deep_view(&self) -> MacroArgumentNodeView {
        self@
    }
}

impl Clone for MacroArgumentNode {
    fn clone(&self) -> (r: Self)
        ensures
            r@ == self@,
    {
        MacroArgumentNode { value: self.value.clone(), location: self.location.clone() }
    }
}

// --- Statements ----------------------------------------------------------------

/// A statement of a program.
#[derive(PartialEq, Eq, Debug)]
pub enum Statement {
    /// An include directive.
    Include(IPath),
    /// The definition of a label.
    Label(Ident),
    /// The definition of a constant.
    Const(Ident, ArgumentNode),
    /// An instruction with its operands.
    Operation(Mnemonic, Vec<ArgumentNode>),
    /// A macro call (`@name(...)`).
    Macro(Ident, Vec<MacroArgumentNode>),
}

/// The mathematical content of a [`Statement`].
pub enum StatementView {
    Include(Seq<char>),
    Label(Seq<char>),
    Const(Seq<char>, ArgumentNodeView),
    Operation(crate::machine::Mnemonic, Seq<ArgumentNodeView>),
    Macro(Seq<char>, Seq<MacroArgumentNodeView>),
}

impl View for Statement {
    type V = StatementView;

    open spec fn view(&self) -> StatementView {
        match self {
            Statement::Include(path) => StatementView::Include(path@),
            Statement::Label(name) => StatementView::Label(name@),
            Statement::Const(name, value) => StatementView::Const(name@, value@),
            Statement::Operation(mnem, args) => StatementView::Operation(mnem.0, args.deep_view()),
            Statement::Macro(name, args) => StatementView::Macro(name@, args.deep_view()),
        }
    }
}

/// Copies a list of arguments.
pub fn clone_arguments(args: &Vec<ArgumentNode>) -> (r: Vec<ArgumentNode>)
    ensures
        r.deep_view() == args.deep_view(),
{
    let mut r: Vec<ArgumentNode> = Vec::new();
    let mut i: usize = 0;
    while i < args.len()
        invariant
            i <= args.len(),
            r@.len() == i,
            forall|j: int| 0 <= j < i ==> r@[j]@ == args@[j]@,
        decreases args.len() - i,
    {
        r.push(args[i].clone());
        i += 1;
    }
    assert(r.deep_view() =~= args.deep_view());
    r
}

/// Copies a list of macro arguments.
pub fn clone_macro_arguments(args: &Vec<MacroArgumentNode>) -> (r: Vec<MacroArgumentNode>)
    ensures
        r.deep_view() == args.deep_view(),
{
    let mut r: Vec<MacroArgumentNode> = Vec::new();
    let mut i: usize = 0;
    while i < args.len()
        invariant
            i <= args.len(),
            r@.len() == i,
            forall|j: int| 0 <= j < i ==> r@[j]@ == args@[j]@,
        decreases args.len() - i,
    {
        r.push(args[i].clone());
        i += 1;
    }
    assert(r.deep_view() =~= args.deep_view());
    r
}

impl Clone for Statement {
    fn clone(&self) -> (r: Self)
        ensures
            r@ == self@,
    {
        match self {
            Statement::Include(path) => Statement::Include(path.clone()),
            Statement::Label(name) => Statement::Label(name.clone()),
            Statement::Const(name, value) => Statement::Const(name.clone(), value.clone()),
            Statement::Operation(mnem, args) => Statement::Operation(*mnem, clone_arguments(args)),
            Statement::Macro(name, args) => Statement::Macro(
                name.clone(),
                clone_macro_arguments(args),
            ),
        }
    }
}

impl Statement {
    /// Puts a statement at a place in the source.
    pub fn new(stmt: Statement, location: SourceLocation) -> (r: StatementNode)
        ensures
            r.value == stmt,
            r.location == location,
    {
        StatementNode { value: stmt, location }
    }
}

/// A statement and where it stands in the source.
#[derive(PartialEq, Eq, Debug)]
pub struct StatementNode {
    pub value: Statement,
    pub location: SourceLocation,
}

/// The mathematical content of a [`StatementNode`].
pub struct StatementNodeView {
    pub value: StatementView,
    pub location: LocationView,
}

impl View for StatementNode {
    type V = StatementNodeView;

    open spec fn view(&self) -> StatementNodeView {
        StatementNodeView { value: self.value@, location: self.location@ }
    }
}

impl DeepView for StatementNode {
    type V = StatementNodeView;

    open spec fn deep_view(&self) -> StatementNodeView {
        self@
    }
}

impl Clone for StatementNode {
    fn clone(&self) -> (r: Self)
        ensures
            r@ == self@,
    {
        StatementNode { value: self.value.clone(), location: self.location.clone() }
    }
}

// --- Texts ---------------------------------------------------------------------

/// An argument as it is written in source. A character is written as the
/// number of its byte, between quotes.
pub open spec fn argument_text(arg: ArgumentView) -> Seq<char> {
    match arg {
        ArgumentView::Literal(i) => decimal(i as nat),
        ArgumentView::Address(Some(i)) => "["@ + decimal(i as nat) + "]"@,
        ArgumentView::Address(None) => "[_]"@,
        ArgumentView::Const(name) => "$"@ + name,
        ArgumentView::Label(name) => ":"@ + name,
        ArgumentView::Char(c) => "'"@ + decimal(c as nat) + "'"@,
    }
}

impl Argument {
    /// The argument as it is written in source.
    pub fn to_string(&self) -> (r: String)
        ensures
            r@ == argument_text(self@),
    {
        match self {
            Argument::Literal(i) => to_decimal(*i as usize),
            Argument::Address(Some(i)) => {
                let mut r = text("[");
                append_decimal(&mut r, *i as usize);
                r.append("]");
                r
            },
            Argument::Address(None) => text("[_]"),
            Argument::Const(name) => {
                let mut r = text("$");
                r.append(name.0.as_str());
                r
            },
            Argument::Label(name) => {
                let mut r = text(":");
                r.append(name.0.as_str());
                r
            },
            Argument::Char(c) => {
                let mut r = text("'");
                append_decimal(&mut r, *c as usize);
                r.append("'");
                r
            },
        }
    }
}

impl ArgumentNode {
    /// The argument as it is written in source.
    pub fn to_string(&self) -> (r: String)
        ensures
            r@ == argument_text(self@.value),
    {
        self.value.to_string()
    }
}

/// A macro argument as it is written in source.
pub open spec fn macro_argument_text(arg: MacroArgumentView) -> Seq<char> {
    match arg {
        MacroArgumentView::Argument(inner) => argument_text(inner.value),
        MacroArgumentView::Ident(name) => name,
    }
}

impl MacroArgument {
    /// The macro argument as it is written in source.
    pub fn to_string(&self) -> (r: String)
        ensures
            r@ == macro_argument_text(self@),
    {
        match self {
            MacroArgument::Argument(inner) => inner.to_string(),
            MacroArgument::Ident(name) => name.0.clone(),
        }
    }
}

impl MacroArgumentNode {
    /// The macro argument as it is written in source.
    pub fn to_string(&self) -> (r: String)
        ensures
            r@ == macro_argument_text(self@.value),
    {
        self.value.to_string()
    }
}

/// The arguments of an operation as they are written in source, each with a
/// blank before it.
pub open spec fn arguments_text(args: Seq<ArgumentNodeView>) -> Seq<char>
    decreases args.len(),
{
    if args.len() == 0 {
        Seq::empty()
    } else {
        arguments_text(args.drop_last()) + " "@ + argument_text(args.last().value)
    }
}

/// The arguments of a macro as they are written, separated by blanks.
pub open spec fn macro_arguments_text(args: Seq<MacroArgumentNodeView>) -> Seq<char>
    decreases args.len(),
{
    if args.len() == 0 {
        Seq::empty()
    } else if args.len() == 1 {
        macro_argument_text(args[0].value)
    } else {
        macro_arguments_text(args.drop_last()) + " "@ + macro_argument_text(args.last().value)
    }
}

/// A statement as a text.
pub open spec fn statement_text(stmt: StatementView) -> Seq<char> {
    match stmt {
        StatementView::Include(path) => "#include <"@ + path + ">"@,
        StatementView::Label(name) => name + ":"@,
        StatementView::Const(name, value) => "$"@ + name + " = "@ + argument_text(value.value),
        StatementView::Operation(mnem, args) => mnem.name() + arguments_text(args),
        StatementView::Macro(name, args) => "@"@ + name + "("@ + macro_arguments_text(args) + ")"@,
    }
}

impl Statement {
    /// The statement as a text.
    pub fn to_string(&self) -> (r: String)
        ensures
            r@ == statement_text(self@),
    {
        match self {
            Statement::Include(path) => {
                let mut r = text("#include <");
                r.append(path.0.as_str());
                r.append(">");
                r
            },
            Statement::Label(name) => {
                let mut r = name.0.clone();
                r.append(":");
                r
            },
            Statement::Const(name, value) => {
                let mut r = text("$");
                r.append(name.0.as_str());
                r.append(" = ");
                let value = value.to_string();
                r.append(value.as_str());
                r
            },
            Statement::Operation(mnem, args) => {
                let mut r = text(mnem.0.as_str());
                let ghost head = r@;
                let ghost view = args.deep_view();
                let mut i: usize = 0;
                assert(view.take(0) =~= Seq::empty());
                assert(head + arguments_text(view.take(0)) =~= head);
                while i < args.len()
                    invariant
                        i <= args.len(),
                        view == args.deep_view(),
                        r@ == head + arguments_text(view.take(i as int)),
                    decreases args.len() - i,
                {
                    assert(view.take(i + 1).drop_last() =~= view.take(i as int));
                    assert(view.take(i + 1).last() == args@[i as int]@);
                    r.append(" ");
                    let arg = args[i].to_string();
                    r.append(arg.as_str());
                    i += 1;
                    assert(r@ =~= head + arguments_text(view.take(i as int)));
                }
                assert(view.take(i as int) =~= view);
                r
            },
            Statement::Macro(name, args) => {
                let mut r = text("@");
                r.append(name.0.as_str());
                r.append("(");
                let ghost head = r@;
                let ghost view = args.deep_view();
                let mut i: usize = 0;
                assert(view.take(0) =~= Seq::empty());
                assert(head + macro_arguments_text(view.take(0)) =~= head);
                while i < args.len()
                    invariant
                        i <= args.len(),
                        view == args.deep_view(),
                        r@ == head + macro_arguments_text(view.take(i as int)),
                    decreases args.len() - i,
                {
                    assert(view.take(i + 1).drop_last() =~= view.take(i as int));
                    assert(view.take(i + 1).last() == args@[i as int]@);
                    if i > 0 {
                        r.append(" ");
                    }
                    let arg = args[i].to_string();
                    r.append(arg.as_str());
                    i += 1;
                    assert(r@ =~= head + macro_arguments_text(view.take(i as int))) by {
                        if i == 1 {
                            assert(view.take(1)[0] == args@[0]@);
                        }
                    }
                }
                assert(view.take(i as int) =~= view);
                r.append(")");
                r
            },
        }
    }
}

impl StatementNode {
    /// The statement as a text.
    pub fn to_string(&self) -> (r: String)
        ensures
            r@ == statement_text(self@.value),
    {
        self.value.to_string()
    }
}

} // verus!
