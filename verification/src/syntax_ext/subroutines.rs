//! Subroutines.
//!
//! A subroutine is declared between `@start(name, argc)` and `@end()` and
//! called with `@call(name, arg, ...)`. The pass rewrites the three macros
//! into labels, moves and jumps over a fixed set of memory cells: `$return`,
//! `$jump_back` and `$arg0`, `$arg1`, ... There is no call stack.
use vstd::prelude::*;
use crate::ast::{
    clone_macro_arguments, Argument, ArgumentNode, ArgumentNodeView, ArgumentView, Ident,
    MacroArgument, MacroArgumentNode, MacroArgumentNodeView, MacroArgumentView, Mnemonic, Program,
    Statement, StatementNode, StatementNodeView, StatementView,
};
use crate::lexer::{dummy_location, dummy_source, LocationView, SourceLocation};
use crate::text::{decimal, lemma_decimal_differs, to_decimal};
use crate::util::{
    diagnostic, lookup, problem_at, Diagnostic, DiagnosticView, Problem, ProblemView, Table,
};

verus! {

// --- The state machine ---------------------------------------------------------

/// Where the pass is, or what the statement at hand asks for.
#[derive(PartialEq, Eq, Debug)]
pub enum SubroutineState {
    /// The statement opens the subroutine of this name.
    SubroutineStart(Ident),
    /// Inside the body of a subroutine.
    InSubroutine,
    /// The statement closes the body.
    SubroutineEnd,
    /// The statement calls a subroutine with these arguments.
    SubroutineCall(Ident, Vec<MacroArgumentNode>),
    /// Outside of any subroutine.
    NotInSubroutine,
}

/// The mathematical content of a [`SubroutineState`].
pub enum SubroutineStateView {
    SubroutineStart(Seq<char>),
    InSubroutine,
    SubroutineEnd,
    SubroutineCall(Seq<char>, Seq<MacroArgumentNodeView>),
    NotInSubroutine,
}

impl View for SubroutineState {
    type V = SubroutineStateView;

    open spec fn view(&self) -> SubroutineStateView {
        match self {
            SubroutineState::SubroutineStart(name) => SubroutineStateView::SubroutineStart(name@),
            SubroutineState::InSubroutine => SubroutineStateView::InSubroutine,
            SubroutineState::SubroutineEnd => SubroutineStateView::SubroutineEnd,
            SubroutineState::SubroutineCall(name, args) => SubroutineStateView::SubroutineCall(
                name@,
                args.deep_view(),
            ),
            SubroutineState::NotInSubroutine => SubroutineStateView::NotInSubroutine,
        }
    }
}

impl Clone for SubroutineState {
    fn clone(&self) -> (r: Self)
        ensures
            r@ == self@,
    {
        match self {
            SubroutineState::SubroutineStart(name) => SubroutineState::SubroutineStart(name.clone()),
            SubroutineState::InSubroutine => SubroutineState::InSubroutine,
            SubroutineState::SubroutineEnd => SubroutineState::SubroutineEnd,
            SubroutineState::SubroutineCall(name, args) => SubroutineState::SubroutineCall(
                name.clone(),
                clone_macro_arguments(args),
            ),
            SubroutineState::NotInSubroutine => SubroutineState::NotInSubroutine,
        }
    }
}

// --- Pass 1: the declared subroutines ------------------------------------------

/// What a statement declares: nothing, unless it is `@start`; then a
/// subroutine with its number of arguments, or an error where the macro is
/// malformed.
pub open spec fn declaration(stmt: StatementNodeView) -> Option<
    Result<(Seq<char>, usize), DiagnosticView>,
> {
    match stmt.value {
        StatementView::Macro(name, args) => if name == "start"@ {
            if args.len() != 2 {
                Some(
                    Err(
                        problem_at(
                            ProblemView::StartArgumentCount(args.len() as usize),
                            stmt.location,
                        ),
                    ),
                )
            } else {
                match (args[0].value, args[1].value) {
                    (
                        MacroArgumentView::Ident(routine),
                        MacroArgumentView::Argument(
                            ArgumentNodeView { value: ArgumentView::Literal(argc), .. },
                        ),
                    ) => Some(Ok((routine, argc as usize))),
                    (MacroArgumentView::Ident(_), _) => Some(
                        Err(problem_at(ProblemView::ExpectedArgumentCount, stmt.location)),
                    ),
                    _ => Some(Err(problem_at(ProblemView::ExpectedSubroutineName, stmt.location))),
                }
            }
        } else {
            None
        },
        _ => None,
    }
}

/// The subroutines that a program declares, in the order of their
/// declarations; or the first error: a malformed `@start`, or a name that is
/// declared twice.
pub open spec fn declared(program: Seq<StatementNodeView>) -> Result<
    Seq<(Seq<char>, usize)>,
    DiagnosticView,
>
    decreases program.len(),
{
    if program.len() == 0 {
        Ok(Seq::empty())
    } else {
        match declared(program.drop_last()) {
            Err(d) => Err(d),
            Ok(routines) => match declaration(program.last()) {
                None => Ok(routines),
                Some(Err(d)) => Err(d),
                Some(Ok((name, argc))) => if lookup(routines, name).is_some() {
                    Err(
                        problem_at(
                            ProblemView::SubroutineRedefinition(name),
                            program.last().location,
                        ),
                    )
                } else {
                    Ok(routines.push((name, argc)))
                },
            },
        }
    }
}

/// Reads one statement for the declaration it makes.
pub fn read_declaration(stmt: &StatementNode) -> (r: Option<Result<(Ident, usize), Diagnostic>>)
    ensures
        match r {
            None => declaration(stmt@).is_none(),
            Some(Ok((name, argc))) => declaration(stmt@) == Some(
                Ok::<(Seq<char>, usize), DiagnosticView>((name@, argc)),
            ),
            Some(Err(d)) => declaration(stmt@) == Some(
                Err::<(Seq<char>, usize), DiagnosticView>(d@),
            ),
        },
{
    match &stmt.value {
        Statement::Macro(ident, args) => {
            if !ident.is("start") {
                return None;
            }
            if args.len() != 2 {
                return Some(
                    Err(diagnostic(Problem::StartArgumentCount(args.len()), &stmt.location)),
                );
            }
            assert(args.deep_view()[0] == args@[0]@);
            assert(args.deep_view()[1] == args@[1]@);
            let name = match &args[0].value {
                MacroArgument::Ident(name) => name.clone(),
                _ => {
                    return Some(
                        Err(diagnostic(Problem::ExpectedSubroutineName, &stmt.location)),
                    );
                },
            };
            let argc = match &args[1].value {
                MacroArgument::Argument(arg) => match &arg.value {
                    Argument::Literal(argc) => *argc as usize,
                    _ => {
                        return Some(
                            Err(diagnostic(Problem::ExpectedArgumentCount, &stmt.location)),
                        );
                    },
                },
                _ => {
                    return Some(Err(diagnostic(Problem::ExpectedArgumentCount, &stmt.location)));
                },
            };
            Some(Ok((name, argc)))
        },
        _ => None,
    }
}

/// Collects the subroutines that a program declares.
pub fn collect_routines(source: &Program) -> (r: Result<Table<usize>, Diagnostic>)
    ensures
        match r {
            Ok(routines) => declared(source.deep_view()) == Ok::<_, DiagnosticView>(
                routines.history(),
            ),
            Err(d) => declared(source.deep_view()) == Err::<Seq<(Seq<char>, usize)>, _>(d@),
        },
{
    let mut routines: Table<usize> = Table::new();
    let mut i: usize = 0;
    let ghost program = source.deep_view();
    assert(program.take(0) =~= Seq::empty());
    while i < source.len()
        invariant
            i <= source.len(),
            program == source.deep_view(),
            declared(program.take(i as int)) == Ok::<_, DiagnosticView>(routines.history()),
        decreases source.len() - i,
    {
        proof {
            assert(program.take(i + 1).drop_last() =~= program.take(i as int));
            assert(program.take(i + 1).last() == source@[i as int]@);
            if i + 1 == source.len() {
                assert(program.take(i + 1) =~= program);
            }
        }
        match read_declaration(&source[i]) {
            None => {},
            Some(Err(d)) => {
                proof {
                    lemma_declared_fails(program, i + 1);
                }
                return Err(d);
            },
            Some(Ok((name, argc))) => {
                if routines.get(&name).is_some() {
                    proof {
                        lemma_declared_fails(program, i + 1);
                    }
                    return Err(
                        diagnostic(Problem::SubroutineRedefinition(name), &source[i].location),
                    );
                }
                routines.insert(name, argc);
            },
        }
        i += 1;
    }
    assert(program.take(i as int) =~= program);
    Ok(routines)
}

/// An error in a prefix of a program is the error of the program.
pub proof fn lemma_declared_fails(program: Seq<StatementNodeView>, n: int)
    requires
        0 <= n <= program.len(),
        declared(program.take(n)) is Err,
    ensures
        declared(program) == declared(program.take(n)),
    decreases program.len() - n,
{
    if n < program.len() {
        assert(program.take(n + 1).drop_last() =~= program.take(n));
        lemma_declared_fails(program, n + 1);
    } else {
        assert(program.take(n) =~= program);
    }
}

// --- The preamble --------------------------------------------------------------

/// The largest number of arguments that any subroutine declares.
pub open spec fn max_arity(routines: Seq<(Seq<char>, usize)>) -> usize
    decreases routines.len(),
{
    if routines.len() == 0 {
        0
    } else {
        let rest = max_arity(routines.drop_last());
        if routines.last().1 > rest {
            routines.last().1
        } else {
            rest
        }
    }
}

/// The name of the constant that holds the argument of the given position.
pub open spec fn argument_name(position: nat) -> Seq<char> {
    "arg"@ + decimal(position)
}

/// The name of the label behind the call that stands at the given index of
/// the rewritten program.
pub open spec fn return_label(index: nat) -> Seq<char> {
    "ret"@ + decimal(index)
}

/// The definition `$name = [_]`, with no place in a file.
pub open spec fn placeholder_constant(name: Seq<char>) -> StatementNodeView {
    StatementNodeView {
        value: StatementView::Const(
            name,
            ArgumentNodeView { value: ArgumentView::Address(None), location: dummy_location() },
        ),
        location: dummy_location(),
    }
}

/// The constants that the rewritten macros use: `$return`, `$jump_back`,
/// and one `$arg` for each argument position.
pub open spec fn preamble(arity: nat) -> Seq<StatementNodeView> {
    seq![placeholder_constant("return"@), placeholder_constant("jump_back"@)] + Seq::new(
        arity,
        |i: int| placeholder_constant(argument_name(i as nat)),
    )
}

/// Computes [`max_arity`].
pub fn largest_arity(routines: &Table<usize>) -> (r: usize)
    ensures
        r == max_arity(routines.history()),
{
    let mut r: usize = 0;
    let mut i: usize = 0;
    assert(routines.history().take(0) =~= Seq::empty());
    while i < routines.entries.len()
        invariant
            i <= routines.entries.len(),
            r == max_arity(routines.history().take(i as int)),
        decreases routines.entries.len() - i,
    {
        assert(routines.history().take(i + 1).drop_last() =~= routines.history().take(i as int));
        if routines.entries[i].1 > r {
            r = routines.entries[i].1;
        }
        i += 1;
    }
    assert(routines.history().take(i as int) =~= routines.history());
    r
}

/// Makes the name `prefix` followed by a number in decimal.
fn numbered(prefix: &str, number: usize) -> (r: Ident)
    ensures
        r@ == prefix@ + decimal(number as nat),
{
    let digits = to_decimal(number);
    Ident::from_string(prefix.to_owned().concat(digits.as_str()))
}

/// Makes the definition `$name = [_]`.
fn make_placeholder_constant(name: Ident) -> (r: StatementNode)
    ensures
        r@ == placeholder_constant(name@),
{
    Statement::new(
        Statement::Const(name, Argument::new(Argument::Address(None), dummy_source())),
        dummy_source(),
    )
}

/// Builds the constants that the rewritten macros use.
pub fn build_preamble(routines: &Table<usize>) -> (r: Vec<StatementNode>)
    ensures
        r.deep_view() == preamble(max_arity(routines.history()) as nat),
{
    let arity = largest_arity(routines);
    let mut r: Vec<StatementNode> = Vec::new();
    r.push(make_placeholder_constant(Ident::from_str("return")));
    r.push(make_placeholder_constant(Ident::from_str("jump_back")));
    let mut i: usize = 0;
    while i < arity
        invariant
            i <= arity,
            r@.len() == 2 + i,
            r@[0]@ == placeholder_constant("return"@),
            r@[1]@ == placeholder_constant("jump_back"@),
            forall|j: int| 0 <= j < i ==> (#[trigger] r@[2 + j])@ == placeholder_constant(argument_name(j as nat)),
        decreases arity - i,
    {
        r.push(make_placeholder_constant(numbered("arg", i)));
        i += 1;
    }
    proof {
        let p = preamble(arity as nat);
        assert(r.deep_view().len() == p.len());
        assert forall|j: int| 0 <= j < p.len() implies r.deep_view()[j] == p[j] by {
            if j >= 2 {
                assert(r@[2 + (j - 2)]@ == placeholder_constant(argument_name((j - 2) as nat)));
            }
        }
        assert(r.deep_view() =~= p);
    }
    r
}

// --- Pass 2: the macros --------------------------------------------------------

/// The state after a statement, given the state before it: what a
/// subroutine macro asks for, or the state as it was.
///
/// `@start` inside a subroutine, `@end` with arguments, and `@call` without
/// a name, of an unknown subroutine or with the wrong number of arguments
/// are errors.
pub open spec fn next_state(
    routines: Seq<(Seq<char>, usize)>,
    stmt: StatementNodeView,
    state: SubroutineStateView,
) -> Result<SubroutineStateView, DiagnosticView> {
    match stmt.value {
        StatementView::Macro(name, args) => if name == "start"@ {
            if state is InSubroutine {
                Err(problem_at(ProblemView::NestedSubroutine, stmt.location))
            } else if args.len() == 0 {
                Err(problem_at(ProblemView::ExpectedSubroutineName, stmt.location))
            } else {
                match args[0].value {
                    MacroArgumentView::Ident(routine) => Ok(
                        SubroutineStateView::SubroutineStart(routine),
                    ),
                    _ => Err(problem_at(ProblemView::ExpectedSubroutineName, args[0].location)),
                }
            }
        } else if name == "end"@ {
            if args.len() > 0 {
                Err(problem_at(ProblemView::EndTakesNoArguments, args[0].location))
            } else {
                Ok(SubroutineStateView::SubroutineEnd)
            }
        } else if name == "call"@ {
            if args.len() == 0 {
                Err(problem_at(ProblemView::CallWithoutName, stmt.location))
            } else {
                match args[0].value {
                    MacroArgumentView::Ident(routine) => match lookup(routines, routine) {
                        None => Err(
                            problem_at(ProblemView::UnknownSubroutine(routine), stmt.location),
                        ),
                        Some(argc) => if args.len() - 1 != argc {
                            Err(
                                problem_at(
                                    ProblemView::WrongArgumentCount {
                                        found: (args.len() - 1) as usize,
                                        expected: argc,
                                    },
                                    args[0].location,
                                ),
                            )
                        } else {
                            Ok(
                                SubroutineStateView::SubroutineCall(
                                    routine,
                                    args.subrange(1, args.len() as int),
                                ),
                            )
                        },
                    },
                    _ => Err(problem_at(ProblemView::ExpectedSubroutineName, args[0].location)),
                }
            }
        } else {
            Ok(state)
        },
        _ => Ok(state),
    }
}

/// Computes [`next_state`].
pub fn get_state_for(routines: &Table<usize>, stmt: &StatementNode, state: &SubroutineState) -> (r:
    Result<SubroutineState, Diagnostic>)
    ensures
        match r {
            Ok(next) => next_state(routines.history(), stmt@, state@) == Ok::<_, DiagnosticView>(
                next@,
            ),
            Err(d) => next_state(routines.history(), stmt@, state@) == Err::<SubroutineStateView, _>(
                d@,
            ),
        },
{
    match &stmt.value {
        Statement::Macro(ident, args) => {
            if args.len() > 0 {
                assert(args.deep_view()[0] == args@[0]@);
            }
            if ident.is("start") {
                if let SubroutineState::InSubroutine = state {
                    return Err(diagnostic(Problem::NestedSubroutine, &stmt.location));
                }
                if args.len() == 0 {
                    return Err(diagnostic(Problem::ExpectedSubroutineName, &stmt.location));
                }
                match &args[0].value {
                    MacroArgument::Ident(routine) => Ok(
                        SubroutineState::SubroutineStart(routine.clone()),
                    ),
                    _ => Err(diagnostic(Problem::ExpectedSubroutineName, &args[0].location)),
                }
            } else if ident.is("end") {
                if args.len() > 0 {
                    return Err(diagnostic(Problem::EndTakesNoArguments, &args[0].location));
                }
                Ok(SubroutineState::SubroutineEnd)
            } else if ident.is("call") {
                if args.len() == 0 {
                    return Err(diagnostic(Problem::CallWithoutName, &stmt.location));
                }
                let routine = match &args[0].value {
                    MacroArgument::Ident(routine) => routine.clone(),
                    _ => {
                        return Err(
                            diagnostic(Problem::ExpectedSubroutineName, &args[0].location),
                        );
                    },
                };
                let routine_argc = match routines.get(&routine) {
                    Some(argc) => *argc,
                    None => {
                        return Err(
                            diagnostic(Problem::UnknownSubroutine(routine), &stmt.location),
                        );
                    },
                };
                if args.len() - 1 != routine_argc {
                    return Err(
                        diagnostic(
                            Problem::WrongArgumentCount {
                                found: args.len() - 1,
                                expected: routine_argc,
                            },
                            &args[0].location,
                        ),
                    );
                }
                let mut rest: Vec<MacroArgumentNode> = Vec::new();
                let mut i: usize = 1;
                while i < args.len()
                    invariant
                        1 <= i <= args.len(),
                        rest@.len() == i - 1,
                        forall|j: int| 0 <= j < i - 1 ==> rest@[j]@ == args@[j + 1]@,
                    decreases args.len() - i,
                {
                    rest.push(args[i].clone());
                    i += 1;
                }
                assert(rest.deep_view() =~= args.deep_view().subrange(1, args.len() as int));
                Ok(SubroutineState::SubroutineCall(routine, rest))
            } else {
                Ok(state.clone())
            }
        },
        _ => Ok(state.clone()),
    }
}

/// An operation statement whose parts stand at one place.
pub open spec fn operation(
    mnem: crate::machine::Mnemonic,
    args: Seq<ArgumentNodeView>,
    location: LocationView,
) -> StatementNodeView {
    StatementNodeView { value: StatementView::Operation(mnem, args), location }
}

/// An argument at a place.
pub open spec fn argument(value: ArgumentView, location: LocationView) -> ArgumentNodeView {
    ArgumentNodeView { value, location }
}

/// The moves that hand the first `n` arguments of a call to the subroutine:
/// `MOV $arg0 <value>`, `MOV $arg1 <value>`, ... A bare name among the
/// arguments is an error.
pub open spec fn argument_moves(
    args: Seq<MacroArgumentNodeView>,
    location: LocationView,
    n: nat,
) -> Result<Seq<StatementNodeView>, DiagnosticView>
    decreases n,
{
    if n == 0 {
        Ok(Seq::empty())
    } else {
        match argument_moves(args, location, (n - 1) as nat) {
            Err(d) => Err(d),
            Ok(moves) => match args[n - 1].value {
                MacroArgumentView::Argument(arg) => Ok(
                    moves.push(
                        operation(
                            crate::machine::Mnemonic::MOV,
                            seq![
                                argument(
                                    ArgumentView::Const(argument_name((n - 1) as nat)),
                                    location,
                                ),
                                arg,
                            ],
                            location,
                        ),
                    ),
                ),
                MacroArgumentView::Ident(name) => Err(
                    problem_at(ProblemView::ExpectedArgument(name), args[n - 1].location),
                ),
            },
        }
    }
}

/// What stands behind the argument moves of a call: the return address is
/// stored, the subroutine is entered, and the return label follows.
pub open spec fn call_tail(name: Seq<char>, location: LocationView, index: nat) -> Seq<
    StatementNodeView,
> {
    seq![
        operation(
            crate::machine::Mnemonic::MOV,
            seq![
                argument(ArgumentView::Const("jump_back"@), location),
                argument(ArgumentView::Label(return_label(index)), location),
            ],
            location,
        ),
        operation(
            crate::machine::Mnemonic::JMP,
            seq![argument(ArgumentView::Label(name), location)],
            location,
        ),
        StatementNodeView { value: StatementView::Label(return_label(index)), location },
    ]
}

/// What opens a subroutine: its label, and `MOV $return 0`.
pub open spec fn start_code(name: Seq<char>, location: LocationView) -> Seq<StatementNodeView> {
    seq![
        StatementNodeView { value: StatementView::Label(name), location },
        operation(
            crate::machine::Mnemonic::MOV,
            seq![
                argument(ArgumentView::Const("return"@), location),
                argument(ArgumentView::Literal(0), location),
            ],
            location,
        ),
    ]
}

/// What closes a subroutine: `JMP $jump_back`.
pub open spec fn end_code(location: LocationView) -> Seq<StatementNodeView> {
    seq![
        operation(
            crate::machine::Mnemonic::JMP,
            seq![argument(ArgumentView::Const("jump_back"@), location)],
            location,
        ),
    ]
}

/// The statements that take the place of a statement, and the state behind
/// it. `action` is the result of [`next_state`], `previous` the state before
/// the statement, and `index` the number of statements written so far.
///
/// A call leaves the state as it was before the call. What is written for a
/// macro stands at the place of the macro; the arguments of a call keep
/// their own places.
pub open spec fn rewritten(
    stmt: StatementNodeView,
    action: SubroutineStateView,
    previous: SubroutineStateView,
    index: nat,
) -> Result<(Seq<StatementNodeView>, SubroutineStateView), DiagnosticView> {
    match action {
        SubroutineStateView::SubroutineStart(name) => Ok(
            (start_code(name, stmt.location), SubroutineStateView::InSubroutine),
        ),
        SubroutineStateView::SubroutineEnd => Ok(
            (end_code(stmt.location), SubroutineStateView::NotInSubroutine),
        ),
        SubroutineStateView::SubroutineCall(name, args) => match argument_moves(
            args,
            stmt.location,
            args.len(),
        ) {
            Err(d) => Err(d),
            Ok(moves) => Ok((moves + call_tail(name, stmt.location, index), previous)),
        },
        _ => Ok((seq![stmt], action)),
    }
}

/// The program with its subroutine macros rewritten, and the state at its
/// end; or the first error.
pub open spec fn processed(routines: Seq<(Seq<char>, usize)>, program: Seq<StatementNodeView>) -> Result<
    (Seq<StatementNodeView>, SubroutineStateView),
    DiagnosticView,
>
    decreases program.len(),
{
    if program.len() == 0 {
        Ok((Seq::empty(), SubroutineStateView::NotInSubroutine))
    } else {
        match processed(routines, program.drop_last()) {
            Err(d) => Err(d),
            Ok((out, state)) => match next_state(routines, program.last(), state) {
                Err(d) => Err(d),
                Ok(action) => match rewritten(program.last(), action, state, out.len()) {
                    Err(d) => Err(d),
                    Ok((emitted, next)) => Ok((out + emitted, next)),
                },
            },
        }
    }
}

/// An error in a prefix of a program is the error of the program.
pub proof fn lemma_processed_fails(
    routines: Seq<(Seq<char>, usize)>,
    program: Seq<StatementNodeView>,
    n: int,
)
    requires
        0 <= n <= program.len(),
        processed(routines, program.take(n)) is Err,
    ensures
        processed(routines, program) == processed(routines, program.take(n)),
    decreases program.len() - n,
{
    if n < program.len() {
        assert(program.take(n + 1).drop_last() =~= program.take(n));
        lemma_processed_fails(routines, program, n + 1);
    } else {
        assert(program.take(n) =~= program);
    }
}

/// Makes an operation statement whose parts stand at one place.
fn make_operation(mnem: crate::machine::Mnemonic, args: Vec<ArgumentNode>, location: &SourceLocation) -> (r:
    StatementNode)
    ensures
        r@ == operation(mnem, args.deep_view(), location@),
{
    Statement::new(Statement::Operation(Mnemonic(mnem), args), location.clone())
}

/// Makes an argument at a place.
fn make_argument(value: Argument, location: &SourceLocation) -> (r: ArgumentNode)
    ensures
        r@ == argument(value@, location@),
{
    Argument::new(value, location.clone())
}

/// Appends statements to a program.
fn emit(out: &mut Vec<StatementNode>, mut statements: Vec<StatementNode>)
    ensures
        final(out).deep_view() == old(out).deep_view() + statements.deep_view(),
{
    let ghost added = statements.deep_view();
    out.append(&mut statements);
    assert(out.deep_view() =~= old(out).deep_view() + added);
}

/// Writes what takes the place of a call.
fn rewrite_call(
    name: &Ident,
    args: &Vec<MacroArgumentNode>,
    location: &SourceLocation,
    index: usize,
) -> (r: Result<Vec<StatementNode>, Diagnostic>)
    ensures
        match r {
            Ok(code) => argument_moves(args.deep_view(), location@, args.deep_view().len())
                matches Ok(moves) && code.deep_view() == moves + call_tail(
                name@,
                location@,
                index as nat,
            ),
            Err(d) => argument_moves(args.deep_view(), location@, args.deep_view().len())
                == Err::<Seq<StatementNodeView>, _>(d@),
        },
{
    let mut code: Vec<StatementNode> = Vec::new();
    let mut j: usize = 0;
    assert(code.deep_view() =~= Seq::empty());
    while j < args.len()
        invariant
            j <= args.len(),
            code@.len() == j,
            argument_moves(args.deep_view(), location@, j as nat) == Ok::<_, DiagnosticView>(
                code.deep_view(),
            ),
        decreases args.len() - j,
    {
        assert(args.deep_view()[j as int] == args@[j as int]@);
        match &args[j].value {
            MacroArgument::Argument(arg) => {
                let mut operands: Vec<ArgumentNode> = Vec::new();
                operands.push(make_argument(Argument::Const(numbered("arg", j)), location));
                operands.push(arg.clone());
                assert(operands.deep_view() =~= seq![
                    argument(ArgumentView::Const(argument_name(j as nat)), location@),
                    arg@,
                ]);
                let ghost before = code.deep_view();
                code.push(make_operation(crate::machine::Mnemonic::MOV, operands, location));
                assert(code.deep_view() =~= before.push(code@[j as int]@));
            },
            MacroArgument::Ident(ident) => {
                proof {
                    lemma_argument_moves_fail(
                        args.deep_view(),
                        location@,
                        (j + 1) as nat,
                        args.deep_view().len(),
                    );
                }
                return Err(diagnostic(Problem::ExpectedArgument(ident.clone()), &args[j].location));
            },
        }
        j += 1;
    }
    let mut store: Vec<ArgumentNode> = Vec::new();
    store.push(make_argument(Argument::Const(Ident::from_str("jump_back")), location));
    store.push(make_argument(Argument::Label(numbered("ret", index)), location));
    assert(store.deep_view() =~= seq![
        argument(ArgumentView::Const("jump_back"@), location@),
        argument(ArgumentView::Label(return_label(index as nat)), location@),
    ]);
    let mut jump: Vec<ArgumentNode> = Vec::new();
    jump.push(make_argument(Argument::Label(name.clone()), location));
    assert(jump.deep_view() =~= seq![argument(ArgumentView::Label(name@), location@)]);
    let ghost moves = code.deep_view();
    code.push(make_operation(crate::machine::Mnemonic::MOV, store, location));
    code.push(make_operation(crate::machine::Mnemonic::JMP, jump, location));
    code.push(Statement::new(Statement::Label(numbered("ret", index)), location.clone()));
    assert(code.deep_view() =~= moves + call_tail(name@, location@, index as nat));
    Ok(code)
}

/// An error among the first arguments is the error of the whole list.
pub proof fn lemma_argument_moves_fail(
    args: Seq<MacroArgumentNodeView>,
    location: LocationView,
    n: nat,
    m: nat,
)
    requires
        n <= m,
        argument_moves(args, location, n) is Err,
    ensures
        argument_moves(args, location, m) == argument_moves(args, location, n),
    decreases m - n,
{
    if n < m {
        lemma_argument_moves_fail(args, location, n, (m - 1) as nat);
    }
}

/// Writes what takes the place of one statement, and gives the state behind
/// it.
pub fn rewrite(stmt: &StatementNode, action: SubroutineState, previous: SubroutineState, index: usize) -> (r:
    Result<(Vec<StatementNode>, SubroutineState), Diagnostic>)
    ensures
        match r {
            Ok((code, next)) => rewritten(stmt@, action@, previous@, index as nat) == Ok::<
                _,
                DiagnosticView,
            >((code.deep_view(), next@)),
            Err(d) => rewritten(stmt@, action@, previous@, index as nat) == Err::<
                (Seq<StatementNodeView>, SubroutineStateView),
                _,
            >(d@),
        },
{
    let location = &stmt.location;
    match action {
        SubroutineState::SubroutineStart(name) => {
            let mut operands: Vec<ArgumentNode> = Vec::new();
            operands.push(make_argument(Argument::Const(Ident::from_str("return")), location));
            operands.push(make_argument(Argument::Literal(0), location));
            assert(operands.deep_view() =~= seq![
                argument(ArgumentView::Const("return"@), location@),
                argument(ArgumentView::Literal(0), location@),
            ]);
            let mut code: Vec<StatementNode> = Vec::new();
            code.push(Statement::new(Statement::Label(name), location.clone()));
            code.push(make_operation(crate::machine::Mnemonic::MOV, operands, location));
            assert(code.deep_view() =~= start_code(name@, location@));
            Ok((code, SubroutineState::InSubroutine))
        },
        SubroutineState::SubroutineEnd => {
            let mut operands: Vec<ArgumentNode> = Vec::new();
            operands.push(make_argument(Argument::Const(Ident::from_str("jump_back")), location));
            assert(operands.deep_view() =~= seq![
                argument(ArgumentView::Const("jump_back"@), location@),
            ]);
            let mut code: Vec<StatementNode> = Vec::new();
            code.push(make_operation(crate::machine::Mnemonic::JMP, operands, location));
            assert(code.deep_view() =~= end_code(location@));
            Ok((code, SubroutineState::NotInSubroutine))
        },
        SubroutineState::SubroutineCall(name, args) => {
            match rewrite_call(&name, &args, location, index) {
                Ok(code) => Ok((code, previous)),
                Err(d) => Err(d),
            }
        },
        other => {
            let mut code: Vec<StatementNode> = Vec::new();
            code.push(stmt.clone());
            assert(code.deep_view() =~= seq![stmt@]);
            Ok((code, other))
        },
    }
}

/// Rewrites the subroutine macros of a program.
pub fn process_macros(routines: &Table<usize>, source: &Program) -> (r: Result<Program, Diagnostic>)
    ensures
        match r {
            Ok(out) => processed(routines.history(), source.deep_view()) matches Ok(end)
                && end.0 == out.deep_view(),
            Err(d) => processed(routines.history(), source.deep_view()) == Err::<
                (Seq<StatementNodeView>, SubroutineStateView),
                _,
            >(d@),
        },
{
    let mut state = SubroutineState::NotInSubroutine;
    let mut out: Vec<StatementNode> = Vec::new();
    let mut i: usize = 0;
    let ghost program = source.deep_view();
    proof {
        assert(program.take(0) =~= Seq::empty());
        assert(out.deep_view() =~= Seq::empty());
    }
    while i < source.len()
        invariant
            i <= source.len(),
            program == source.deep_view(),
            processed(routines.history(), program.take(i as int)) == Ok::<_, DiagnosticView>(
                (out.deep_view(), state@),
            ),
        decreases source.len() - i,
    {
        proof {
            assert(program.take(i + 1).drop_last() =~= program.take(i as int));
            assert(program.take(i + 1).last() == source@[i as int]@);
        }
        let action = match get_state_for(routines, &source[i], &state) {
            Ok(action) => action,
            Err(d) => {
                proof {
                    lemma_processed_fails(routines.history(), program, i + 1);
                }
                return Err(d);
            },
        };
        match rewrite(&source[i], action, state, out.len()) {
            Ok((code, next)) => {
                emit(&mut out, code);
                state = next;
            },
            Err(d) => {
                proof {
                    lemma_processed_fails(routines.history(), program, i + 1);
                }
                return Err(d);
            },
        }
        i += 1;
    }
    assert(program.take(i as int) =~= program);
    Ok(out)
}

// --- Pass 3 and the whole ------------------------------------------------------

/// Whether a statement is a macro.
pub open spec fn is_macro(stmt: StatementNodeView) -> bool {
    stmt.value is Macro
}

/// A program without its macro statements.
pub open spec fn without_macros(program: Seq<StatementNodeView>) -> Seq<StatementNodeView> {
    program.filter(|stmt: StatementNodeView| !is_macro(stmt))
}

/// What the pass makes of a program.
///
/// A program that declares no subroutine stays as it is. Otherwise the
/// preamble is put in front, the subroutine macros are rewritten, and every
/// macro that is left is removed.
pub open spec fn expanded(program: Seq<StatementNodeView>) -> Result<
    Seq<StatementNodeView>,
    DiagnosticView,
> {
    match declared(program) {
        Err(d) => Err(d),
        Ok(routines) => if routines.len() == 0 {
            Ok(program)
        } else {
            match processed(routines, preamble(max_arity(routines) as nat) + program) {
                Err(d) => Err(d),
                Ok((out, _)) => Ok(without_macros(out)),
            }
        },
    }
}

/// Copies the statements of a program that are no macros.
pub fn remove_macros(source: &Program) -> (r: Program)
    ensures
        r.deep_view() == without_macros(source.deep_view()),
{
    let mut r: Vec<StatementNode> = Vec::new();
    let mut i: usize = 0;
    let ghost program = source.deep_view();
    let ghost keep = |stmt: StatementNodeView| !is_macro(stmt);
    proof {
        assert(program.take(0) =~= Seq::empty());
        assert(r.deep_view() =~= Seq::empty());
        reveal(Seq::filter);
    }
    while i < source.len()
        invariant
            i <= source.len(),
            program == source.deep_view(),
            keep == (|stmt: StatementNodeView| !is_macro(stmt)),
            r.deep_view() == program.take(i as int).filter(keep),
        decreases source.len() - i,
    {
        proof {
            reveal(Seq::filter);
            assert(program.take(i + 1).drop_last() =~= program.take(i as int));
            assert(program.take(i + 1).last() == source@[i as int]@);
        }
        let ghost before = r.deep_view();
        match &source[i].value {
            Statement::Macro(_, _) => {},
            _ => {
                r.push(source[i].clone());
                assert(r.deep_view() =~= before.push(source@[i as int]@));
            },
        }
        i += 1;
    }
    assert(program.take(i as int) =~= program);
    r
}

/// Copies a program.
pub fn clone_program(source: &Program) -> (r: Program)
    ensures
        r.deep_view() == source.deep_view(),
{
    let mut r: Vec<StatementNode> = Vec::new();
    let mut i: usize = 0;
    while i < source.len()
        invariant
            i <= source.len(),
            r@.len() == i,
            forall|j: int| 0 <= j < i ==> r@[j]@ == source@[j]@,
        decreases source.len() - i,
    {
        r.push(source[i].clone());
        i += 1;
    }
    assert(r.deep_view() =~= source.deep_view());
    r
}

/// Expands the subroutine macros of a program. On an error the program is
/// left as it was.
pub fn expand(source: &mut Program) -> (r: Result<(), Diagnostic>)
    ensures
        match r {
            Ok(()) => expanded(old(source).deep_view()) == Ok::<_, DiagnosticView>(
                final(source).deep_view(),
            ),
            Err(d) => expanded(old(source).deep_view()) == Err::<Seq<StatementNodeView>, _>(d@)
                && final(source).deep_view() == old(source).deep_view(),
        },
{
    let routines = match collect_routines(source) {
        Ok(routines) => routines,
        Err(d) => {
            return Err(d);
        },
    };
    if routines.len() == 0 {
        return Ok(());
    }
    let mut with_preamble = build_preamble(&routines);
    let ghost head = with_preamble.deep_view();
    let mut body = clone_program(source);
    with_preamble.append(&mut body);
    assert(with_preamble.deep_view() =~= head + source.deep_view());
    match process_macros(&routines, &with_preamble) {
        Ok(out) => {
            *source = remove_macros(&out);
            Ok(())
        },
        Err(d) => Err(d),
    }
}

// --- Laws ----------------------------------------------------------------------

/// Behind the pass no macro is left, in a program that declares a
/// subroutine. (A program that declares none is left as it is, with the
/// macros that it may hold.)
pub proof fn lemma_no_macro_remains(program: Seq<StatementNodeView>)
    requires
        expanded(program) is Ok,
        declared(program) matches Ok(routines) && routines.len() > 0,
    ensures
        expanded(program) matches Ok(out) && forall|i: int|
            0 <= i < out.len() ==> !is_macro(#[trigger] out[i]),
{
    if let Ok(routines) = declared(program) {
        if let Ok((rewritten, _)) = processed(
            routines,
            preamble(max_arity(routines) as nat) + program,
        ) {
            let keep = |stmt: StatementNodeView| !is_macro(stmt);
            let out = rewritten.filter(keep);
            assert forall|i: int| 0 <= i < out.len() implies !is_macro(#[trigger] out[i]) by {
                rewritten.lemma_filter_pred(keep, i);
            }
        }
    }
}

/// The return labels of two calls differ: a call that is written at another
/// index gets a label of another name.
pub proof fn lemma_return_labels_differ(i: nat, j: nat)
    requires
        i != j,
    ensures
        return_label(i) != return_label(j),
{
    lemma_decimal_differs(i, j);
    let prefix = "ret"@;
    if return_label(i) == return_label(j) {
        assert((prefix + decimal(i)).subrange(prefix.len() as int, (prefix + decimal(i)).len() as int)
            =~= decimal(i));
        assert((prefix + decimal(j)).subrange(prefix.len() as int, (prefix + decimal(j)).len() as int)
            =~= decimal(j));
    }
}

/// A program that declares no subroutine is left as it is.
pub proof fn lemma_nothing_declared(program: Seq<StatementNodeView>)
    requires
        declared(program) matches Ok(routines) && routines.len() == 0,
    ensures
        expanded(program) == Ok::<_, DiagnosticView>(program),
{
}

/// `@start` inside a subroutine is an error: where the statements before
/// the `k`-th are rewritten without an error and end inside a subroutine,
/// and the `k`-th statement is `@start`, the pass fails at it.
pub proof fn lemma_nested_start_is_fatal(
    routines: Seq<(Seq<char>, usize)>,
    program: Seq<StatementNodeView>,
    k: int,
)
    requires
        0 <= k < program.len(),
        processed(routines, program.take(k)) matches Ok(before) && before.1 is InSubroutine,
        program[k].value matches StatementView::Macro(name, _) && name == "start"@,
    ensures
        processed(routines, program) == Err::<(Seq<StatementNodeView>, SubroutineStateView), _>(
            problem_at(ProblemView::NestedSubroutine, program[k].location),
        ),
{
    assert(program.take(k + 1).drop_last() =~= program.take(k));
    assert(program.take(k + 1).last() == program[k]);
    lemma_processed_fails(routines, program, k + 1);
}

/// `@call` with another number of arguments than the subroutine declares is
/// an error: where the statements before the `k`-th are rewritten without an
/// error, and the `k`-th statement calls a declared subroutine with a wrong
/// number of arguments, the pass fails at it.
pub proof fn lemma_wrong_arity_is_fatal(
    routines: Seq<(Seq<char>, usize)>,
    program: Seq<StatementNodeView>,
    k: int,
    routine: Seq<char>,
    argc: usize,
)
    requires
        0 <= k < program.len(),
        processed(routines, program.take(k)) is Ok,
        program[k].value matches StatementView::Macro(name, args) && name == "call"@ && args.len()
            > 0 && args[0].value == MacroArgumentView::Ident(routine) && args.len() - 1 != argc,
        lookup(routines, routine) == Some(argc),
    ensures
        program[k].value matches StatementView::Macro(_, args) && processed(routines, program)
            == Err::<(Seq<StatementNodeView>, SubroutineStateView), _>(
            problem_at(
                ProblemView::WrongArgumentCount {
                    found: (args.len() - 1) as usize,
                    expected: argc,
                },
                args[0].location,
            ),
        ),
{
    reveal_strlit("call");
    reveal_strlit("start");
    reveal_strlit("end");
    assert("call"@.len() == 4);
    assert("start"@.len() == 5);
    assert("end"@.len() == 3);
    assert(program.take(k + 1).drop_last() =~= program.take(k));
    assert(program.take(k + 1).last() == program[k]);
    lemma_processed_fails(routines, program, k + 1);
}

/// `@call` of a subroutine that is not declared is an error, in the same
/// way.
pub proof fn lemma_unknown_subroutine_is_fatal(
    routines: Seq<(Seq<char>, usize)>,
    program: Seq<StatementNodeView>,
    k: int,
    routine: Seq<char>,
)
    requires
        0 <= k < program.len(),
        processed(routines, program.take(k)) is Ok,
        program[k].value matches StatementView::Macro(name, args) && name == "call"@ && args.len()
            > 0 && args[0].value == MacroArgumentView::Ident(routine),
        lookup(routines, routine).is_none(),
    ensures
        processed(routines, program) == Err::<(Seq<StatementNodeView>, SubroutineStateView), _>(
            problem_at(ProblemView::UnknownSubroutine(routine), program[k].location),
        ),
{
    reveal_strlit("call");
    reveal_strlit("start");
    reveal_strlit("end");
    assert("call"@.len() == 4);
    assert("start"@.len() == 5);
    assert("end"@.len() == 3);
    assert(program.take(k + 1).drop_last() =~= program.take(k));
    assert(program.take(k + 1).last() == program[k]);
    lemma_processed_fails(routines, program, k + 1);
}

} // verus!
