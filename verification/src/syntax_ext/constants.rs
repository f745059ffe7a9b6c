//! Constants.
//!
//! `$name = value` binds a name to a literal or an address. The pass removes
//! the definitions and replaces every `$name` among the operands of an
//! operation by the value of the name. A definition may stand behind its
//! uses; of two definitions of one name the later holds.
use vstd::prelude::*;
use crate::ast::{
    Argument, ArgumentNode, ArgumentNodeView, ArgumentView, MacroArgumentView, Program, Statement,
    StatementNode, StatementNodeView, StatementView,
};
use crate::util::{
    diagnostic, lemma_lookup_is_entry, lookup, problem_at, Diagnostic, DiagnosticView, Problem, ProblemView, Table,
};

verus! {

// --- Pass 1: the definitions ---------------------------------------------------

/// What a statement defines: nothing, unless it defines a constant; then the
/// name and its value, or an error where the value is neither a literal nor
/// an address.
pub open spec fn definition(stmt: StatementNodeView) -> Option<
    Result<(Seq<char>, ArgumentView), DiagnosticView>,
> {
    match stmt.value {
        StatementView::Const(name, value) => match value.value {
            ArgumentView::Literal(_) | ArgumentView::Address(_) => Some(Ok((name, value.value))),
            _ => Some(Err(problem_at(ProblemView::InvalidConstantValue, value.location))),
        },
        _ => None,
    }
}

/// The place of the value of a constant definition.
pub open spec fn value_location(stmt: StatementNodeView) -> crate::lexer::LocationView {
    match stmt.value {
        StatementView::Const(_, value) => value.location,
        _ => stmt.location,
    }
}

/// The definitions of a program in source order, with a warning for each
/// name that is defined again; or the first error.
pub open spec fn defined(program: Seq<StatementNodeView>) -> Result<
    (Seq<(Seq<char>, ArgumentView)>, Seq<DiagnosticView>),
    DiagnosticView,
>
    decreases program.len(),
{
    if program.len() == 0 {
        Ok((Seq::empty(), Seq::empty()))
    } else {
        match defined(program.drop_last()) {
            Err(d) => Err(d),
            Ok((table, warnings)) => match definition(program.last()) {
                None => Ok((table, warnings)),
                Some(Err(d)) => Err(d),
                Some(Ok((name, value))) => Ok(
                    (
                        table.push((name, value)),
                        if lookup(table, name).is_some() {
                            warnings.push(
                                problem_at(
                                    ProblemView::ConstantRedefinition(name),
                                    value_location(program.last()),
                                ),
                            )
                        } else {
                            warnings
                        },
                    ),
                ),
            },
        }
    }
}

/// An error in a prefix of a program is the error of the program.
pub proof fn lemma_defined_fails(program: Seq<StatementNodeView>, n: int)
    requires
        0 <= n <= program.len(),
        defined(program.take(n)) is Err,
    ensures
        defined(program) == defined(program.take(n)),
    decreases program.len() - n,
{
    if n < program.len() {
        assert(program.take(n + 1).drop_last() =~= program.take(n));
        lemma_defined_fails(program, n + 1);
    } else {
        assert(program.take(n) =~= program);
    }
}

/// Whether a statement defines a constant.
pub open spec fn is_definition(stmt: StatementNodeView) -> bool {
    stmt.value is Const
}

/// A program without its constant definitions.
pub open spec fn without_definitions(program: Seq<StatementNodeView>) -> Seq<StatementNodeView> {
    program.filter(|stmt: StatementNodeView| !is_definition(stmt))
}

// --- Pass 2: the uses ----------------------------------------------------------

/// An argument with a reference to a constant replaced by the value of the
/// constant. The argument keeps its place. A reference to a name that is not
/// defined is an error.
pub open spec fn resolved_argument(
    table: Seq<(Seq<char>, ArgumentView)>,
    arg: ArgumentNodeView,
) -> Result<ArgumentNodeView, DiagnosticView> {
    match arg.value {
        ArgumentView::Const(name) => match lookup(table, name) {
            Some(value) => Ok(ArgumentNodeView { value, location: arg.location }),
            None => Err(problem_at(ProblemView::UnknownConstant(name), arg.location)),
        },
        _ => Ok(arg),
    }
}

/// A list of arguments with each reference replaced, or the first error.
pub open spec fn resolved_arguments(
    table: Seq<(Seq<char>, ArgumentView)>,
    args: Seq<ArgumentNodeView>,
) -> Result<Seq<ArgumentNodeView>, DiagnosticView>
    decreases args.len(),
{
    if args.len() == 0 {
        Ok(Seq::empty())
    } else {
        match resolved_arguments(table, args.drop_last()) {
            Err(d) => Err(d),
            Ok(front) => match resolved_argument(table, args.last()) {
                Err(d) => Err(d),
                Ok(arg) => Ok(front.push(arg)),
            },
        }
    }
}

/// A statement with the references among the operands of an operation
/// replaced. Other statements stay as they are.
pub open spec fn resolved_statement(
    table: Seq<(Seq<char>, ArgumentView)>,
    stmt: StatementNodeView,
) -> Result<StatementNodeView, DiagnosticView> {
    match stmt.value {
        StatementView::Operation(mnem, args) => match resolved_arguments(table, args) {
            Err(d) => Err(d),
            Ok(args) => Ok(
                StatementNodeView {
                    value: StatementView::Operation(mnem, args),
                    location: stmt.location,
                },
            ),
        },
        _ => Ok(stmt),
    }
}

/// A program with the references in its operations replaced, or the first
/// error.
pub open spec fn resolved(table: Seq<(Seq<char>, ArgumentView)>, program: Seq<StatementNodeView>) -> Result<
    Seq<StatementNodeView>,
    DiagnosticView,
>
    decreases program.len(),
{
    if program.len() == 0 {
        Ok(Seq::empty())
    } else {
        match resolved(table, program.drop_last()) {
            Err(d) => Err(d),
            Ok(front) => match resolved_statement(table, program.last()) {
                Err(d) => Err(d),
                Ok(stmt) => Ok(front.push(stmt)),
            },
        }
    }
}

/// What the pass makes of a program: the program without its definitions
/// and with every use replaced, and the warnings; or the first error. An
/// error in a definition comes before an error in a use.
pub open spec fn expanded(program: Seq<StatementNodeView>) -> Result<
    (Seq<StatementNodeView>, Seq<DiagnosticView>),
    DiagnosticView,
> {
    match defined(program) {
        Err(d) => Err(d),
        Ok((table, warnings)) => match resolved(table, without_definitions(program)) {
            Err(d) => Err(d),
            Ok(out) => Ok((out, warnings)),
        },
    }
}

/// Collects the definitions of a program and drops them from it.
fn collect(source: &Program) -> (r: Result<(Table<Argument>, Program, Vec<Diagnostic>), Diagnostic>)
    ensures
        match r {
            Ok((table, rest, warnings)) => defined(source.deep_view()) == Ok::<_, DiagnosticView>(
                (table.history(), warnings.deep_view()),
            ) && rest.deep_view() == without_definitions(source.deep_view()),
            Err(d) => defined(source.deep_view()) == Err::<
                (Seq<(Seq<char>, ArgumentView)>, Seq<DiagnosticView>),
                _,
            >(d@),
        },
{
    let mut table: Table<Argument> = Table::new();
    let mut rest: Vec<StatementNode> = Vec::new();
    let mut warnings: Vec<Diagnostic> = Vec::new();
    let mut i: usize = 0;
    let ghost program = source.deep_view();
    let ghost keep = |stmt: StatementNodeView| !is_definition(stmt);
    proof {
        reveal(Seq::filter);
        assert(program.take(0) =~= Seq::empty());
        assert(rest.deep_view() =~= Seq::empty());
        assert(warnings.deep_view() =~= Seq::empty());
    }
    while i < source.len()
        invariant
            i <= source.len(),
            program == source.deep_view(),
            keep == (|stmt: StatementNodeView| !is_definition(stmt)),
            defined(program.take(i as int)) == Ok::<_, DiagnosticView>(
                (table.history(), warnings.deep_view()),
            ),
            rest.deep_view() == program.take(i as int).filter(keep),
        decreases source.len() - i,
    {
        proof {
            reveal(Seq::filter);
            assert(program.take(i + 1).drop_last() =~= program.take(i as int));
            assert(program.take(i + 1).last() == source@[i as int]@);
        }
        match &source[i].value {
            Statement::Const(name, value) => {
                match &value.value {
                    Argument::Literal(_) | Argument::Address(_) => {
                        if table.insert(name.clone(), value.value.clone()) {
                            let ghost before = warnings.deep_view();
                            warnings.push(
                                diagnostic(
                                    Problem::ConstantRedefinition(name.clone()),
                                    &value.location,
                                ),
                            );
                            assert(warnings.deep_view() =~= before.push(
                                warnings@[warnings@.len() - 1]@,
                            ));
                        }
                    },
                    _ => {
                        proof {
                            lemma_defined_fails(program, i + 1);
                        }
                        return Err(diagnostic(Problem::InvalidConstantValue, &value.location));
                    },
                }
            },
            _ => {
                let ghost before = rest.deep_view();
                rest.push(source[i].clone());
                assert(rest.deep_view() =~= before.push(source@[i as int]@));
            },
        }
        i += 1;
    }
    assert(program.take(i as int) =~= program);
    Ok((table, rest, warnings))
}

/// Computes [`resolved_argument`].
fn resolve_argument(table: &Table<Argument>, arg: &ArgumentNode) -> (r: Result<
    ArgumentNode,
    Diagnostic,
>)
    ensures
        match r {
            Ok(out) => resolved_argument(table.history(), arg@) == Ok::<_, DiagnosticView>(out@),
            Err(d) => resolved_argument(table.history(), arg@) == Err::<ArgumentNodeView, _>(d@),
        },
{
    match &arg.value {
        Argument::Const(name) => match table.get(name) {
            Some(value) => Ok(
                ArgumentNode { value: value.clone(), location: arg.location.clone() },
            ),
            None => Err(diagnostic(Problem::UnknownConstant(name.clone()), &arg.location)),
        },
        _ => Ok(arg.clone()),
    }
}

/// An error among the first arguments is the error of the whole list.
pub proof fn lemma_resolved_arguments_fail(
    table: Seq<(Seq<char>, ArgumentView)>,
    args: Seq<ArgumentNodeView>,
    n: int,
)
    requires
        0 <= n <= args.len(),
        resolved_arguments(table, args.take(n)) is Err,
    ensures
        resolved_arguments(table, args) == resolved_arguments(table, args.take(n)),
    decreases args.len() - n,
{
    if n < args.len() {
        assert(args.take(n + 1).drop_last() =~= args.take(n));
        lemma_resolved_arguments_fail(table, args, n + 1);
    } else {
        assert(args.take(n) =~= args);
    }
}

/// An error in a prefix of a program is the error of the program.
pub proof fn lemma_resolved_fails(
    table: Seq<(Seq<char>, ArgumentView)>,
    program: Seq<StatementNodeView>,
    n: int,
)
    requires
        0 <= n <= program.len(),
        resolved(table, program.take(n)) is Err,
    ensures
        resolved(table, program) == resolved(table, program.take(n)),
    decreases program.len() - n,
{
    if n < program.len() {
        assert(program.take(n + 1).drop_last() =~= program.take(n));
        lemma_resolved_fails(table, program, n + 1);
    } else {
        assert(program.take(n) =~= program);
    }
}

/// Computes [`resolved_arguments`].
fn resolve_arguments(table: &Table<Argument>, args: &Vec<ArgumentNode>) -> (r: Result<
    Vec<ArgumentNode>,
    Diagnostic,
>)
    ensures
        match r {
            Ok(out) => resolved_arguments(table.history(), args.deep_view()) == Ok::<
                _,
                DiagnosticView,
            >(out.deep_view()),
            Err(d) => resolved_arguments(table.history(), args.deep_view()) == Err::<
                Seq<ArgumentNodeView>,
                _,
            >(d@),
        },
{
    let mut out: Vec<ArgumentNode> = Vec::new();
    let mut i: usize = 0;
    let ghost view = args.deep_view();
    proof {
        assert(view.take(0) =~= Seq::empty());
        assert(out.deep_view() =~= Seq::empty());
    }
    while i < args.len()
        invariant
            i <= args.len(),
            view == args.deep_view(),
            out@.len() == i,
            resolved_arguments(table.history(), view.take(i as int)) == Ok::<_, DiagnosticView>(
                out.deep_view(),
            ),
        decreases args.len() - i,
    {
        proof {
            assert(view.take(i + 1).drop_last() =~= view.take(i as int));
            assert(view.take(i + 1).last() == args@[i as int]@);
        }
        match resolve_argument(table, &args[i]) {
            Ok(arg) => {
                let ghost before = out.deep_view();
                out.push(arg);
                assert(out.deep_view() =~= before.push(out@[i as int]@));
            },
            Err(d) => {
                proof {
                    lemma_resolved_arguments_fail(table.history(), view, i + 1);
                }
                return Err(d);
            },
        }
        i += 1;
    }
    assert(view.take(i as int) =~= view);
    Ok(out)
}

/// Computes [`resolved`].
fn resolve(table: &Table<Argument>, source: &Program) -> (r: Result<Program, Diagnostic>)
    ensures
        match r {
            Ok(out) => resolved(table.history(), source.deep_view()) == Ok::<_, DiagnosticView>(
                out.deep_view(),
            ),
            Err(d) => resolved(table.history(), source.deep_view()) == Err::<
                Seq<StatementNodeView>,
                _,
            >(d@),
        },
{
    let mut out: Vec<StatementNode> = Vec::new();
    let mut i: usize = 0;
    let ghost program = source.deep_view();
    proof {
        assert(program.take(0) =~= Seq::empty());
        assert(out.deep_view() =~= Seq::empty());
    }
    while i < source.len()
        invariant
            i <= source.len(),
            program == source.deep_view(),
            out@.len() == i,
            resolved(table.history(), program.take(i as int)) == Ok::<_, DiagnosticView>(
                out.deep_view(),
            ),
        decreases source.len() - i,
    {
        proof {
            assert(program.take(i + 1).drop_last() =~= program.take(i as int));
            assert(program.take(i + 1).last() == source@[i as int]@);
        }
        let stmt = match &source[i].value {
            Statement::Operation(mnem, args) => match resolve_arguments(table, args) {
                Ok(args) => StatementNode {
                    value: Statement::Operation(*mnem, args),
                    location: source[i].location.clone(),
                },
                Err(d) => {
                    proof {
                        lemma_resolved_fails(table.history(), program, i + 1);
                    }
                    return Err(d);
                },
            },
            _ => source[i].clone(),
        };
        let ghost before = out.deep_view();
        out.push(stmt);
        assert(out.deep_view() =~= before.push(out@[i as int]@));
        i += 1;
    }
    assert(program.take(i as int) =~= program);
    Ok(out)
}

/// Replaces the constants of a program by their values and gives the
/// warnings. On an error the program is left as it was.
pub fn expand(source: &mut Program) -> (r: Result<Vec<Diagnostic>, Diagnostic>)
    ensures
        match r {
            Ok(warnings) => expanded(old(source).deep_view()) == Ok::<_, DiagnosticView>(
                (final(source).deep_view(), warnings.deep_view()),
            ),
            Err(d) => expanded(old(source).deep_view()) == Err::<
                (Seq<StatementNodeView>, Seq<DiagnosticView>),
                _,
            >(d@) && final(source).deep_view() == old(source).deep_view(),
        },
{
    let (table, rest, warnings) = match collect(source) {
        Ok(found) => found,
        Err(d) => {
            return Err(d);
        },
    };
    match resolve(&table, &rest) {
        Ok(out) => {
            *source = out;
            Ok(warnings)
        },
        Err(d) => Err(d),
    }
}

// --- Laws ----------------------------------------------------------------------

/// Whether no constant is left in a statement: the statement defines none,
/// and none of its arguments refers to one.
pub open spec fn constant_free(stmt: StatementNodeView) -> bool {
    match stmt.value {
        StatementView::Const(_, _) => false,
        StatementView::Operation(_, args) => forall|j: int|
            0 <= j < args.len() ==> !((#[trigger] args[j]).value is Const),
        StatementView::Macro(_, args) => forall|j: int|
            0 <= j < args.len() ==> !((#[trigger] args[j]).value matches MacroArgumentView::Argument(
                arg,
            ) && arg.value is Const),
        _ => true,
    }
}

/// The values of the definitions are literals and addresses.
pub proof fn lemma_defined_values(program: Seq<StatementNodeView>)
    ensures
        defined(program) matches Ok(found) ==> forall|i: int|
            0 <= i < found.0.len() ==> (#[trigger] found.0[i]).1 is Literal || found.0[i].1
                is Address,
    decreases program.len(),
{
    if program.len() > 0 {
        lemma_defined_values(program.drop_last());
    }
}

/// The arguments that were resolved are as many as there were, each the
/// resolved form of its argument.
pub proof fn lemma_resolved_arguments_each(
    table: Seq<(Seq<char>, ArgumentView)>,
    args: Seq<ArgumentNodeView>,
)
    ensures
        resolved_arguments(table, args) matches Ok(out) ==> out.len() == args.len() && forall|
            j: int,
        |
            0 <= j < args.len() ==> resolved_argument(table, #[trigger] args[j]) == Ok::<
                _,
                DiagnosticView,
            >(out[j]),
    decreases args.len(),
{
    if args.len() > 0 {
        lemma_resolved_arguments_each(table, args.drop_last());
        if let Ok(out) = resolved_arguments(table, args) {
            assert forall|j: int| 0 <= j < args.len() implies resolved_argument(
                table,
                #[trigger] args[j],
            ) == Ok::<_, DiagnosticView>(out[j]) by {
                if j < args.len() - 1 {
                    assert(args.drop_last()[j] == args[j]);
                }
            }
        }
    }
}

/// The statements that were resolved are as many as there were, each the
/// resolved form of its statement.
pub proof fn lemma_resolved_each(
    table: Seq<(Seq<char>, ArgumentView)>,
    program: Seq<StatementNodeView>,
)
    ensures
        resolved(table, program) matches Ok(out) ==> out.len() == program.len() && forall|i: int|
            0 <= i < program.len() ==> resolved_statement(table, #[trigger] program[i]) == Ok::<
                _,
                DiagnosticView,
            >(out[i]),
    decreases program.len(),
{
    if program.len() > 0 {
        lemma_resolved_each(table, program.drop_last());
        if let Ok(out) = resolved(table, program) {
            assert forall|i: int| 0 <= i < program.len() implies resolved_statement(
                table,
                #[trigger] program[i],
            ) == Ok::<_, DiagnosticView>(out[i]) by {
                if i < program.len() - 1 {
                    assert(program.drop_last()[i] == program[i]);
                }
            }
        }
    }
}

/// Behind the pass no constant is left: no definition, and no reference
/// among the arguments of an operation. (The arguments of macros are not
/// resolved; the law speaks of programs without macros, as the subroutine
/// pass leaves them.)
pub proof fn lemma_no_constant_remains(program: Seq<StatementNodeView>)
    requires
        expanded(program) is Ok,
        forall|i: int| 0 <= i < program.len() ==> !((#[trigger] program[i]).value is Macro),
    ensures
        expanded(program) matches Ok(out) && forall|i: int|
            0 <= i < out.0.len() ==> constant_free(#[trigger] out.0[i]),
{
    let (table, _) = defined(program)->Ok_0;
    let keep = |stmt: StatementNodeView| !is_definition(stmt);
    let rest = program.filter(keep);
    let out = resolved(table, rest)->Ok_0;
    lemma_defined_values(program);
    lemma_resolved_each(table, rest);
    assert forall|i: int| 0 <= i < out.len() implies constant_free(#[trigger] out[i]) by {
        program.lemma_filter_pred(keep, i);
        assert(rest.contains(rest[i]));
        program.lemma_filter_contains_rev(keep, rest[i]);
        let k = choose|k: int| 0 <= k < program.len() && program[k] == rest[i];
        assert(!(program[k].value is Macro));
        assert(resolved_statement(table, rest[i]) == Ok::<_, DiagnosticView>(out[i]));
        if let StatementView::Operation(mnem, args) = rest[i].value {
            lemma_resolved_arguments_each(table, args);
            let new_args = resolved_arguments(table, args)->Ok_0;
            assert(out[i].value == StatementView::Operation(mnem, new_args));
            assert forall|j: int| 0 <= j < new_args.len() implies !((#[trigger] new_args[j]).value
                is Const) by {
                assert(resolved_argument(table, args[j]) == Ok::<_, DiagnosticView>(new_args[j]));
                if let ArgumentView::Const(name) = args[j].value {
                    lemma_lookup_is_entry(table, name);
                }
            }
        }
    }
}

/// A reference to a constant that is not defined is an error: where an
/// operation of the program refers, among its arguments, to a name that no
/// definition binds, the pass fails.
pub proof fn lemma_unknown_constant_is_fatal(
    program: Seq<StatementNodeView>,
    i: int,
    j: int,
    name: Seq<char>,
)
    requires
        0 <= i < program.len(),
        program[i].value matches StatementView::Operation(_, args) && 0 <= j < args.len()
            && args[j].value == ArgumentView::Const(name),
        defined(program) matches Ok(found) ==> lookup(found.0, name).is_none(),
    ensures
        expanded(program) is Err,
{
    if let Ok((table, _)) = defined(program) {
        let keep = |stmt: StatementNodeView| !is_definition(stmt);
        let rest = program.filter(keep);
        if let Ok(out) = resolved(table, rest) {
            lemma_resolved_each(table, rest);
            program.lemma_filter_contains(keep, i);
            let k = choose|k: int| 0 <= k < rest.len() && rest[k] == program[i];
            assert(resolved_statement(table, rest[k]) is Ok);
            if let StatementView::Operation(_, args) = program[i].value {
                lemma_resolved_arguments_each(table, args);
                assert(resolved_argument(table, args[j]) is Err);
            }
        }
    }
}

} // verus!
