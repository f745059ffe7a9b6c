//! Labels.
//!
//! `name:` marks the byte offset of the operation that follows it. The pass
//! removes the marks and replaces every `:name` among the operands of an
//! operation by the offset of the label, as a literal. A label may stand
//! behind its uses; of two definitions of one name the later holds.
//!
//! An operand is a single byte. A reference to a label whose offset is
//! greater than 255 is an error; a label that nothing refers to may stand
//! anywhere.
use vstd::prelude::*;
use crate::ast::{
    Argument, ArgumentNode, ArgumentNodeView, ArgumentView, Program, Statement, StatementNode,
    StatementNodeView, StatementView,
};
use crate::util::{
    diagnostic, lookup, problem_at, Diagnostic, DiagnosticView, Problem, ProblemView, Table,
};

verus! {

// --- Pass 1: the offsets -------------------------------------------------------

/// The offset behind an operation with `argc` operands that stands at
/// `offset`: one byte for the opcode and one for each operand. Offsets
/// beyond the range of the machine's integers stay at the end of that range.
pub open spec fn advanced(offset: usize, argc: nat) -> usize {
    if offset + 1 + argc > usize::MAX {
        usize::MAX
    } else {
        (offset + 1 + argc) as usize
    }
}

/// Computes [`advanced`].
fn advance(offset: usize, argc: usize) -> (r: usize)
    ensures
        r == advanced(offset, argc as nat),
{
    match offset.checked_add(1) {
        Some(next) => match next.checked_add(argc) {
            Some(end) => end,
            None => usize::MAX,
        },
        None => usize::MAX,
    }
}

/// The labels of a program, each with the offset at which it stands, in
/// source order; the offset behind the last statement; and a warning for
/// each label that is defined again.
pub open spec fn labelled(program: Seq<StatementNodeView>) -> (
    Seq<(Seq<char>, usize)>,
    usize,
    Seq<DiagnosticView>,
)
    decreases program.len(),
{
    if program.len() == 0 {
        (Seq::empty(), 0, Seq::empty())
    } else {
        let (table, offset, warnings) = labelled(program.drop_last());
        match program.last().value {
            StatementView::Label(name) => (
                table.push((name, offset)),
                offset,
                if lookup(table, name).is_some() {
                    warnings.push(
                        problem_at(ProblemView::LabelRedefinition(name), program.last().location),
                    )
                } else {
                    warnings
                },
            ),
            StatementView::Operation(_, args) => (table, advanced(offset, args.len()), warnings),
            _ => (table, offset, warnings),
        }
    }
}

/// Whether a statement defines a label.
pub open spec fn is_label(stmt: StatementNodeView) -> bool {
    stmt.value is Label
}

/// A program without its label definitions.
pub open spec fn without_labels(program: Seq<StatementNodeView>) -> Seq<StatementNodeView> {
    program.filter(|stmt: StatementNodeView| !is_label(stmt))
}

// --- Pass 2: the uses ----------------------------------------------------------

/// An argument with a reference to a label replaced by the offset of the
/// label, as a literal. The argument keeps its place. A reference to a label
/// that is not defined, or whose offset does not fit into a byte, is an
/// error.
pub open spec fn resolved_argument(
    table: Seq<(Seq<char>, usize)>,
    arg: ArgumentNodeView,
) -> Result<ArgumentNodeView, DiagnosticView> {
    match arg.value {
        ArgumentView::Label(name) => match lookup(table, name) {
            Some(offset) => if offset > u8::MAX {
                Err(problem_at(ProblemView::LabelOverflow { name, offset }, arg.location))
            } else {
                Ok(
                    ArgumentNodeView {
                        value: ArgumentView::Literal(offset as u8),
                        location: arg.location,
                    },
                )
            },
            None => Err(problem_at(ProblemView::UnknownLabel(name), arg.location)),
        },
        _ => Ok(arg),
    }
}

/// A list of arguments with each reference replaced, or the first error.
pub open spec fn resolved_arguments(
    table: Seq<(Seq<char>, usize)>,
    args: Seq<ArgumentNodeView>,
) -> Result<Seq<ArgumentNodeView>, DiagnosticView>
    decreases args.len(),
{
    if args.len() == 0 {
        Ok(Seq::empty())
    } else {
        match resolved_arguments(table, args.drop_last()) {
            Err(d) => Err(d),
            Ok(front) => match resolved_argument(table, args.last()) {
                Err(d) => Err(d),
                Ok(arg) => Ok(front.push(arg)),
            },
        }
    }
}

/// A statement with the references among the operands of an operation
/// replaced. Other statements stay as they are.
pub open spec fn resolved_statement(
    table: Seq<(Seq<char>, usize)>,
    stmt: StatementNodeView,
) -> Result<StatementNodeView, DiagnosticView> {
    match stmt.value {
        StatementView::Operation(mnem, args) => match resolved_arguments(table, args) {
            Err(d) => Err(d),
            Ok(args) => Ok(
                StatementNodeView {
                    value: StatementView::Operation(mnem, args),
                    location: stmt.location,
                },
            ),
        },
        _ => Ok(stmt),
    }
}

/// A program with the references in its operations replaced, or the first
/// error.
pub open spec fn resolved(table: Seq<(Seq<char>, usize)>, program: Seq<StatementNodeView>) -> Result<
    Seq<StatementNodeView>,
    DiagnosticView,
>
    decreases program.len(),
{
    if program.len() == 0 {
        Ok(Seq::empty())
    } else {
        match resolved(table, program.drop_last()) {
            Err(d) => Err(d),
            Ok(front) => match resolved_statement(table, program.last()) {
                Err(d) => Err(d),
                Ok(stmt) => Ok(front.push(stmt)),
            },
        }
    }
}

/// What the pass makes of a program: the program without its label
/// definitions and with every use replaced, and the warnings; or the first
/// error.
pub open spec fn expanded(program: Seq<StatementNodeView>) -> Result<
    (Seq<StatementNodeView>, Seq<DiagnosticView>),
    DiagnosticView,
> {
    match resolved(labelled(program).0, without_labels(program)) {
        Err(d) => Err(d),
        Ok(out) => Ok((out, labelled(program).2)),
    }
}

/// Collects the labels of a program and drops their definitions from it.
fn collect(source: &Program) -> (r: (Table<usize>, Program, Vec<Diagnostic>))
    ensures
        r.0.history() == labelled(source.deep_view()).0,
        r.1.deep_view() == without_labels(source.deep_view()),
        r.2.deep_view() == labelled(source.deep_view()).2,
{
    let mut table: Table<usize> = Table::new();
    let mut rest: Vec<StatementNode> = Vec::new();
    let mut warnings: Vec<Diagnostic> = Vec::new();
    let mut offset: usize = 0;
    let mut i: usize = 0;
    let ghost program = source.deep_view();
    let ghost keep = |stmt: StatementNodeView| !is_label(stmt);
    proof {
        reveal(Seq::filter);
        assert(program.take(0) =~= Seq::empty());
        assert(rest.deep_view() =~= Seq::empty());
        assert(warnings.deep_view() =~= Seq::empty());
    }
    while i < source.len()
        invariant
            i <= source.len(),
            program == source.deep_view(),
            keep == (|stmt: StatementNodeView| !is_label(stmt)),
            labelled(program.take(i as int)) == (table.history(), offset, warnings.deep_view()),
            rest.deep_view() == program.take(i as int).filter(keep),
        decreases source.len() - i,
    {
        proof {
            reveal(Seq::filter);
            assert(program.take(i + 1).drop_last() =~= program.take(i as int));
            assert(program.take(i + 1).last() == source@[i as int]@);
        }
        match &source[i].value {
            Statement::Label(name) => {
                if table.insert(name.clone(), offset) {
                    let ghost before = warnings.deep_view();
                    warnings.push(
                        diagnostic(Problem::LabelRedefinition(name.clone()), &source[i].location),
                    );
                    assert(warnings.deep_view() =~= before.push(warnings@[warnings@.len() - 1]@));
                }
            },
            Statement::Operation(_, args) => {
                assert(args.deep_view().len() == args@.len());
                offset = advance(offset, args.len());
                let ghost before = rest.deep_view();
                rest.push(source[i].clone());
                assert(rest.deep_view() =~= before.push(source@[i as int]@));
            },
            _ => {
                let ghost before = rest.deep_view();
                rest.push(source[i].clone());
                assert(rest.deep_view() =~= before.push(source@[i as int]@));
            },
        }
        i += 1;
    }
    assert(program.take(i as int) =~= program);
    (table, rest, warnings)
}

/// Computes [`resolved_argument`].
fn resolve_argument(table: &Table<usize>, arg: &ArgumentNode) -> (r: Result<ArgumentNode, Diagnostic>)
    ensures
        match r {
            Ok(out) => resolved_argument(table.history(), arg@) == Ok::<_, DiagnosticView>(out@),
            Err(d) => resolved_argument(table.history(), arg@) == Err::<ArgumentNodeView, _>(d@),
        },
{
    match &arg.value {
        Argument::Label(name) => match table.get(name) {
            Some(offset) => {
                if *offset > 255 {
                    Err(
                        diagnostic(
                            Problem::LabelOverflow { name: name.clone(), offset: *offset },
                            &arg.location,
                        ),
                    )
                } else {
                    Ok(
                        ArgumentNode {
                            value: Argument::Literal(*offset as u8),
                            location: arg.location.clone(),
                        },
                    )
                }
            },
            None => Err(diagnostic(Problem::UnknownLabel(name.clone()), &arg.location)),
        },
        _ => Ok(arg.clone()),
    }
}

/// An error among the first arguments is the error of the whole list.
pub proof fn lemma_resolved_arguments_fail(
    table: Seq<(Seq<char>, usize)>,
    args: Seq<ArgumentNodeView>,
    n: int,
)
    requires
        0 <= n <= args.len(),
        resolved_arguments(table, args.take(n)) is Err,
    ensures
        resolved_arguments(table, args) == resolved_arguments(table, args.take(n)),
    decreases args.len() - n,
{
    if n < args.len() {
        assert(args.take(n + 1).drop_last() =~= args.take(n));
        lemma_resolved_arguments_fail(table, args, n + 1);
    } else {
        assert(args.take(n) =~= args);
    }
}

/// An error in a prefix of a program is the error of the program.
pub proof fn lemma_resolved_fails(
    table: Seq<(Seq<char>, usize)>,
    program: Seq<StatementNodeView>,
    n: int,
)
    requires
        0 <= n <= program.len(),
        resolved(table, program.take(n)) is Err,
    ensures
        resolved(table, program) == resolved(table, program.take(n)),
    decreases program.len() - n,
{
    if n < program.len() {
        assert(program.take(n + 1).drop_last() =~= program.take(n));
        lemma_resolved_fails(table, program, n + 1);
    } else {
        assert(program.take(n) =~= program);
    }
}

/// Computes [`resolved_arguments`].
fn resolve_arguments(table: &Table<usize>, args: &Vec<ArgumentNode>) -> (r: Result<
    Vec<ArgumentNode>,
    Diagnostic,
>)
    ensures
        match r {
            Ok(out) => resolved_arguments(table.history(), args.deep_view()) == Ok::<
                _,
                DiagnosticView,
            >(out.deep_view()),
            Err(d) => resolved_arguments(table.history(), args.deep_view()) == Err::<
                Seq<ArgumentNodeView>,
                _,
            >(d@),
        },
{
    let mut out: Vec<ArgumentNode> = Vec::new();
    let mut i: usize = 0;
    let ghost view = args.deep_view();
    proof {
        assert(view.take(0) =~= Seq::empty());
        assert(out.deep_view() =~= Seq::empty());
    }
    while i < args.len()
        invariant
            i <= args.len(),
            view == args.deep_view(),
            out@.len() == i,
            resolved_arguments(table.history(), view.take(i as int)) == Ok::<_, DiagnosticView>(
                out.deep_view(),
            ),
        decreases args.len() - i,
    {
        proof {
            assert(view.take(i + 1).drop_last() =~= view.take(i as int));
            assert(view.take(i + 1).last() == args@[i as int]@);
        }
        match resolve_argument(table, &args[i]) {
            Ok(arg) => {
                let ghost before = out.deep_view();
                out.push(arg);
                assert(out.deep_view() =~= before.push(out@[i as int]@));
            },
            Err(d) => {
                proof {
                    lemma_resolved_arguments_fail(table.history(), view, i + 1);
                }
                return Err(d);
            },
        }
        i += 1;
    }
    assert(view.take(i as int) =~= view);
    Ok(out)
}

/// Computes [`resolved`].
fn resolve(table: &Table<usize>, source: &Program) -> (r: Result<Program, Diagnostic>)
    ensures
        match r {
            Ok(out) => resolved(table.history(), source.deep_view()) == Ok::<_, DiagnosticView>(
                out.deep_view(),
            ),
            Err(d) => resolved(table.history(), source.deep_view()) == Err::<
                Seq<StatementNodeView>,
                _,
            >(d@),
        },
{
    let mut out: Vec<StatementNode> = Vec::new();
    let mut i: usize = 0;
    let ghost program = source.deep_view();
    proof {
        assert(program.take(0) =~= Seq::empty());
        assert(out.deep_view() =~= Seq::empty());
    }
    while i < source.len()
        invariant
            i <= source.len(),
            program == source.deep_view(),
            out@.len() == i,
            resolved(table.history(), program.take(i as int)) == Ok::<_, DiagnosticView>(
                out.deep_view(),
            ),
        decreases source.len() - i,
    {
        proof {
            assert(program.take(i + 1).drop_last() =~= program.take(i as int));
            assert(program.take(i + 1).last() == source@[i as int]@);
        }
        let stmt = match &source[i].value {
            Statement::Operation(mnem, args) => match resolve_arguments(table, args) {
                Ok(args) => StatementNode {
                    value: Statement::Operation(*mnem, args),
                    location: source[i].location.clone(),
                },
                Err(d) => {
                    proof {
                        lemma_resolved_fails(table.history(), program, i + 1);
                    }
                    return Err(d);
                },
            },
            _ => source[i].clone(),
        };
        let ghost before = out.deep_view();
        out.push(stmt);
        assert(out.deep_view() =~= before.push(out@[i as int]@));
        i += 1;
    }
    assert(program.take(i as int) =~= program);
    Ok(out)
}

/// Replaces the labels of a program by their offsets and gives the
/// warnings. On an error the program is left as it was.
pub fn expand(source: &mut Program) -> (r: Result<Vec<Diagnostic>, Diagnostic>)
    ensures
        match r {
            Ok(warnings) => expanded(old(source).deep_view()) == Ok::<_, DiagnosticView>(
                (final(source).deep_view(), warnings.deep_view()),
            ),
            Err(d) => expanded(old(source).deep_view()) == Err::<
                (Seq<StatementNodeView>, Seq<DiagnosticView>),
                _,
            >(d@) && final(source).deep_view() == old(source).deep_view(),
        },
{
    let (table, rest, warnings) = collect(source);
    match resolve(&table, &rest) {
        Ok(out) => {
            *source = out;
            Ok(warnings)
        },
        Err(d) => Err(d),
    }
}

// --- Laws ----------------------------------------------------------------------

/// The arguments that were resolved are as many as there were, each the
/// resolved form of its argument.
pub proof fn lemma_resolved_arguments_each(
    table: Seq<(Seq<char>, usize)>,
    args: Seq<ArgumentNodeView>,
)
    ensures
        resolved_arguments(table, args) matches Ok(out) ==> out.len() == args.len() && forall|
            j: int,
        |
            0 <= j < args.len() ==> resolved_argument(table, #[trigger] args[j]) == Ok::<
                _,
                DiagnosticView,
            >(out[j]),
    decreases args.len(),
{
    if args.len() > 0 {
        lemma_resolved_arguments_each(table, args.drop_last());
        if let Ok(out) = resolved_arguments(table, args) {
            assert forall|j: int| 0 <= j < args.len() implies resolved_argument(
                table,
                #[trigger] args[j],
            ) == Ok::<_, DiagnosticView>(out[j]) by {
                if j < args.len() - 1 {
                    assert(args.drop_last()[j] == args[j]);
                }
            }
        }
    }
}

/// The statements that were resolved are as many as there were, each the
/// resolved form of its statement.
pub proof fn lemma_resolved_each(
    table: Seq<(Seq<char>, usize)>,
    program: Seq<StatementNodeView>,
)
    ensures
        resolved(table, program) matches Ok(out) ==> out.len() == program.len() && forall|i: int|
            0 <= i < program.len() ==> resolved_statement(table, #[trigger] program[i]) == Ok::<
                _,
                DiagnosticView,
            >(out[i]),
    decreases program.len(),
{
    if program.len() > 0 {
        lemma_resolved_each(table, program.drop_last());
        if let Ok(out) = resolved(table, program) {
            assert forall|i: int| 0 <= i < program.len() implies resolved_statement(
                table,
                #[trigger] program[i],
            ) == Ok::<_, DiagnosticView>(out[i]) by {
                if i < program.len() - 1 {
                    assert(program.drop_last()[i] == program[i]);
                }
            }
        }
    }
}


/// The number of bytes that the operations of a program take: one for each
/// opcode and one for each operand.
pub open spec fn byte_offset(program: Seq<StatementNodeView>) -> nat
    decreases program.len(),
{
    if program.len() == 0 {
        0
    } else {
        byte_offset(program.drop_last()) + match program.last().value {
            StatementView::Operation(_, args) => 1 + args.len(),
            _ => 0nat,
        }
    }
}

/// A number of bytes as the pass counts it: numbers beyond the range of the
/// machine's integers stay at the end of that range.
pub open spec fn clipped(bytes: nat) -> usize {
    if bytes > usize::MAX {
        usize::MAX
    } else {
        bytes as usize
    }
}

/// The offset that the pass counts is the number of bytes of the
/// operations.
pub proof fn lemma_offset_counts_bytes(program: Seq<StatementNodeView>)
    ensures
        labelled(program).1 == clipped(byte_offset(program)),
    decreases program.len(),
{
    if program.len() > 0 {
        lemma_offset_counts_bytes(program.drop_last());
    }
}

/// A label stands for the number of bytes of the operations before it:
/// where the `i`-th statement is the last definition of the label `name`,
/// the table binds the name to the bytes of the statements before the
/// `i`-th.
pub proof fn lemma_label_offset(program: Seq<StatementNodeView>, i: int, name: Seq<char>)
    requires
        0 <= i < program.len(),
        program[i].value == StatementView::Label(name),
        forall|j: int| i < j < program.len() ==> (#[trigger] program[j]).value != StatementView::Label(name),
    ensures
        lookup(labelled(program).0, name) == Some(clipped(byte_offset(program.take(i)))),
    decreases program.len(),
{
    let front = program.drop_last();
    let (table, offset, _) = labelled(front);
    if let StatementView::Label(other) = program.last().value {
        let grown = table.push((other, offset));
        assert(grown.drop_last() =~= table);
        assert(grown.last() == (other, offset));
        assert(labelled(program).0 == grown);
    }
    if i == program.len() - 1 {
        lemma_offset_counts_bytes(front);
        assert(program.take(i) =~= front);
    } else {
        assert(front.take(i) =~= program.take(i));
        assert(front[i] == program[i]);
        assert forall|j: int| i < j < front.len() implies (#[trigger] front[j]).value
            != StatementView::Label(name) by {
            assert(program[j].value != StatementView::Label(name));
        }
        lemma_label_offset(front, i, name);
        assert(program[program.len() - 1].value != StatementView::Label(name));
    }
}

/// A reference to a label becomes the number of bytes of the operations
/// before the label: the sum, over the operations `s` before it, of
/// `1 + argc(s)`. Where that number does not fit into a byte the reference
/// is an error.
pub proof fn lemma_label_resolves_to_offset(
    program: Seq<StatementNodeView>,
    i: int,
    name: Seq<char>,
    arg: ArgumentNodeView,
)
    requires
        0 <= i < program.len(),
        program[i].value == StatementView::Label(name),
        forall|j: int| i < j < program.len() ==> (#[trigger] program[j]).value != StatementView::Label(name),
        arg.value == ArgumentView::Label(name),
    ensures
        byte_offset(program.take(i)) <= u8::MAX ==> resolved_argument(labelled(program).0, arg)
            == Ok::<_, DiagnosticView>(
            ArgumentNodeView {
                value: ArgumentView::Literal(byte_offset(program.take(i)) as u8),
                location: arg.location,
            },
        ),
        byte_offset(program.take(i)) > u8::MAX ==> resolved_argument(labelled(program).0, arg)
            == Err::<ArgumentNodeView, _>(
            problem_at(
                ProblemView::LabelOverflow {
                    name,
                    offset: clipped(byte_offset(program.take(i))),
                },
                arg.location,
            ),
        ),
{
    lemma_label_offset(program, i, name);
}

} // verus!
