//! Automatic addresses.
//!
//! Every address placeholder `[_]` is given the next free address, counting
//! from 0 in source order. Placeholders are looked for in the operands of
//! operations, in the values of constants and in the arguments of macros.
use vstd::prelude::*;
use crate::ast::{
    Argument, ArgumentNode, ArgumentNodeView, ArgumentView, MacroArgument, MacroArgumentNode,
    MacroArgumentNodeView, MacroArgumentView, Program, Statement, StatementNode, StatementNodeView,
    StatementView,
};
use crate::machine::MEMORY_SIZE;
use crate::util::{diagnostic, problem_at, Diagnostic, DiagnosticView, Problem, ProblemView};

verus! {

/// Whether an argument is the placeholder `[_]`.
pub open spec fn is_placeholder(arg: ArgumentNodeView) -> bool {
    arg.value == ArgumentView::Address(None)
}

/// An argument with its placeholder, if it is one, replaced by the address
/// `next`.
pub open spec fn fill_argument(arg: ArgumentNodeView, next: nat) -> ArgumentNodeView {
    if is_placeholder(arg) {
        ArgumentNodeView { value: ArgumentView::Address(Some(next as u8)), location: arg.location }
    } else {
        arg
    }
}

/// The number of placeholders in a list of arguments.
pub open spec fn argument_placeholders(args: Seq<ArgumentNodeView>) -> nat
    decreases args.len(),
{
    if args.len() == 0 {
        0
    } else {
        argument_placeholders(args.drop_last()) + if is_placeholder(args.last()) {
            1nat
        } else {
            0nat
        }
    }
}

/// A list of arguments in which each placeholder is replaced by `next` plus
/// the number of placeholders before it.
pub open spec fn fill_arguments(args: Seq<ArgumentNodeView>, next: nat) -> Seq<ArgumentNodeView> {
    Seq::new(
        args.len(),
        |i: int| fill_argument(args[i], next + argument_placeholders(args.take(i))),
    )
}

/// Whether a macro argument is the placeholder `[_]`.
pub open spec fn is_macro_placeholder(arg: MacroArgumentNodeView) -> bool {
    arg.value matches MacroArgumentView::Argument(inner) && is_placeholder(inner)
}

/// A macro argument with its placeholder, if it is one, replaced by the
/// address `next`.
pub open spec fn fill_macro_argument(arg: MacroArgumentNodeView, next: nat) -> MacroArgumentNodeView {
    match arg.value {
        MacroArgumentView::Argument(inner) => MacroArgumentNodeView {
            value: MacroArgumentView::Argument(fill_argument(inner, next)),
            location: arg.location,
        },
        MacroArgumentView::Ident(_) => arg,
    }
}

/// The number of placeholders in a list of macro arguments.
pub open spec fn macro_placeholders(args: Seq<MacroArgumentNodeView>) -> nat
    decreases args.len(),
{
    if args.len() == 0 {
        0
    } else {
        macro_placeholders(args.drop_last()) + if is_macro_placeholder(args.last()) {
            1nat
        } else {
            0nat
        }
    }
}

/// A list of macro arguments in which each placeholder is replaced by `next`
/// plus the number of placeholders before it.
pub open spec fn fill_macro_arguments(args: Seq<MacroArgumentNodeView>, next: nat) -> Seq<
    MacroArgumentNodeView,
> {
    Seq::new(
        args.len(),
        |i: int| fill_macro_argument(args[i], next + macro_placeholders(args.take(i))),
    )
}

/// The number of placeholders in a statement.
pub open spec fn statement_placeholders(stmt: StatementNodeView) -> nat {
    match stmt.value {
        StatementView::Operation(_, args) => argument_placeholders(args),
        StatementView::Const(_, value) => if is_placeholder(value) {
            1
        } else {
            0
        },
        StatementView::Macro(_, args) => macro_placeholders(args),
        _ => 0,
    }
}

/// A statement in which each placeholder is replaced by `next` plus the
/// number of placeholders before it.
pub open spec fn fill_statement(stmt: StatementNodeView, next: nat) -> StatementNodeView {
    match stmt.value {
        StatementView::Operation(mnem, args) => StatementNodeView {
            value: StatementView::Operation(mnem, fill_arguments(args, next)),
            location: stmt.location,
        },
        StatementView::Const(name, value) => StatementNodeView {
            value: StatementView::Const(name, fill_argument(value, next)),
            location: stmt.location,
        },
        StatementView::Macro(name, args) => StatementNodeView {
            value: StatementView::Macro(name, fill_macro_arguments(args, next)),
            location: stmt.location,
        },
        _ => stmt,
    }
}

/// The number of placeholders in a program.
pub open spec fn placeholders(program: Seq<StatementNodeView>) -> nat
    decreases program.len(),
{
    if program.len() == 0 {
        0
    } else {
        placeholders(program.drop_last()) + statement_placeholders(program.last())
    }
}

/// What the pass makes of a program: each placeholder is replaced by the
/// number of placeholders before it in source order.
///
/// There are 256 addresses. The first statement with a placeholder beyond
/// them is an error.
pub open spec fn expanded(program: Seq<StatementNodeView>) -> Result<
    Seq<StatementNodeView>,
    DiagnosticView,
>
    decreases program.len(),
{
    if program.len() == 0 {
        Ok(Seq::empty())
    } else {
        match expanded(program.drop_last()) {
            Err(d) => Err(d),
            Ok(front) => if placeholders(program) > MEMORY_SIZE {
                Err(problem_at(ProblemView::OutOfAddresses, program.last().location))
            } else {
                Ok(front.push(fill_statement(program.last(), placeholders(program.drop_last()))))
            },
        }
    }
}

/// An error in a prefix of a program is the error of the program.
pub proof fn lemma_expanded_fails(program: Seq<StatementNodeView>, n: int)
    requires
        0 <= n <= program.len(),
        expanded(program.take(n)) is Err,
    ensures
        expanded(program) == expanded(program.take(n)),
    decreases program.len() - n,
{
    if n < program.len() {
        assert(program.take(n + 1).drop_last() =~= program.take(n));
        lemma_expanded_fails(program, n + 1);
    } else {
        assert(program.take(n) =~= program);
    }
}

/// Fills the placeholder of one argument. `count` is the number of
/// placeholders met so far; it is counted up where the argument is one.
fn update_arg(arg: &ArgumentNode, next: usize, count: &mut usize) -> (r: ArgumentNode)
    requires
        *old(count) < usize::MAX,
    ensures
        is_placeholder(arg@) ==> *final(count) == *old(count) + 1,
        !is_placeholder(arg@) ==> *final(count) == *old(count) && r@ == arg@,
        next + *old(count) < MEMORY_SIZE ==> r@ == fill_argument(arg@, (next + *old(count)) as nat),
{
    match &arg.value {
        Argument::Address(None) => {
            let address: usize = if next < MEMORY_SIZE && *count < MEMORY_SIZE - next {
                next + *count
            } else {
                0
            };
            *count = *count + 1;
            ArgumentNode {
                value: Argument::Address(Some(address as u8)),
                location: arg.location.clone(),
            }
        },
        _ => arg.clone(),
    }
}

/// Fills the placeholders of a list of arguments, counting addresses from
/// `next`, and counts the placeholders.
fn update_args(args: &Vec<ArgumentNode>, next: usize) -> (r: (Vec<ArgumentNode>, usize))
    ensures
        r.1 == argument_placeholders(args.deep_view()),
        next + r.1 <= MEMORY_SIZE ==> r.0.deep_view() == fill_arguments(args.deep_view(), next as nat),
{
    let mut out: Vec<ArgumentNode> = Vec::new();
    let mut count: usize = 0;
    let mut i: usize = 0;
    let ghost view = args.deep_view();
    assert(view.take(0) =~= Seq::empty());
    while i < args.len()
        invariant
            i <= args.len(),
            view == args.deep_view(),
            out@.len() == i,
            count <= i,
            count == argument_placeholders(view.take(i as int)),
            forall|j: int|
                0 <= j < i && next + argument_placeholders(view.take(j + 1)) <= MEMORY_SIZE
                    ==> (#[trigger] out@[j])@ == fill_argument(
                    view[j],
                    (next + argument_placeholders(view.take(j))) as nat,
                ),
        decreases args.len() - i,
    {
        proof {
            assert(view.take(i + 1).drop_last() =~= view.take(i as int));
            assert(view.take(i + 1).last() == args@[i as int]@);
        }
        let filled = update_arg(&args[i], next, &mut count);
        out.push(filled);
        i += 1;
    }
    proof {
        assert(view.take(i as int) =~= view);
        if next + count <= MEMORY_SIZE {
            assert forall|j: int| 0 <= j < view.len() implies out.deep_view()[j] == fill_arguments(
                view,
                next as nat,
            )[j] by {
                lemma_argument_placeholders_grow(view, j + 1, view.len() as int);
                assert(out@[j]@ == fill_argument(
                    view[j],
                    (next + argument_placeholders(view.take(j))) as nat,
                ));
            }
            assert(out.deep_view() =~= fill_arguments(view, next as nat));
        }
    }
    (out, count)
}

/// A longer prefix holds at least as many placeholders.
pub proof fn lemma_argument_placeholders_grow(args: Seq<ArgumentNodeView>, n: int, m: int)
    requires
        0 <= n <= m <= args.len(),
    ensures
        argument_placeholders(args.take(n)) <= argument_placeholders(args.take(m)),
    decreases m - n,
{
    if n < m {
        assert(args.take(m).drop_last() =~= args.take(m - 1));
        lemma_argument_placeholders_grow(args, n, m - 1);
    }
}

/// A longer prefix holds at least as many placeholders.
pub proof fn lemma_macro_placeholders_grow(args: Seq<MacroArgumentNodeView>, n: int, m: int)
    requires
        0 <= n <= m <= args.len(),
    ensures
        macro_placeholders(args.take(n)) <= macro_placeholders(args.take(m)),
    decreases m - n,
{
    if n < m {
        assert(args.take(m).drop_last() =~= args.take(m - 1));
        lemma_macro_placeholders_grow(args, n, m - 1);
    }
}

/// Fills the placeholders of a list of macro arguments, counting addresses
/// from `next`, and counts the placeholders.
fn update_macro_args(args: &Vec<MacroArgumentNode>, next: usize) -> (r: (
    Vec<MacroArgumentNode>,
    usize,
))
    ensures
        r.1 == macro_placeholders(args.deep_view()),
        next + r.1 <= MEMORY_SIZE ==> r.0.deep_view() == fill_macro_arguments(
            args.deep_view(),
            next as nat,
        ),
{
    let mut out: Vec<MacroArgumentNode> = Vec::new();
    let mut count: usize = 0;
    let mut i: usize = 0;
    let ghost view = args.deep_view();
    assert(view.take(0) =~= Seq::empty());
    while i < args.len()
        invariant
            i <= args.len(),
            view == args.deep_view(),
            out@.len() == i,
            count <= i,
            count == macro_placeholders(view.take(i as int)),
            forall|j: int|
                0 <= j < i && next + macro_placeholders(view.take(j + 1)) <= MEMORY_SIZE
                    ==> (#[trigger] out@[j])@ == fill_macro_argument(
                    view[j],
                    (next + macro_placeholders(view.take(j))) as nat,
                ),
        decreases args.len() - i,
    {
        proof {
            assert(view.take(i + 1).drop_last() =~= view.take(i as int));
            assert(view.take(i + 1).last() == args@[i as int]@);
        }
        let filled = match &args[i].value {
            MacroArgument::Argument(inner) => MacroArgumentNode {
                value: MacroArgument::Argument(update_arg(inner, next, &mut count)),
                location: args[i].location.clone(),
            },
            MacroArgument::Ident(_) => args[i].clone(),
        };
        out.push(filled);
        i += 1;
    }
    proof {
        assert(view.take(i as int) =~= view);
        if next + count <= MEMORY_SIZE {
            assert forall|j: int|
                0 <= j < view.len() implies out.deep_view()[j] == fill_macro_arguments(
                view,
                next as nat,
            )[j] by {
                lemma_macro_placeholders_grow(view, j + 1, view.len() as int);
                assert(out@[j]@ == fill_macro_argument(
                    view[j],
                    (next + macro_placeholders(view.take(j))) as nat,
                ));
            }
            assert(out.deep_view() =~= fill_macro_arguments(view, next as nat));
        }
    }
    (out, count)
}

/// Fills the placeholders of one statement, counting addresses from `next`,
/// and counts the placeholders.
fn update_statement(stmt: &StatementNode, next: usize) -> (r: (StatementNode, usize))
    ensures
        r.1 == statement_placeholders(stmt@),
        next + r.1 <= MEMORY_SIZE ==> r.0@ == fill_statement(stmt@, next as nat),
{
    match &stmt.value {
        Statement::Operation(mnem, args) => {
            let (filled, count) = update_args(args, next);
            (
                StatementNode {
                    value: Statement::Operation(*mnem, filled),
                    location: stmt.location.clone(),
                },
                count,
            )
        },
        Statement::Const(name, value) => {
            let mut count: usize = 0;
            let filled = update_arg(value, next, &mut count);
            (
                StatementNode {
                    value: Statement::Const(name.clone(), filled),
                    location: stmt.location.clone(),
                },
                count,
            )
        },
        Statement::Macro(name, args) => {
            let (filled, count) = update_macro_args(args, next);
            (
                StatementNode {
                    value: Statement::Macro(name.clone(), filled),
                    location: stmt.location.clone(),
                },
                count,
            )
        },
        _ => (stmt.clone(), 0),
    }
}

/// Gives every address placeholder of a program the next free address. On an
/// error the program is left as it was.
pub fn expand(source: &mut Program) -> (r: Result<(), Diagnostic>)
    ensures
        match r {
            Ok(()) => expanded(old(source).deep_view()) == Ok::<_, DiagnosticView>(
                final(source).deep_view(),
            ),
            Err(d) => expanded(old(source).deep_view()) == Err::<Seq<StatementNodeView>, _>(d@)
                && final(source).deep_view() == old(source).deep_view(),
        },
{
    let mut out: Vec<StatementNode> = Vec::new();
    let mut auto_addr: usize = 0;
    let mut i: usize = 0;
    let ghost program = source.deep_view();
    proof {
        assert(program.take(0) =~= Seq::empty());
        assert(out.deep_view() =~= Seq::empty());
    }
    while i < source.len()
        invariant
            i <= source.len(),
            program == source.deep_view(),
            *source == *old(source),
            auto_addr <= MEMORY_SIZE,
            auto_addr == placeholders(program.take(i as int)),
            out@.len() == i,
            expanded(program.take(i as int)) == Ok::<_, DiagnosticView>(out.deep_view()),
        decreases source.len() - i,
    {
        proof {
            assert(program.take(i + 1).drop_last() =~= program.take(i as int));
            assert(program.take(i + 1).last() == source@[i as int]@);
        }
        let (filled, count) = update_statement(&source[i], auto_addr);
        if count > MEMORY_SIZE - auto_addr {
            proof {
                lemma_expanded_fails(program, i + 1);
            }
            return Err(diagnostic(Problem::OutOfAddresses, &source[i].location));
        }
        auto_addr = auto_addr + count;
        let ghost before = out.deep_view();
        out.push(filled);
        assert(out.deep_view() =~= before.push(out@[i as int]@));
        i += 1;
    }
    assert(program.take(i as int) =~= program);
    *source = out;
    Ok(())
}

// --- Laws ----------------------------------------------------------------------

/// The ordinary arguments among the arguments of a macro, in order.
pub open spec fn macro_visited(args: Seq<MacroArgumentNodeView>) -> Seq<ArgumentNodeView>
    decreases args.len(),
{
    if args.len() == 0 {
        Seq::empty()
    } else {
        macro_visited(args.drop_last()) + match args.last().value {
            MacroArgumentView::Argument(inner) => seq![inner],
            MacroArgumentView::Ident(_) => Seq::empty(),
        }
    }
}

/// The arguments of a statement that the pass looks at, in order.
pub open spec fn visited(stmt: StatementNodeView) -> Seq<ArgumentNodeView> {
    match stmt.value {
        StatementView::Operation(_, args) => args,
        StatementView::Const(_, value) => seq![value],
        StatementView::Macro(_, args) => macro_visited(args),
        _ => Seq::empty(),
    }
}

/// The arguments of a program that the pass looks at, in source order.
pub open spec fn all_visited(program: Seq<StatementNodeView>) -> Seq<ArgumentNodeView>
    decreases program.len(),
{
    if program.len() == 0 {
        Seq::empty()
    } else {
        all_visited(program.drop_last()) + visited(program.last())
    }
}

/// The placeholders of two lists in a row are those of the one and those of
/// the other.
pub proof fn lemma_placeholders_add(a: Seq<ArgumentNodeView>, b: Seq<ArgumentNodeView>)
    ensures
        argument_placeholders(a + b) == argument_placeholders(a) + argument_placeholders(b),
    decreases b.len(),
{
    if b.len() == 0 {
        assert(a + b =~= a);
    } else {
        assert((a + b).drop_last() =~= a + b.drop_last());
        lemma_placeholders_add(a, b.drop_last());
    }
}

/// A single argument holds one placeholder or none, and is filled as an
/// argument is.
pub proof fn lemma_single(arg: ArgumentNodeView, next: nat)
    ensures
        argument_placeholders(seq![arg]) == if is_placeholder(arg) {
            1nat
        } else {
            0nat
        },
        fill_arguments(seq![arg], next) == seq![fill_argument(arg, next)],
{
    assert(seq![arg].drop_last() =~= Seq::<ArgumentNodeView>::empty());
    assert(seq![arg].take(0) =~= Seq::<ArgumentNodeView>::empty());
    assert(fill_arguments(seq![arg], next) =~= seq![fill_argument(arg, next)]);
}

/// Two lists in a row are filled one after the other: the second from the
/// address behind the placeholders of the first.
pub proof fn lemma_fill_add(a: Seq<ArgumentNodeView>, b: Seq<ArgumentNodeView>, next: nat)
    ensures
        fill_arguments(a + b, next) == fill_arguments(a, next) + fill_arguments(
            b,
            next + argument_placeholders(a),
        ),
{
    let whole = fill_arguments(a + b, next);
    let parts = fill_arguments(a, next) + fill_arguments(b, next + argument_placeholders(a));
    assert forall|i: int| 0 <= i < whole.len() implies whole[i] == parts[i] by {
        if i < a.len() {
            assert((a + b).take(i) =~= a.take(i));
        } else {
            assert((a + b).take(i) =~= a + b.take(i - a.len()));
            lemma_placeholders_add(a, b.take(i - a.len()));
        }
    }
    assert(whole =~= parts);
}

/// The placeholders among the arguments of a macro are those of its
/// ordinary arguments.
pub proof fn lemma_macro_placeholders(args: Seq<MacroArgumentNodeView>)
    ensures
        argument_placeholders(macro_visited(args)) == macro_placeholders(args),
    decreases args.len(),
{
    if args.len() > 0 {
        lemma_macro_placeholders(args.drop_last());
        match args.last().value {
            MacroArgumentView::Argument(inner) => {
                lemma_placeholders_add(macro_visited(args.drop_last()), seq![inner]);
                lemma_single(inner, 0);
            },
            MacroArgumentView::Ident(_) => {
                assert(macro_visited(args) =~= macro_visited(args.drop_last()));
            },
        }
    }
}

/// The arguments of a macro are filled as its ordinary arguments are.
pub proof fn lemma_macro_fill(args: Seq<MacroArgumentNodeView>, next: nat)
    ensures
        macro_visited(fill_macro_arguments(args, next)) == fill_arguments(macro_visited(args), next),
    decreases args.len(),
{
    let filled = fill_macro_arguments(args, next);
    if args.len() == 0 {
        assert(fill_arguments(macro_visited(args), next) =~= Seq::empty());
    } else {
        let front = args.drop_last();
        lemma_macro_fill(front, next);
        lemma_macro_placeholders(front);
        assert(filled.drop_last() =~= fill_macro_arguments(front, next)) by {
            assert forall|i: int| 0 <= i < front.len() implies filled.drop_last()[i]
                == fill_macro_arguments(front, next)[i] by {
                assert(front.take(i) =~= args.take(i));
            }
        }
        assert(args.take(args.len() - 1) =~= front);
        assert(filled.last() == fill_macro_argument(
            args.last(),
            next + macro_placeholders(front),
        ));
        match args.last().value {
            MacroArgumentView::Argument(inner) => {
                lemma_fill_add(macro_visited(front), seq![inner], next);
                lemma_single(inner, next + macro_placeholders(front));
            },
            MacroArgumentView::Ident(_) => {
                assert(macro_visited(args) =~= macro_visited(front));
                assert(macro_visited(filled) =~= macro_visited(filled.drop_last()));
            },
        }
    }
}

/// A statement is filled as the arguments are that the pass looks at.
pub proof fn lemma_statement_fill(stmt: StatementNodeView, next: nat)
    ensures
        visited(fill_statement(stmt, next)) == fill_arguments(visited(stmt), next),
        argument_placeholders(visited(stmt)) == statement_placeholders(stmt),
{
    match stmt.value {
        StatementView::Operation(_, args) => {},
        StatementView::Const(_, value) => {
            lemma_single(value, next);
        },
        StatementView::Macro(_, args) => {
            lemma_macro_fill(args, next);
            lemma_macro_placeholders(args);
        },
        _ => {
            assert(fill_arguments(visited(stmt), next) =~= Seq::empty());
        },
    }
}

/// A program is filled as the arguments are that the pass looks at, counted
/// from address 0.
pub proof fn lemma_program_fill(program: Seq<StatementNodeView>)
    ensures
        argument_placeholders(all_visited(program)) == placeholders(program),
        expanded(program) matches Ok(out) ==> all_visited(out) == fill_arguments(
            all_visited(program),
            0,
        ) && placeholders(program) <= MEMORY_SIZE,
    decreases program.len(),
{
    if program.len() == 0 {
        assert(fill_arguments(all_visited(program), 0) =~= Seq::empty());
    } else {
        let front = program.drop_last();
        lemma_program_fill(front);
        lemma_statement_fill(program.last(), placeholders(front));
        lemma_placeholders_add(all_visited(front), visited(program.last()));
        if let Ok(out) = expanded(program) {
            let done = expanded(front)->Ok_0;
            assert(out.drop_last() =~= done);
            lemma_fill_add(all_visited(front), visited(program.last()), 0);
        }
    }
}

/// A longer prefix of a list with a placeholder at its end holds more
/// placeholders.
pub proof fn lemma_rank_grows(args: Seq<ArgumentNodeView>, i: int, j: int)
    requires
        0 <= i < j <= args.len(),
        is_placeholder(args[i]),
    ensures
        argument_placeholders(args.take(i)) < argument_placeholders(args.take(j)),
{
    assert(args.take(i + 1).drop_last() =~= args.take(i));
    lemma_argument_placeholders_grow(args, i + 1, j);
}

/// Whether the address `k` is given to a placeholder of the list: some
/// placeholder has `k` placeholders before it.
pub open spec fn is_assigned(args: Seq<ArgumentNodeView>, k: nat) -> bool {
    exists|i: int|
        0 <= i < args.len() && is_placeholder(#[trigger] args[i]) && argument_placeholders(
            args.take(i),
        ) == k
}

/// Every number below the number of placeholders is the number of
/// placeholders before some placeholder.
pub proof fn lemma_every_rank_occurs(args: Seq<ArgumentNodeView>, k: nat)
    requires
        k < argument_placeholders(args),
    ensures
        is_assigned(args, k),
    decreases args.len(),
{
    let front = args.drop_last();
    assert(args.take(args.len() - 1) =~= front);
    if is_placeholder(args.last()) && argument_placeholders(front) == k {
        assert(is_placeholder(args[args.len() - 1]));
    } else {
        lemma_every_rank_occurs(front, k);
        let i = choose|i: int|
            0 <= i < front.len() && is_placeholder(#[trigger] front[i]) && argument_placeholders(
                front.take(i),
            ) == k;
        assert(front.take(i) =~= args.take(i));
        assert(is_placeholder(args[i]));
    }
}

/// The placeholders of a program get the addresses 0, 1, 2, ... in source
/// order.
///
/// Of the arguments that the pass looks at, those that are no placeholders
/// stay as they are, and each placeholder becomes the address that is the
/// number of placeholders before it. Where the program holds `n`
/// placeholders, these addresses are below `n`, no two of them are the same,
/// and each number below `n` is among them.
pub proof fn lemma_addresses_in_source_order(program: Seq<StatementNodeView>)
    requires
        expanded(program) is Ok,
    ensures
        ({
            let out = expanded(program)->Ok_0;
            let before = all_visited(program);
            let after = all_visited(out);
            let n = argument_placeholders(before);
            &&& n == placeholders(program)
            &&& n <= MEMORY_SIZE
            &&& after.len() == before.len()
            &&& forall|i: int|
                0 <= i < before.len() && !is_placeholder(#[trigger] before[i]) ==> after[i]
                    == before[i]
            &&& forall|i: int|
                0 <= i < before.len() && is_placeholder(#[trigger] before[i]) ==> after[i]
                    == (ArgumentNodeView {
                    value: ArgumentView::Address(
                        Some(argument_placeholders(before.take(i)) as u8),
                    ),
                    location: before[i].location,
                }) && argument_placeholders(before.take(i)) < n
            &&& forall|i: int, j: int|
                0 <= i < j < before.len() && is_placeholder(#[trigger] before[i])
                    && is_placeholder(#[trigger] before[j]) ==> argument_placeholders(
                    before.take(i),
                ) < argument_placeholders(before.take(j))
            &&& forall|k: nat| k < n ==> #[trigger] is_assigned(before, k)
        }),
{
    lemma_program_fill(program);
    let before = all_visited(program);
    let n = argument_placeholders(before);
    assert(before.take(before.len() as int) =~= before);
    assert forall|i: int|
        0 <= i < before.len() && is_placeholder(#[trigger] before[i]) implies argument_placeholders(
        before.take(i),
    ) < n by {
        lemma_rank_grows(before, i, before.len() as int);
    }
    assert forall|i: int, j: int|
        0 <= i < j < before.len() && is_placeholder(#[trigger] before[i]) && is_placeholder(
            #[trigger] before[j],
        ) implies argument_placeholders(before.take(i)) < argument_placeholders(
        before.take(j),
    ) by {
        lemma_rank_grows(before, i, j);
    }
    assert forall|k: nat| k < n implies #[trigger] is_assigned(before, k) by {
        lemma_every_rank_occurs(before, k);
    }
}

} // verus!
