//! What the passes leave: operations with concrete operands.
//!
//! The laws of this module follow a program through the passes and show
//! that, behind the last of them, every statement is an operation whose
//! operands are literals, characters and assigned addresses: what the
//! encoder takes.
use vstd::prelude::*;
use crate::ast::{
    ArgumentNodeView, ArgumentView, MacroArgumentNodeView, StatementNodeView, StatementView,
};
use crate::codegen::{binary, classified, encoded, operand_bytes};
use crate::lexer::LocationView;
use crate::syntax_ext::imports::first_include;
use crate::syntax_ext::{auto_address, constants, expanded, labels, subroutines};
use crate::util::{lemma_lookup_is_entry, lookup, DiagnosticView};

verus! {

/// Whether an argument is concrete: a literal, a character or an assigned
/// address.
pub open spec fn is_concrete(arg: ArgumentNodeView) -> bool {
    match arg.value {
        ArgumentView::Literal(_) | ArgumentView::Char(_) => true,
        ArgumentView::Address(address) => address.is_some(),
        _ => false,
    }
}

/// Whether a statement is primitive: an operation with concrete operands.
pub open spec fn is_primitive(stmt: StatementNodeView) -> bool {
    stmt.value matches StatementView::Operation(_, args) && forall|j: int|
        0 <= j < args.len() ==> is_concrete(#[trigger] args[j])
}

/// Whether a statement is neither an include directive nor a macro.
pub open spec fn is_plain(stmt: StatementNodeView) -> bool {
    !(stmt.value is Include) && !(stmt.value is Macro)
}

/// Whether no placeholder is left where the address pass looks.
pub open spec fn is_filled(stmt: StatementNodeView) -> bool {
    match stmt.value {
        StatementView::Operation(_, args) => forall|j: int|
            0 <= j < args.len() ==> !auto_address::is_placeholder(#[trigger] args[j]),
        StatementView::Const(_, value) => !auto_address::is_placeholder(value),
        _ => true,
    }
}

/// Whether no definition of a constant and no reference to one is left.
pub open spec fn is_resolved(stmt: StatementNodeView) -> bool {
    match stmt.value {
        StatementView::Operation(_, args) => forall|j: int|
            0 <= j < args.len() ==> !((#[trigger] args[j]).value is Const),
        StatementView::Const(_, _) => false,
        _ => true,
    }
}

// --- Imports -------------------------------------------------------------------

/// Where no include directive is found, there is none.
pub proof fn lemma_no_include(program: Seq<StatementNodeView>, from: int)
    requires
        0 <= from,
        first_include(program, from).is_none(),
    ensures
        forall|i: int| from <= i < program.len() ==> !((#[trigger] program[i]).value is Include),
    decreases program.len() - from,
{
    if from < program.len() {
        lemma_no_include(program, from + 1);
    }
}

// --- Subroutines ---------------------------------------------------------------

/// The moves of a call are operations.
pub proof fn lemma_moves_are_operations(
    args: Seq<MacroArgumentNodeView>,
    location: LocationView,
    n: nat,
)
    ensures
        subroutines::argument_moves(args, location, n) matches Ok(moves) ==> forall|i: int|
            0 <= i < moves.len() ==> (#[trigger] moves[i]).value is Operation,
    decreases n,
{
    if n > 0 {
        lemma_moves_are_operations(args, location, (n - 1) as nat);
    }
}

/// What the subroutine pass writes for a program without include
/// directives holds none.
pub proof fn lemma_processed_has_no_include(
    routines: Seq<(Seq<char>, usize)>,
    program: Seq<StatementNodeView>,
)
    requires
        forall|i: int| 0 <= i < program.len() ==> !((#[trigger] program[i]).value is Include),
    ensures
        subroutines::processed(routines, program) matches Ok(end) ==> forall|i: int|
            0 <= i < end.0.len() ==> !((#[trigger] end.0[i]).value is Include),
    decreases program.len(),
{
    if program.len() > 0 {
        let front = program.drop_last();
        assert forall|i: int| 0 <= i < front.len() implies !((#[trigger] front[i]).value
            is Include) by {
            assert(front[i] == program[i]);
        }
        lemma_processed_has_no_include(routines, front);
        if let Ok((out, state)) = subroutines::processed(routines, front) {
            if let Ok(action) = subroutines::next_state(routines, program.last(), state) {
                if let subroutines::SubroutineStateView::SubroutineCall(_, args) = action {
                    lemma_moves_are_operations(args, program.last().location, args.len());
                }
                assert(!(program[program.len() - 1].value is Include));
            }
        }
    }
}

/// Behind the subroutine pass no include directive and no macro is left,
/// in a program that holds no include directive and that declares a
/// subroutine or holds no macro.
pub proof fn lemma_subroutines_leave_plain(program: Seq<StatementNodeView>)
    requires
        first_include(program, 0).is_none(),
        subroutines::expanded(program) is Ok,
        subroutines::declared(program) matches Ok(routines) && (routines.len() > 0 || forall|
            i: int,
        |
            0 <= i < program.len() ==> !subroutines::is_macro(#[trigger] program[i])),
    ensures
        subroutines::expanded(program) matches Ok(out) && forall|i: int|
            0 <= i < out.len() ==> is_plain(#[trigger] out[i]),
{
    lemma_no_include(program, 0);
    let routines = subroutines::declared(program)->Ok_0;
    let out = subroutines::expanded(program)->Ok_0;
    if routines.len() > 0 {
        subroutines::lemma_no_macro_remains(program);
        let input = subroutines::preamble(subroutines::max_arity(routines) as nat) + program;
        assert forall|i: int| 0 <= i < input.len() implies !((#[trigger] input[i]).value
            is Include) by {
            if i >= input.len() - program.len() {
                assert(input[i] == program[i - (input.len() - program.len())]);
            }
        }
        lemma_processed_has_no_include(routines, input);
        let written = subroutines::processed(routines, input)->Ok_0.0;
        let keep = |stmt: StatementNodeView| !subroutines::is_macro(stmt);
        assert forall|i: int| 0 <= i < out.len() implies is_plain(#[trigger] out[i]) by {
            assert(out.contains(out[i]));
            written.lemma_filter_contains_rev(keep, out[i]);
        }
    }
}

// --- Addresses -----------------------------------------------------------------

/// The statements that were filled are as many as there were, each the
/// filled form of its statement.
pub proof fn lemma_filled_each(program: Seq<StatementNodeView>)
    ensures
        auto_address::expanded(program) matches Ok(out) ==> out.len() == program.len() && forall|
            i: int,
        |
            0 <= i < program.len() ==> #[trigger] out[i] == auto_address::fill_statement(
                program[i],
                auto_address::placeholders(program.take(i)),
            ),
    decreases program.len(),
{
    if program.len() > 0 {
        let front = program.drop_last();
        lemma_filled_each(front);
        if let Ok(out) = auto_address::expanded(program) {
            assert forall|i: int| 0 <= i < program.len() implies #[trigger] out[i]
                == auto_address::fill_statement(
                program[i],
                auto_address::placeholders(program.take(i)),
            ) by {
                if i < program.len() - 1 {
                    assert(front.take(i) =~= program.take(i));
                } else {
                    assert(program.take(i) =~= front);
                }
            }
        }
    }
}

/// Behind the address pass no placeholder is left in operations and
/// definitions, and plain statements are plain.
pub proof fn lemma_addresses_leave_filled(program: Seq<StatementNodeView>)
    requires
        auto_address::expanded(program) is Ok,
        forall|i: int| 0 <= i < program.len() ==> is_plain(#[trigger] program[i]),
    ensures
        auto_address::expanded(program) matches Ok(out) && forall|i: int|
            0 <= i < out.len() ==> is_plain(#[trigger] out[i]) && is_filled(out[i]),
{
    lemma_filled_each(program);
    let out = auto_address::expanded(program)->Ok_0;
    assert forall|i: int| 0 <= i < out.len() implies is_plain(#[trigger] out[i]) && is_filled(
        out[i],
    ) by {
        assert(is_plain(program[i]));
    }
}

// --- Constants -----------------------------------------------------------------

/// Whether a value is a literal or an assigned address.
pub open spec fn is_value(value: ArgumentView) -> bool {
    match value {
        ArgumentView::Literal(_) => true,
        ArgumentView::Address(address) => address.is_some(),
        _ => false,
    }
}

/// The definitions of a program without placeholders bind literals and
/// assigned addresses.
pub proof fn lemma_defined_are_values(program: Seq<StatementNodeView>)
    requires
        forall|i: int| 0 <= i < program.len() ==> is_filled(#[trigger] program[i]),
    ensures
        constants::defined(program) matches Ok(found) ==> forall|k: int|
            0 <= k < found.0.len() ==> is_value((#[trigger] found.0[k]).1),
    decreases program.len(),
{
    if program.len() > 0 {
        let front = program.drop_last();
        assert forall|i: int| 0 <= i < front.len() implies is_filled(#[trigger] front[i]) by {
            assert(front[i] == program[i]);
        }
        lemma_defined_are_values(front);
        assert(is_filled(program[program.len() - 1]));
    }
}

/// Behind the constants pass no constant is left, and what was plain and
/// filled is so still.
pub proof fn lemma_constants_leave_resolved(program: Seq<StatementNodeView>)
    requires
        constants::expanded(program) is Ok,
        forall|i: int| 0 <= i < program.len() ==> is_plain(#[trigger] program[i]) && is_filled(program[i]),
    ensures
        constants::expanded(program) matches Ok(out) && forall|i: int|
            0 <= i < out.0.len() ==> is_plain(#[trigger] out.0[i]) && is_filled(out.0[i])
                && is_resolved(out.0[i]),
{
    let (table, _) = constants::defined(program)->Ok_0;
    let keep = |stmt: StatementNodeView| !constants::is_definition(stmt);
    let rest = program.filter(keep);
    let out = constants::resolved(table, rest)->Ok_0;
    assert forall|i: int| 0 <= i < program.len() implies is_filled(#[trigger] program[i]) by {
        assert(is_plain(program[i]) && is_filled(program[i]));
    }
    lemma_defined_are_values(program);
    constants::lemma_resolved_each(table, rest);
    assert forall|i: int| 0 <= i < out.len() implies is_plain(#[trigger] out[i]) && is_filled(
        out[i],
    ) && is_resolved(out[i]) by {
        program.lemma_filter_pred(keep, i);
        assert(rest.contains(rest[i]));
        program.lemma_filter_contains_rev(keep, rest[i]);
        let k = choose|k: int| 0 <= k < program.len() && program[k] == rest[i];
        assert(is_plain(program[k]) && is_filled(program[k]));
        assert(constants::resolved_statement(table, rest[i]) == Ok::<_, DiagnosticView>(out[i]));
        if let StatementView::Operation(mnem, args) = rest[i].value {
            constants::lemma_resolved_arguments_each(table, args);
            let new_args = constants::resolved_arguments(table, args)->Ok_0;
            assert(out[i].value == StatementView::Operation(mnem, new_args));
            assert forall|j: int| 0 <= j < new_args.len() implies !((#[trigger] new_args[j]).value
                is Const) && !auto_address::is_placeholder(new_args[j]) by {
                assert(constants::resolved_argument(table, args[j]) == Ok::<_, DiagnosticView>(
                    new_args[j],
                ));
                assert(!auto_address::is_placeholder(args[j]));
                if let ArgumentView::Const(name) = args[j].value {
                    lemma_lookup_is_entry(table, name);
                    let value = lookup(table, name)->Some_0;
                    let e = choose|e: int|
                        0 <= e < table.len() && (#[trigger] table[e]) == (name, value);
                    assert(is_value(table[e].1));
                }
            }
        }
    }
}

// --- Labels --------------------------------------------------------------------

/// Behind the labels pass every statement is primitive, where the
/// statements before it were plain, filled and free of constants.
pub proof fn lemma_labels_leave_primitive(program: Seq<StatementNodeView>)
    requires
        labels::expanded(program) is Ok,
        forall|i: int|
            0 <= i < program.len() ==> is_plain(#[trigger] program[i]) && is_filled(program[i])
                && is_resolved(program[i]),
    ensures
        labels::expanded(program) matches Ok(out) && forall|i: int|
            0 <= i < out.0.len() ==> is_primitive(#[trigger] out.0[i]),
{
    let table = labels::labelled(program).0;
    let keep = |stmt: StatementNodeView| !labels::is_label(stmt);
    let rest = program.filter(keep);
    let out = labels::resolved(table, rest)->Ok_0;
    labels::lemma_resolved_each(table, rest);
    assert forall|i: int| 0 <= i < out.len() implies is_primitive(#[trigger] out[i]) by {
        program.lemma_filter_pred(keep, i);
        assert(rest.contains(rest[i]));
        program.lemma_filter_contains_rev(keep, rest[i]);
        let k = choose|k: int| 0 <= k < program.len() && program[k] == rest[i];
        assert(is_plain(program[k]) && is_filled(program[k]) && is_resolved(program[k]));
        assert(labels::resolved_statement(table, rest[i]) == Ok::<_, DiagnosticView>(out[i]));
        if let StatementView::Operation(mnem, args) = rest[i].value {
            labels::lemma_resolved_arguments_each(table, args);
            let new_args = labels::resolved_arguments(table, args)->Ok_0;
            assert(out[i].value == StatementView::Operation(mnem, new_args));
            assert forall|j: int| 0 <= j < new_args.len() implies is_concrete(
                #[trigger] new_args[j],
            ) by {
                assert(labels::resolved_argument(table, args[j]) == Ok::<_, DiagnosticView>(
                    new_args[j],
                ));
                assert(!auto_address::is_placeholder(args[j]));
                assert(!(args[j].value is Const));
            }
        }
    }
}

// --- The whole -----------------------------------------------------------------

/// Behind the passes only operations with concrete operands are left.
///
/// This holds of every program that the passes accept, but for one kind:
/// a program that declares no subroutine and yet holds a macro keeps the
/// macro.
pub proof fn lemma_passes_leave_primitive(program: Seq<StatementNodeView>)
    requires
        expanded(program) is Ok,
        subroutines::declared(program) matches Ok(routines) ==> routines.len() > 0 || forall|
            i: int,
        |
            0 <= i < program.len() ==> !subroutines::is_macro(#[trigger] program[i]),
    ensures
        expanded(program) matches Ok(out) && forall|i: int|
            0 <= i < out.0.len() ==> is_primitive(#[trigger] out.0[i]),
{
    lemma_subroutines_leave_plain(program);
    let first = subroutines::expanded(program)->Ok_0;
    lemma_addresses_leave_filled(first);
    let second = auto_address::expanded(first)->Ok_0;
    lemma_constants_leave_resolved(second);
    let third = constants::expanded(second)->Ok_0.0;
    lemma_labels_leave_primitive(third);
}

/// The encoder refuses a primitive statement for one reason only: no opcode
/// of its mnemonic takes operands of its shape.
pub proof fn lemma_primitive_encodes(stmt: StatementNodeView)
    requires
        is_primitive(stmt),
    ensures
        encoded(stmt) matches Err(d) ==> d.problem is InvalidArguments,
{
    if let StatementView::Operation(_, args) = stmt.value {
        lemma_concrete_operands(args);
    }
}

/// Concrete operands have a shape and bytes.
pub proof fn lemma_concrete_operands(args: Seq<ArgumentNodeView>)
    requires
        forall|j: int| 0 <= j < args.len() ==> is_concrete(#[trigger] args[j]),
    ensures
        classified(args) is Ok,
        operand_bytes(args) is Ok,
    decreases args.len(),
{
    if args.len() > 0 {
        let front = args.drop_last();
        assert forall|j: int| 0 <= j < front.len() implies is_concrete(#[trigger] front[j]) by {
            assert(front[j] == args[j]);
        }
        lemma_concrete_operands(front);
        assert(is_concrete(args[args.len() - 1]));
    }
}

/// A program of primitive statements is refused by the encoder for one
/// reason only: an operation whose operands no opcode of its mnemonic
/// takes.
pub proof fn lemma_primitive_program_encodes(program: Seq<StatementNodeView>)
    requires
        forall|i: int| 0 <= i < program.len() ==> is_primitive(#[trigger] program[i]),
    ensures
        binary(program) matches Err(d) ==> d.problem is InvalidArguments,
    decreases program.len(),
{
    if program.len() > 0 {
        let front = program.drop_last();
        assert forall|i: int| 0 <= i < front.len() implies is_primitive(#[trigger] front[i]) by {
            assert(front[i] == program[i]);
        }
        lemma_primitive_program_encodes(front);
        assert(is_primitive(program[program.len() - 1]));
        lemma_primitive_encodes(program.last());
    }
}

} // verus!
