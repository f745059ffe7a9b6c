//! The passes that rewrite a program until only operations with concrete
//! operands remain: imports, subroutines, automatic addresses, constants
//! and labels, in this order.
use vstd::prelude::*;
use crate::ast::{Program, StatementNodeView};
use crate::util::{diagnostic, problem_at, Diagnostic, DiagnosticView, Problem, ProblemView};

pub mod auto_address;
pub mod constants;
pub mod imports;
pub mod labels;
pub mod primitive;
pub mod subroutines;

verus! {

/// What the passes behind the imports make of a program, with the warnings
/// of the passes; or the first error.
///
/// The files that a program includes are read by the caller. An include
/// directive that is still there is an error.
pub open spec fn expanded(program: Seq<StatementNodeView>) -> Result<
    (Seq<StatementNodeView>, Seq<DiagnosticView>),
    DiagnosticView,
> {
    match imports::first_include(program, 0) {
        Some(i) => Err(problem_at(ProblemView::UnresolvedInclude, program[i].location)),
        None => match subroutines::expanded(program) {
            Err(d) => Err(d),
            Ok(with_subroutines) => match auto_address::expanded(with_subroutines) {
                Err(d) => Err(d),
                Ok(with_addresses) => match constants::expanded(with_addresses) {
                    Err(d) => Err(d),
                    Ok((with_constants, first)) => match labels::expanded(with_constants) {
                        Err(d) => Err(d),
                        Ok((with_labels, second)) => Ok((with_labels, first + second)),
                    },
                },
            },
        },
    }
}

/// Runs the passes behind the imports and gives their warnings. On an error
/// the program is left as it was.
pub fn expand_syntax_extensions(source: &mut Program) -> (r: Result<Vec<Diagnostic>, Diagnostic>)
    ensures
        match r {
            Ok(warnings) => expanded(old(source).deep_view()) == Ok::<_, DiagnosticView>(
                (final(source).deep_view(), warnings.deep_view()),
            ),
            Err(d) => expanded(old(source).deep_view()) == Err::<
                (Seq<StatementNodeView>, Seq<DiagnosticView>),
                _,
            >(d@) && final(source).deep_view() == old(source).deep_view(),
        },
{
    let mut importer = imports::Importer::new();
    match importer.next(source) {
        Some(request) => {
            assert(source.deep_view()[request.index as int] == source@[request.index as int]@);
            return Err(diagnostic(Problem::UnresolvedInclude, &request.location));
        },
        None => {},
    }
    let mut work = subroutines::clone_program(source);
    match subroutines::expand(&mut work) {
        Ok(()) => {},
        Err(d) => {
            return Err(d);
        },
    }
    match auto_address::expand(&mut work) {
        Ok(()) => {},
        Err(d) => {
            return Err(d);
        },
    }
    let mut warnings = match constants::expand(&mut work) {
        Ok(warnings) => warnings,
        Err(d) => {
            return Err(d);
        },
    };
    let ghost first = warnings.deep_view();
    let mut more = match labels::expand(&mut work) {
        Ok(warnings) => warnings,
        Err(d) => {
            return Err(d);
        },
    };
    let ghost second = more.deep_view();
    warnings.append(&mut more);
    assert(warnings.deep_view() =~= first + second);
    *source = work;
    Ok(warnings)
}

} // verus!
