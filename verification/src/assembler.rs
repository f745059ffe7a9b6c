//! The assembler as a whole: from the text of a source to bytes.
use vstd::prelude::*;
use crate::ast::{Program, StatementNodeView};
use crate::codegen::{binary, generate_binary};
use crate::parser::{parse_source, parsed_source};
use crate::syntax_ext::{expand_syntax_extensions, expanded};
use crate::util::{Diagnostic, DiagnosticView};

verus! {

/// The bytes of a program, statement by statement, with the warnings of
/// the passes; or the first error.
pub open spec fn assembled(program: Seq<StatementNodeView>) -> Result<
    (Seq<Seq<u8>>, Seq<DiagnosticView>),
    DiagnosticView,
> {
    match expanded(program) {
        Err(d) => Err(d),
        Ok((primitive, warnings)) => match binary(primitive) {
            Err(d) => Err(d),
            Ok(bytes) => Ok((bytes, warnings)),
        },
    }
}

/// Runs the passes on a program whose imports are inlined, and encodes it.
pub fn assemble(program: Program) -> (r: Result<(Vec<Vec<u8>>, Vec<Diagnostic>), Diagnostic>)
    ensures
        match r {
            Ok((bytes, warnings)) => assembled(program.deep_view()) == Ok::<_, DiagnosticView>(
                (bytes.deep_view(), warnings.deep_view()),
            ),
            Err(d) => assembled(program.deep_view()) == Err::<
                (Seq<Seq<u8>>, Seq<DiagnosticView>),
                _,
            >(d@),
        },
{
    let mut program = program;
    let warnings = match expand_syntax_extensions(&mut program) {
        Ok(warnings) => warnings,
        Err(d) => {
            return Err(d);
        },
    };
    match generate_binary(program) {
        Ok(bytes) => Ok((bytes, warnings)),
        Err(d) => Err(d),
    }
}

/// The bytes that the text of a source without imports stands for.
pub open spec fn assembled_source(source: Seq<char>, file: Seq<char>) -> Result<
    (Seq<Seq<u8>>, Seq<DiagnosticView>),
    DiagnosticView,
> {
    match parsed_source(source, file) {
        Err(d) => Err(d),
        Ok(program) => assembled(program),
    }
}

/// Parses the text of a source without imports, runs the passes and
/// encodes the result.
pub fn assemble_source(source: &str, file: &str) -> (r: Result<
    (Vec<Vec<u8>>, Vec<Diagnostic>),
    Diagnostic,
>)
    ensures
        match r {
            Ok((bytes, warnings)) => assembled_source(source@, file@) == Ok::<_, DiagnosticView>(
                (bytes.deep_view(), warnings.deep_view()),
            ),
            Err(d) => assembled_source(source@, file@) == Err::<
                (Seq<Seq<u8>>, Seq<DiagnosticView>),
                _,
            >(d@),
        },
{
    match parse_source(source, file) {
        Ok(program) => assemble(program),
        Err(d) => Err(d),
    }
}

} // verus!
