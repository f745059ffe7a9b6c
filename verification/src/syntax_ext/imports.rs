//! Imports.
//!
//! `#import <path>` stands for the statements of another file. The file is
//! read by the caller: this module finds the directives one after the other,
//! refuses a file that includes the file included just before it, and puts
//! the statements of the file in the place of the directive. The statements
//! that were put in are looked through in their turn.
//!
//! Only the direct repetition of a file is found. A cycle through several
//! files is not.
use vstd::prelude::*;
use crate::ast::{IPath, Program, Statement, StatementNodeView, StatementView};
use crate::lexer::SourceLocation;
use crate::parser::{parse_source, parsed_source};
use crate::util::{
    diagnostic, problem_at, rcstr, Diagnostic, Problem, ProblemView, SharedString,
};

verus! {

/// The index of the first include directive at or behind `from`.
pub open spec fn first_include(program: Seq<StatementNodeView>, from: int) -> Option<int>
    decreases program.len() - from,
{
    if from < 0 || from >= program.len() {
        None
    } else if program[from].value is Include {
        Some(from)
    } else {
        first_include(program, from + 1)
    }
}

/// An include directive that is to be carried out.
#[derive(Debug)]
pub struct ImportRequest {
    /// The index of the directive in the program.
    pub index: usize,
    /// The place of the directive; its file is the file that includes.
    pub location: SourceLocation,
    /// The path as the directive gives it.
    pub path: IPath,
}

/// The progress of the pass: how far the program is looked through, and the
/// file that was included last.
#[derive(Debug)]
pub struct Importer {
    pub position: usize,
    pub last_file: Option<SharedString>,
}

/// A program with the statement at `index` replaced by other statements.
pub open spec fn spliced(
    program: Seq<StatementNodeView>,
    index: int,
    included: Seq<StatementNodeView>,
) -> Seq<StatementNodeView> {
    program.take(index) + included + program.skip(index + 1)
}

impl Importer {
    /// The file that was included last.
    pub open spec fn last(&self) -> Option<Seq<char>> {
        match self.last_file {
            Some(file) => Some(file@),
            None => None,
        }
    }

    /// The pass at the beginning of a program.
    pub fn new() -> (r: Importer)
        ensures
            r.position == 0,
            r.last().is_none(),
    {
        Importer { position: 0, last_file: None }
    }

    /// Looks for the next include directive. Where there is none, the pass
    /// is done.
    pub fn next(&mut self, source: &Program) -> (r: Option<ImportRequest>)
        ensures
            final(self).last() == old(self).last(),
            match r {
                Some(request) => first_include(source.deep_view(), old(self).position as int)
                    == Some(request.index as int) && final(self).position == request.index
                    && request.index < source@.len() && request.location@
                    == source@[request.index as int]@.location && source@[request.index as int]@.value
                    == StatementView::Include(request.path@),
                None => first_include(source.deep_view(), old(self).position as int).is_none()
                    && final(self).position == if old(self).position < source@.len() {
                    source@.len()
                } else {
                    old(self).position as nat
                },
            },
    {
        let mut i = self.position;
        while i < source.len()
            invariant
                old(self).position <= i,
                i <= source@.len() || i == old(self).position,
                self.position == old(self).position,
                first_include(source.deep_view(), i as int) == first_include(
                    source.deep_view(),
                    old(self).position as int,
                ),
                self.last() == old(self).last(),
            decreases source.len() - i,
        {
            assert(source.deep_view()[i as int] == source@[i as int]@);
            match &source[i].value {
                Statement::Include(path) => {
                    self.position = i;
                    return Some(
                        ImportRequest {
                            index: i,
                            location: source[i].location.clone(),
                            path: path.clone(),
                        },
                    );
                },
                _ => {},
            }
            i += 1;
        }
        self.position = i;
        None
    }

    /// Takes note of the file that an include directive resolves to. The
    /// file that was included last is refused.
    pub fn accept(&mut self, request: &ImportRequest, resolved: &str) -> (r: Result<(), Diagnostic>)
        ensures
            final(self).position == old(self).position,
            match r {
                Ok(()) => old(self).last() != Some(resolved@) && final(self).last() == Some(
                    resolved@,
                ),
                Err(d) => old(self).last() == Some(resolved@)
                    && final(self).last() == old(self).last() && d@ == problem_at(
                    ProblemView::CircularImport(resolved@),
                    request.location@,
                ),
            },
    {
        let file = rcstr(resolved);
        let repeated = match &self.last_file {
            Some(last) => *last == file,
            None => false,
        };
        if repeated {
            return Err(diagnostic(Problem::CircularImport(file), &request.location));
        }
        self.last_file = Some(file);
        Ok(())
    }

    /// Puts statements in the place of the include directive at which the
    /// pass stands.
    pub fn splice(&self, source: &mut Program, included: Program)
        requires
            self.position < old(source)@.len(),
        ensures
            final(source).deep_view() == spliced(
                old(source).deep_view(),
                self.position as int,
                included.deep_view(),
            ),
    {
        let mut included = included;
        let ghost added = included.deep_view();
        let mut tail = source.split_off(self.position);
        let ghost head = source.deep_view();
        let ghost rest = tail.deep_view();
        let directive = tail.remove(0);
        let ghost behind = tail.deep_view();
        source.append(&mut included);
        source.append(&mut tail);
        proof {
            let old_view = old(source).deep_view();
            assert(head =~= old_view.take(self.position as int));
            assert(rest =~= old_view.skip(self.position as int));
            assert(behind =~= rest.drop_first());
            assert(behind =~= old_view.skip(self.position + 1));
            assert(source.deep_view() =~= head + added + behind);
        }
    }

    /// Parses the text of an included file and puts its statements in the
    /// place of the include directive at which the pass stands. `file` is
    /// the name that the places of the statements carry. On an error the
    /// program is left as it was.
    pub fn inline(&self, source: &mut Program, file: &str, contents: &str) -> (r: Result<
        (),
        Diagnostic,
    >)
        requires
            self.position < old(source)@.len(),
        ensures
            match r {
                Ok(()) => parsed_source(contents@, file@) matches Ok(included)
                    && final(source).deep_view() == spliced(
                    old(source).deep_view(),
                    self.position as int,
                    included,
                ),
                Err(d) => parsed_source(contents@, file@) == Err::<Seq<StatementNodeView>, _>(d@)
                    && final(source).deep_view() == old(source).deep_view(),
            },
    {
        match parse_source(contents, file) {
            Ok(included) => {
                self.splice(source, included);
                Ok(())
            },
            Err(d) => Err(d),
        }
    }
}

} // verus!
