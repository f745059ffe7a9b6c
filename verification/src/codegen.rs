//! The encoder: from operations with concrete operands to bytes.
//!
//! An operation becomes its opcode followed by one byte for each operand.
//! The opcode is the first one of the mnemonic whose operands are written as
//! the operands of the operation are: each an address or a literal.
use vstd::prelude::*;
use crate::ast::{
    Argument, ArgumentNode, ArgumentNodeView, ArgumentView, Statement, StatementNode,
    StatementNodeView, StatementView,
};
use crate::machine::{lookup_operations, opcodes, shape_of, table, ArgumentType, Mnemonic};
use crate::util::{
    diagnostic, problem_at, shapes_view, Diagnostic, DiagnosticView, Problem, ProblemView,
};

verus! {

// --- Operand shapes ------------------------------------------------------------

/// How an argument is written: as a literal or as an address. An argument
/// that a pass should have replaced is an error.
pub open spec fn classification(arg: ArgumentNodeView) -> Result<ArgumentType, DiagnosticView> {
    match arg.value {
        ArgumentView::Literal(_) | ArgumentView::Char(_) => Ok(ArgumentType::Literal),
        ArgumentView::Address(_) => Ok(ArgumentType::Address),
        _ => Err(problem_at(ProblemView::UnprocessedArgument, arg.location)),
    }
}

/// The shape of a list of arguments, or the first error.
pub open spec fn classified(args: Seq<ArgumentNodeView>) -> Result<
    Seq<ArgumentType>,
    DiagnosticView,
>
    decreases args.len(),
{
    if args.len() == 0 {
        Ok(Seq::empty())
    } else {
        match classified(args.drop_last()) {
            Err(d) => Err(d),
            Ok(front) => match classification(args.last()) {
                Err(d) => Err(d),
                Ok(kind) => Ok(front.push(kind)),
            },
        }
    }
}

/// An error among the first arguments is the error of the whole list.
pub proof fn lemma_classified_fails(args: Seq<ArgumentNodeView>, n: int)
    requires
        0 <= n <= args.len(),
        classified(args.take(n)) is Err,
    ensures
        classified(args) == classified(args.take(n)),
    decreases args.len() - n,
{
    if n < args.len() {
        assert(args.take(n + 1).drop_last() =~= args.take(n));
        lemma_classified_fails(args, n + 1);
    } else {
        assert(args.take(n) =~= args);
    }
}

/// Computes [`classified`].
pub fn classify(args: &Vec<ArgumentNode>) -> (r: Result<Vec<ArgumentType>, Diagnostic>)
    ensures
        match r {
            Ok(shape) => classified(args.deep_view()) == Ok::<_, DiagnosticView>(shape@),
            Err(d) => classified(args.deep_view()) == Err::<Seq<ArgumentType>, _>(d@),
        },
{
    let mut shape: Vec<ArgumentType> = Vec::new();
    let mut i: usize = 0;
    let ghost view = args.deep_view();
    assert(view.take(0) =~= Seq::empty());
    while i < args.len()
        invariant
            i <= args.len(),
            view == args.deep_view(),
            classified(view.take(i as int)) == Ok::<_, DiagnosticView>(shape@),
        decreases args.len() - i,
    {
        proof {
            assert(view.take(i + 1).drop_last() =~= view.take(i as int));
            assert(view.take(i + 1).last() == args@[i as int]@);
        }
        match &args[i].value {
            Argument::Literal(_) | Argument::Char(_) => shape.push(ArgumentType::Literal),
            Argument::Address(_) => shape.push(ArgumentType::Address),
            _ => {
                proof {
                    lemma_classified_fails(view, i + 1);
                }
                return Err(diagnostic(Problem::UnprocessedArgument, &args[i].location));
            },
        }
        i += 1;
    }
    assert(view.take(i as int) =~= view);
    Ok(shape)
}

// --- Opcode selection ----------------------------------------------------------

/// The shapes that a mnemonic accepts, in the order of its opcodes.
pub open spec fn legal_shapes(mnem: Mnemonic) -> Seq<Seq<ArgumentType>> {
    Seq::new(opcodes(mnem).len(), |i: int| shape_of(table(opcodes(mnem)[i]).unwrap().1))
}

/// The first opcode of a mnemonic, at or behind position `from`, that takes
/// operands of the given shape.
pub open spec fn selected_from(mnem: Mnemonic, shape: Seq<ArgumentType>, from: int) -> Option<u8>
    decreases opcodes(mnem).len() - from,
{
    if from < 0 || from >= opcodes(mnem).len() {
        None
    } else if legal_shapes(mnem)[from] == shape {
        Some(opcodes(mnem)[from])
    } else {
        selected_from(mnem, shape, from + 1)
    }
}

/// The opcode that encodes a mnemonic with operands of the given shape.
pub open spec fn selected(mnem: Mnemonic, shape: Seq<ArgumentType>) -> Option<u8> {
    selected_from(mnem, shape, 0)
}

/// Whether two shapes are the same.
fn same_shape(a: &Vec<ArgumentType>, b: &Vec<ArgumentType>) -> (r: bool)
    ensures
        r == (a@ == b@),
{
    if a.len() != b.len() {
        return false;
    }
    let mut i: usize = 0;
    while i < a.len()
        invariant
            i <= a.len(),
            a.len() == b.len(),
            forall|j: int| 0 <= j < i ==> a@[j] == b@[j],
        decreases a.len() - i,
    {
        if a[i] != b[i] {
            return false;
        }
        i += 1;
    }
    assert(a@ =~= b@);
    true
}

/// Copies a shape.
fn clone_shape(a: &Vec<ArgumentType>) -> (r: Vec<ArgumentType>)
    ensures
        r@ == a@,
{
    let mut r: Vec<ArgumentType> = Vec::new();
    let mut i: usize = 0;
    while i < a.len()
        invariant
            i <= a.len(),
            r@.len() == i,
            forall|j: int| 0 <= j < i ==> r@[j] == a@[j],
        decreases a.len() - i,
    {
        r.push(a[i]);
        i += 1;
    }
    assert(r@ =~= a@);
    r
}

/// Picks the opcode of a mnemonic for operands of the given shape. Where no
/// opcode of the mnemonic takes such operands, the shapes that it does take
/// are handed back.
pub fn select(mnem: Mnemonic, shape: &Vec<ArgumentType>) -> (r: Result<u8, Vec<Vec<ArgumentType>>>)
    ensures
        match r {
            Ok(opcode) => selected(mnem, shape@) == Some(opcode),
            Err(allowed) => selected(mnem, shape@).is_none() && shapes_view(allowed@)
                == legal_shapes(mnem),
        },
{
    let instr_class = lookup_operations(mnem);
    proof {
        assert forall|j: int| 0 <= j < instr_class@.len() implies (#[trigger] instr_class@[j]).args@
            == legal_shapes(mnem)[j] by {
            assert(instr_class@[j].listed());
        }
    }
    let mut i: usize = 0;
    while i < instr_class.len()
        invariant
            i <= instr_class.len(),
            instr_class@.len() == opcodes(mnem).len(),
            forall|j: int|
                0 <= j < instr_class@.len() ==> (#[trigger] instr_class@[j]).args@ == legal_shapes(
                    mnem,
                )[j] && instr_class@[j].opcode == opcodes(mnem)[j],
            selected(mnem, shape@) == selected_from(mnem, shape@, i as int),
        decreases instr_class.len() - i,
    {
        if same_shape(&instr_class[i].args, shape) {
            return Ok(instr_class[i].opcode);
        }
        i += 1;
    }
    let mut allowed: Vec<Vec<ArgumentType>> = Vec::new();
    let mut k: usize = 0;
    while k < instr_class.len()
        invariant
            k <= instr_class.len(),
            instr_class@.len() == opcodes(mnem).len(),
            allowed@.len() == k,
            forall|j: int|
                0 <= j < instr_class@.len() ==> (#[trigger] instr_class@[j]).args@ == legal_shapes(
                    mnem,
                )[j],
            forall|j: int| 0 <= j < k ==> (#[trigger] allowed@[j])@ == legal_shapes(mnem)[j],
        decreases instr_class.len() - k,
    {
        allowed.push(clone_shape(&instr_class[k].args));
        k += 1;
    }
    assert(shapes_view(allowed@) =~= legal_shapes(mnem));
    Err(allowed)
}

// --- Operand bytes -------------------------------------------------------------

/// The byte that encodes an argument. An address placeholder, and an
/// argument that a pass should have replaced, are errors.
pub open spec fn operand_byte(arg: ArgumentNodeView) -> Result<u8, DiagnosticView> {
    match arg.value {
        ArgumentView::Literal(i) => Ok(i),
        ArgumentView::Char(c) => Ok(c),
        ArgumentView::Address(Some(a)) => Ok(a),
        ArgumentView::Address(None) => Err(
            problem_at(ProblemView::UnresolvedAddress, arg.location),
        ),
        _ => Err(problem_at(ProblemView::UnprocessedArgument, arg.location)),
    }
}

/// The bytes that encode a list of arguments, or the first error.
pub open spec fn operand_bytes(args: Seq<ArgumentNodeView>) -> Result<Seq<u8>, DiagnosticView>
    decreases args.len(),
{
    if args.len() == 0 {
        Ok(Seq::empty())
    } else {
        match operand_bytes(args.drop_last()) {
            Err(d) => Err(d),
            Ok(front) => match operand_byte(args.last()) {
                Err(d) => Err(d),
                Ok(byte) => Ok(front.push(byte)),
            },
        }
    }
}

/// An error among the first arguments is the error of the whole list.
pub proof fn lemma_operand_bytes_fail(args: Seq<ArgumentNodeView>, n: int)
    requires
        0 <= n <= args.len(),
        operand_bytes(args.take(n)) is Err,
    ensures
        operand_bytes(args) == operand_bytes(args.take(n)),
    decreases args.len() - n,
{
    if n < args.len() {
        assert(args.take(n + 1).drop_last() =~= args.take(n));
        lemma_operand_bytes_fail(args, n + 1);
    } else {
        assert(args.take(n) =~= args);
    }
}

// --- Statements and programs ---------------------------------------------------

/// The bytes of a statement: the opcode, then the operands. A statement
/// that is no operation is an error.
pub open spec fn encoded(stmt: StatementNodeView) -> Result<Seq<u8>, DiagnosticView> {
    match stmt.value {
        StatementView::Operation(mnem, args) => match classified(args) {
            Err(d) => Err(d),
            Ok(shape) => match selected(mnem, shape) {
                None => Err(
                    problem_at(
                        ProblemView::InvalidArguments {
                            mnemonic: mnem,
                            shape,
                            allowed: legal_shapes(mnem),
                        },
                        stmt.location,
                    ),
                ),
                Some(opcode) => match operand_bytes(args) {
                    Err(d) => Err(d),
                    Ok(bytes) => Ok(seq![opcode] + bytes),
                },
            },
        },
        _ => Err(problem_at(ProblemView::UnprocessedStatement, stmt.location)),
    }
}

/// The bytes of a program, statement by statement, or the first error.
pub open spec fn binary(program: Seq<StatementNodeView>) -> Result<Seq<Seq<u8>>, DiagnosticView>
    decreases program.len(),
{
    if program.len() == 0 {
        Ok(Seq::empty())
    } else {
        match binary(program.drop_last()) {
            Err(d) => Err(d),
            Ok(front) => match encoded(program.last()) {
                Err(d) => Err(d),
                Ok(bytes) => Ok(front.push(bytes)),
            },
        }
    }
}

/// An error in a prefix of a program is the error of the program.
pub proof fn lemma_binary_fails(program: Seq<StatementNodeView>, n: int)
    requires
        0 <= n <= program.len(),
        binary(program.take(n)) is Err,
    ensures
        binary(program) == binary(program.take(n)),
    decreases program.len() - n,
{
    if n < program.len() {
        assert(program.take(n + 1).drop_last() =~= program.take(n));
        lemma_binary_fails(program, n + 1);
    } else {
        assert(program.take(n) =~= program);
    }
}

/// Encodes one statement.
pub fn encode(stmt: &StatementNode) -> (r: Result<Vec<u8>, Diagnostic>)
    ensures
        match r {
            Ok(bytes) => encoded(stmt@) == Ok::<_, DiagnosticView>(bytes@),
            Err(d) => encoded(stmt@) == Err::<Seq<u8>, _>(d@),
        },
{
    let (mnem, args) = match &stmt.value {
        Statement::Operation(mnem, args) => (mnem.0, args),
        _ => {
            return Err(diagnostic(Problem::UnprocessedStatement, &stmt.location));
        },
    };
    let arg_types = match classify(args) {
        Ok(arg_types) => arg_types,
        Err(d) => {
            return Err(d);
        },
    };
    let opcode = match select(mnem, &arg_types) {
        Ok(opcode) => opcode,
        Err(allowed) => {
            return Err(
                diagnostic(
                    Problem::InvalidArguments { mnemonic: mnem, shape: arg_types, allowed },
                    &stmt.location,
                ),
            );
        },
    };
    let mut binary_stmt: Vec<u8> = Vec::new();
    binary_stmt.push(opcode);
    let mut i: usize = 0;
    let ghost view = args.deep_view();
    proof {
        assert(view.take(0) =~= Seq::empty());
        assert(binary_stmt@.subrange(1, 1) =~= Seq::empty());
    }
    while i < args.len()
        invariant
            i <= args.len(),
            view == args.deep_view(),
            stmt@.value == StatementView::Operation(mnem, view),
            classified(view) == Ok::<_, DiagnosticView>(arg_types@),
            selected(mnem, arg_types@) == Some(opcode),
            binary_stmt@.len() == i + 1,
            binary_stmt@[0] == opcode,
            operand_bytes(view.take(i as int)) == Ok::<_, DiagnosticView>(
                binary_stmt@.subrange(1, i + 1),
            ),
        decreases args.len() - i,
    {
        proof {
            assert(view.take(i + 1).drop_last() =~= view.take(i as int));
            assert(view.take(i + 1).last() == args@[i as int]@);
        }
        let ghost before = binary_stmt@.subrange(1, i + 1);
        let byte = match &args[i].value {
            Argument::Literal(value) => *value,
            Argument::Char(c) => *c,
            Argument::Address(Some(a)) => *a,
            Argument::Address(None) => {
                proof {
                    lemma_operand_bytes_fail(view, i + 1);
                }
                return Err(diagnostic(Problem::UnresolvedAddress, &args[i].location));
            },
            _ => {
                proof {
                    lemma_operand_bytes_fail(view, i + 1);
                }
                return Err(diagnostic(Problem::UnprocessedArgument, &args[i].location));
            },
        };
        binary_stmt.push(byte);
        assert(binary_stmt@.subrange(1, i + 2) =~= before.push(byte));
        i += 1;
    }
    proof {
        assert(view.take(i as int) =~= view);
        assert(binary_stmt@ =~= seq![opcode] + binary_stmt@.subrange(1, i + 1));
    }
    Ok(binary_stmt)
}

/// Encodes a program. The result keeps the bytes of each statement apart.
pub fn generate_binary(ast: Vec<StatementNode>) -> (r: Result<Vec<Vec<u8>>, Diagnostic>)
    ensures
        match r {
            Ok(bytes) => binary(ast.deep_view()) == Ok::<_, DiagnosticView>(bytes.deep_view()),
            Err(d) => binary(ast.deep_view()) == Err::<Seq<Seq<u8>>, _>(d@),
        },
{
    let mut out: Vec<Vec<u8>> = Vec::new();
    let mut i: usize = 0;
    let ghost program = ast.deep_view();
    proof {
        assert(program.take(0) =~= Seq::empty());
        assert(out.deep_view() =~= Seq::empty());
    }
    while i < ast.len()
        invariant
            i <= ast.len(),
            program == ast.deep_view(),
            out@.len() == i,
            binary(program.take(i as int)) == Ok::<_, DiagnosticView>(out.deep_view()),
        decreases ast.len() - i,
    {
        proof {
            assert(program.take(i + 1).drop_last() =~= program.take(i as int));
            assert(program.take(i + 1).last() == ast@[i as int]@);
        }
        match encode(&ast[i]) {
            Ok(bytes) => {
                let ghost before = out.deep_view();
                let ghost added = bytes@;
                assert(bytes.deep_view() =~= added);
                out.push(bytes);
                assert(out.deep_view() =~= before.push(added));
            },
            Err(d) => {
                proof {
                    lemma_binary_fails(program, i + 1);
                }
                return Err(d);
            },
        }
        i += 1;
    }
    assert(program.take(i as int) =~= program);
    Ok(out)
}

// --- Output --------------------------------------------------------------------

/// The bytes of all statements in a row: the binary file.
pub open spec fn flat(binary: Seq<Seq<u8>>) -> Seq<u8>
    decreases binary.len(),
{
    if binary.len() == 0 {
        Seq::empty()
    } else {
        flat(binary.drop_last()) + binary.last()
    }
}

/// Puts the bytes of all statements in a row.
pub fn flatten(binary: &Vec<Vec<u8>>) -> (r: Vec<u8>)
    ensures
        r@ == flat(binary.deep_view()),
{
    let mut r: Vec<u8> = Vec::new();
    let mut i: usize = 0;
    let ghost view = binary.deep_view();
    assert(view.take(0) =~= Seq::empty());
    while i < binary.len()
        invariant
            i <= binary.len(),
            view == binary.deep_view(),
            r@ == flat(view.take(i as int)),
        decreases binary.len() - i,
    {
        assert(view.take(i + 1).drop_last() =~= view.take(i as int));
        assert(view.take(i + 1).last() =~= binary@[i as int]@);
        let mut j: usize = 0;
        let ghost before = r@;
        while j < binary[i].len()
            invariant
                i < binary.len(),
                j <= binary@[i as int]@.len(),
                r@ == before + binary@[i as int]@.take(j as int),
            decreases binary@[i as int]@.len() - j,
        {
            r.push(binary[i][j]);
            j += 1;
            assert(r@ =~= before + binary@[i as int]@.take(j as int));
        }
        assert(binary@[i as int]@.take(j as int) =~= binary@[i as int]@);
        i += 1;
    }
    assert(view.take(i as int) =~= view);
    r
}

/// A line of a listing: each byte in hexadecimal notation, with a blank
/// behind it.
pub open spec fn listing_line(bytes: Seq<u8>) -> Seq<char>
    decreases bytes.len(),
{
    if bytes.len() == 0 {
        Seq::empty()
    } else {
        listing_line(bytes.drop_last()) + crate::text::hex(bytes.last()) + seq![' ']
    }
}

/// A listing: one line for each statement.
pub open spec fn listing(binary: Seq<Seq<u8>>) -> Seq<char>
    decreases binary.len(),
{
    if binary.len() == 0 {
        Seq::empty()
    } else {
        listing(binary.drop_last()) + listing_line(binary.last()) + seq!['\n']
    }
}

/// Writes a listing of the bytes, statement by statement.
pub fn format_listing(binary: &Vec<Vec<u8>>) -> (r: String)
    ensures
        r@ == listing(binary.deep_view()),
{
    let mut r = String::new();
    let mut i: usize = 0;
    let ghost view = binary.deep_view();
    assert(view.take(0) =~= Seq::empty());
    while i < binary.len()
        invariant
            i <= binary.len(),
            view == binary.deep_view(),
            r@ == listing(view.take(i as int)),
        decreases binary.len() - i,
    {
        assert(view.take(i + 1).drop_last() =~= view.take(i as int));
        assert(view.take(i + 1).last() =~= binary@[i as int]@);
        let mut j: usize = 0;
        let ghost before = r@;
        let ghost bytes = binary@[i as int]@;
        assert(bytes.take(0) =~= Seq::empty());
        while j < binary[i].len()
            invariant
                i < binary.len(),
                bytes == binary@[i as int]@,
                j <= bytes.len(),
                r@ == before + listing_line(bytes.take(j as int)),
            decreases bytes.len() - j,
        {
            assert(bytes.take(j + 1).drop_last() =~= bytes.take(j as int));
            let digits = crate::text::hex_byte(binary[i][j]);
            let ghost line = r@;
            r.append(digits.as_str());
            crate::text::push_char(&mut r, ' ');
            j += 1;
            assert(r@ =~= before + listing_line(bytes.take(j as int)));
        }
        assert(bytes.take(j as int) =~= bytes);
        crate::text::push_char(&mut r, '\n');
        i += 1;
        assert(r@ =~= listing(view.take(i as int)));
    }
    assert(view.take(i as int) =~= view);
    r
}

// --- Laws ----------------------------------------------------------------------

/// The search for an opcode finds the first position, at or behind `from`,
/// whose shape is the given one, and nothing where there is none.
pub proof fn lemma_selected_from(mnem: Mnemonic, shape: Seq<ArgumentType>, from: int)
    requires
        0 <= from <= opcodes(mnem).len(),
    ensures
        match selected_from(mnem, shape, from) {
            Some(opcode) => exists|i: int|
                from <= i < opcodes(mnem).len() && opcodes(mnem)[i] == opcode
                    && #[trigger] legal_shapes(mnem)[i] == shape,
            None => forall|i: int|
                from <= i < opcodes(mnem).len() ==> #[trigger] legal_shapes(mnem)[i] != shape,
        },
    decreases opcodes(mnem).len() - from,
{
    if from < opcodes(mnem).len() {
        if legal_shapes(mnem)[from] == shape {
        } else {
            lemma_selected_from(mnem, shape, from + 1);
        }
    }
}

/// No two opcodes of a mnemonic take operands of the same shape.
pub proof fn lemma_shapes_differ(mnem: Mnemonic, i: int, j: int)
    requires
        0 <= i < j < opcodes(mnem).len(),
    ensures
        legal_shapes(mnem)[i] != legal_shapes(mnem)[j],
{
    let a = table(opcodes(mnem)[i]).unwrap().1;
    let b = table(opcodes(mnem)[j]).unwrap().1;
    assert(legal_shapes(mnem)[i] == shape_of(a));
    assert(legal_shapes(mnem)[j] == shape_of(b));
    assert(opcodes(mnem).len() <= 4);
    if a.len() == b.len() {
        assert(exists|k: int|
            0 <= k < a.len() && (#[trigger] a[k]).encoding() != b[k].encoding()) by {
            if a.len() >= 1 && a[0].encoding() != b[0].encoding() {
            } else if a.len() >= 2 && a[1].encoding() != b[1].encoding() {
            } else {
                assert(a.len() >= 3 && a[2].encoding() != b[2].encoding());
            }
        }
        let k = choose|k: int| 0 <= k < a.len() && (#[trigger] a[k]).encoding() != b[k].encoding();
        assert(shape_of(a)[k] != shape_of(b)[k]);
    } else {
        assert(shape_of(a).len() != shape_of(b).len());
    }
}

/// The opcode of a mnemonic and a shape is determined by them: it is the
/// one opcode of the mnemonic that takes operands of that shape. The
/// instruction table lists it under the mnemonic with operands that are
/// written in that shape.
pub proof fn lemma_selection_is_determined(mnem: Mnemonic, shape: Seq<ArgumentType>, opcode: u8)
    requires
        selected(mnem, shape) == Some(opcode),
    ensures
        table(opcode) matches Some(entry) && entry.0 == mnem && shape_of(entry.1) == shape,
        forall|i: int|
            0 <= i < opcodes(mnem).len() && #[trigger] legal_shapes(mnem)[i] == shape
                ==> opcodes(mnem)[i] == opcode,
{
    lemma_selected_from(mnem, shape, 0);
    crate::machine::lemma_table_agrees();
    let found = choose|i: int|
        0 <= i < opcodes(mnem).len() && opcodes(mnem)[i] == opcode && #[trigger] legal_shapes(
            mnem,
        )[i] == shape;
    assert(table(opcodes(mnem)[found]) is Some);
    assert forall|i: int|
        0 <= i < opcodes(mnem).len() && #[trigger] legal_shapes(mnem)[i] == shape implies opcodes(
        mnem,
    )[i] == opcode by {
        if i < found {
            lemma_shapes_differ(mnem, i, found);
        } else if found < i {
            lemma_shapes_differ(mnem, found, i);
        }
    }
}

/// Where no opcode of a mnemonic takes operands of a shape, the shape is
/// none of the legal shapes; and an operation of that shape is refused with
/// an error that names the mnemonic, the shape and all legal shapes.
pub proof fn lemma_selection_fails(stmt: StatementNodeView, shape: Seq<ArgumentType>)
    requires
        stmt.value matches StatementView::Operation(mnem, args) && classified(args) == Ok::<
            _,
            DiagnosticView,
        >(shape) && selected(mnem, shape).is_none(),
    ensures
        stmt.value matches StatementView::Operation(mnem, args) && (forall|i: int|
            0 <= i < legal_shapes(mnem).len() ==> #[trigger] legal_shapes(mnem)[i] != shape)
            && encoded(stmt) == Err::<Seq<u8>, _>(
            problem_at(
                ProblemView::InvalidArguments { mnemonic: mnem, shape, allowed: legal_shapes(mnem) },
                stmt.location,
            ),
        ),
{
    if let StatementView::Operation(mnem, args) = stmt.value {
        lemma_selected_from(mnem, shape, 0);
    }
}

/// The bytes of a list of arguments are as many as the arguments.
pub proof fn lemma_operand_bytes_len(args: Seq<ArgumentNodeView>)
    ensures
        operand_bytes(args) matches Ok(bytes) ==> bytes.len() == args.len(),
        classified(args) matches Ok(shape) ==> shape.len() == args.len(),
    decreases args.len(),
{
    if args.len() > 0 {
        lemma_operand_bytes_len(args.drop_last());
    }
}

/// What the encoder writes, the machine reads back: the first byte of an
/// encoded operation is an opcode of its mnemonic, and as many bytes follow
/// as the instruction takes operands.
pub proof fn lemma_encoding_decodes(stmt: StatementNodeView)
    requires
        encoded(stmt) is Ok,
    ensures
        ({
            &&& stmt.value matches StatementView::Operation(mnem, args)
            &&& encoded(stmt) matches Ok(bytes)
            &&& bytes.len() == 1 + args.len()
            &&& crate::machine::descriptor(bytes[0]) matches Some(instruction)
            &&& instruction.mnem == mnem
            &&& instruction.argc() == args.len()
        }),
{
    if let StatementView::Operation(mnem, args) = stmt.value {
        lemma_operand_bytes_len(args);
        let shape = classified(args)->Ok_0;
        let opcode = selected(mnem, shape)->Some_0;
        lemma_selection_is_determined(mnem, shape, opcode);
    }
}

/// The bytes of a program before its `k`-th statement are as many as the
/// labels pass counts: one for each opcode and one for each operand. So the
/// offset that a label stands for is the place of its operation in the
/// binary.
pub proof fn lemma_offsets_are_places(program: Seq<StatementNodeView>, k: int)
    requires
        binary(program) is Ok,
        0 <= k <= program.len(),
    ensures
        ({
            &&& binary(program) matches Ok(bytes)
            &&& bytes.len() == program.len()
            &&& flat(bytes.take(k)).len() == crate::syntax_ext::labels::byte_offset(program.take(k))
        }),
    decreases program.len(),
{
    let bytes = binary(program)->Ok_0;
    if program.len() == 0 {
        assert(bytes.take(k) =~= Seq::empty());
        assert(program.take(k) =~= Seq::empty());
    } else {
        let front = program.drop_last();
        let front_bytes = binary(front)->Ok_0;
        assert(bytes.drop_last() =~= front_bytes);
        lemma_encoding_decodes(program.last());
        if k < program.len() {
            lemma_offsets_are_places(front, k);
            assert(front.take(k) =~= program.take(k));
            assert(front_bytes.take(k) =~= bytes.take(k));
        } else {
            lemma_offsets_are_places(front, k - 1);
            assert(front.take(k - 1) =~= front);
            assert(front_bytes.take(k - 1) =~= front_bytes);
            assert(program.take(k) =~= program);
            assert(bytes.take(k) =~= bytes);
        }
    }
}

} // verus!
