//! The instruction set shared by the encoder and the virtual machine.
//!
//! Every opcode has one descriptor. A descriptor says how each operand is
//! written in source ([`ArgumentType`]) and how the machine reads the operand
//! byte when the instruction runs ([`Argument`]).
use vstd::prelude::*;
use crate::text::{ascii_uppercase, chars_of, spells, to_ascii_uppercase};

verus! {

/// The machine word: memory cells, addresses and operands are single bytes.
pub type WordSize = u8;

/// `RANDOM` stores a value below this bound.
pub const RAND_MAX: u8 = 25;

/// The opcode of `HALT`.
pub const HALT_OPCODE: u8 = 0xFF;

/// The names of the instructions.
#[derive(Clone, Copy, PartialEq, Eq, Structural, Debug, Hash)]
pub enum Mnemonic {
    AND,
    OR,
    XOR,
    NOT,
    MOV,
    RANDOM,
    ADD,
    SUB,
    JMP,
    JZ,
    JEQ,
    JLS,
    JGT,
    APRINT,
    DPRINT,
    AREAD,
    HALT,
}

impl Mnemonic {
    /// The mnemonic as it is written in source.
    pub open spec fn name(self) -> Seq<char> {
        match self {
            Mnemonic::AND => "AND"@,
            Mnemonic::OR => "OR"@,
            Mnemonic::XOR => "XOR"@,
            Mnemonic::NOT => "NOT"@,
            Mnemonic::MOV => "MOV"@,
            Mnemonic::RANDOM => "RANDOM"@,
            Mnemonic::ADD => "ADD"@,
            Mnemonic::SUB => "SUB"@,
            Mnemonic::JMP => "JMP"@,
            Mnemonic::JZ => "JZ"@,
            Mnemonic::JEQ => "JEQ"@,
            Mnemonic::JLS => "JLS"@,
            Mnemonic::JGT => "JGT"@,
            Mnemonic::APRINT => "APRINT"@,
            Mnemonic::DPRINT => "DPRINT"@,
            Mnemonic::AREAD => "AREAD"@,
            Mnemonic::HALT => "HALT"@,
        }
    }

    /// The mnemonic as it is written in source.
    pub fn as_str(self) -> (r: &'static str)
        ensures
            r@ == self.name(),
    {
        match self {
            Mnemonic::AND => "AND",
            Mnemonic::OR => "OR",
            Mnemonic::XOR => "XOR",
            Mnemonic::NOT => "NOT",
            Mnemonic::MOV => "MOV",
            Mnemonic::RANDOM => "RANDOM",
            Mnemonic::ADD => "ADD",
            Mnemonic::SUB => "SUB",
            Mnemonic::JMP => "JMP",
            Mnemonic::JZ => "JZ",
            Mnemonic::JEQ => "JEQ",
            Mnemonic::JLS => "JLS",
            Mnemonic::JGT => "JGT",
            Mnemonic::APRINT => "APRINT",
            Mnemonic::DPRINT => "DPRINT",
            Mnemonic::AREAD => "AREAD",
            Mnemonic::HALT => "HALT",
        }
    }

    /// The mnemonic that a text names, without regard to the case of ASCII
    /// letters.
    pub open spec fn named(s: Seq<char>) -> Option<Mnemonic> {
        let u = ascii_uppercase(s);
        if u == Mnemonic::AND.name() {
            Some(Mnemonic::AND)
        } else if u == Mnemonic::OR.name() {
            Some(Mnemonic::OR)
        } else if u == Mnemonic::XOR.name() {
            Some(Mnemonic::XOR)
        } else if u == Mnemonic::NOT.name() {
            Some(Mnemonic::NOT)
        } else if u == Mnemonic::MOV.name() {
            Some(Mnemonic::MOV)
        } else if u == Mnemonic::RANDOM.name() {
            Some(Mnemonic::RANDOM)
        } else if u == Mnemonic::ADD.name() {
            Some(Mnemonic::ADD)
        } else if u == Mnemonic::SUB.name() {
            Some(Mnemonic::SUB)
        } else if u == Mnemonic::JMP.name() {
            Some(Mnemonic::JMP)
        } else if u == Mnemonic::JZ.name() {
            Some(Mnemonic::JZ)
        } else if u == Mnemonic::JEQ.name() {
            Some(Mnemonic::JEQ)
        } else if u == Mnemonic::JLS.name() {
            Some(Mnemonic::JLS)
        } else if u == Mnemonic::JGT.name() {
            Some(Mnemonic::JGT)
        } else if u == Mnemonic::APRINT.name() {
            Some(Mnemonic::APRINT)
        } else if u == Mnemonic::DPRINT.name() {
            Some(Mnemonic::DPRINT)
        } else if u == Mnemonic::AREAD.name() {
            Some(Mnemonic::AREAD)
        } else if u == Mnemonic::HALT.name() {
            Some(Mnemonic::HALT)
        } else {
            None
        }
    }

    /// Looks a mnemonic up by the characters of its name.
    pub fn from_chars(text: &Vec<char>) -> (r: Option<Mnemonic>)
        ensures
            r == Mnemonic::named(text@),
    {
        let u = to_ascii_uppercase(text);
        if spells(&u, "AND") {
            Some(Mnemonic::AND)
        } else if spells(&u, "OR") {
            Some(Mnemonic::OR)
        } else if spells(&u, "XOR") {
            Some(Mnemonic::XOR)
        } else if spells(&u, "NOT") {
            Some(Mnemonic::NOT)
        } else if spells(&u, "MOV") {
            Some(Mnemonic::MOV)
        } else if spells(&u, "RANDOM") {
            Some(Mnemonic::RANDOM)
        } else if spells(&u, "ADD") {
            Some(Mnemonic::ADD)
        } else if spells(&u, "SUB") {
            Some(Mnemonic::SUB)
        } else if spells(&u, "JMP") {
            Some(Mnemonic::JMP)
        } else if spells(&u, "JZ") {
            Some(Mnemonic::JZ)
        } else if spells(&u, "JEQ") {
            Some(Mnemonic::JEQ)
        } else if spells(&u, "JLS") {
            Some(Mnemonic::JLS)
        } else if spells(&u, "JGT") {
            Some(Mnemonic::JGT)
        } else if spells(&u, "APRINT") {
            Some(Mnemonic::APRINT)
        } else if spells(&u, "DPRINT") {
            Some(Mnemonic::DPRINT)
        } else if spells(&u, "AREAD") {
            Some(Mnemonic::AREAD)
        } else if spells(&u, "HALT") {
            Some(Mnemonic::HALT)
        } else {
            None
        }
    }

    /// Parses a mnemonic, without regard to the case of ASCII letters. An
    /// unknown name is rejected with a message that quotes it.
    pub fn from_str(s: &str) -> (r: Result<Mnemonic, String>)
        ensures
            match r {
                Ok(m) => Mnemonic::named(s@) == Some(m),
                Err(e) => Mnemonic::named(s@).is_none() && e@ == "Invalid instruction: "@ + s@,
            },
    {
        let text = chars_of(s);
        match Mnemonic::from_chars(&text) {
            Some(m) => Ok(m),
            None => Err("Invalid instruction: ".to_owned().concat(s)),
        }
    }
}

/// How an operand looks in source: an address (`[7]`) or a literal (`7`).
/// The encoder picks an opcode by these.
#[derive(Clone, Copy, PartialEq, Eq, Structural, Debug)]
pub enum ArgumentType {
    Address,
    Literal,
}

/// How the machine reads an operand byte when an instruction runs.
///
/// `Value` reads the memory cell at the byte, `Address` takes the byte as the
/// cell to write, and `Literal` takes the byte as it is.
#[derive(Clone, Copy, PartialEq, Eq, Structural, Debug)]
pub enum Argument {
    Value,
    Address,
    Literal,
}

impl Argument {
    /// How an operand of this kind is written in source. `Value` and
    /// `Address` are both written as an address.
    pub open spec fn encoding(self) -> ArgumentType {
        match self {
            Argument::Value => ArgumentType::Address,
            Argument::Address => ArgumentType::Address,
            Argument::Literal => ArgumentType::Literal,
        }
    }

    /// Computes [`Argument::encoding`].
    pub fn written_as(self) -> (r: ArgumentType)
        ensures
            r == self.encoding(),
    {
        match self {
            Argument::Value => ArgumentType::Address,
            Argument::Address => ArgumentType::Address,
            Argument::Literal => ArgumentType::Literal,
        }
    }
}

/// What an instruction asks the machine to do next.
#[derive(Clone, Copy, PartialEq, Eq, Structural, Debug)]
pub enum StateChange {
    Memset { address: WordSize, value: WordSize },
    Jump { address: WordSize },
    Halt,
    Continue,
}

/// The table of instructions: for each opcode in use, its mnemonic and how
/// each of its operands is read.
pub open spec fn table(opcode: u8) -> Option<(Mnemonic, Seq<Argument>)> {
    match opcode {
        0x00 => Some((Mnemonic::AND, seq![Argument::Address, Argument::Value])),
        0x01 => Some((Mnemonic::AND, seq![Argument::Address, Argument::Literal])),
        0x02 => Some((Mnemonic::OR, seq![Argument::Address, Argument::Value])),
        0x03 => Some((Mnemonic::OR, seq![Argument::Address, Argument::Literal])),
        0x04 => Some((Mnemonic::XOR, seq![Argument::Address, Argument::Value])),
        0x05 => Some((Mnemonic::XOR, seq![Argument::Address, Argument::Literal])),
        0x06 => Some((Mnemonic::NOT, seq![Argument::Address])),
        0x07 => Some((Mnemonic::MOV, seq![Argument::Address, Argument::Value])),
        0x08 => Some((Mnemonic::MOV, seq![Argument::Address, Argument::Literal])),
        0x09 => Some((Mnemonic::RANDOM, seq![Argument::Address])),
        0x0A => Some((Mnemonic::ADD, seq![Argument::Address, Argument::Value])),
        0x0B => Some((Mnemonic::ADD, seq![Argument::Address, Argument::Literal])),
        0x0C => Some((Mnemonic::SUB, seq![Argument::Address, Argument::Value])),
        0x0D => Some((Mnemonic::SUB, seq![Argument::Address, Argument::Literal])),
        0x0E => Some((Mnemonic::JMP, seq![Argument::Value])),
        0x0F => Some((Mnemonic::JMP, seq![Argument::Literal])),
        0x10 => Some((Mnemonic::JZ, seq![Argument::Value, Argument::Value])),
        0x11 => Some((Mnemonic::JZ, seq![Argument::Value, Argument::Literal])),
        0x12 => Some((Mnemonic::JZ, seq![Argument::Literal, Argument::Value])),
        0x13 => Some((Mnemonic::JZ, seq![Argument::Literal, Argument::Literal])),
        0x14 => Some((Mnemonic::JEQ, seq![Argument::Value, Argument::Value, Argument::Value])),
        0x15 => Some((Mnemonic::JEQ, seq![Argument::Literal, Argument::Value, Argument::Value])),
        0x16 => Some((Mnemonic::JEQ, seq![Argument::Value, Argument::Value, Argument::Literal])),
        0x17 => Some((Mnemonic::JEQ, seq![Argument::Literal, Argument::Value, Argument::Literal])),
        0x18 => Some((Mnemonic::JLS, seq![Argument::Value, Argument::Value, Argument::Value])),
        0x19 => Some((Mnemonic::JLS, seq![Argument::Literal, Argument::Value, Argument::Value])),
        0x1A => Some((Mnemonic::JLS, seq![Argument::Value, Argument::Value, Argument::Literal])),
        0x1B => Some((Mnemonic::JLS, seq![Argument::Literal, Argument::Value, Argument::Literal])),
        0x1C => Some((Mnemonic::JGT, seq![Argument::Value, Argument::Value, Argument::Value])),
        0x1D => Some((Mnemonic::JGT, seq![Argument::Literal, Argument::Value, Argument::Value])),
        0x1E => Some((Mnemonic::JGT, seq![Argument::Value, Argument::Value, Argument::Literal])),
        0x1F => Some((Mnemonic::JGT, seq![Argument::Literal, Argument::Value, Argument::Literal])),
        0x20 => Some((Mnemonic::APRINT, seq![Argument::Value])),
        0x21 => Some((Mnemonic::APRINT, seq![Argument::Literal])),
        0x22 => Some((Mnemonic::DPRINT, seq![Argument::Value])),
        0x23 => Some((Mnemonic::DPRINT, seq![Argument::Literal])),
        0x24 => Some((Mnemonic::AREAD, seq![Argument::Address])),
        0xFF => Some((Mnemonic::HALT, Seq::empty())),
        _ => None,
    }
}

/// The opcodes of a mnemonic, in the order in which the encoder tries them.
pub open spec fn opcodes(mnem: Mnemonic) -> Seq<u8> {
    match mnem {
        Mnemonic::AND => seq![0x00u8, 0x01u8],
        Mnemonic::OR => seq![0x02u8, 0x03u8],
        Mnemonic::XOR => seq![0x04u8, 0x05u8],
        Mnemonic::NOT => seq![0x06u8],
        Mnemonic::MOV => seq![0x07u8, 0x08u8],
        Mnemonic::RANDOM => seq![0x09u8],
        Mnemonic::ADD => seq![0x0Au8, 0x0Bu8],
        Mnemonic::SUB => seq![0x0Cu8, 0x0Du8],
        Mnemonic::JMP => seq![0x0Eu8, 0x0Fu8],
        Mnemonic::JZ => seq![0x10u8, 0x11u8, 0x12u8, 0x13u8],
        Mnemonic::JEQ => seq![0x14u8, 0x15u8, 0x16u8, 0x17u8],
        Mnemonic::JLS => seq![0x18u8, 0x19u8, 0x1Au8, 0x1Bu8],
        Mnemonic::JGT => seq![0x1Cu8, 0x1Du8, 0x1Eu8, 0x1Fu8],
        Mnemonic::APRINT => seq![0x20u8, 0x21u8],
        Mnemonic::DPRINT => seq![0x22u8, 0x23u8],
        Mnemonic::AREAD => seq![0x24u8],
        Mnemonic::HALT => seq![0xFFu8],
    }
}

/// The source shape of a list of operand kinds.
pub open spec fn shape_of(kinds: Seq<Argument>) -> Seq<ArgumentType> {
    Seq::new(kinds.len(), |i: int| kinds[i].encoding())
}

/// The mathematical content of an [`Instruction`].
#[verifier::ext_equal]
pub struct Descriptor {
    pub mnem: Mnemonic,
    pub opcode: u8,
    pub arg_types: Seq<Argument>,
}

impl Descriptor {
    /// The number of operand bytes that follow the opcode.
    pub open spec fn argc(self) -> nat {
        self.arg_types.len()
    }

    /// The operand list, as written in source, that selects this opcode.
    pub open spec fn shape(self) -> Seq<ArgumentType> {
        shape_of(self.arg_types)
    }
}

/// The descriptor of an opcode, if the opcode is in use.
pub open spec fn descriptor(opcode: u8) -> Option<Descriptor> {
    match table(opcode) {
        Some((mnem, arg_types)) => Some(Descriptor { mnem, opcode, arg_types }),
        None => None,
    }
}

/// One instruction of the set: its opcode, its operands as the encoder sees
/// them (`args`) and as the machine reads them (`arg_types`).
#[derive(Debug)]
pub struct Instruction {
    pub mnem: Mnemonic,
    pub opcode: u8,
    pub argc: usize,
    pub args: Vec<ArgumentType>,
    pub arg_types: Vec<Argument>,
}

impl View for Instruction {
    type V = Descriptor;

    open spec fn view(&self) -> Descriptor {
        Descriptor { mnem: self.mnem, opcode: self.opcode, arg_types: self.arg_types@ }
    }
}

impl Instruction {
    /// The fields agree with each other: `argc` counts the operands and
    /// `args` is the source shape of `arg_types`.
    pub open spec fn wf(&self) -> bool {
        &&& self.argc == self.arg_types@.len()
        &&& self.args@ == self@.shape()
    }

    /// The instruction is an entry of the instruction table.
    pub open spec fn listed(&self) -> bool {
        self.wf() && descriptor(self.opcode) == Some(self@)
    }

    /// Builds a descriptor from the operand kinds.
    pub fn new(mnem: Mnemonic, opcode: u8, arg_types: Vec<Argument>) -> (r: Instruction)
        ensures
            r.wf(),
            r@ == (Descriptor { mnem, opcode, arg_types: arg_types@ }),
    {
        let mut args: Vec<ArgumentType> = Vec::new();
        let mut i: usize = 0;
        while i < arg_types.len()
            invariant
                i <= arg_types.len(),
                args@.len() == i,
                forall|j: int| 0 <= j < i ==> args@[j] == arg_types@[j].encoding(),
            decreases arg_types.len() - i,
        {
            args.push(arg_types[i].written_as());
            i += 1;
        }
        assert(args@ =~= shape_of(arg_types@));
        Instruction { mnem, opcode, argc: arg_types.len(), args, arg_types }
    }
}

/// Looks an opcode up in the instruction table. An opcode that is not in use
/// has no instruction.
pub fn decode_opcode(opcode: u8) -> (r: Option<Instruction>)
    ensures
        match r {
            Some(i) => i.listed() && i.opcode == opcode,
            None => descriptor(opcode).is_none(),
        },
{
    let r = match opcode {
        0x00 => Some(Instruction::new(Mnemonic::AND, opcode, vec![Argument::Address, Argument::Value])),
        0x01 => Some(Instruction::new(Mnemonic::AND, opcode, vec![Argument::Address, Argument::Literal])),
        0x02 => Some(Instruction::new(Mnemonic::OR, opcode, vec![Argument::Address, Argument::Value])),
        0x03 => Some(Instruction::new(Mnemonic::OR, opcode, vec![Argument::Address, Argument::Literal])),
        0x04 => Some(Instruction::new(Mnemonic::XOR, opcode, vec![Argument::Address, Argument::Value])),
        0x05 => Some(Instruction::new(Mnemonic::XOR, opcode, vec![Argument::Address, Argument::Literal])),
        0x06 => Some(Instruction::new(Mnemonic::NOT, opcode, vec![Argument::Address])),
        0x07 => Some(Instruction::new(Mnemonic::MOV, opcode, vec![Argument::Address, Argument::Value])),
        0x08 => Some(Instruction::new(Mnemonic::MOV, opcode, vec![Argument::Address, Argument::Literal])),
        0x09 => Some(Instruction::new(Mnemonic::RANDOM, opcode, vec![Argument::Address])),
        0x0A => Some(Instruction::new(Mnemonic::ADD, opcode, vec![Argument::Address, Argument::Value])),
        0x0B => Some(Instruction::new(Mnemonic::ADD, opcode, vec![Argument::Address, Argument::Literal])),
        0x0C => Some(Instruction::new(Mnemonic::SUB, opcode, vec![Argument::Address, Argument::Value])),
        0x0D => Some(Instruction::new(Mnemonic::SUB, opcode, vec![Argument::Address, Argument::Literal])),
        0x0E => Some(Instruction::new(Mnemonic::JMP, opcode, vec![Argument::Value])),
        0x0F => Some(Instruction::new(Mnemonic::JMP, opcode, vec![Argument::Literal])),
        0x10 => Some(Instruction::new(Mnemonic::JZ, opcode, vec![Argument::Value, Argument::Value])),
        0x11 => Some(Instruction::new(Mnemonic::JZ, opcode, vec![Argument::Value, Argument::Literal])),
        0x12 => Some(Instruction::new(Mnemonic::JZ, opcode, vec![Argument::Literal, Argument::Value])),
        0x13 => Some(Instruction::new(Mnemonic::JZ, opcode, vec![Argument::Literal, Argument::Literal])),
        0x14 => Some(Instruction::new(Mnemonic::JEQ, opcode, vec![Argument::Value, Argument::Value, Argument::Value])),
        0x15 => Some(Instruction::new(Mnemonic::JEQ, opcode, vec![Argument::Literal, Argument::Value, Argument::Value])),
        0x16 => Some(Instruction::new(Mnemonic::JEQ, opcode, vec![Argument::Value, Argument::Value, Argument::Literal])),
        0x17 => Some(Instruction::new(Mnemonic::JEQ, opcode, vec![Argument::Literal, Argument::Value, Argument::Literal])),
        0x18 => Some(Instruction::new(Mnemonic::JLS, opcode, vec![Argument::Value, Argument::Value, Argument::Value])),
        0x19 => Some(Instruction::new(Mnemonic::JLS, opcode, vec![Argument::Literal, Argument::Value, Argument::Value])),
        0x1A => Some(Instruction::new(Mnemonic::JLS, opcode, vec![Argument::Value, Argument::Value, Argument::Literal])),
        0x1B => Some(Instruction::new(Mnemonic::JLS, opcode, vec![Argument::Literal, Argument::Value, Argument::Literal])),
        0x1C => Some(Instruction::new(Mnemonic::JGT, opcode, vec![Argument::Value, Argument::Value, Argument::Value])),
        0x1D => Some(Instruction::new(Mnemonic::JGT, opcode, vec![Argument::Literal, Argument::Value, Argument::Value])),
        0x1E => Some(Instruction::new(Mnemonic::JGT, opcode, vec![Argument::Value, Argument::Value, Argument::Literal])),
        0x1F => Some(Instruction::new(Mnemonic::JGT, opcode, vec![Argument::Literal, Argument::Value, Argument::Literal])),
        0x20 => Some(Instruction::new(Mnemonic::APRINT, opcode, vec![Argument::Value])),
        0x21 => Some(Instruction::new(Mnemonic::APRINT, opcode, vec![Argument::Literal])),
        0x22 => Some(Instruction::new(Mnemonic::DPRINT, opcode, vec![Argument::Value])),
        0x23 => Some(Instruction::new(Mnemonic::DPRINT, opcode, vec![Argument::Literal])),
        0x24 => Some(Instruction::new(Mnemonic::AREAD, opcode, vec![Argument::Address])),
        0xFF => Some(Instruction::new(Mnemonic::HALT, opcode, Vec::new())),
        _ => None,
    };
    proof {
        if let Some(i) = &r {
            match opcode {
                0x00 => assert(i@.arg_types =~= seq![Argument::Address, Argument::Value]),
                0x01 => assert(i@.arg_types =~= seq![Argument::Address, Argument::Literal]),
                0x02 => assert(i@.arg_types =~= seq![Argument::Address, Argument::Value]),
                0x03 => assert(i@.arg_types =~= seq![Argument::Address, Argument::Literal]),
                0x04 => assert(i@.arg_types =~= seq![Argument::Address, Argument::Value]),
                0x05 => assert(i@.arg_types =~= seq![Argument::Address, Argument::Literal]),
                0x06 => assert(i@.arg_types =~= seq![Argument::Address]),
                0x07 => assert(i@.arg_types =~= seq![Argument::Address, Argument::Value]),
                0x08 => assert(i@.arg_types =~= seq![Argument::Address, Argument::Literal]),
                0x09 => assert(i@.arg_types =~= seq![Argument::Address]),
                0x0A => assert(i@.arg_types =~= seq![Argument::Address, Argument::Value]),
                0x0B => assert(i@.arg_types =~= seq![Argument::Address, Argument::Literal]),
                0x0C => assert(i@.arg_types =~= seq![Argument::Address, Argument::Value]),
                0x0D => assert(i@.arg_types =~= seq![Argument::Address, Argument::Literal]),
                0x0E => assert(i@.arg_types =~= seq![Argument::Value]),
                0x0F => assert(i@.arg_types =~= seq![Argument::Literal]),
                0x10 => assert(i@.arg_types =~= seq![Argument::Value, Argument::Value]),
                0x11 => assert(i@.arg_types =~= seq![Argument::Value, Argument::Literal]),
                0x12 => assert(i@.arg_types =~= seq![Argument::Literal, Argument::Value]),
                0x13 => assert(i@.arg_types =~= seq![Argument::Literal, Argument::Literal]),
                0x14 => assert(i@.arg_types =~= seq![Argument::Value, Argument::Value, Argument::Value]),
                0x15 => assert(i@.arg_types =~= seq![Argument::Literal, Argument::Value, Argument::Value]),
                0x16 => assert(i@.arg_types =~= seq![Argument::Value, Argument::Value, Argument::Literal]),
                0x17 => assert(i@.arg_types =~= seq![Argument::Literal, Argument::Value, Argument::Literal]),
                0x18 => assert(i@.arg_types =~= seq![Argument::Value, Argument::Value, Argument::Value]),
                0x19 => assert(i@.arg_types =~= seq![Argument::Literal, Argument::Value, Argument::Value]),
                0x1A => assert(i@.arg_types =~= seq![Argument::Value, Argument::Value, Argument::Literal]),
                0x1B => assert(i@.arg_types =~= seq![Argument::Literal, Argument::Value, Argument::Literal]),
                0x1C => assert(i@.arg_types =~= seq![Argument::Value, Argument::Value, Argument::Value]),
                0x1D => assert(i@.arg_types =~= seq![Argument::Literal, Argument::Value, Argument::Value]),
                0x1E => assert(i@.arg_types =~= seq![Argument::Value, Argument::Value, Argument::Literal]),
                0x1F => assert(i@.arg_types =~= seq![Argument::Literal, Argument::Value, Argument::Literal]),
                0x20 => assert(i@.arg_types =~= seq![Argument::Value]),
                0x21 => assert(i@.arg_types =~= seq![Argument::Literal]),
                0x22 => assert(i@.arg_types =~= seq![Argument::Value]),
                0x23 => assert(i@.arg_types =~= seq![Argument::Literal]),
                0x24 => assert(i@.arg_types =~= seq![Argument::Address]),
                0xFF => assert(i@.arg_types =~= Seq::empty()),
                _ => {},
            }
            assert(i@ =~= descriptor(opcode).unwrap());
        }
    }
    r
}

/// The size of the machine's memory, in bytes.
pub const MEMORY_SIZE: usize = 256;

/// The number of operands that every opcode of a mnemonic takes.
pub open spec fn arity(mnem: Mnemonic) -> nat {
    match mnem {
        Mnemonic::HALT => 0,
        Mnemonic::NOT | Mnemonic::RANDOM | Mnemonic::JMP | Mnemonic::APRINT | Mnemonic::DPRINT
        | Mnemonic::AREAD => 1,
        Mnemonic::AND | Mnemonic::OR | Mnemonic::XOR | Mnemonic::MOV | Mnemonic::ADD
        | Mnemonic::SUB | Mnemonic::JZ => 2,
        Mnemonic::JEQ | Mnemonic::JLS | Mnemonic::JGT => 3,
    }
}

/// Every opcode that is listed under a mnemonic is in the table, under that
/// mnemonic; and every opcode in the table is listed under its mnemonic, with
/// as many operands as the mnemonic takes.
pub proof fn lemma_table_agrees()
    ensures
        forall|mnem: Mnemonic, i: int|
            0 <= i < opcodes(mnem).len() ==> (#[trigger] table(opcodes(mnem)[i])) is Some
                && table(opcodes(mnem)[i]).unwrap().0 == mnem,
        forall|opcode: u8|
            (#[trigger] table(opcode)) is Some ==> opcodes(table(opcode).unwrap().0).contains(opcode)
                && table(opcode).unwrap().1.len() == arity(table(opcode).unwrap().0),
{
    assert forall|mnem: Mnemonic, i: int| 0 <= i < opcodes(mnem).len() implies (#[trigger] table(
        opcodes(mnem)[i],
    )) is Some && table(opcodes(mnem)[i]).unwrap().0 == mnem by {}
    assert forall|opcode: u8| (#[trigger] table(opcode)) is Some implies opcodes(
        table(opcode).unwrap().0,
    ).contains(opcode) && table(opcode).unwrap().1.len() == arity(table(opcode).unwrap().0) by {
        let mnem = table(opcode).unwrap().0;
        let codes = opcodes(mnem);
        assert(codes.len() <= 4);
        assert(exists|i: int| 0 <= i < codes.len() && codes[i] == opcode) by {
            if codes[0] == opcode {
            } else if codes.len() > 1 && codes[1] == opcode {
            } else if codes.len() > 2 && codes[2] == opcode {
            } else {
                assert(codes[3] == opcode);
            }
        }
    }
}

/// The instructions of a mnemonic, in the order in which the encoder tries
/// them.
pub fn lookup_operations(mnem: Mnemonic) -> (r: Vec<Instruction>)
    ensures
        r@.len() == opcodes(mnem).len(),
        forall|i: int|
            0 <= i < r@.len() ==> (#[trigger] r@[i]).listed() && r@[i].opcode == opcodes(mnem)[i]
                && r@[i].mnem == mnem,
{
    let codes: Vec<u8> = match mnem {
        Mnemonic::AND => vec![0x00u8, 0x01u8],
        Mnemonic::OR => vec![0x02u8, 0x03u8],
        Mnemonic::XOR => vec![0x04u8, 0x05u8],
        Mnemonic::NOT => vec![0x06u8],
        Mnemonic::MOV => vec![0x07u8, 0x08u8],
        Mnemonic::RANDOM => vec![0x09u8],
        Mnemonic::ADD => vec![0x0Au8, 0x0Bu8],
        Mnemonic::SUB => vec![0x0Cu8, 0x0Du8],
        Mnemonic::JMP => vec![0x0Eu8, 0x0Fu8],
        Mnemonic::JZ => vec![0x10u8, 0x11u8, 0x12u8, 0x13u8],
        Mnemonic::JEQ => vec![0x14u8, 0x15u8, 0x16u8, 0x17u8],
        Mnemonic::JLS => vec![0x18u8, 0x19u8, 0x1Au8, 0x1Bu8],
        Mnemonic::JGT => vec![0x1Cu8, 0x1Du8, 0x1Eu8, 0x1Fu8],
        Mnemonic::APRINT => vec![0x20u8, 0x21u8],
        Mnemonic::DPRINT => vec![0x22u8, 0x23u8],
        Mnemonic::AREAD => vec![0x24u8],
        Mnemonic::HALT => vec![0xFFu8],
    };
    proof {
        match mnem {
            Mnemonic::AND => assert(codes@ =~= seq![0x00u8, 0x01u8]),
            Mnemonic::OR => assert(codes@ =~= seq![0x02u8, 0x03u8]),
            Mnemonic::XOR => assert(codes@ =~= seq![0x04u8, 0x05u8]),
            Mnemonic::NOT => assert(codes@ =~= seq![0x06u8]),
            Mnemonic::MOV => assert(codes@ =~= seq![0x07u8, 0x08u8]),
            Mnemonic::RANDOM => assert(codes@ =~= seq![0x09u8]),
            Mnemonic::ADD => assert(codes@ =~= seq![0x0Au8, 0x0Bu8]),
            Mnemonic::SUB => assert(codes@ =~= seq![0x0Cu8, 0x0Du8]),
            Mnemonic::JMP => assert(codes@ =~= seq![0x0Eu8, 0x0Fu8]),
            Mnemonic::JZ => assert(codes@ =~= seq![0x10u8, 0x11u8, 0x12u8, 0x13u8]),
            Mnemonic::JEQ => assert(codes@ =~= seq![0x14u8, 0x15u8, 0x16u8, 0x17u8]),
            Mnemonic::JLS => assert(codes@ =~= seq![0x18u8, 0x19u8, 0x1Au8, 0x1Bu8]),
            Mnemonic::JGT => assert(codes@ =~= seq![0x1Cu8, 0x1Du8, 0x1Eu8, 0x1Fu8]),
            Mnemonic::APRINT => assert(codes@ =~= seq![0x20u8, 0x21u8]),
            Mnemonic::DPRINT => assert(codes@ =~= seq![0x22u8, 0x23u8]),
            Mnemonic::AREAD => assert(codes@ =~= seq![0x24u8]),
            Mnemonic::HALT => assert(codes@ =~= seq![0xFFu8]),
        }
        lemma_table_agrees();
    }
    let mut r: Vec<Instruction> = Vec::new();
    let mut i: usize = 0;
    while i < codes.len()
        invariant
            i <= codes.len(),
            codes@ == opcodes(mnem),
            r@.len() == i,
            forall|j: int|
                0 <= j < codes.len() ==> (#[trigger] table(codes@[j])) is Some && table(
                    codes@[j],
                ).unwrap().0 == mnem,
            forall|j: int|
                0 <= j < i ==> (#[trigger] r@[j]).listed() && r@[j].opcode == codes@[j] && r@[j].mnem
                    == mnem,
        decreases codes.len() - i,
    {
        assert(table(codes@[i as int]) is Some);
        match decode_opcode(codes[i]) {
            Some(instruction) => r.push(instruction),
            None => {},
        }
        i += 1;
    }
    r
}

/// What an operand byte stands for when the instruction runs.
pub open spec fn decoded_arg(kind: Argument, raw: u8, mem: Seq<u8>) -> u8 {
    match kind {
        Argument::Value => mem[raw as int],
        Argument::Address => raw,
        Argument::Literal => raw,
    }
}

/// The operand bytes of an instruction as the instruction sees them: one
/// value for each operand that has both a byte and a kind.
pub open spec fn decoded_args(args: Seq<u8>, arg_types: Seq<Argument>, mem: Seq<u8>) -> Seq<u8> {
    Seq::new(
        if args.len() <= arg_types.len() {
            args.len()
        } else {
            arg_types.len()
        },
        |i: int| decoded_arg(arg_types[i], args[i], mem),
    )
}

/// Reads the operand bytes of an instruction according to their kinds.
pub fn decode_args(args: &[WordSize], arg_types: &[Argument], mem: &[WordSize]) -> (r: Vec<u8>)
    requires
        mem@.len() == MEMORY_SIZE,
    ensures
        r@ == decoded_args(args@, arg_types@, mem@),
{
    let n = if args.len() <= arg_types.len() {
        args.len()
    } else {
        arg_types.len()
    };
    let mut r: Vec<u8> = Vec::new();
    let mut i: usize = 0;
    while i < n
        invariant
            i <= n,
            n <= args@.len(),
            n <= arg_types@.len(),
            mem@.len() == MEMORY_SIZE,
            r@.len() == i,
            forall|j: int| 0 <= j < i ==> r@[j] == decoded_arg(arg_types@[j], args@[j], mem@),
        decreases n - i,
    {
        let raw = args[i];
        let value = match arg_types[i] {
            Argument::Value => mem[raw as usize],
            Argument::Address => raw,
            Argument::Literal => raw,
        };
        r.push(value);
        i += 1;
    }
    assert(r@ =~= decoded_args(args@, arg_types@, mem@));
    r
}

/// What an instruction does, given its decoded operands, the memory and,
/// for `RANDOM`, the number that was drawn.
///
/// Sums and differences wrap around at 256. `JZ` looks at its first
/// operand, which is its target too: it jumps where that operand is zero.
/// The input and output instructions leave the machine as it is; what they
/// print or read is [`effect_of`].
pub open spec fn state_change(mnem: Mnemonic, args: Seq<u8>, mem: Seq<u8>, random: u8) -> StateChange {
    match mnem {
        Mnemonic::MOV => StateChange::Memset { address: args[0], value: args[1] },
        Mnemonic::AND => StateChange::Memset {
            address: args[0],
            value: mem[args[0] as int] & args[1],
        },
        Mnemonic::OR => StateChange::Memset {
            address: args[0],
            value: mem[args[0] as int] | args[1],
        },
        Mnemonic::XOR => StateChange::Memset {
            address: args[0],
            value: mem[args[0] as int] ^ args[1],
        },
        Mnemonic::NOT => StateChange::Memset { address: args[0], value: !mem[args[0] as int] },
        Mnemonic::ADD => StateChange::Memset {
            address: args[0],
            value: mem[args[0] as int].wrapping_add(args[1]),
        },
        Mnemonic::SUB => StateChange::Memset {
            address: args[0],
            value: mem[args[0] as int].wrapping_sub(args[1]),
        },
        Mnemonic::RANDOM => StateChange::Memset { address: args[0], value: random },
        Mnemonic::JMP => StateChange::Jump { address: args[0] },
        Mnemonic::JZ => if args[0] == 0 {
            StateChange::Jump { address: args[0] }
        } else {
            StateChange::Continue
        },
        Mnemonic::JEQ => if args[1] == args[2] {
            StateChange::Jump { address: args[0] }
        } else {
            StateChange::Continue
        },
        Mnemonic::JLS => if args[1] < args[2] {
            StateChange::Jump { address: args[0] }
        } else {
            StateChange::Continue
        },
        Mnemonic::JGT => if args[1] > args[2] {
            StateChange::Jump { address: args[0] }
        } else {
            StateChange::Continue
        },
        Mnemonic::APRINT | Mnemonic::DPRINT | Mnemonic::AREAD => StateChange::Continue,
        Mnemonic::HALT => StateChange::Halt,
    }
}

/// What an instruction exchanges with the outside world.
#[derive(Clone, Copy, PartialEq, Eq, Structural, Debug)]
pub enum Effect {
    /// Nothing is printed or read.
    Silent,
    /// The byte is printed as a character.
    PrintChar(WordSize),
    /// The byte is printed as a decimal number.
    PrintDecimal(WordSize),
    /// One character is read; its code belongs into the memory cell.
    ReadChar { address: WordSize },
}

/// The input or output of an instruction, given its decoded operands.
pub open spec fn effect_of(mnem: Mnemonic, args: Seq<u8>) -> Effect {
    match mnem {
        Mnemonic::APRINT => Effect::PrintChar(args[0]),
        Mnemonic::DPRINT => Effect::PrintDecimal(args[0]),
        Mnemonic::AREAD => Effect::ReadChar { address: args[0] },
        _ => Effect::Silent,
    }
}

/// Draws a number below `bound`.
///
/// Trusted: `Rng::gen_range` on the half-open range `0..bound` returns a value
/// of that range. It panics on an empty range, which the precondition rules
/// out.
#[verifier::external_body]
pub(crate) fn random_below(bound: u8) -> (r: u8)
    requires
        bound > 0,
    ensures
        r < bound,
{
    let lowest: u8 = 0;
    rand::Rng::gen_range(&mut rand::thread_rng(), lowest..bound)
}

impl Instruction {
    /// Runs the instruction on its decoded operands, with `random` as the
    /// number that `RANDOM` draws.
    pub fn execute_with(&self, args: &[WordSize], mem: &[WordSize], random: u8) -> (r: StateChange)
        requires
            args@.len() == arity(self.mnem),
            mem@.len() == MEMORY_SIZE,
        ensures
            r == state_change(self.mnem, args@, mem@, random),
    {
        match self.mnem {
            Mnemonic::MOV => StateChange::Memset { address: args[0], value: args[1] },
            Mnemonic::AND => StateChange::Memset {
                address: args[0],
                value: mem[args[0] as usize] & args[1],
            },
            Mnemonic::OR => StateChange::Memset {
                address: args[0],
                value: mem[args[0] as usize] | args[1],
            },
            Mnemonic::XOR => StateChange::Memset {
                address: args[0],
                value: mem[args[0] as usize] ^ args[1],
            },
            Mnemonic::NOT => StateChange::Memset { address: args[0], value: !mem[args[0] as usize] },
            Mnemonic::ADD => StateChange::Memset {
                address: args[0],
                value: mem[args[0] as usize].wrapping_add(args[1]),
            },
            Mnemonic::SUB => StateChange::Memset {
                address: args[0],
                value: mem[args[0] as usize].wrapping_sub(args[1]),
            },
            Mnemonic::RANDOM => StateChange::Memset { address: args[0], value: random },
            Mnemonic::JMP => StateChange::Jump { address: args[0] },
            Mnemonic::JZ => if args[0] == 0 {
                StateChange::Jump { address: args[0] }
            } else {
                StateChange::Continue
            },
            Mnemonic::JEQ => if args[1] == args[2] {
                StateChange::Jump { address: args[0] }
            } else {
                StateChange::Continue
            },
            Mnemonic::JLS => if args[1] < args[2] {
                StateChange::Jump { address: args[0] }
            } else {
                StateChange::Continue
            },
            Mnemonic::JGT => if args[1] > args[2] {
                StateChange::Jump { address: args[0] }
            } else {
                StateChange::Continue
            },
            Mnemonic::APRINT | Mnemonic::DPRINT | Mnemonic::AREAD => StateChange::Continue,
            Mnemonic::HALT => StateChange::Halt,
        }
    }

    /// Runs the instruction on its decoded operands. `RANDOM` draws a number
    /// below [`RAND_MAX`]; every other instruction is a function of its
    /// operands and the memory.
    pub fn execute(&self, args: &[WordSize], mem: &[WordSize]) -> (r: StateChange)
        requires
            args@.len() == arity(self.mnem),
            mem@.len() == MEMORY_SIZE,
        ensures
            exists|random: u8| random < RAND_MAX && r == state_change(self.mnem, args@, mem@, random),
            self.mnem != Mnemonic::RANDOM ==> r == state_change(self.mnem, args@, mem@, 0),
    {
        let random = match self.mnem {
            Mnemonic::RANDOM => random_below(RAND_MAX),
            _ => 0,
        };
        self.execute_with(args, mem, random)
    }

    /// What the instruction prints or reads, given its decoded operands.
    pub fn effect(&self, args: &[WordSize]) -> (r: Effect)
        requires
            args@.len() == arity(self.mnem),
        ensures
            r == effect_of(self.mnem, args@),
    {
        match self.mnem {
            Mnemonic::APRINT => Effect::PrintChar(args[0]),
            Mnemonic::DPRINT => Effect::PrintDecimal(args[0]),
            Mnemonic::AREAD => Effect::ReadChar { address: args[0] },
            _ => Effect::Silent,
        }
    }
}

// --- Texts ---------------------------------------------------------------------

impl ArgumentType {
    /// The name of the kind.
    pub open spec fn name(self) -> Seq<char> {
        match self {
            ArgumentType::Address => "Address"@,
            ArgumentType::Literal => "Literal"@,
        }
    }

    /// The name of the kind.
    pub fn as_str(self) -> (r: &'static str)
        ensures
            r@ == self.name(),
    {
        match self {
            ArgumentType::Address => "Address",
            ArgumentType::Literal => "Literal",
        }
    }
}

/// The names of the kinds of a shape, separated by `, `.
pub open spec fn shape_items(shape: Seq<ArgumentType>) -> Seq<char>
    decreases shape.len(),
{
    if shape.len() == 0 {
        Seq::empty()
    } else if shape.len() == 1 {
        shape[0].name()
    } else {
        shape_items(shape.drop_last()) + ", "@ + shape.last().name()
    }
}

/// A shape as a text: `[Address, Literal]`.
pub open spec fn shape_text(shape: Seq<ArgumentType>) -> Seq<char> {
    "["@ + shape_items(shape) + "]"@
}

/// Writes a shape as a text.
pub fn format_shape(shape: &Vec<ArgumentType>) -> (r: String)
    ensures
        r@ == shape_text(shape@),
{
    let mut r = "[".to_owned();
    let mut i: usize = 0;
    assert(shape@.take(0) =~= Seq::empty());
    assert(r@ + shape_items(shape@.take(0)) =~= r@);
    while i < shape.len()
        invariant
            i <= shape.len(),
            r@ == "["@ + shape_items(shape@.take(i as int)),
        decreases shape.len() - i,
    {
        assert(shape@.take(i + 1).drop_last() =~= shape@.take(i as int));
        if i > 0 {
            r.append(", ");
        }
        r.append(shape[i].as_str());
        i += 1;
        assert(r@ =~= "["@ + shape_items(shape@.take(i as int)));
    }
    assert(shape@.take(i as int) =~= shape@);
    r.append("]");
    r
}

/// Shapes as a text, separated by ` or `.
pub open spec fn shapes_text(shapes: Seq<Seq<ArgumentType>>) -> Seq<char>
    decreases shapes.len(),
{
    if shapes.len() == 0 {
        Seq::empty()
    } else if shapes.len() == 1 {
        shape_text(shapes[0])
    } else {
        shapes_text(shapes.drop_last()) + " or "@ + shape_text(shapes.last())
    }
}

/// Writes shapes as a text, separated by ` or `.
pub fn format_shapes(shapes: &Vec<Vec<ArgumentType>>) -> (r: String)
    ensures
        r@ == shapes_text(Seq::new(shapes@.len(), |i: int| shapes@[i]@)),
{
    let ghost views = Seq::new(shapes@.len(), |i: int| shapes@[i]@);
    let mut r = String::new();
    let mut i: usize = 0;
    assert(views.take(0) =~= Seq::empty());
    while i < shapes.len()
        invariant
            i <= shapes.len(),
            views == Seq::new(shapes@.len(), |i: int| shapes@[i]@),
            r@ == shapes_text(views.take(i as int)),
        decreases shapes.len() - i,
    {
        assert(views.take(i + 1).drop_last() =~= views.take(i as int));
        assert(views.take(i + 1).last() == shapes@[i as int]@);
        let ghost before = r@;
        if i > 0 {
            r.append(" or ");
        }
        let one = format_shape(&shapes[i]);
        r.append(one.as_str());
        i += 1;
        assert(r@ =~= shapes_text(views.take(i as int))) by {
            if i == 1 {
                assert(before =~= Seq::empty());
                assert(views.take(1)[0] == shapes@[0]@);
            }
        }
    }
    assert(views.take(i as int) =~= views);
    r
}

} // verus!
