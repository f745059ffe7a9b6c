use tiny::machine::{
    decode_args, decode_opcode, lookup_operations, Argument, ArgumentType, Effect, Mnemonic,
    StateChange, RAND_MAX,
};
use tiny::text::{hex_byte, string_of, to_decimal};
use tiny::vm::{Fault, Machine, Outcome, Stop};

#[test]
fn mnemonics_are_parsed_without_regard_to_case() {
    assert_eq!(Mnemonic::from_str("MOV"), Ok(Mnemonic::MOV));
    assert_eq!(Mnemonic::from_str("mov"), Ok(Mnemonic::MOV));
    assert_eq!(Mnemonic::from_str("Halt"), Ok(Mnemonic::HALT));
    assert_eq!(Mnemonic::from_str("aread"), Ok(Mnemonic::AREAD));
    assert_eq!(Mnemonic::from_str("MOVE"), Err("Invalid instruction: MOVE".to_string()));
    assert_eq!(Mnemonic::from_str(""), Err("Invalid instruction: ".to_string()));
}

#[test]
fn the_table_describes_each_opcode() {
    let mov = decode_opcode(0x07).unwrap();
    assert_eq!(mov.mnem, Mnemonic::MOV);
    assert_eq!(mov.opcode, 0x07);
    assert_eq!(mov.argc, 2);
    assert_eq!(mov.arg_types, vec![Argument::Address, Argument::Value]);
    assert_eq!(mov.args, vec![ArgumentType::Address, ArgumentType::Address]);
    let jeq = decode_opcode(0x17).unwrap();
    assert_eq!(jeq.mnem, Mnemonic::JEQ);
    assert_eq!(jeq.arg_types, vec![Argument::Literal, Argument::Value, Argument::Literal]);
    assert_eq!(jeq.args, vec![ArgumentType::Literal, ArgumentType::Address, ArgumentType::Literal]);
    let halt = decode_opcode(0xFF).unwrap();
    assert_eq!(halt.mnem, Mnemonic::HALT);
    assert_eq!(halt.argc, 0);
    assert!(decode_opcode(0x25).is_none());
    assert!(decode_opcode(0xFE).is_none());
}

#[test]
fn a_mnemonic_lists_its_opcodes_in_order() {
    let opcodes = |m: Mnemonic| lookup_operations(m).iter().map(|i| i.opcode).collect::<Vec<u8>>();
    assert_eq!(opcodes(Mnemonic::JZ), vec![0x10, 0x11, 0x12, 0x13]);
    assert_eq!(opcodes(Mnemonic::NOT), vec![0x06]);
    assert_eq!(opcodes(Mnemonic::HALT), vec![0xFF]);
    assert_eq!(opcodes(Mnemonic::AREAD), vec![0x24]);
}

#[test]
fn operands_are_read_by_their_kinds() {
    let mut memory = vec![0u8; 256];
    memory[5] = 50;
    memory[6] = 60;
    assert_eq!(
        decode_args(&[5, 6, 5], &[Argument::Address, Argument::Value, Argument::Literal], &memory),
        vec![5, 60, 5]
    );
    assert_eq!(decode_args(&[5, 6], &[Argument::Value], &memory), vec![50]);
    assert_eq!(decode_args(&[5], &[Argument::Value, Argument::Value], &memory), vec![50]);
}

#[test]
fn instructions_compute_their_state_change() {
    let mut memory = vec![0u8; 256];
    memory[1] = 0b1100;
    memory[2] = 250;
    let run = |opcode: u8, args: &[u8]| decode_opcode(opcode).unwrap().execute(args, &memory);
    assert_eq!(run(0x01, &[1, 0b1010]), StateChange::Memset { address: 1, value: 0b1000 });
    assert_eq!(run(0x03, &[1, 0b1010]), StateChange::Memset { address: 1, value: 0b1110 });
    assert_eq!(run(0x05, &[1, 0b1010]), StateChange::Memset { address: 1, value: 0b0110 });
    assert_eq!(run(0x06, &[1]), StateChange::Memset { address: 1, value: 0b1111_0011 });
    assert_eq!(run(0x08, &[9, 77]), StateChange::Memset { address: 9, value: 77 });
    assert_eq!(run(0x0B, &[2, 5]), StateChange::Memset { address: 2, value: 255 });
    assert_eq!(run(0x0B, &[2, 6]), StateChange::Memset { address: 2, value: 0 });
    assert_eq!(run(0x0D, &[1, 13]), StateChange::Memset { address: 1, value: 255 });
    assert_eq!(run(0x0F, &[42]), StateChange::Jump { address: 42 });
    assert_eq!(run(0x13, &[0, 1]), StateChange::Jump { address: 0 });
    assert_eq!(run(0x13, &[4, 0]), StateChange::Continue);
    assert_eq!(run(0x17, &[9, 3, 3]), StateChange::Jump { address: 9 });
    assert_eq!(run(0x17, &[9, 3, 4]), StateChange::Continue);
    assert_eq!(run(0x1B, &[9, 3, 4]), StateChange::Jump { address: 9 });
    assert_eq!(run(0x1B, &[9, 4, 4]), StateChange::Continue);
    assert_eq!(run(0x1F, &[9, 5, 4]), StateChange::Jump { address: 9 });
    assert_eq!(run(0x1F, &[9, 4, 4]), StateChange::Continue);
    assert_eq!(run(0x21, &[65]), StateChange::Continue);
    assert_eq!(run(0x23, &[65]), StateChange::Continue);
    assert_eq!(run(0x24, &[65]), StateChange::Continue);
    assert_eq!(run(0xFF, &[]), StateChange::Halt);
    assert_eq!(decode_opcode(0x21).unwrap().effect(&[65]), Effect::PrintChar(65));
    assert_eq!(decode_opcode(0x23).unwrap().effect(&[65]), Effect::PrintDecimal(65));
    assert_eq!(decode_opcode(0x24).unwrap().effect(&[65]), Effect::ReadChar { address: 65 });
    assert_eq!(decode_opcode(0x08).unwrap().effect(&[1, 2]), Effect::Silent);
    assert_eq!(
        decode_opcode(0x09).unwrap().execute_with(&[3], &memory, 17),
        StateChange::Memset { address: 3, value: 17 }
    );
}

#[test]
fn random_draws_below_its_bound() {
    let memory = vec![0u8; 256];
    let random = decode_opcode(0x09).unwrap();
    let mut seen = [false; 256];
    for _ in 0..2000 {
        match random.execute(&[7], &memory) {
            StateChange::Memset { address, value } => {
                assert_eq!(address, 7);
                assert!(value < RAND_MAX);
                seen[value as usize] = true;
            }
            other => panic!("RANDOM gave {:?}", other),
        }
    }
    assert!(seen.iter().filter(|s| **s).count() > 1);
}

#[test]
fn a_fresh_machine_is_empty() {
    let machine = Machine::new();
    assert_eq!(machine.ip, 0);
    assert_eq!(machine.memory, vec![0u8; 256]);
}

#[test]
fn a_jump_sets_the_instruction_pointer_to_its_target() {
    let code = [0x0F, 0x05, 0xFF, 0xFF, 0xFF, 0x0E, 0x09, 0xFF, 0xFF, 0xFF];
    let mut machine = Machine::new();
    machine.store(9, 2);
    assert_eq!(machine.step(&code), Outcome::Running(Effect::Silent));
    assert_eq!(machine.ip, 5);
    assert_eq!(machine.step(&code), Outcome::Running(Effect::Silent));
    assert_eq!(machine.ip, 2);
    let memory = machine.memory.clone();
    assert_eq!(machine.step(&code), Outcome::Halted);
    assert_eq!(machine.ip, 2);
    assert_eq!(machine.memory, memory);
}

#[test]
fn a_step_moves_behind_the_operands() {
    let code = [0x08, 0x04, 0x2A, 0x07, 0x05, 0x04, 0x21, 0x41, 0xFF];
    let mut machine = Machine::new();
    assert_eq!(machine.step(&code), Outcome::Running(Effect::Silent));
    assert_eq!((machine.ip, machine.load(4)), (3, 42));
    assert_eq!(machine.step(&code), Outcome::Running(Effect::Silent));
    assert_eq!((machine.ip, machine.load(5)), (6, 42));
    assert_eq!(machine.step(&code), Outcome::Running(Effect::PrintChar(0x41)));
    assert_eq!(machine.ip, 8);
    assert_eq!(machine.step(&code), Outcome::Halted);
}

#[test]
fn the_machine_faults_on_bad_programs() {
    let mut machine = Machine::new();
    assert_eq!(machine.step(&[]), Outcome::Faulted(Fault::EndOfInput));
    assert_eq!(machine.step(&[0x30]), Outcome::Faulted(Fault::InvalidOpcode(0x30)));
    assert_eq!(machine.step(&[0x08, 0x01]), Outcome::Faulted(Fault::EndOfInput));
    assert_eq!(machine.ip, 0);
    assert_eq!(machine.run(&[0x08, 0x01, 0x02], 10), Stop::Faulted(Fault::EndOfInput));
    assert_eq!(machine.ip, 3);
    assert_eq!(machine.load(1), 2);
}

#[test]
fn a_run_stops_for_effects_and_for_its_limit() {
    let code = [0x23, 0x07, 0x0F, 0x00];
    let mut machine = Machine::new();
    assert_eq!(machine.run(&code, 10), Stop::Pending(Effect::PrintDecimal(7)));
    assert_eq!(machine.ip, 2);
    assert_eq!(machine.run(&code, 10), Stop::Pending(Effect::PrintDecimal(7)));
    let looping = [0x0F, 0x00];
    let mut machine = Machine::new();
    assert_eq!(machine.run(&looping, 1000), Stop::OutOfSteps);
    assert_eq!(machine.run(&looping, 0), Stop::OutOfSteps);
    let mut machine = Machine::new();
    assert_eq!(machine.run(&[0xFF], 5), Stop::Halted);
    assert_eq!(machine.memory, vec![0u8; 256]);
}

#[test]
fn a_run_with_random_stays_in_range() {
    let code = [0x09, 0x03, 0xFF];
    for _ in 0..200 {
        let mut machine = Machine::new();
        machine.store(3, 200);
        assert_eq!(machine.run(&code, 5), Stop::Halted);
        assert!(machine.load(3) < RAND_MAX);
    }
}

#[test]
fn numbers_are_written_in_decimal_and_hexadecimal() {
    assert_eq!(to_decimal(0), "0");
    assert_eq!(to_decimal(7), "7");
    assert_eq!(to_decimal(10), "10");
    assert_eq!(to_decimal(255), "255");
    assert_eq!(to_decimal(12345), "12345");
    assert_eq!(hex_byte(0), "0x00");
    assert_eq!(hex_byte(0x0B), "0x0b");
    assert_eq!(hex_byte(0xFF), "0xff");
    assert_eq!(hex_byte(0x9A), "0x9a");
    assert_eq!(string_of(&vec!['a', 'é', 'z']), "aéz");
}

#[test]
fn jump_targets_are_byte_offsets() {
    // The comparison at byte 6 jumps to byte 6 while the two cells are
    // equal: the machine spins there.
    let code = [
        0x08, 0x02, 0x00, 0x08, 0x03, 0x00, 0x15, 0x06, 0x03, 0x01, 0x0B, 0x03, 0x01, 0x0A, 0x02,
        0x00, 0x0F, 0x02, 0x07, 0x00, 0x02, 0xFF,
    ];
    let mut machine = Machine::new();
    machine.store(0, 9);
    assert_eq!(machine.run(&code, 500), Stop::OutOfSteps);
    assert_eq!(machine.ip, 6);
    assert_eq!(machine.load(0), 9);
}
