use tiny::ast::{Mnemonic, Statement};
use tiny::codegen::generate_binary;
use tiny::lexer::dummy_source;
use tiny::machine;

#[test]
fn codegen_test_operation() {
    assert_eq!(
        generate_binary(vec![Statement::new(
            Statement::Operation(Mnemonic(machine::Mnemonic::from_str("HALT").unwrap()), vec![]),
            dummy_source()
        )]),
        Ok(vec![vec![0xFF]])
    )
}
