use c4_rust::parser::OpCode;
use c4_rust::vm::{opcode_has_argument, VM};

fn run_code(code: Vec<i64>, data: Vec<u8>) -> Result<i64, String> {
    let mut vm = VM::new(code, data, false);
    vm.run()
}

#[test]
fn test_vm_code_end_returns_accumulator() {
    assert_eq!(run_code(vec![OpCode::IMM as i64, 7], vec![]), Ok(7));
}

#[test]
fn test_vm_division_by_zero() {
    let code = vec![
        OpCode::IMM as i64, 1,
        OpCode::PSH as i64,
        OpCode::IMM as i64, 0,
        OpCode::DIV as i64,
    ];
    assert_eq!(run_code(code, vec![]), Err("division by zero".to_string()));
}

#[test]
fn test_vm_modulo_by_zero() {
    let code = vec![
        OpCode::IMM as i64, 1,
        OpCode::PSH as i64,
        OpCode::IMM as i64, 0,
        OpCode::MOD as i64,
    ];
    assert_eq!(run_code(code, vec![]), Err("modulo by zero".to_string()));
}

#[test]
fn test_vm_unknown_instruction() {
    assert_eq!(run_code(vec![99], vec![]), Err("unknown instruction: 99".to_string()));
}

#[test]
fn test_vm_instruction_limit() {
    assert_eq!(
        run_code(vec![OpCode::JMP as i64, 0], vec![]),
        Err("Execution aborted after 50000 instructions - possible infinite loop".to_string())
    );
}

#[test]
fn test_vm_overflow_is_reported_as_abort() {
    let code = vec![
        OpCode::IMM as i64, i64::MAX,
        OpCode::PSH as i64,
        OpCode::IMM as i64, 1,
        OpCode::ADD as i64,
    ];
    let mut vm = VM::new(code, vec![], false);
    assert!(vm.run_checked().is_none());
}

#[test]
fn test_vm_comparisons() {
    let code = vec![
        OpCode::IMM as i64, 3,
        OpCode::PSH as i64,
        OpCode::IMM as i64, 5,
        OpCode::LT as i64,
        OpCode::PSH as i64,
        OpCode::IMM as i64, 1,
        OpCode::EQ as i64,
    ];
    assert_eq!(run_code(code, vec![]), Ok(1));
}

#[test]
fn test_vm_bnz_taken() {
    let code = vec![
        OpCode::IMM as i64, 1,
        OpCode::BNZ as i64, 6,
        OpCode::IMM as i64, 10,
        OpCode::IMM as i64, 20,
    ];
    assert_eq!(run_code(code, vec![]), Ok(20));
}

#[test]
fn test_vm_printf_output() {
    let mut data = b"x=%d\0".to_vec();
    data.resize(8, 0);
    let code = vec![
        OpCode::IMM as i64, 0,
        OpCode::PSH as i64,
        OpCode::IMM as i64, 5,
        OpCode::PSH as i64,
        OpCode::PRTF as i64, 2,
    ];
    let mut vm = VM::new(code, data, false);
    assert_eq!(vm.run(), Ok(3));
    assert_eq!(vm.output().iter().collect::<String>(), "x=5");
}

#[test]
fn test_vm_printf_missing_argument() {
    let mut data = b"%d%%\0".to_vec();
    data.resize(8, 0);
    let code = vec![
        OpCode::IMM as i64, 0,
        OpCode::PSH as i64,
        OpCode::PRTF as i64, 1,
    ];
    let mut vm = VM::new(code, data, false);
    assert_eq!(vm.run(), Ok(4));
    assert_eq!(vm.output().iter().collect::<String>(), "<?>%");
}

#[test]
fn test_vm_data_read_out_of_bounds() {
    let code = vec![
        OpCode::IMM as i64, 4,
        OpCode::LI as i64,
    ];
    assert_eq!(
        run_code(code, vec![0u8; 8]),
        Err("Data segment read out of bounds: addr=4, size=8".to_string())
    );
}

#[test]
fn test_vm_store_then_load() {
    let mut vm = VM::new(vec![], vec![0u8; 32], false);
    vm.store_int(8, -123456789);
    vm.store_char(20, 0xAB);
    assert_eq!(vm.load_int(8), -123456789);
    assert_eq!(vm.load_char(20), 0xAB);
    assert_eq!(vm.load_int(0), 0);
    assert_eq!(vm.load_char(21), 0);
}

#[test]
fn test_vm_op_names() {
    let vm = VM::new(vec![], vec![], false);
    assert_eq!(vm.op_to_string(OpCode::IMM as usize), "IMM");
    assert_eq!(vm.op_to_string(OpCode::MCMP as usize), "MCMP");
    assert_eq!(vm.op_to_string(OpCode::SWP as usize), "SWP");
    assert!(opcode_has_argument(OpCode::ADJ as u8));
    assert!(opcode_has_argument(OpCode::PRTF as u8));
    assert!(!opcode_has_argument(OpCode::LEV as u8));
}

#[test]
fn test_vm_call_returns_past_argument() {
    // a call to a function at 4 that returns 7
    let code = vec![
        OpCode::JSR as i64, 4,
        OpCode::PSH as i64,
        OpCode::EXIT as i64,
        OpCode::ENT as i64, 0,
        OpCode::IMM as i64, 7,
        OpCode::LEV as i64,
    ];
    assert_eq!(run_code(code, vec![]), Ok(7));
}
