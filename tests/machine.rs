use counter_vm::machine::{VM, VmError};

fn vm(pc: i64, cells: &[&str]) -> VM {
    VM::new(pc, cells.iter().map(|c| c.to_string()).collect())
}

fn cells(vm: &VM) -> Vec<&str> {
    vm.memory.iter().map(|c| c.as_str()).collect()
}

#[test]
fn succ_increments_direct_cell() {
    let mut m = vm(0, &["succ $1", "0"]);
    assert_eq!(m.execute_instruction(), Ok(true));
    assert_eq!(cells(&m), vec!["succ $1", "1"]);
    assert_eq!(m.pc, 1);
}

#[test]
fn succ_on_own_cell_counts_from_zero() {
    let mut m = vm(0, &["succ $0"]);
    assert_eq!(m.execute_instruction(), Ok(true));
    assert_eq!(cells(&m), vec!["1"]);
    assert_eq!(m.pc, 1);
}

#[test]
fn succ_treats_non_integer_cell_as_zero() {
    let mut m = vm(0, &["succ $1", "x"]);
    assert_eq!(m.execute_instruction(), Ok(true));
    assert_eq!(cells(&m), vec!["succ $1", "1"]);
    assert_eq!(m.pc, 1);
}

#[test]
fn beqz_pred_jumps_when_zero() {
    let mut m = vm(0, &["beqz-pred $0 $2", "0", "99"]);
    assert_eq!(m.execute_instruction(), Ok(true));
    assert_eq!(m.pc, 2);
    assert_eq!(cells(&m), vec!["beqz-pred $0 $2", "0", "99"]);

    let mut m = vm(0, &["beqz-pred $1 $2", "0", "99"]);
    assert_eq!(m.execute_instruction(), Ok(true));
    assert_eq!(m.pc, 2);
    assert_eq!(cells(&m), vec!["beqz-pred $1 $2", "0", "99"]);
}

#[test]
fn beqz_pred_decrements_when_not_zero() {
    let mut m = vm(0, &["beqz-pred $1 $2", "5", "99"]);
    assert_eq!(m.execute_instruction(), Ok(true));
    assert_eq!(m.pc, 1);
    assert_eq!(cells(&m), vec!["beqz-pred $1 $2", "4", "99"]);
}

#[test]
fn beqz_pred_decrements_negative_counters() {
    let mut m = vm(0, &["beqz-pred $1 $0", "-1"]);
    assert_eq!(m.execute_instruction(), Ok(true));
    assert_eq!(cells(&m), vec!["beqz-pred $1 $0", "-2"]);
}

#[test]
fn indirect_succ_follows_one_pointer() {
    let mut m = vm(0, &["succ &1", "2", "0", "0"]);
    assert_eq!(m.execute_instruction(), Ok(true));
    assert_eq!(cells(&m), vec!["succ &1", "2", "1", "0"]);
    assert_eq!(m.pc, 1);
}

#[test]
fn exit_halts_without_change() {
    let mut m = vm(0, &["exit"]);
    assert_eq!(m.execute_instruction(), Ok(false));
    assert_eq!(m.pc, 0);
    assert_eq!(cells(&m), vec!["exit"]);
}

#[test]
fn out_of_bounds_pc_is_fatal() {
    let mut m = vm(3, &["exit"]);
    assert_eq!(m.execute_instruction(), Err(VmError::OutOfBounds { address: 3, size: 1 }));
    let mut m = vm(-1, &["exit"]);
    assert_eq!(m.execute_instruction(), Err(VmError::OutOfBounds { address: -1, size: 1 }));
}

#[test]
fn out_of_bounds_operands_are_fatal_and_write_nothing() {
    let cases: [(&[&str], i64); 5] = [
        (&["succ $5", "0"], 5),
        (&["succ $-1", "0"], -1),
        (&["succ &7", "0"], 7),
        (&["succ &1", "9"], 9),
        (&["beqz-pred $1 $8", "0"], 8),
    ];
    for (program, address) in cases {
        let mut m = vm(0, program);
        assert_eq!(
            m.execute_instruction(),
            Err(VmError::OutOfBounds { address, size: program.len() })
        );
        assert_eq!(cells(&m), program.to_vec());
        assert_eq!(m.pc, 0);
    }
}

#[test]
fn executing_an_integer_is_fatal() {
    for text in ["42", "-7", "+3", "0"] {
        let mut m = vm(0, &[text]);
        assert_eq!(
            m.execute_instruction(),
            Err(VmError::ExecutingData { pc: 0, text: text.to_string() })
        );
        assert_eq!(cells(&m), vec![text]);
    }
}

#[test]
fn executing_other_text_is_an_invalid_instruction() {
    let mut m = vm(0, &["hello"]);
    assert_eq!(
        m.execute_instruction(),
        Err(VmError::InvalidInstruction { pc: 0, text: "hello".to_string() })
    );
}

#[test]
fn indirect_operand_needs_integer_pointer() {
    let mut m = vm(0, &["succ &1", "abc"]);
    assert_eq!(
        m.execute_instruction(),
        Err(VmError::MalformedIndirectTarget { address: 1, text: "abc".to_string() })
    );
    assert_eq!(cells(&m), vec!["succ &1", "abc"]);
}

#[test]
fn malformed_address_literal_is_fatal() {
    let m = vm(0, &["exit", "4"]);
    assert_eq!(
        m.get_address("x1", false),
        Err(VmError::MalformedAddress { text: "x1".to_string() })
    );
    assert_eq!(m.get_address("1", false), Ok(1));
    assert_eq!(m.get_address("1", true), Ok(4));
    assert_eq!(m.get_address("-3", false), Ok(-3));
}

#[test]
fn bounds_check() {
    let m = vm(0, &["exit", "4"]);
    assert_eq!(m.check_bounds(0), Ok(()));
    assert_eq!(m.check_bounds(1), Ok(()));
    assert_eq!(m.check_bounds(2), Err(VmError::OutOfBounds { address: 2, size: 2 }));
    assert_eq!(m.check_bounds(-5), Err(VmError::OutOfBounds { address: -5, size: 2 }));
}

#[test]
fn rewritten_cell_is_fetched_afresh() {
    let mut m = vm(0, &["succ $1", "exit"]);
    assert_eq!(
        m.run_steps(2),
        Err(VmError::ExecutingData { pc: 1, text: "1".to_string() })
    );
    assert_eq!(cells(&m), vec!["succ $1", "1"]);
    assert_eq!(m.pc, 1);
}

#[test]
fn counters_go_past_the_64_bit_range_as_text() {
    let mut m = vm(0, &["succ $1", "9223372036854775807"]);
    assert_eq!(m.execute_instruction(), Ok(true));
    assert_eq!(m.memory[1], "9223372036854775808");
    let mut m = vm(0, &["beqz-pred $1 $0", "-9223372036854775808"]);
    assert_eq!(m.execute_instruction(), Ok(true));
    assert_eq!(m.memory[1], "-9223372036854775809");
}

fn mover() -> VM {
    vm(
        0,
        &["beqz-pred $4 $3", "succ $5", "beqz-pred $6 $0", "exit", "3", "0", "0"],
    )
}

#[test]
fn run_steps_stops_at_exit() {
    let mut m = mover();
    assert_eq!(m.run_steps(100), Ok(false));
    assert_eq!(m.pc, 3);
    assert_eq!(m.memory[4], "0");
    assert_eq!(m.memory[5], "3");
}

#[test]
fn run_steps_stops_after_the_count() {
    let mut m = mover();
    assert_eq!(m.run_steps(2), Ok(true));
    assert_eq!(m.pc, 2);
    assert_eq!(m.memory[4], "2");
    assert_eq!(m.memory[5], "1");
    assert_eq!(m.run_steps(0), Ok(true));
    assert_eq!(m.pc, 2);
}
