use rust_forth_compiler::ForthCompiler;
use rust_forth_compiler::ForthError;
use rust_forth_compiler::MachineFault;
use rust_simple_stack_processor::GasLimit;
use rust_simple_stack_processor::StackMachineError;
use rust_simple_stack_processor::TrapHandled;
use rust_simple_stack_processor::TrapHandler;

/// The fault that an error of the machine stands for.
fn fault_of(err: StackMachineError) -> MachineFault {
    match err {
        StackMachineError::DivisionByZero { .. } => MachineFault::DivisionByZero,
        StackMachineError::NumericOverflow { .. } => MachineFault::NumericOverflow,
        StackMachineError::TryFromIntError(_) => MachineFault::TryFromIntError,
        StackMachineError::NumberStackUnderflow => MachineFault::NumberStackUnderflow,
        StackMachineError::LoopStackUnderflow => MachineFault::LoopStackUnderflow,
        StackMachineError::ScratchStackUnderflow => MachineFault::ScratchStackUnderflow,
        StackMachineError::InvalidCellOperation => MachineFault::InvalidCellOperation,
        StackMachineError::UnhandledTrap { unhandled_trap_id } => {
            MachineFault::UnhandledTrap { unhandled_trap_id }
        }
        StackMachineError::RanOutOfGas { gas_used, gas_limit } => MachineFault::RanOutOfGas {
            gas_used,
            gas_limit: match gas_limit {
                GasLimit::Unlimited => rust_forth_compiler::GasLimit::Unlimited,
                GasLimit::Limited(limit) => rust_forth_compiler::GasLimit::Limited(limit),
            },
        },
        StackMachineError::UnknownError => MachineFault::UnknownError,
    }
}

/// Loads a source text and runs the machine on it.
fn execute_string(fc: &mut ForthCompiler, s: &str, gas_limit: GasLimit) -> Result<(), ForthError> {
    let entry = fc.load_string(s)?;
    fc.sm.execute(entry, gas_limit).map_err(|err| ForthError::from(fault_of(err)))
}

#[test]
fn forth_compiler_test_execute_intrinsics_1() {
    let mut fc = ForthCompiler::new();

    execute_string(&mut fc, "123 321 ADD 2 MUL", GasLimit::Limited(100))
        .unwrap();

    assert_eq!(&fc.sm.st.number_stack, &vec![888_i64]);

    execute_string(&mut fc, "123 321 ADD 2 MUL", GasLimit::Limited(100))
        .unwrap();

    assert_eq!(&fc.sm.st.number_stack, &vec![888_i64, 888]);
}

#[test]
fn forth_compiler_test_compile_1() {
    let mut fc = ForthCompiler::new();

    execute_string(
        &mut fc,
        ": RickTest 123 321 ADD 2 MUL ; RickTest",
        GasLimit::Limited(100),
    )
    .unwrap();

    assert_eq!(&fc.sm.st.number_stack, &vec![888_i64]);

    execute_string(&mut fc, "123 321 ADD 2 MUL RickTest", GasLimit::Limited(100))
        .unwrap();

    assert_eq!(&fc.sm.st.number_stack, &vec![888_i64, 888, 888]);
}

#[test]
fn forth_compiler_test_compile_2() {
    let mut fc = ForthCompiler::new();

    execute_string(
        &mut fc,
        ": RickTest 123 321 ADD 2 MUL ; RickTest : RickTestB 123 321 ADD 2 MUL ;",
        GasLimit::Limited(100),
    )
    .unwrap();

    assert_eq!(&fc.sm.st.number_stack, &vec![888_i64]);

    execute_string(&mut fc, "123 321 ADD 2 MUL RickTest", GasLimit::Limited(100))
        .unwrap();

    assert_eq!(&fc.sm.st.number_stack, &vec![888_i64, 888, 888]);
}

#[test]
fn forth_compiler_test_compile_3() {
    let mut fc = ForthCompiler::new();

    execute_string(
        &mut fc,
        "2 2 SUB POP : RickTest 123 321 ADD 2 MUL ; RickTest : RickTestB 123 321 ADD 2 MUL ; 3 3 SUB POP",
        GasLimit::Limited(100),
    )
    .unwrap();

    assert_eq!(&fc.sm.st.number_stack, &vec![888_i64]);

    execute_string(&mut fc, "123 321 ADD 2 MUL RickTest", GasLimit::Limited(100))
        .unwrap();

    assert_eq!(&fc.sm.st.number_stack, &vec![888_i64, 888, 888]);
}

#[test]
fn forth_compiler_test_compile_4() {
    let mut fc = ForthCompiler::new();

    execute_string(
        &mut fc,
        "2 2 SUB POP : RickTest 123 321 ADD 2 MUL ; : RickTestB 123 321 ADD 2 MUL ; 3 3 SUB",
        GasLimit::Limited(100),
    )
    .unwrap();

    assert_eq!(&fc.sm.st.number_stack, &vec![0_i64]);

    execute_string(&mut fc, "123 321 ADD 2 MUL RickTest", GasLimit::Limited(100))
        .unwrap();

    assert_eq!(&fc.sm.st.number_stack, &vec![0_i64, 888, 888]);
}

#[test]
fn forth_compiler_test_compile_fail_3() {
    let mut fc = ForthCompiler::new();

    match execute_string(
        &mut fc,
        "2 2 SUB POP : RickTest 123 321 ADD 2 MUL ; : RickTestB 123 321 ADD 2 MUL ; : ERROR 3 3 SUB",
        GasLimit::Limited(100),
    ) {
        Err(ForthError::MissingSemicolonAfterColon) => (),
        r => panic!("Incorrect error type returned {:?}", r),
    }
}

#[test]
fn forth_compiler_test_trap_1() {
    let mut fc = ForthCompiler::new();

    // Simulate a IO OUT command, at TRAP(100)
    fc.sm
        .trap_handlers
        .push(Box::from(TrapHandler::new(100, |_trap_id, st| {
            let io_port = st
                .number_stack
                .pop()
                .ok_or(StackMachineError::NumberStackUnderflow)?;
            let io_value = st
                .number_stack
                .pop()
                .ok_or(StackMachineError::NumberStackUnderflow)?;
            println!(
                "Simulated IO OUT command to Port: {} and Value: {}",
                io_port, io_value
            );
            Ok(TrapHandled::Handled)
        })));

    execute_string(
        &mut fc,
        ": IO_OUT 100 TRAP ; 123456 1000 IO_OUT",
        GasLimit::Limited(100),
    )
    .unwrap();

    // Nothing left over
    assert_eq!(&fc.sm.st.number_stack, &vec![]);
}

#[test]
fn forth_compiler_test_trap_2() {
    let mut fc = ForthCompiler::new();

    // Simulate a IO IN command, at TRAP(101)
    fc.sm
        .trap_handlers
        .push(Box::from(TrapHandler::new(101, |_trap_id, st| {
            let io_port = st
                .number_stack
                .pop()
                .ok_or(StackMachineError::NumberStackUnderflow)?;
            let io_value = 654321_i64;
            println!(
                "Simulated IO IN command from Port: {} and Value: {}",
                io_port, io_value
            );
            st.number_stack.push(io_value);
            Ok(TrapHandled::Handled)
        })));

    execute_string(&mut fc, ": IO_IN 101 TRAP ; 1000 IO_IN", GasLimit::Limited(100))
        .unwrap();

    // Value from IO port on stack
    assert_eq!(&fc.sm.st.number_stack, &vec![654321]);
}

#[test]
fn forth_compiler_test_trap_3() {
    let mut fc = ForthCompiler::new();

    // Simulate a IO OUT command, at TRAP(100), but define the port number inside a Forth Word as well
    fc.sm
        .trap_handlers
        .push(Box::from(TrapHandler::new(100, |_trap_id, st| {
            let io_port = st
                .number_stack
                .pop()
                .ok_or(StackMachineError::NumberStackUnderflow)?;
            let io_value = st
                .number_stack
                .pop()
                .ok_or(StackMachineError::NumberStackUnderflow)?;
            println!(
                "Simulated IO OUT command to Port: {} and Value: {}",
                io_port, io_value
            );
            Ok(TrapHandled::Handled)
        })));

    execute_string(
        &mut fc,
        ": IO_OUT 100 TRAP ; : OUT_DISPLAY 1000 IO_OUT ; 123456 OUT_DISPLAY",
        GasLimit::Limited(100),
    )
    .unwrap();

    // Nothing left over
    assert_eq!(&fc.sm.st.number_stack, &vec![]);
}

#[test]
fn forth_compiler_test_trap_4() {
    let mut fc = ForthCompiler::new();

    // Simulate a IO IN command, at TRAP(101), but define the port number inside a Forth word as well
    fc.sm
        .trap_handlers
        .push(Box::from(TrapHandler::new(101, |_trap_id, st| {
            let io_port = st
                .number_stack
                .pop()
                .ok_or(StackMachineError::NumberStackUnderflow)?;
            let io_value = 654321_i64;
            println!(
                "Simulated IO IN command from Port: {} and Value: {}",
                io_port, io_value
            );
            st.number_stack.push(io_value);
            Ok(TrapHandled::Handled)
        })));

    execute_string(
        &mut fc,
        ": IO_IN 101 TRAP ; : IN_KEYBOARD 1000 IO_IN ; IN_KEYBOARD",
        GasLimit::Limited(100),
    )
    .unwrap();

    // Value from IO port on stack
    assert_eq!(&fc.sm.st.number_stack, &vec![654321]);
}
