use rust_forth_compiler::ForthCompiler;
use rust_forth_compiler::ForthError;
use rust_forth_compiler::MachineFault;
use rust_forth_compiler::Opcode;
use rust_forth_compiler::Token;
use rust_forth_compiler::token::tokenize_string;
use rust_simple_stack_processor::GasLimit;
use rust_simple_stack_processor::Opcode as MachineOpcode;
use rust_simple_stack_processor::StackMachineError;

/// The fault that an error of the machine stands for.
fn fault_of(err: StackMachineError) -> MachineFault {
    match err {
        StackMachineError::DivisionByZero { .. } => MachineFault::DivisionByZero,
        StackMachineError::NumericOverflow { .. } => MachineFault::NumericOverflow,
        StackMachineError::TryFromIntError(_) => MachineFault::TryFromIntError,
        StackMachineError::NumberStackUnderflow => MachineFault::NumberStackUnderflow,
        StackMachineError::LoopStackUnderflow => MachineFault::LoopStackUnderflow,
        StackMachineError::ScratchStackUnderflow => MachineFault::ScratchStackUnderflow,
        StackMachineError::InvalidCellOperation => MachineFault::InvalidCellOperation,
        StackMachineError::UnhandledTrap { unhandled_trap_id } => {
            MachineFault::UnhandledTrap { unhandled_trap_id }
        }
        StackMachineError::RanOutOfGas { gas_used, gas_limit } => MachineFault::RanOutOfGas {
            gas_used,
            gas_limit: match gas_limit {
                GasLimit::Unlimited => rust_forth_compiler::GasLimit::Unlimited,
                GasLimit::Limited(limit) => rust_forth_compiler::GasLimit::Limited(limit),
            },
        },
        StackMachineError::UnknownError => MachineFault::UnknownError,
    }
}

/// Loads a source text and runs the machine on it.
fn execute_string(fc: &mut ForthCompiler, s: &str, gas_limit: GasLimit) -> Result<(), ForthError> {
    let entry = fc.load_string(s)?;
    fc.sm.execute(entry, gas_limit).map_err(|err| ForthError::from(fault_of(err)))
}

fn compile(source: &str) -> Result<Vec<Opcode>, ForthError> {
    let tokens = tokenize_string(source);
    let mut fc = ForthCompiler::default();
    fc.compile_tokens_compile_and_remove_word_definitions(&tokens)
}

fn run(source: &str, gas: u64) -> Vec<i64> {
    let mut fc = ForthCompiler::default();
    execute_string(&mut fc, source, GasLimit::Limited(gas)).unwrap();
    fc.sm.st.number_stack.clone()
}

fn syntax_error(source: &str) -> String {
    match compile(source) {
        Err(ForthError::InvalidSyntax(message)) => message,
        r => panic!("no syntax error: {:?}", r),
    }
}

#[test]
fn arithmetic_leaves_its_result() {
    assert_eq!(run("123 321 ADD 2 MUL", 100), vec![888]);
}

#[test]
fn a_word_can_be_called_twice() {
    assert_eq!(run(": R 123 321 ADD 2 MUL ; R R", 100), vec![888, 888]);
}

#[test]
fn zero_takes_the_else_branch() {
    assert_eq!(run("0 IF 1 2 ADD ELSE 3 4 ADD THEN", 100), vec![7]);
    assert_eq!(run("1 IF 1 2 ADD ELSE 3 4 ADD THEN", 100), vec![3]);
}

#[test]
fn branches_of_different_length() {
    assert_eq!(run("0 IF 1 ELSE 3 4 ADD 5 ADD THEN 9", 100), vec![12, 9]);
    assert_eq!(run("1 IF 1 ELSE 3 4 ADD 5 ADD THEN 9", 100), vec![1, 9]);
    assert_eq!(run("0 IF 1 2 ADD 3 ADD ELSE 4 THEN 9", 100), vec![4, 9]);
    assert_eq!(run("5 IF 1 2 ADD 3 ADD ELSE 4 THEN 9", 100), vec![6, 9]);
}

#[test]
fn if_without_else_skips_on_zero() {
    assert_eq!(run("0 IF 1 2 ADD THEN 9", 100), vec![9]);
    assert_eq!(run("7 IF 1 2 ADD THEN 9", 100), vec![3, 9]);
}

#[test]
fn if_then_code() {
    assert_eq!(
        compile("IF 1 2 ADD THEN").unwrap(),
        vec![
            Opcode::LDI(4),
            Opcode::JRZ,
            Opcode::LDI(1),
            Opcode::LDI(2),
            Opcode::ADD,
            Opcode::RET
        ]
    );
}

#[test]
fn if_else_then_code() {
    assert_eq!(
        compile("IF 1 ELSE 2 3 THEN").unwrap(),
        vec![
            Opcode::LDI(4),
            Opcode::JRZ,
            Opcode::LDI(1),
            Opcode::LDI(3),
            Opcode::JR,
            Opcode::LDI(2),
            Opcode::LDI(3),
            Opcode::RET
        ]
    );
}

#[test]
fn counted_loop_counts_up() {
    assert_eq!(run("10 0 DO I LOOP", 250), vec![0, 1, 2, 3, 4, 5, 6, 7, 8, 9]);
    assert_eq!(run("7 4 DO I LOOP", 250), vec![4, 5, 6]);
}

#[test]
fn counted_loop_with_step() {
    assert_eq!(run("10 0 DO I 2 +LOOP", 250), vec![0, 2, 4, 6, 8]);
}

#[test]
fn counted_loop_code() {
    assert_eq!(
        compile("DO 1 2 LOOP").unwrap(),
        vec![
            Opcode::PUSHLP,
            Opcode::LDI(1),
            Opcode::LDI(2),
            Opcode::INCLP,
            Opcode::CMPLOOP,
            Opcode::LDI(-5),
            Opcode::JRZ,
            Opcode::DROPLP,
            Opcode::RET
        ]
    );
}

#[test]
fn leave_ends_an_endless_loop() {
    assert_eq!(run("10 BEGIN 1- DUP NOT IF LEAVE THEN AGAIN", 250), vec![0]);
}

#[test]
fn begin_again_code() {
    assert_eq!(
        compile("BEGIN 1 2 3 AGAIN").unwrap(),
        vec![
            Opcode::LDI(1),
            Opcode::LDI(2),
            Opcode::LDI(3),
            Opcode::LDI(-4),
            Opcode::JR,
            Opcode::RET
        ]
    );
}

#[test]
fn begin_while_repeat_code() {
    assert_eq!(
        compile("BEGIN 1 2 WHILE 3 4 5 REPEAT").unwrap(),
        vec![
            Opcode::LDI(1),
            Opcode::LDI(2),
            Opcode::LDI(6),
            Opcode::JRZ,
            Opcode::LDI(3),
            Opcode::LDI(4),
            Opcode::LDI(5),
            Opcode::LDI(-8),
            Opcode::JR,
            Opcode::RET
        ]
    );
}

#[test]
fn leave_jumps_behind_the_loop() {
    let code = compile("BEGIN 1 IF LEAVE THEN 2 UNTIL 9").unwrap();
    assert_eq!(
        code,
        vec![
            Opcode::LDI(1),
            Opcode::LDI(3),
            Opcode::JRZ,
            Opcode::LDI(4),
            Opcode::JR,
            Opcode::LDI(2),
            Opcode::LDI(-7),
            Opcode::JRZ,
            Opcode::LDI(9),
            Opcode::RET
        ]
    );
}

#[test]
fn leave_belongs_to_the_inner_loop() {
    let code = compile("BEGIN BEGIN LEAVE 0 UNTIL LEAVE 0 UNTIL").unwrap();
    assert_eq!(
        code,
        vec![
            Opcode::LDI(4),
            Opcode::JR,
            Opcode::LDI(0),
            Opcode::LDI(-4),
            Opcode::JRZ,
            Opcode::LDI(4),
            Opcode::JR,
            Opcode::LDI(0),
            Opcode::LDI(-9),
            Opcode::JRZ,
            Opcode::RET
        ]
    );
}

#[test]
fn comments_and_strings_emit_nothing() {
    assert_eq!(
        compile("1 ( a remark ) 2 .\" a text\" 3 \\ to the end").unwrap(),
        vec![Opcode::LDI(1), Opcode::LDI(2), Opcode::LDI(3), Opcode::RET]
    );
}

#[test]
fn empty_source_compiles_to_a_return() {
    assert_eq!(compile("").unwrap(), vec![Opcode::RET]);
    assert_eq!(run("", 10), Vec::<i64>::new());
}

#[test]
fn missing_command_after_colon() {
    assert_eq!(compile(": R 1 2 ; : ; 3"), Err(ForthError::MissingCommandAfterColon));
    assert_eq!(compile(": 1 2 ;"), Err(ForthError::MissingCommandAfterColon));
    assert_eq!(compile("1 :"), Err(ForthError::MissingCommandAfterColon));
}

#[test]
fn semicolon_before_colon() {
    assert_eq!(compile(": R 1 2 ; ;"), Err(ForthError::SemicolonBeforeColon));
    assert_eq!(compile(";"), Err(ForthError::SemicolonBeforeColon));
}

#[test]
fn missing_semicolon_after_colon() {
    assert_eq!(compile(": R 1 2 ADD"), Err(ForthError::MissingSemicolonAfterColon));
    assert_eq!(compile(": R"), Err(ForthError::MissingSemicolonAfterColon));
}

#[test]
fn unknown_token() {
    assert_eq!(compile("FOO"), Err(ForthError::UnknownToken("FOO".to_string())));
    assert_eq!(compile("1 add"), Err(ForthError::UnknownToken("add".to_string())));
}

#[test]
fn colon_inside_a_body_is_no_word() {
    assert_eq!(compile(": A 1 : B 2 ; ;"), Err(ForthError::UnknownToken(":".to_string())));
}

#[test]
fn keyword_misuse() {
    assert_eq!(syntax_error("ELSE"), "ELSE without IF");
    assert_eq!(syntax_error("BEGIN ELSE"), "ELSE without IF");
    assert_eq!(syntax_error("IF ELSE ELSE THEN"), "ELSE after ELSE");
    assert_eq!(syntax_error("THEN"), "THEN without IF");
    assert_eq!(syntax_error("DO THEN"), "THEN without IF");
    assert_eq!(syntax_error("LOOP"), "LOOP without proper loop start like DO");
    assert_eq!(syntax_error("BEGIN LOOP"), "LOOP without proper loop start like DO");
    assert_eq!(syntax_error("IF +LOOP"), "+LOOP without proper loop start like DO");
    assert_eq!(syntax_error("DO UNTIL"), "UNTIL without proper loop start like BEGIN");
    assert_eq!(syntax_error("WHILE"), "WHILE without proper loop start like BEGIN");
    assert_eq!(syntax_error("BEGIN IF WHILE"), "WHILE without proper loop start like BEGIN");
    assert_eq!(syntax_error("DO REPEAT"), "REPEAT without proper loop start like BEGIN");
    assert_eq!(syntax_error("AGAIN"), "AGAIN without proper loop start like BEGIN");
    assert_eq!(syntax_error("LEAVE"), "LEAVE without proper loop start like DO or BEGIN");
    assert_eq!(syntax_error("IF LEAVE THEN"), "LEAVE without proper loop start like DO or BEGIN");
}

#[test]
fn unterminated_constructs() {
    assert_eq!(syntax_error("1 IF 2"), "unterminated control-flow: IF");
    assert_eq!(syntax_error("1 IF 2 ELSE 3"), "unterminated control-flow: IF");
    assert_eq!(syntax_error("10 0 DO I"), "unterminated control-flow: DO");
    assert_eq!(syntax_error("BEGIN 1"), "unterminated control-flow: BEGIN");
    assert_eq!(syntax_error("BEGIN 1 IF"), "unterminated control-flow: IF");
    assert_eq!(syntax_error(": W IF ; W"), "unterminated control-flow: IF");
}

#[test]
fn keywords_cannot_be_shadowed() {
    let mut fc = ForthCompiler::default();
    execute_string(&mut fc, ": IF 5 ; 0 IF 1 THEN 2", GasLimit::Limited(100)).unwrap();
    assert_eq!(fc.sm.st.number_stack, vec![2]);
}

#[test]
fn a_word_shadows_an_intrinsic() {
    assert_eq!(run(": DUP 7 ; 1 DUP", 100), vec![1, 7]);
}

#[test]
fn the_latest_definition_wins() {
    let mut fc = ForthCompiler::default();
    execute_string(&mut fc, ": A 1 ; : B A ; : A 2 ; B A", GasLimit::Limited(100)).unwrap();
    assert_eq!(fc.sm.st.number_stack, vec![1, 2]);
    assert_eq!(fc.word_address("B"), Some(2));
    assert_eq!(fc.word_address("A"), Some(5));
    assert_eq!(fc.word_address("C"), None);
}

#[test]
fn frontier_is_the_sum_of_the_words() {
    let mut fc = ForthCompiler::default();
    assert_eq!(fc.frontier(), 0);
    execute_string(&mut fc, ": A 1 2 ADD ; 5", GasLimit::Limited(100)).unwrap();
    assert_eq!(fc.frontier(), 4);
    execute_string(&mut fc, "A A", GasLimit::Limited(100)).unwrap();
    assert_eq!(fc.frontier(), 4);
    execute_string(&mut fc, ": B ; : C A B ;", GasLimit::Limited(100)).unwrap();
    assert_eq!(fc.frontier(), 4 + 1 + 5);
    assert_eq!(fc.word_address("A"), Some(0));
    assert_eq!(fc.word_address("B"), Some(4));
    assert_eq!(fc.word_address("C"), Some(5));
}

#[test]
fn a_failed_definition_installs_nothing() {
    let mut fc = ForthCompiler::default();
    let r = execute_string(&mut fc, ": A 1 ; : B NOPE ; : C 3 ;", GasLimit::Limited(100));
    assert_eq!(r, Err(ForthError::UnknownToken("NOPE".to_string())));
    assert_eq!(fc.frontier(), 2);
    assert_eq!(fc.word_address("A"), Some(0));
    assert_eq!(fc.word_address("B"), None);
    assert_eq!(fc.word_address("C"), None);
    execute_string(&mut fc, "A", GasLimit::Limited(100)).unwrap();
    assert_eq!(fc.sm.st.number_stack, vec![1]);
}

#[test]
fn the_code_of_a_call_is_overwritten_by_the_next() {
    let mut fc = ForthCompiler::default();
    execute_string(&mut fc, ": A 1 ; 2 3 4", GasLimit::Limited(100)).unwrap();
    assert_eq!(fc.sm.st.opcodes.len(), 2 + 4);
    execute_string(&mut fc, "A", GasLimit::Limited(100)).unwrap();
    assert_eq!(
        fc.sm.st.opcodes,
        vec![
            MachineOpcode::LDI(1),
            MachineOpcode::RET,
            MachineOpcode::LDI(0),
            MachineOpcode::CALL,
            MachineOpcode::RET
        ]
    );
}

#[test]
fn the_same_source_twice_loads_the_same_code() {
    let mut fc = ForthCompiler::default();
    execute_string(&mut fc, ": A 1 ;", GasLimit::Limited(100)).unwrap();
    execute_string(&mut fc, "A 2 ADD", GasLimit::Limited(100)).unwrap();
    let first = fc.sm.st.opcodes.clone();
    let stack = fc.sm.st.number_stack.clone();
    fc.sm.st.number_stack.clear();
    execute_string(&mut fc, "A 2 ADD", GasLimit::Limited(100)).unwrap();
    assert_eq!(fc.sm.st.opcodes, first);
    assert_eq!(fc.sm.st.number_stack, stack);
}

#[test]
fn a_shortened_code_memory_is_filled_with_nop() {
    let mut fc = ForthCompiler::default();
    execute_string(&mut fc, ": A 1 2 ;", GasLimit::Limited(100)).unwrap();
    fc.sm.st.opcodes.clear();
    execute_string(&mut fc, "5", GasLimit::Limited(100)).unwrap();
    assert_eq!(
        fc.sm.st.opcodes,
        vec![
            MachineOpcode::NOP,
            MachineOpcode::NOP,
            MachineOpcode::NOP,
            MachineOpcode::LDI(5),
            MachineOpcode::RET
        ]
    );
}

#[test]
fn every_instruction_reaches_the_machine_unchanged() {
    let mut fc = ForthCompiler::default();
    let source = "POP DROP 2DROP SWAP 2SWAP 2OVER DUP 2DUP NOT ADD SUB MUL DIV = <> 1+ 1- 2+ 2- 2* 2/ I J TRAP \
                  IF ELSE THEN DO LEAVE LOOP DO +LOOP BEGIN WHILE REPEAT";
    let tokens = tokenize_string(source);
    fc.load_tokens(&tokens).unwrap();
    let expected = vec![
        MachineOpcode::DROP,
        MachineOpcode::DROP,
        MachineOpcode::DROP,
        MachineOpcode::DROP,
        MachineOpcode::SWAP,
        MachineOpcode::SWAP2,
        MachineOpcode::OVER2,
        MachineOpcode::DUP,
        MachineOpcode::DUP2,
        MachineOpcode::NOT,
        MachineOpcode::ADD,
        MachineOpcode::SUB,
        MachineOpcode::MUL,
        MachineOpcode::DIV,
        MachineOpcode::SUB,
        MachineOpcode::CMPZ,
        MachineOpcode::SUB,
        MachineOpcode::CMPNZ,
        MachineOpcode::LDI(1),
        MachineOpcode::ADD,
        MachineOpcode::LDI(-1),
        MachineOpcode::ADD,
        MachineOpcode::LDI(2),
        MachineOpcode::ADD,
        MachineOpcode::LDI(-2),
        MachineOpcode::ADD,
        MachineOpcode::LDI(2),
        MachineOpcode::MUL,
        MachineOpcode::LDI(2),
        MachineOpcode::DIV,
        MachineOpcode::GETLP,
        MachineOpcode::GETLP2,
        MachineOpcode::TRAP,
        MachineOpcode::LDI(3),
        MachineOpcode::JRZ,
        MachineOpcode::LDI(1),
        MachineOpcode::JR,
        MachineOpcode::PUSHLP,
        MachineOpcode::LDI(6),
        MachineOpcode::JR,
        MachineOpcode::INCLP,
        MachineOpcode::CMPLOOP,
        MachineOpcode::LDI(-5),
        MachineOpcode::JRZ,
        MachineOpcode::DROPLP,
        MachineOpcode::PUSHLP,
        MachineOpcode::ADDLP,
        MachineOpcode::CMPLOOP,
        MachineOpcode::LDI(-3),
        MachineOpcode::JRZ,
        MachineOpcode::DROPLP,
        MachineOpcode::LDI(3),
        MachineOpcode::JRZ,
        MachineOpcode::LDI(-3),
        MachineOpcode::JR,
        MachineOpcode::RET,
    ];
    assert_eq!(fc.sm.st.opcodes, expected);
}

#[test]
fn load_returns_the_frontier() {
    let mut fc = ForthCompiler::default();
    let tokens = tokenize_string(": A 1 ; : B 2 ; A B");
    assert_eq!(fc.load_tokens(&tokens), Ok(4));
    assert_eq!(fc.frontier(), 4);
    assert_eq!(fc.sm.st.opcodes.len(), 9);
}

#[test]
fn the_call_of_a_word_loads_its_address() {
    let mut fc = ForthCompiler::default();
    let tokens = tokenize_string(": A 1 ; : B 2 3 ; B A");
    let code = fc.compile_tokens_compile_and_remove_word_definitions(&tokens).unwrap();
    assert_eq!(
        code,
        vec![Opcode::LDI(2), Opcode::CALL, Opcode::LDI(0), Opcode::CALL, Opcode::RET]
    );
}

#[test]
fn compile_token_vector_adds_no_return() {
    let fc = ForthCompiler::default();
    let tokens = vec![Token::Number(7), Token::Command("DUP".to_string())];
    assert_eq!(fc.compile_token_vector(&tokens), Ok(vec![Opcode::LDI(7), Opcode::DUP]));
    assert_eq!(
        fc.compile_token_vector(&[Token::SemiColon]),
        Err(ForthError::UnknownToken(";".to_string()))
    );
}

#[test]
fn install_a_word_by_hand() {
    let mut fc = ForthCompiler::default();
    let body = vec![Token::Number(7), Token::Command("DUP".to_string())];
    assert_eq!(fc.compile_tokens_as_word("SEVENS", &body), Ok(()));
    assert_eq!(fc.frontier(), 3);
    assert_eq!(fc.word_address("SEVENS"), Some(0));
    execute_string(&mut fc, "SEVENS", GasLimit::Limited(100)).unwrap();
    assert_eq!(fc.sm.st.number_stack, vec![7, 7]);
}

#[test]
fn the_basic_compiler_knows_no_loop_counter() {
    let mut fc = ForthCompiler::new();
    assert_eq!(
        execute_string(&mut fc, "3 0 DO I LOOP", GasLimit::Limited(100)),
        Err(ForthError::UnknownToken("I".to_string()))
    );
    execute_string(&mut fc, "5 INC 9 DEC", GasLimit::Limited(100)).unwrap();
    assert_eq!(fc.sm.st.number_stack, vec![6, 8]);
}

#[test]
fn running_out_of_gas() {
    let mut fc = ForthCompiler::default();
    let r = execute_string(&mut fc, "BEGIN AGAIN", GasLimit::Limited(10));
    match r {
        Err(ForthError::RanOutOfGas { gas_used, gas_limit }) => {
            assert_eq!(gas_limit, rust_forth_compiler::GasLimit::Limited(10));
            assert_eq!(gas_used, 11);
        }
        r => panic!("no end of gas: {:?}", r),
    }
}

#[test]
fn unlimited_gas_runs_to_the_end() {
    let mut fc = ForthCompiler::default();
    execute_string(&mut fc, "1000 0 DO LOOP 7", GasLimit::Unlimited).unwrap();
    assert_eq!(fc.sm.st.number_stack, vec![7]);
}

#[test]
fn faults_of_the_machine_surface() {
    let mut fc = ForthCompiler::default();
    assert_eq!(execute_string(&mut fc, "ADD", GasLimit::Limited(10)), Err(ForthError::NumberStackUnderflow));
    assert_eq!(execute_string(&mut fc, "I", GasLimit::Limited(10)), Err(ForthError::LoopStackUnderflow));
    assert_eq!(
        execute_string(&mut fc, "1 0 DIV", GasLimit::Limited(10)),
        Err(ForthError::InternalNumericOverflow)
    );
    assert_eq!(
        execute_string(&mut fc, "9223372036854775807 1 ADD", GasLimit::Limited(10)),
        Err(ForthError::InternalNumericOverflow)
    );
    assert_eq!(
        execute_string(&mut fc, "55 TRAP", GasLimit::Limited(10)),
        Err(ForthError::UnhandledTrap { unhandled_trap_id: 55 })
    );
}

#[test]
fn every_fault_has_its_error() {
    assert_eq!(ForthError::from(MachineFault::DivisionByZero), ForthError::InternalNumericOverflow);
    assert_eq!(ForthError::from(MachineFault::NumericOverflow), ForthError::InternalNumericOverflow);
    assert_eq!(ForthError::from(MachineFault::TryFromIntError), ForthError::InternalNumericOverflow);
    assert_eq!(ForthError::from(MachineFault::NumberStackUnderflow), ForthError::NumberStackUnderflow);
    assert_eq!(ForthError::from(MachineFault::LoopStackUnderflow), ForthError::LoopStackUnderflow);
    assert_eq!(ForthError::from(MachineFault::ScratchStackUnderflow), ForthError::ScratchStackUnderflow);
    assert_eq!(ForthError::from(MachineFault::InvalidCellOperation), ForthError::InvalidCellOperation);
    assert_eq!(ForthError::from(MachineFault::UnknownError), ForthError::UnknownError);
    assert_eq!(
        ForthError::from(MachineFault::UnhandledTrap { unhandled_trap_id: -3 }),
        ForthError::UnhandledTrap { unhandled_trap_id: -3 }
    );
    assert_eq!(
        ForthError::from(MachineFault::RanOutOfGas {
            gas_used: 8,
            gas_limit: rust_forth_compiler::GasLimit::Limited(7)
        }),
        ForthError::RanOutOfGas { gas_used: 8, gas_limit: rust_forth_compiler::GasLimit::Limited(7) }
    );
}

#[test]
fn exit_codes() {
    assert_eq!(i32::from(ForthError::UnknownError), 2);
    assert_eq!(i32::from(ForthError::UnknownToken("x".to_string())), 3);
    assert_eq!(i32::from(ForthError::NumberStackUnderflow), 4);
    assert_eq!(i32::from(ForthError::LoopStackUnderflow), 5);
    assert_eq!(i32::from(ForthError::InvalidSyntax("x".to_string())), 6);
    assert_eq!(i32::from(ForthError::MissingSemicolonAfterColon), 7);
    assert_eq!(i32::from(ForthError::MissingCommandAfterColon), 8);
    assert_eq!(i32::from(ForthError::SemicolonBeforeColon), 9);
    assert_eq!(i32::from(ForthError::UnhandledTrap { unhandled_trap_id: 1 }), 10);
    assert_eq!(
        i32::from(ForthError::RanOutOfGas {
            gas_used: 1,
            gas_limit: rust_forth_compiler::GasLimit::Unlimited
        }),
        11
    );
    assert_eq!(i32::from(ForthError::InternalNumericOverflow), 12);
    assert_eq!(i32::from(ForthError::ScratchStackUnderflow), 13);
    assert_eq!(i32::from(ForthError::InvalidCellOperation), 14);
}

#[test]
fn tokens_of_a_source() {
    assert_eq!(
        tokenize_string("word : name -12 ; ( note ) .\" text\" \\ rest"),
        vec![
            Token::Command("word".to_string()),
            Token::Colon,
            Token::Command("name".to_string()),
            Token::Number(-12),
            Token::SemiColon,
            Token::BlockComment("( note ".to_string()),
            Token::StringLiteral(".\"".to_string(), "text".to_string()),
            Token::LineComment("\\ rest".to_string()),
        ]
    );
    assert_eq!(tokenize_string(""), Vec::<Token>::new());
}

#[test]
fn white_space_at_the_end_changes_no_token() {
    let expected = vec![Token::Number(1), Token::Number(2), Token::Command("ADD".to_string())];
    assert_eq!(tokenize_string("1 2 ADD"), expected);
    assert_eq!(tokenize_string("1 2 ADD "), expected);
    assert_eq!(tokenize_string("1 2 ADD\n"), expected);
    assert_eq!(tokenize_string("1 2 ADD \r\n\t \n"), expected);
    assert_eq!(tokenize_string("   \n"), Vec::<Token>::new());
    assert_eq!(tokenize_string(": A ; \n"), vec![
        Token::Colon,
        Token::Command("A".to_string()),
        Token::SemiColon
    ]);
}

#[test]
fn a_text_that_ends_in_a_closing_character_is_taken() {
    assert_eq!(
        tokenize_string("1 ( note )"),
        vec![
            Token::Number(1),
            Token::BlockComment("( note ".to_string()),
            Token::LineComment("\\".to_string()),
        ]
    );
    assert_eq!(
        tokenize_string("2 .\" text\"\n"),
        vec![
            Token::Number(2),
            Token::StringLiteral(".\"".to_string(), "text".to_string()),
            Token::LineComment("\\".to_string()),
        ]
    );
    assert_eq!(
        tokenize_string("x)"),
        vec![Token::Command("x)".to_string()), Token::LineComment("\\".to_string())]
    );
    assert_eq!(
        tokenize_string("\\ to the end )"),
        vec![Token::LineComment("\\ to the end ) \\".to_string())]
    );
}

#[test]
fn every_text_can_be_run() {
    assert_eq!(run("1 2 ADD\n", 100), vec![3]);
    assert_eq!(run(": A 5 ; ( five )\nA A ( twice )\n", 100), vec![5, 5]);
    assert_eq!(run("7 .\" seven\"", 100), vec![7]);
    assert_eq!(run("\n\n", 100), Vec::<i64>::new());
}

#[test]
fn a_colon_at_the_end_misses_its_command() {
    assert_eq!(compile(":"), Err(ForthError::MissingCommandAfterColon));
    assert_eq!(compile("1 2 : "), Err(ForthError::MissingCommandAfterColon));
    assert_eq!(compile(": A 1 ; :\n"), Err(ForthError::MissingCommandAfterColon));
}

#[test]
fn load_string_returns_the_frontier() {
    let mut fc = ForthCompiler::default();
    assert_eq!(fc.load_string(": A 1 ; : B 2 ; A B\n"), Ok(4));
    assert_eq!(fc.frontier(), 4);
    assert_eq!(fc.sm.st.opcodes.len(), 9);
    assert!(fc.sm.st.number_stack.is_empty());
    assert_eq!(fc.load_string("NOPE"), Err(ForthError::UnknownToken("NOPE".to_string())));
    assert_eq!(fc.frontier(), 4);
    assert_eq!(fc.sm.st.opcodes.len(), 9);
}
