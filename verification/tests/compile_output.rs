use rust_forth_compiler::token::tokenize_string;
use rust_forth_compiler::ForthCompiler;
use rust_forth_compiler::Opcode;

#[test]
fn test_intrinsics_one_plus() {
    let tokens = tokenize_string("1+");
    let mut fc = ForthCompiler::default();
    let ol = fc
        .compile_tokens_compile_and_remove_word_definitions(&tokens)
        .unwrap();
    assert_eq!(&ol, &vec![Opcode::LDI(1), Opcode::ADD, Opcode::RET]);
}

#[test]
fn test_intrinsics_one_minus() {
    let tokens = tokenize_string("1-");
    let mut fc = ForthCompiler::default();
    let ol = fc
        .compile_tokens_compile_and_remove_word_definitions(&tokens)
        .unwrap();
    assert_eq!(&ol, &vec![Opcode::LDI(-1), Opcode::ADD, Opcode::RET]);
}

#[test]
fn test_intrinsics_two_plus() {
    let tokens = tokenize_string("2+");
    let mut fc = ForthCompiler::default();
    let ol = fc
        .compile_tokens_compile_and_remove_word_definitions(&tokens)
        .unwrap();
    assert_eq!(&ol, &vec![Opcode::LDI(2), Opcode::ADD, Opcode::RET]);
}

#[test]
fn test_intrinsics_two_minus() {
    let tokens = tokenize_string("2-");
    let mut fc = ForthCompiler::default();
    let ol = fc
        .compile_tokens_compile_and_remove_word_definitions(&tokens)
        .unwrap();
    assert_eq!(&ol, &vec![Opcode::LDI(-2), Opcode::ADD, Opcode::RET]);
}

#[test]
fn test_intrinsics_two_mul() {
    let tokens = tokenize_string("2*");
    let mut fc = ForthCompiler::default();
    let ol = fc
        .compile_tokens_compile_and_remove_word_definitions(&tokens)
        .unwrap();
    assert_eq!(&ol, &vec![Opcode::LDI(2), Opcode::MUL, Opcode::RET]);
}

#[test]
fn test_intrinsics_two_div() {
    let tokens = tokenize_string("2/");
    let mut fc = ForthCompiler::default();
    let ol = fc
        .compile_tokens_compile_and_remove_word_definitions(&tokens)
        .unwrap();
    assert_eq!(&ol, &vec![Opcode::LDI(2), Opcode::DIV, Opcode::RET]);
}

#[test]
fn test_intrinsics_dup() {
    let tokens = tokenize_string("10 2 DUP");
    let mut fc = ForthCompiler::default();
    let ol = fc
        .compile_tokens_compile_and_remove_word_definitions(&tokens)
        .unwrap();
    assert_eq!(&ol, &vec![Opcode::LDI(10),Opcode::LDI(2), Opcode::DUP, Opcode::RET]);
}

#[test]
fn test_intrinsics_two_dup() {
    let tokens = tokenize_string("10 2 2DUP");
    let mut fc = ForthCompiler::default();
    let ol = fc
        .compile_tokens_compile_and_remove_word_definitions(&tokens)
        .unwrap();
    assert_eq!(&ol, &vec![Opcode::LDI(10),Opcode::LDI(2), Opcode::DUP2, Opcode::RET]);
}

#[test]
fn test_intrinsics_drop() {
    let tokens = tokenize_string("10 2 DROP");
    let mut fc = ForthCompiler::default();
    let ol = fc
        .compile_tokens_compile_and_remove_word_definitions(&tokens)
        .unwrap();
    assert_eq!(&ol, &vec![Opcode::LDI(10),Opcode::LDI(2), Opcode::DROP, Opcode::RET]);
}

#[test]
fn test_intrinsics_two_drop() {
    let tokens = tokenize_string("10 2 2DROP");
    let mut fc = ForthCompiler::default();
    let ol = fc
        .compile_tokens_compile_and_remove_word_definitions(&tokens)
        .unwrap();
    assert_eq!(&ol, &vec![Opcode::LDI(10),Opcode::LDI(2), Opcode::DROP,Opcode::DROP, Opcode::RET]);
}

#[test]
fn test_intrinsics_two_over() {
    let tokens = tokenize_string("1 2 3 4 2OVER");
    let mut fc = ForthCompiler::default();
    let ol = fc
        .compile_tokens_compile_and_remove_word_definitions(&tokens)
        .unwrap();
    assert_eq!(&ol, &vec![Opcode::LDI(1),Opcode::LDI(2),Opcode::LDI(3),Opcode::LDI(4), Opcode::OVER2, Opcode::RET]);
}

#[test]
fn test_intrinsics_two_swap() {
    let tokens = tokenize_string("1 2 3 4 2SWAP");
    let mut fc = ForthCompiler::default();
    let ol = fc
        .compile_tokens_compile_and_remove_word_definitions(&tokens)
        .unwrap();
    assert_eq!(&ol, &vec![Opcode::LDI(1),Opcode::LDI(2),Opcode::LDI(3),Opcode::LDI(4), Opcode::SWAP2, Opcode::RET]);
}

#[test]
fn test_i() {
    let tokens = tokenize_string("I");
    let mut fc = ForthCompiler::default();
    let ol = fc
        .compile_tokens_compile_and_remove_word_definitions(&tokens)
        .unwrap();
    assert_eq!(&ol, &vec![Opcode::GETLP, Opcode::RET]);
}

#[test]
fn test_j() {
    let tokens = tokenize_string("J");
    let mut fc = ForthCompiler::default();
    let ol = fc
        .compile_tokens_compile_and_remove_word_definitions(&tokens)
        .unwrap();
    assert_eq!(&ol, &vec![Opcode::GETLP2, Opcode::RET]);
}

#[test]
fn test_do_loop() {
    let tokens = tokenize_string("10 0 DO 123 LEAVE 456 LOOP");
    let mut fc = ForthCompiler::default();
    let ol = fc
        .compile_tokens_compile_and_remove_word_definitions(&tokens)
        .unwrap();
    assert_eq!(
        &ol,
        &vec![
            Opcode::LDI(10),
            Opcode::LDI(0),
            Opcode::PUSHLP,
            Opcode::LDI(123),
            Opcode::LDI(7),
            Opcode::JR,
            Opcode::LDI(456),
            Opcode::INCLP,
            Opcode::CMPLOOP,
            Opcode::LDI(-7),
            Opcode::JRZ,
            Opcode::DROPLP,
            Opcode::RET
        ]
    );
}

#[test]
fn test_do_loop_simple() {
    let tokens = tokenize_string("10 0 DO I LOOP");
    let mut fc = ForthCompiler::default();
    let ol = fc
        .compile_tokens_compile_and_remove_word_definitions(&tokens)
        .unwrap();
    assert_eq!(
        &ol,
        &vec![
            Opcode::LDI(10),
            Opcode::LDI(0),
            Opcode::PUSHLP,
            Opcode::GETLP,
            Opcode::INCLP,
            Opcode::CMPLOOP,
            Opcode::LDI(-4),
            Opcode::JRZ,
            Opcode::DROPLP,
            Opcode::RET
        ]
    );
}

#[test]
fn test_do_plus_loop() {
    let tokens = tokenize_string("10 0 DO 123 LEAVE 456 2 +LOOP");
    let mut fc = ForthCompiler::default();
    let ol = fc
        .compile_tokens_compile_and_remove_word_definitions(&tokens)
        .unwrap();
    assert_eq!(
        &ol,
        &vec![
            Opcode::LDI(10),
            Opcode::LDI(0),
            Opcode::PUSHLP,
            Opcode::LDI(123),
            Opcode::LDI(8),
            Opcode::JR,
            Opcode::LDI(456),
            Opcode::LDI(2),
            Opcode::ADDLP,
            Opcode::CMPLOOP,
            Opcode::LDI(-8),
            Opcode::JRZ,
            Opcode::DROPLP,
            Opcode::RET
        ]
    );
}

#[test]
fn test_begin_while_repeat() {
    let tokens = tokenize_string("BEGIN 123 WHILE 456 REPEAT");
    let mut fc = ForthCompiler::default();
    let ol = fc
        .compile_tokens_compile_and_remove_word_definitions(&tokens)
        .unwrap();
    assert_eq!(
        &ol,
        &vec![
            Opcode::LDI(123),
            Opcode::LDI(4),
            Opcode::JRZ,
            Opcode::LDI(456),
            Opcode::LDI(-5),
            Opcode::JR,
            Opcode::RET
        ]
    );
}

#[test]
fn test_begin_until() {
    let tokens = tokenize_string("10 BEGIN 0 IF LEAVE THEN 1- DUP NOT UNTIL");
    let mut fc = ForthCompiler::default();
    let ol = fc
        .compile_tokens_compile_and_remove_word_definitions(&tokens)
        .unwrap();
    assert_eq!(
        &ol,
        &vec![
            Opcode::LDI(10),
            Opcode::LDI(0),
            Opcode::LDI(3),
            Opcode::JRZ,
            Opcode::LDI(7),
            Opcode::JR,
            Opcode::LDI(-1),
            Opcode::ADD,
            Opcode::DUP,
            Opcode::NOT,
            Opcode::LDI(-10),
            Opcode::JRZ,
            Opcode::RET
        ]
    );
}

#[test]
fn test_begin_again() {
    let tokens = tokenize_string("10 BEGIN 1- DUP NOT IF LEAVE THEN AGAIN");
    let mut fc = ForthCompiler::default();
    let ol = fc
        .compile_tokens_compile_and_remove_word_definitions(&tokens)
        .unwrap();
    assert_eq!(
        &ol,
        &vec![
            Opcode::LDI(10),
            Opcode::LDI(-1),
            Opcode::ADD,
            Opcode::DUP,
            Opcode::NOT,
            Opcode::LDI(3),
            Opcode::JRZ,
            Opcode::LDI(3),
            Opcode::JR,
            Opcode::LDI(-9),
            Opcode::JR,
            Opcode::RET
        ]
    );
}

#[test]
fn test_begin_again_leave() {
    let tokens = tokenize_string("BEGIN 123 LEAVE 456 LEAVE 789 AGAIN");
    let mut fc = ForthCompiler::default();
    let ol = fc
        .compile_tokens_compile_and_remove_word_definitions(&tokens)
        .unwrap();
    assert_eq!(
        &ol,
        &vec![
            Opcode::LDI(123),
            Opcode::LDI(7),
            Opcode::JR,
            Opcode::LDI(456),
            Opcode::LDI(4),
            Opcode::JR,
            Opcode::LDI(789),
            Opcode::LDI(-8),
            Opcode::JR,
            Opcode::RET
        ]
    );
}
