//! The instructions that the compiler emits, as plain values.

use vstd::prelude::*;

verus! {

/// One instruction of the stack machine.
///
/// `LDI` pushes its operand. A relative jump (`JR`, `JRZ`) pops its offset
/// from the number stack, so the compiler always emits it directly behind the
/// `LDI` that loads the offset; the offset counts from the jump itself.
#[derive(Clone, Copy, Debug, PartialEq, Eq, Structural)]
pub enum Opcode {
    LDI(i64),
    ADD,
    SUB,
    MUL,
    DIV,
    NOT,
    CMPZ,
    CMPNZ,
    DUP,
    DUP2,
    DROP,
    SWAP,
    SWAP2,
    OVER2,
    JR,
    JRZ,
    CALL,
    RET,
    NOP,
    TRAP,
    PUSHLP,
    DROPLP,
    INCLP,
    ADDLP,
    CMPLOOP,
    GETLP,
    GETLP2,
}

/// The budget of one run: each executed instruction costs one unit of gas.
#[derive(Clone, Copy, Debug, PartialEq, Eq, Structural)]
pub enum GasLimit {
    Unlimited,
    Limited(u64),
}

} // verus!
