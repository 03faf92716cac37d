//! The stack machine that runs the compiled code. The library fills its code
//! memory and names the address at which a run is to start; to run it is left
//! to the caller.

use crate::opcode::Opcode;
use crate::opcode::Opcode::ADD;
use crate::opcode::Opcode::ADDLP;
use crate::opcode::Opcode::CALL;
use crate::opcode::Opcode::CMPLOOP;
use crate::opcode::Opcode::CMPNZ;
use crate::opcode::Opcode::CMPZ;
use crate::opcode::Opcode::DIV;
use crate::opcode::Opcode::DROP;
use crate::opcode::Opcode::DROPLP;
use crate::opcode::Opcode::DUP;
use crate::opcode::Opcode::DUP2;
use crate::opcode::Opcode::GETLP;
use crate::opcode::Opcode::GETLP2;
use crate::opcode::Opcode::INCLP;
use crate::opcode::Opcode::JR;
use crate::opcode::Opcode::JRZ;
use crate::opcode::Opcode::LDI;
use crate::opcode::Opcode::MUL;
use crate::opcode::Opcode::NOP;
use crate::opcode::Opcode::NOT;
use crate::opcode::Opcode::OVER2;
use crate::opcode::Opcode::PUSHLP;
use crate::opcode::Opcode::RET;
use crate::opcode::Opcode::SUB;
use crate::opcode::Opcode::SWAP;
use crate::opcode::Opcode::SWAP2;
use crate::opcode::Opcode::TRAP;
use rust_simple_stack_processor::Opcode as Vm;
use rust_simple_stack_processor::StackMachine;
use vstd::prelude::*;

verus! {

#[verifier::external_type_specification]
#[verifier::external_body]
pub struct ExStackMachine(StackMachine);

/// The code memory of a machine, `st.opcodes`, read in the instruction set of
/// this library. An instruction of the machine that the library never emits
/// reads as `NOP`.
pub uninterp spec fn code_of(sm: StackMachine) -> Seq<Opcode>;

/// The number stack of a machine, `st.number_stack`, bottom first.
pub uninterp spec fn numbers_of(sm: StackMachine) -> Seq<i64>;

/// `code` cut down to `len` instructions, or filled up to `len` with `NOP`.
pub open spec fn resized(code: Seq<Opcode>, len: int) -> Seq<Opcode> {
    if len <= code.len() {
        code.take(len)
    } else {
        code + Seq::new((len - code.len()) as nat, |i: int| Opcode::NOP)
    }
}

/// `StackMachine::default()`: a machine whose code memory and number stack
/// are empty.
#[verifier::external_body]
pub(crate) fn new_machine() -> (sm: StackMachine)
    ensures
        code_of(sm) == Seq::<Opcode>::empty(),
        numbers_of(sm) == Seq::<i64>::empty(),
{
    StackMachine::default()
}

/// `Vec::len` on the machine's code memory.
#[verifier::external_body]
fn code_length(sm: &StackMachine) -> (len: usize)
    ensures
        len == code_of(*sm).len(),
{
    sm.st.opcodes.len()
}

/// `Vec::truncate` on the machine's code memory: the memory keeps its first
/// `len` instructions, and where it holds no more than `len` it stays as it
/// is. The number stack is not touched.
#[verifier::external_body]
fn truncate_code(sm: &mut StackMachine, len: usize)
    ensures
        code_of(*final(sm)) == if len <= code_of(*old(sm)).len() {
            code_of(*old(sm)).take(len as int)
        } else {
            code_of(*old(sm))
        },
        numbers_of(*final(sm)) == numbers_of(*old(sm)),
{
    sm.st.opcodes.truncate(len)
}

/// `Vec::push` on the machine's code memory: the machine's instruction of the
/// same name, with the same operand, becomes the last one. The number stack
/// is not touched.
#[verifier::external_body]
fn push_code(sm: &mut StackMachine, op: Opcode)
    ensures
        code_of(*final(sm)) == code_of(*old(sm)).push(op),
        numbers_of(*final(sm)) == numbers_of(*old(sm)),
{
    sm.st.opcodes.push(match op {
        LDI(n) => Vm::LDI(n), ADD => Vm::ADD, SUB => Vm::SUB, MUL => Vm::MUL, DIV => Vm::DIV,
        NOT => Vm::NOT, CMPZ => Vm::CMPZ, CMPNZ => Vm::CMPNZ, DUP => Vm::DUP, DUP2 => Vm::DUP2,
        DROP => Vm::DROP, SWAP => Vm::SWAP, SWAP2 => Vm::SWAP2, OVER2 => Vm::OVER2, JR => Vm::JR,
        JRZ => Vm::JRZ, CALL => Vm::CALL, RET => Vm::RET, NOP => Vm::NOP, TRAP => Vm::TRAP,
        PUSHLP => Vm::PUSHLP, DROPLP => Vm::DROPLP, INCLP => Vm::INCLP, ADDLP => Vm::ADDLP,
        CMPLOOP => Vm::CMPLOOP, GETLP => Vm::GETLP, GETLP2 => Vm::GETLP2,
    })
}

/// Cuts the machine's code memory down to `len` instructions, or fills it up
/// to `len` with `NOP`.
pub fn resize_code(sm: &mut StackMachine, len: usize)
    ensures
        code_of(*final(sm)) == resized(code_of(*old(sm)), len as int),
        numbers_of(*final(sm)) == numbers_of(*old(sm)),
{
    let held = code_length(sm);
    if len <= held {
        truncate_code(sm, len);
    } else {
        let mut filled = held;
        while filled < len
            invariant
                held <= filled <= len,
                held == code_of(*old(sm)).len(),
                code_of(*sm) == code_of(*old(sm)) + Seq::new(
                    (filled - held) as nat,
                    |i: int| Opcode::NOP,
                ),
                numbers_of(*sm) == numbers_of(*old(sm)),
            decreases len - filled,
        {
            let ghost before = code_of(*sm);
            push_code(sm, Opcode::NOP);
            filled += 1;
            assert(code_of(*sm) =~= code_of(*old(sm)) + Seq::new(
                (filled - held) as nat,
                |i: int| Opcode::NOP,
            ));
        }
    }
}

/// Appends `ops` to the machine's code memory.
pub fn append_code(sm: &mut StackMachine, ops: &Vec<Opcode>)
    ensures
        code_of(*final(sm)) == code_of(*old(sm)) + ops@,
        numbers_of(*final(sm)) == numbers_of(*old(sm)),
{
    let mut copied: usize = 0;
    while copied < ops.len()
        invariant
            copied <= ops@.len(),
            code_of(*sm) == code_of(*old(sm)) + ops@.take(copied as int),
            numbers_of(*sm) == numbers_of(*old(sm)),
        decreases ops@.len() - copied,
    {
        push_code(sm, ops[copied]);
        assert(ops@.take(copied as int + 1) =~= ops@.take(copied as int).push(ops@[copied as int]));
        copied += 1;
    }
    assert(ops@.take(copied as int) == ops@);
}

} // verus!
