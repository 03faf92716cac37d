//! What can go wrong while compiling or running a program.

use crate::opcode::GasLimit;
use vstd::prelude::*;
use vstd::std_specs::convert::FromSpec;
use vstd::std_specs::convert::FromSpecImpl;

verus! {

/// The errors of the compiler and of the machine it drives.
#[derive(Debug, PartialEq, Eq)]
pub enum ForthError {
    UnknownError,
    UnknownToken(String),
    NumberStackUnderflow,
    LoopStackUnderflow,
    ScratchStackUnderflow,
    InvalidCellOperation,
    InvalidSyntax(String),
    MissingSemicolonAfterColon,
    MissingCommandAfterColon,
    SemicolonBeforeColon,
    UnhandledTrap { unhandled_trap_id: i64 },
    RanOutOfGas { gas_used: u64, gas_limit: GasLimit },
    InternalNumericOverflow,
}

/// An error as the contracts see it: texts are sequences of characters.
pub enum SpecError {
    UnknownError,
    UnknownToken(Seq<char>),
    NumberStackUnderflow,
    LoopStackUnderflow,
    ScratchStackUnderflow,
    InvalidCellOperation,
    InvalidSyntax(Seq<char>),
    MissingSemicolonAfterColon,
    MissingCommandAfterColon,
    SemicolonBeforeColon,
    UnhandledTrap { unhandled_trap_id: i64 },
    RanOutOfGas { gas_used: u64, gas_limit: GasLimit },
    InternalNumericOverflow,
}

impl View for ForthError {
    type V = SpecError;

    open spec fn view(&self) -> SpecError {
        match self {
            ForthError::UnknownError => SpecError::UnknownError,
            ForthError::UnknownToken(name) => SpecError::UnknownToken(name@),
            ForthError::NumberStackUnderflow => SpecError::NumberStackUnderflow,
            ForthError::LoopStackUnderflow => SpecError::LoopStackUnderflow,
            ForthError::ScratchStackUnderflow => SpecError::ScratchStackUnderflow,
            ForthError::InvalidCellOperation => SpecError::InvalidCellOperation,
            ForthError::InvalidSyntax(message) => SpecError::InvalidSyntax(message@),
            ForthError::MissingSemicolonAfterColon => SpecError::MissingSemicolonAfterColon,
            ForthError::MissingCommandAfterColon => SpecError::MissingCommandAfterColon,
            ForthError::SemicolonBeforeColon => SpecError::SemicolonBeforeColon,
            ForthError::UnhandledTrap { unhandled_trap_id } => SpecError::UnhandledTrap {
                unhandled_trap_id: *unhandled_trap_id,
            },
            ForthError::RanOutOfGas { gas_used, gas_limit } => SpecError::RanOutOfGas {
                gas_used: *gas_used,
                gas_limit: *gas_limit,
            },
            ForthError::InternalNumericOverflow => SpecError::InternalNumericOverflow,
        }
    }
}

/// How a run of the stack machine can fail.
#[derive(Clone, Copy, Debug, PartialEq, Eq, Structural)]
pub enum MachineFault {
    DivisionByZero,
    NumericOverflow,
    TryFromIntError,
    NumberStackUnderflow,
    LoopStackUnderflow,
    ScratchStackUnderflow,
    InvalidCellOperation,
    UnhandledTrap { unhandled_trap_id: i64 },
    RanOutOfGas { gas_used: u64, gas_limit: GasLimit },
    UnknownError,
}

impl MachineFault {
    /// The error under which a fault of the machine reaches the caller: the
    /// faults of arithmetic and of number conversion all count as a numeric
    /// overflow, every other fault keeps its kind and its fields.
    pub open spec fn surfaced(self) -> SpecError {
        match self {
            MachineFault::DivisionByZero => SpecError::InternalNumericOverflow,
            MachineFault::NumericOverflow => SpecError::InternalNumericOverflow,
            MachineFault::TryFromIntError => SpecError::InternalNumericOverflow,
            MachineFault::NumberStackUnderflow => SpecError::NumberStackUnderflow,
            MachineFault::LoopStackUnderflow => SpecError::LoopStackUnderflow,
            MachineFault::ScratchStackUnderflow => SpecError::ScratchStackUnderflow,
            MachineFault::InvalidCellOperation => SpecError::InvalidCellOperation,
            MachineFault::UnhandledTrap { unhandled_trap_id } => SpecError::UnhandledTrap {
                unhandled_trap_id,
            },
            MachineFault::RanOutOfGas { gas_used, gas_limit } => SpecError::RanOutOfGas {
                gas_used,
                gas_limit,
            },
            MachineFault::UnknownError => SpecError::UnknownError,
        }
    }
}

impl SpecError {
    /// The exit status that stands for the error.
    pub open spec fn exit_code(self) -> i32 {
        match self {
            SpecError::UnknownError => 2,
            SpecError::UnknownToken(_) => 3,
            SpecError::NumberStackUnderflow => 4,
            SpecError::LoopStackUnderflow => 5,
            SpecError::ScratchStackUnderflow => 13,
            SpecError::InvalidCellOperation => 14,
            SpecError::InvalidSyntax(_) => 6,
            SpecError::MissingSemicolonAfterColon => 7,
            SpecError::MissingCommandAfterColon => 8,
            SpecError::SemicolonBeforeColon => 9,
            SpecError::UnhandledTrap { .. } => 10,
            SpecError::RanOutOfGas { .. } => 11,
            SpecError::InternalNumericOverflow => 12,
        }
    }
}

impl From<MachineFault> for ForthError {
    fn from(fault: MachineFault) -> (err: ForthError) {
        match fault {
            MachineFault::NumberStackUnderflow => ForthError::NumberStackUnderflow,
            MachineFault::LoopStackUnderflow => ForthError::LoopStackUnderflow,
            MachineFault::ScratchStackUnderflow => ForthError::ScratchStackUnderflow,
            MachineFault::InvalidCellOperation => ForthError::InvalidCellOperation,
            MachineFault::UnknownError => ForthError::UnknownError,
            MachineFault::UnhandledTrap { unhandled_trap_id } => ForthError::UnhandledTrap {
                unhandled_trap_id,
            },
            MachineFault::RanOutOfGas { gas_used, gas_limit } => ForthError::RanOutOfGas {
                gas_used,
                gas_limit,
            },
            MachineFault::NumericOverflow => ForthError::InternalNumericOverflow,
            MachineFault::DivisionByZero => ForthError::InternalNumericOverflow,
            MachineFault::TryFromIntError => ForthError::InternalNumericOverflow,
        }
    }
}

impl FromSpecImpl<MachineFault> for ForthError {
    open spec fn obeys_from_spec() -> bool {
        true
    }

    open spec fn from_spec(fault: MachineFault) -> ForthError {
        match fault {
            MachineFault::NumberStackUnderflow => ForthError::NumberStackUnderflow,
            MachineFault::LoopStackUnderflow => ForthError::LoopStackUnderflow,
            MachineFault::ScratchStackUnderflow => ForthError::ScratchStackUnderflow,
            MachineFault::InvalidCellOperation => ForthError::InvalidCellOperation,
            MachineFault::UnknownError => ForthError::UnknownError,
            MachineFault::UnhandledTrap { unhandled_trap_id } => ForthError::UnhandledTrap {
                unhandled_trap_id,
            },
            MachineFault::RanOutOfGas { gas_used, gas_limit } => ForthError::RanOutOfGas {
                gas_used,
                gas_limit,
            },
            MachineFault::NumericOverflow => ForthError::InternalNumericOverflow,
            MachineFault::DivisionByZero => ForthError::InternalNumericOverflow,
            MachineFault::TryFromIntError => ForthError::InternalNumericOverflow,
        }
    }
}

impl From<ForthError> for i32 {
    fn from(err: ForthError) -> (code: i32) {
        match err {
            ForthError::UnknownError => 2,
            ForthError::UnknownToken(_) => 3,
            ForthError::NumberStackUnderflow => 4,
            ForthError::LoopStackUnderflow => 5,
            ForthError::ScratchStackUnderflow => 13,
            ForthError::InvalidCellOperation => 14,
            ForthError::InvalidSyntax(_) => 6,
            ForthError::MissingSemicolonAfterColon => 7,
            ForthError::MissingCommandAfterColon => 8,
            ForthError::SemicolonBeforeColon => 9,
            ForthError::UnhandledTrap { unhandled_trap_id: _ } => 10,
            ForthError::RanOutOfGas { gas_used: _, gas_limit: _ } => 11,
            ForthError::InternalNumericOverflow => 12,
        }
    }
}

impl FromSpecImpl<ForthError> for i32 {
    open spec fn obeys_from_spec() -> bool {
        true
    }

    open spec fn from_spec(err: ForthError) -> i32 {
        err@.exit_code()
    }
}

/// Every fault of a run keeps its kind and its fields on the way to the
/// user, but for the faults of arithmetic and of number conversion, which
/// all become `InternalNumericOverflow`. So the end of the gas reaches the
/// user with the gas used and the limit that the machine reports.
pub proof fn law_fault_surfaces(fault: MachineFault)
    ensures
        <ForthError as FromSpec<MachineFault>>::from_spec(fault)@ == fault.surfaced(),
        fault matches MachineFault::RanOutOfGas { gas_used, gas_limit } ==> fault.surfaced() == (
        SpecError::RanOutOfGas { gas_used, gas_limit }),
        fault is DivisionByZero || fault is NumericOverflow || fault is TryFromIntError
            ==> fault.surfaced() == SpecError::InternalNumericOverflow,
{
}

} // verus!
