//! A compiler from a Forth dialect to the code of a small stack machine.
//!
//! A source text is split into tokens (`token`). Its definitions, `: name …
//! ;`, are installed as words in the machine's code memory, and what stands
//! outside of them is compiled to the code that the call runs (`extract`,
//! `compiler`). Tokens become code in one pass, in which the control-flow
//! keywords open and close pending constructs and patch the relative jumps
//! between them (`lowering`, `compile`, `deferred`, `keyword`). The machine
//! itself is the crate `rust_simple_stack_processor` (`machine`).
//!
//! The library ends where the code is loaded: `ForthCompiler::load_string`
//! returns the address at which the machine is to start. To run the machine
//! is the caller's part; `ForthError::from` says under which error each
//! fault of a run reaches the user.
//!
//! What holds of every program is proved in `laws`, `programs`, `leave`,
//! `pairing`, `context`, `footprint` and `dictionary`.

pub mod compile;
pub mod compiler;
pub mod context;
pub mod deferred;
pub mod dictionary;
pub mod error;
pub mod extract;
pub mod footprint;
pub mod keyword;
pub mod laws;
pub mod leave;
pub mod lowering;
pub mod machine;
pub mod opcode;
pub mod pairing;
pub mod programs;
pub mod token;

pub use compiler::ForthCompiler;
pub use deferred::DeferredBeginLoopStatement;
pub use deferred::DeferredDoLoopStatement;
pub use deferred::DeferredIfStatement;
pub use deferred::DeferredStatement;
pub use deferred::LoopExits;
pub use error::ForthError;
pub use error::MachineFault;
pub use keyword::Keyword;
pub use opcode::GasLimit;
pub use opcode::Opcode;
pub use token::Token;
