//! A register-based bytecode virtual machine.
//!
//! A program is a flat sequence of [`Opcode`]s grouped into named functions.
//! [`ParallaxVm::run`] collects the functions into a table, starts at `main`
//! and takes one turn per opcode until the outermost function returns.
//!
//! The modules, leaves first:
//! - [`error`], [`operand`], [`opcode`]: the vocabulary of a program;
//! - [`function`]: a function of a program, with its labels and variables;
//! - [`program`]: how a program divides into functions;
//! - [`machine`]: the state of the machine, and what one turn does to it;
//! - [`execution`]: what a run is, turn after turn;
//! - [`scope`], [`straight_line`]: what holds of every run;
//! - [`parallax_vm`]: the machine itself;
//! - [`clock`]: the clock that times a run.
pub mod clock;
pub mod error;
pub mod execution;
pub mod function;
pub mod machine;
pub mod opcode;
pub mod operand;
pub mod parallax_vm;
pub mod program;
pub mod scope;
pub mod straight_line;

pub use error::Error;
pub use function::Function;
pub use opcode::Opcode;
pub use operand::OperandType;
pub use operand::OperandValue;
pub use parallax_vm::ParallaxVm;
