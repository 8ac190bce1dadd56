//! A tiny esoteric-language interpreter: a translator that turns source
//! text into an instruction sequence with resolved jump targets, and an
//! executor that runs it against a fixed 30,000-cell byte tape with
//! wraparound pointer and cell arithmetic.

pub mod exec;
pub mod io;
pub mod machine;
pub mod opcode;
pub mod translate;

pub use exec::is_well_formed;
pub use exec::run;
pub use exec::RunOutcome;
pub use io::exec_step;
pub use io::read_value;
pub use machine::Action;
pub use machine::Machine;
pub use opcode::OpCode;
pub use translate::parse_bf;
pub use translate::ParseError;
