pub mod bytecode;
pub mod compiler;
pub mod cubecl;
pub mod element;
pub mod error;
pub mod export;
pub mod flags;
pub mod instruction;
pub mod labels;
pub mod lattice;
pub mod mad;
pub mod opencl;
pub mod params;
pub mod stable_aperture;
pub mod syntax;
pub mod text;

pub use bytecode::Bytecode;
pub use error::{Result, UfoError};
pub use flags::{PassFlags, TranLinearFlags};
pub use instruction::{ArgValue, Inst32, Inst64, Instruction};
