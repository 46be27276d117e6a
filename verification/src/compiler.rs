//! Options of the lattice compiler.
use vstd::prelude::*;

use crate::flags::PassFlags;

verus! {

/// How a line is compiled to interpreter bytecode.
#[derive(Clone, Copy, Debug)]
pub struct CompileOptions {
    pub flags: PassFlags,
    pub turns: u32,
    pub is_64bit: bool,
    pub collapse_linear: bool,
}

impl Default for CompileOptions {
    /// No pass flags, one turn, 32-bit words, no collapsing of linear transforms.
    fn default() -> (o: Self)
        ensures
            o.flags.bits == 0,
            o.turns == 1,
            !o.is_64bit,
            !o.collapse_linear,
    {
        CompileOptions { flags: PassFlags::empty(), turns: 1, is_64bit: false, collapse_linear: false }
    }
}

} // verus!
