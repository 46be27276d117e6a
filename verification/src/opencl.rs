use vstd::prelude::*;

use crate::bytecode::{
    all_fit, chunk_error, chunk_fold, emit_models, lemma_emit_models, lemma_emit_models_length,
    models, total_words, word_bytes, Bytecode, BytecodeModel,
};
use crate::error::UfoError;
use crate::instruction::InstructionModel;
use crate::stable_aperture::scan_turns;

verus! {

/// The smallest multiple of `align` that is not below `value`.
pub open spec fn spec_align_up(value: int, align: int) -> int {
    ((value + align - 1) / align) * align
}

/// Rounds `value` up to the next multiple of `align`.
pub fn align_up(value: usize, align: usize) -> (out: usize)
    requires
        align > 0,
        spec_align_up(value as int, align as int) <= usize::MAX,
    ensures
        out == spec_align_up(value as int, align as int),
        out % align == 0,
        value <= out < value + align,
{
    let q = value / align;
    let r = value % align;
    proof {
        vstd::arithmetic::div_mod::lemma_fundamental_div_mod(value as int, align as int);
        lemma_align_up_shape(value as int, align as int);
    }
    if r == 0 {
        value
    } else {
        (q + 1) * align
    }
}

proof fn lemma_align_up_shape(value: int, align: int)
    requires
        align > 0,
        value >= 0,
    ensures
        value % align == 0 ==> spec_align_up(value, align) == value,
        value % align != 0 ==> spec_align_up(value, align) == (value / align + 1) * align,
        spec_align_up(value, align) % align == 0,
        value <= spec_align_up(value, align) < value + align,
{
    let q = value / align;
    let r = value % align;
    vstd::arithmetic::div_mod::lemma_fundamental_div_mod(value, align);
    if r == 0 {
        assert(value + align - 1 == q * align + (align - 1));
        vstd::arithmetic::div_mod::lemma_div_multiples_vanish_fancy(q, align - 1, align);
    } else {
        assert(value + align - 1 == (q + 1) * align + (r - 1)) by (nonlinear_arith)
            requires value == q * align + r;
        vstd::arithmetic::div_mod::lemma_div_multiples_vanish_fancy(q + 1, r - 1, align);
    }
    vstd::arithmetic::div_mod::lemma_mod_multiples_basic((value + align - 1) / align, align);
}


/// An OpenCL device: its position in the device list and its name.
#[derive(Clone, Debug)]
pub struct DeviceInfo {
    pub index: usize,
    pub name: String,
}

/// How an OpenCL tracking run is carried out.
#[derive(Clone, Debug)]
pub struct TrackRunOptions {
    pub turns: u32,
    pub local_instruction_words: Option<usize>,
    pub build_options: String,
}

impl Default for TrackRunOptions {
    /// One turn, an instruction buffer sized by the program, and fast-math build options.
    fn default() -> (o: Self)
        ensures
            o.turns == 1,
            o.local_instruction_words is None,
            o.build_options@ == "-cl-fast-relaxed-math -cl-mad-enable -DUFO_QUIET"@,
    {
        TrackRunOptions {
            turns: 1,
            local_instruction_words: None,
            build_options: "-cl-fast-relaxed-math -cl-mad-enable -DUFO_QUIET".to_string(),
        }
    }
}


/// How the OpenCL interpreter is launched for a program: the instruction bytes (padded to
/// whole instruction buffers), the size of the buffer in words and of its local copy in
/// bytes, the turns, the output length, and the kernel's integer arguments.
#[derive(Clone, Debug)]
pub struct InterpreterPlan {
    pub instruction_bytes: Vec<u8>,
    pub instruction_buffer_words: usize,
    pub local_buffer_bytes: usize,
    pub turns: u32,
    pub output_len: usize,
    pub particle_count_arg: u32,
    pub buffer_words_arg: u32,
    pub output_len_arg: u32,
    pub instruction_count_arg: u32,
}

/// The words of the interpreter's instruction buffer: the size asked for, or else the
/// program's word count but at least 256.
pub open spec fn spec_buffer_words(local: Option<usize>, word_count: nat) -> nat {
    match local {
        Some(w) => w as nat,
        None => if word_count > 256 {
            word_count
        } else {
            256
        },
    }
}

/// The instructions the interpreter runs: the program cut into chunks of the buffer's size
/// when it does not fit in one buffer.
pub open spec fn run_program(s: Seq<crate::instruction::Instruction>, buffer_words: nat) -> Seq<InstructionModel> {
    if buffer_words < total_words(models(s)) {
        chunk_fold(s, buffer_words).0
    } else {
        models(s)
    }
}

/// The number of turns a run makes: at least one.
pub open spec fn run_turns(turns: u32) -> u32 {
    if turns == 0 {
        1
    } else {
        turns
    }
}

/// Whether the plan's sizes fit their integer types, on the inputs where planning gets that
/// far (elsewhere the arithmetic overflows and panics).
pub open spec fn plan_in_range(b: BytecodeModel, dumps_per_turn: usize, particles: usize, options: TrackRunOptions) -> bool {
    let s = b.instructions;
    let wc = total_words(models(s));
    let buf = spec_buffer_words(options.local_instruction_words, wc);
    let ws = word_bytes(b.is_64bit);
    let prog = run_program(s, buf);
    let turns = run_turns(options.turns);
    &&& wc <= usize::MAX
    &&& !(buf == 0 && wc == 0)
    &&& ((buf < wc ==> all_fit(s, buf)) && emit_models(prog, b.is_64bit) is Ok) ==> {
        &&& buf * ws <= usize::MAX
        &&& spec_align_up((buf * ws) as int, 64) <= usize::MAX
        &&& spec_align_up(total_words(prog) as int, buf as int) * ws <= usize::MAX
        &&& particles * dumps_per_turn * turns <= usize::MAX
        &&& (prog.len() as u32) * turns <= u32::MAX
    }
}

/// Plans an interpreter run of `bytecode` for `particles` particles and `dumps_per_turn`
/// observations per turn.
///
/// Fails when the program must be chunked and cannot be, or when an instruction's counts do
/// not fit its header.
pub fn plan_interpreter_run(
    bytecode: &Bytecode,
    dumps_per_turn: usize,
    particles: usize,
    options: &TrackRunOptions,
) -> (r: Result<InterpreterPlan, UfoError>)
    requires
        plan_in_range(bytecode@, dumps_per_turn, particles, *options),
    ensures
        ({
            let s = bytecode@.instructions;
            let wc = total_words(models(s));
            let buf = spec_buffer_words(options.local_instruction_words, wc);
            let ws = word_bytes(bytecode@.is_64bit);
            let prog = run_program(s, buf);
            let turns = run_turns(options.turns);
            if buf < wc && !all_fit(s, buf) {
                r matches Err(e) && chunk_error(s, buf, e)
            } else {
                match emit_models(prog, bytecode@.is_64bit) {
                    Err(m) => r matches Err(e) && e@ == m,
                    Ok(bytes) => r matches Ok(plan) && {
                        let padded = spec_align_up(total_words(prog) as int, buf as int);
                        &&& plan.instruction_buffer_words == buf
                        &&& plan.local_buffer_bytes == spec_align_up((buf * ws) as int, 64)
                        &&& plan.instruction_bytes@ == bytes + Seq::new(
                            (padded * ws - bytes.len()) as nat,
                            |i: int| 0u8,
                        )
                        &&& plan.turns == turns
                        &&& plan.output_len == particles * dumps_per_turn * turns
                        &&& plan.particle_count_arg == particles as u32
                        &&& plan.buffer_words_arg == buf as u32
                        &&& plan.output_len_arg == (particles * dumps_per_turn * turns) as u32
                        &&& plan.instruction_count_arg == (prog.len() as u32) * turns
                    },
                }
            }
        }),
{
    let ghost s = bytecode@.instructions;
    let wc = bytecode.word_count();
    let ws = bytecode.word_size();
    let buf = match options.local_instruction_words {
        Some(w) => w,
        None => if wc > 256 {
            wc
        } else {
            256
        },
    };
    let chunked_program;
    let program: &Bytecode = if buf < wc {
        match bytecode.chunked(buf) {
            Ok(c) => {
                chunked_program = c;
                &chunked_program
            },
            Err(e) => {
                return Err(e);
            },
        }
    } else {
        bytecode
    };
    assert(models(program@.instructions) == run_program(s, buf as nat));
    assert(program@.is_64bit == bytecode@.is_64bit);
    let mut bytes = match program.emit_bytes() {
        Ok(b) => b,
        Err(e) => {
            proof {
                lemma_emit_models(program@.instructions, program@.is_64bit);
            }
            return Err(e);
        },
    };
    proof {
        lemma_emit_models(program@.instructions, program@.is_64bit);
        lemma_emit_models_length(models(program@.instructions), program@.is_64bit);
    }
    let ghost emitted = bytes@;
    let emitted_len = bytes.len();
    proof {
        let tw = total_words(models(program@.instructions));
        assert(emitted.len() == tw * word_bytes(program@.is_64bit));
        assert(emitted.len() == emitted_len);
        assert(tw <= tw * word_bytes(program@.is_64bit)) by (nonlinear_arith)
            requires word_bytes(program@.is_64bit) >= 1;
    }
    let local_buffer_bytes = align_up(buf * ws, 64);
    let program_words = program.word_count();
    let padded = align_up(program_words, buf);
    let target = padded * ws;
    assert(emitted.len() == program_words * ws);
    assert(program_words * ws <= padded * ws) by (nonlinear_arith)
        requires program_words <= padded;
    while bytes.len() < target
        invariant
            emitted.len() <= bytes@.len() <= target,
            bytes@ == emitted + Seq::new((bytes@.len() - emitted.len()) as nat, |i: int| 0u8),
        decreases target - bytes@.len(),
    {
        bytes.push(0u8);
        assert(bytes@ =~= emitted + Seq::new((bytes@.len() - emitted.len()) as nat, |i: int| 0u8));
    }
    let turns = scan_turns(options.turns);
    assert(particles * dumps_per_turn <= particles * dumps_per_turn * turns) by (nonlinear_arith)
        requires turns >= 1;
    let output_len = particles * dumps_per_turn * (turns as usize);
    let instruction_count = program.instructions().len();
    #[verifier::truncate]
    let instruction_count_arg = (instruction_count as u32) * turns;
    #[verifier::truncate]
    let particle_count_arg = particles as u32;
    #[verifier::truncate]
    let buffer_words_arg = buf as u32;
    #[verifier::truncate]
    let output_len_arg = output_len as u32;
    Ok(
        InterpreterPlan {
            instruction_bytes: bytes,
            instruction_buffer_words: buf,
            local_buffer_bytes,
            turns,
            output_len,
            particle_count_arg,
            buffer_words_arg,
            output_len_arg,
            instruction_count_arg,
        },
    )
}

} // verus!
