use vstd::prelude::*;

use crate::error::UfoError;
use crate::instruction::{
    spec_encode32, spec_encode64, spec_next_offset, spec_noop, spec_word_count,
    Instruction, InstructionModel, MAX_ARGS_32, MAX_ARGS_64,
};

verus! {

/// A sequence of interpreter instructions and the word width they are encoded with.
#[derive(Clone, Debug)]
pub struct Bytecode {
    instructions: Vec<Instruction>,
    is_64bit: bool,
}

/// The content of a [`Bytecode`].
pub struct BytecodeModel {
    pub instructions: Seq<Instruction>,
    pub is_64bit: bool,
}

impl View for Bytecode {
    type V = BytecodeModel;

    closed spec fn view(&self) -> BytecodeModel {
        BytecodeModel { instructions: self.instructions@, is_64bit: self.is_64bit }
    }
}

/// The models of the instructions of `s`.
pub open spec fn models(s: Seq<Instruction>) -> Seq<InstructionModel> {
    s.map_values(|i: Instruction| i@)
}

/// The number of interpreter words that `s` occupies.
pub open spec fn total_words(s: Seq<InstructionModel>) -> nat
    decreases s.len(),
{
    if s.len() == 0 {
        0
    } else {
        total_words(s.drop_last()) + spec_word_count(s.last())
    }
}

/// The bytes of one instruction in the given word width, if its counts fit the header.
pub open spec fn spec_encode(i: InstructionModel, is_64bit: bool) -> Option<Seq<u8>> {
    if is_64bit {
        spec_encode64(i)
    } else {
        spec_encode32(i)
    }
}

/// The error reported for an instruction whose counts do not fit the header.
pub open spec fn spec_encode_error(i: Instruction, is_64bit: bool) -> UfoError {
    if is_64bit {
        UfoError::TooManyInstructionArgs { name: i.name, count: i.args.len(), max: MAX_ARGS_64 }
    } else if i.args.len() > MAX_ARGS_32 {
        UfoError::TooManyInstructionArgs { name: i.name, count: i.args.len(), max: MAX_ARGS_32 }
    } else {
        UfoError::TooManyInstructionArgs {
            name: i.name,
            count: i.aux as usize,
            max: MAX_ARGS_32,
        }
    }
}

/// The bytes of the whole sequence, or the error of its first instruction that does not fit.
pub open spec fn spec_emit(s: Seq<Instruction>, is_64bit: bool) -> Result<Seq<u8>, UfoError>
    decreases s.len(),
{
    if s.len() == 0 {
        Ok(seq![])
    } else {
        match spec_emit(s.drop_last(), is_64bit) {
            Err(e) => Err(e),
            Ok(b) => match spec_encode(s.last()@, is_64bit) {
                None => Err(spec_encode_error(s.last(), is_64bit)),
                Some(x) => Ok(b + x),
            },
        }
    }
}

/// The 32-bit word held little-endian in the first four bytes of `b`.
pub open spec fn from_le32(b: Seq<u8>) -> u32 {
    (b[0] as u32) | ((b[1] as u32) << 8) | ((b[2] as u32) << 16) | ((b[3] as u32) << 24)
}

/// The 64-bit word held little-endian in the first eight bytes of `b`.
pub open spec fn from_le64(b: Seq<u8>) -> u64 {
    (b[0] as u64) | ((b[1] as u64) << 8) | ((b[2] as u64) << 16) | ((b[3] as u64) << 24) | ((
    b[4] as u64) << 32) | ((b[5] as u64) << 40) | ((b[6] as u64) << 48) | ((b[7] as u64) << 56)
}

/// `b` read as consecutive little-endian 32-bit words; trailing bytes are ignored.
pub open spec fn words32(b: Seq<u8>) -> Seq<u32> {
    Seq::new(b.len() / 4, |i: int| from_le32(b.subrange(4 * i, 4 * i + 4)))
}

/// `b` read as consecutive little-endian 64-bit words; trailing bytes are ignored.
pub open spec fn words64(b: Seq<u8>) -> Seq<u64> {
    Seq::new(b.len() / 8, |i: int| from_le64(b.subrange(8 * i, 8 * i + 8)))
}

/// The instructions after greedy chunking into chunks of `chunk_words` words, and the number
/// of words in the last, open chunk.
///
/// An instruction that would overflow the `chunk_words - 1` words of a non-empty chunk
/// starts a new one: the old chunk is filled with pad instructions and closed with a
/// next-offset instruction in its last word.
pub open spec fn chunk_fold(s: Seq<Instruction>, chunk_words: nat) -> (
    Seq<InstructionModel>,
    nat,
)
    decreases s.len(),
{
    if s.len() == 0 {
        (seq![], 0)
    } else {
        let (out, current) = chunk_fold(s.drop_last(), chunk_words);
        let i = s.last()@;
        let w = spec_word_count(i);
        if current > 0 && current + w > chunk_words - 1 {
            (
                out + pad_run((chunk_words - 1 - current) as nat) + seq![
                    spec_next_offset("next_offset"@),
                    i,
                ],
                w,
            )
        } else {
            (out.push(i), current + w)
        }
    }
}

/// `n` pad instructions.
pub open spec fn pad_run(n: nat) -> Seq<InstructionModel> {
    Seq::new(n, |k: int| spec_noop("chunk_pad"@))
}

/// Whether `i` is too large for a chunk of `chunk_words` words.
pub open spec fn too_large(i: Instruction, chunk_words: nat) -> bool {
    spec_word_count(i@) > chunk_words - 1
}

/// The error of chunking `s`, if any: a chunk size under two words, or else the first
/// instruction that cannot fit in a chunk.
pub open spec fn chunk_error(s: Seq<Instruction>, chunk_words: nat, e: UfoError) -> bool {
    if chunk_words < 2 {
        e == UfoError::InvalidBytecodeChunkSize
    } else {
        exists|k: int|
            0 <= k < s.len() && too_large(s[k], chunk_words) && (forall|j: int|
                0 <= j < k ==> !too_large(#[trigger] s[j], chunk_words)) && e
                == UfoError::InstructionTooLargeForChunk {
                name: s[k].name,
                words: spec_word_count(s[k]@) as usize,
                chunk_words: chunk_words as usize,
            }
    }
}

/// Whether every instruction of `s` fits in a chunk of `chunk_words` words.
pub open spec fn all_fit(s: Seq<Instruction>, chunk_words: nat) -> bool {
    chunk_words >= 2 && forall|k: int| 0 <= k < s.len() ==> !too_large(#[trigger] s[k], chunk_words)
}

proof fn lemma_total_words_push(s: Seq<InstructionModel>, i: InstructionModel)
    ensures
        total_words(s.push(i)) == total_words(s) + spec_word_count(i),
{
    assert(s.push(i).drop_last() =~= s);
}

proof fn lemma_total_words_concat(a: Seq<InstructionModel>, b: Seq<InstructionModel>)
    ensures
        total_words(a + b) == total_words(a) + total_words(b),
    decreases b.len(),
{
    if b.len() == 0 {
        assert(a + b =~= a);
    } else {
        lemma_total_words_concat(a, b.drop_last());
        assert((a + b).drop_last() =~= a + b.drop_last());
    }
}

proof fn lemma_total_words_pads(n: nat)
    ensures
        total_words(pad_run(n)) == n,
    decreases n,
{
    if n > 0 {
        lemma_total_words_pads((n - 1) as nat);
        assert(pad_run(n).drop_last() =~= pad_run((n - 1) as nat));
    }
}

proof fn lemma_models_push(s: Seq<Instruction>, i: Instruction)
    ensures
        models(s.push(i)) == models(s).push(i@),
{
    assert(models(s.push(i)) =~= models(s).push(i@));
}

impl Bytecode {
    /// An empty program with the given word width.
    pub fn new(is_64bit: bool) -> (b: Bytecode)
        ensures
            b@.instructions == Seq::<Instruction>::empty(),
            b@.is_64bit == is_64bit,
    {
        Bytecode { instructions: Vec::new(), is_64bit }
    }

    /// The program holding `instructions`.
    pub fn from_instructions(instructions: Vec<Instruction>, is_64bit: bool) -> (b: Bytecode)
        ensures
            b@.instructions == instructions@,
            b@.is_64bit == is_64bit,
    {
        Bytecode { instructions, is_64bit }
    }

    /// The instructions of the program.
    pub fn instructions(&self) -> (r: &[Instruction])
        ensures
            r@ == self@.instructions,
    {
        self.instructions.as_slice()
    }

    /// Whether the program is encoded with 64-bit words.
    pub fn is_64bit(&self) -> (b: bool)
        ensures
            b == self@.is_64bit,
    {
        self.is_64bit
    }

    /// The size of one interpreter word in bytes.
    pub fn word_size(&self) -> (n: usize)
        ensures
            n == (if self@.is_64bit { 8usize } else { 4usize }),
    {
        if self.is_64bit {
            8
        } else {
            4
        }
    }

    /// Appends one instruction.
    pub fn push(&mut self, instruction: Instruction)
        ensures
            final(self)@.instructions == old(self)@.instructions.push(instruction),
            final(self)@.is_64bit == old(self)@.is_64bit,
    {
        self.instructions.push(instruction);
    }

    /// The number of interpreter words of the whole program.
    pub fn word_count(&self) -> (n: usize)
        requires
            total_words(models(self@.instructions)) <= usize::MAX,
        ensures
            n == total_words(models(self@.instructions)),
    {
        let mut n: usize = 0;
        let mut k: usize = 0;
        while k < self.instructions.len()
            invariant
                k <= self.instructions.len(),
                total_words(models(self.instructions@)) <= usize::MAX,
                n == total_words(models(self.instructions@.take(k as int))),
            decreases self.instructions.len() - k,
        {
            proof {
                let t = self.instructions@.take(k + 1);
                assert(t =~= self.instructions@.take(k as int).push(self.instructions@[k as int]));
                lemma_models_push(self.instructions@.take(k as int), self.instructions@[k as int]);
                lemma_total_words_push(
                    models(self.instructions@.take(k as int)),
                    self.instructions@[k as int]@,
                );
                lemma_total_words_prefix(models(self.instructions@), k + 1);
                assert(models(self.instructions@).take(k + 1) =~= models(t));
            }
            n = n + self.instructions[k].encoded_word_count();
            k = k + 1;
        }
        assert(self.instructions@.take(k as int) =~= self.instructions@);
        n
    }

    /// The encoded program: every instruction in order, in the program's word width.
    ///
    /// Fails with the error of the first instruction whose counts do not fit its header.
    pub fn emit_bytes(&self) -> (r: Result<Vec<u8>, UfoError>)
        ensures
            match r {
                Ok(bytes) => spec_emit(self@.instructions, self@.is_64bit) == Ok::<Seq<u8>, UfoError>(bytes@),
                Err(e) => spec_emit(self@.instructions, self@.is_64bit) == Err::<Seq<u8>, UfoError>(e),
            },
    {
        let mut out: Vec<u8> = Vec::new();
        let mut k: usize = 0;
        while k < self.instructions.len()
            invariant
                k <= self.instructions.len(),
                spec_emit(self.instructions@.take(k as int), self.is_64bit) == Ok::<Seq<u8>, UfoError>(out@),
            decreases self.instructions.len() - k,
        {
            let ghost t = self.instructions@.take(k + 1);
            assert(t.drop_last() =~= self.instructions@.take(k as int));
            let encoded = if self.is_64bit {
                self.instructions[k].encode64()
            } else {
                self.instructions[k].encode32()
            };
            match encoded {
                Ok(bytes) => {
                    let mut bytes = bytes;
                    out.append(&mut bytes);
                },
                Err(e) => {
                    proof {
                        lemma_emit_error_sticks(self.instructions@, k + 1, self.is_64bit);
                    }
                    return Err(e);
                },
            }
            k = k + 1;
        }
        assert(self.instructions@.take(k as int) =~= self.instructions@);
        Ok(out)
    }

    /// The encoded program read as little-endian 32-bit words.
    pub fn emit_u32_words(&self) -> (r: Result<Vec<u32>, UfoError>)
        ensures
            match r {
                Ok(words) => spec_emit(self@.instructions, self@.is_64bit) matches Ok(b) && words@
                    == words32(b),
                Err(e) => spec_emit(self@.instructions, self@.is_64bit) == Err::<Seq<u8>, UfoError>(e),
            },
    {
        let bytes = self.emit_bytes()?;
        let mut words: Vec<u32> = Vec::new();
        let mut k: usize = 0;
        let n = bytes.len() / 4;
        while k < n
            invariant
                n == bytes@.len() / 4,
                k <= n,
                words@ =~= words32(bytes@).take(k as int),
            decreases n - k,
        {
            assert(4 * k + 3 < bytes@.len()) by (nonlinear_arith)
                requires
                    k < n,
                    n == bytes@.len() / 4,
            ;
            assert(bytes@.len() == bytes.len());
            let b0 = bytes[4 * k];
            let b1 = bytes[4 * k + 1];
            let b2 = bytes[4 * k + 2];
            let b3 = bytes[4 * k + 3];
            let w = (b0 as u32) | ((b1 as u32) << 8) | ((b2 as u32) << 16) | ((b3 as u32) << 24);
            proof {
                let c = bytes@.subrange(4 * k, 4 * k + 4);
                assert(c[0] == b0 && c[1] == b1 && c[2] == b2 && c[3] == b3);
                assert(w == from_le32(c));
            }
            words.push(w);
            k = k + 1;
            assert(words@ =~= words32(bytes@).take(k as int));
        }
        Ok(words)
    }

    /// The encoded program read as little-endian 64-bit words.
    pub fn emit_u64_words(&self) -> (r: Result<Vec<u64>, UfoError>)
        ensures
            match r {
                Ok(words) => spec_emit(self@.instructions, self@.is_64bit) matches Ok(b) && words@
                    == words64(b),
                Err(e) => spec_emit(self@.instructions, self@.is_64bit) == Err::<Seq<u8>, UfoError>(e),
            },
    {
        let bytes = self.emit_bytes()?;
        let mut words: Vec<u64> = Vec::new();
        let mut k: usize = 0;
        let n = bytes.len() / 8;
        while k < n
            invariant
                n == bytes@.len() / 8,
                k <= n,
                words@ =~= words64(bytes@).take(k as int),
            decreases n - k,
        {
            assert(8 * k + 7 < bytes@.len()) by (nonlinear_arith)
                requires
                    k < n,
                    n == bytes@.len() / 8,
            ;
            assert(bytes@.len() == bytes.len());
            let b0 = bytes[8 * k];
            let b1 = bytes[8 * k + 1];
            let b2 = bytes[8 * k + 2];
            let b3 = bytes[8 * k + 3];
            let b4 = bytes[8 * k + 4];
            let b5 = bytes[8 * k + 5];
            let b6 = bytes[8 * k + 6];
            let b7 = bytes[8 * k + 7];
            let w = (b0 as u64) | ((b1 as u64) << 8) | ((b2 as u64) << 16) | ((b3 as u64) << 24)
                | ((b4 as u64) << 32) | ((b5 as u64) << 40) | ((b6 as u64) << 48) | ((b7 as u64)
                << 56);
            proof {
                let c = bytes@.subrange(8 * k, 8 * k + 8);
                assert(c[0] == b0 && c[1] == b1 && c[2] == b2 && c[3] == b3);
                assert(c[4] == b4 && c[5] == b5 && c[6] == b6 && c[7] == b7);
                assert(w == from_le64(c));
            }
            words.push(w);
            k = k + 1;
            assert(words@ =~= words64(bytes@).take(k as int));
        }
        Ok(words)
    }
}

impl Bytecode {
    /// The program cut into chunks of `chunk_words` words for the interpreter's instruction
    /// buffer (see [`chunk_fold`]).
    ///
    /// Fails when `chunk_words` is under two, or when an instruction needs more than
    /// `chunk_words - 1` words.
    pub fn chunked(&self, chunk_words: usize) -> (r: Result<Bytecode, UfoError>)
        requires
            total_words(models(self@.instructions)) <= usize::MAX,
        ensures
            match r {
                Ok(b) => {
                    &&& all_fit(self@.instructions, chunk_words as nat)
                    &&& models(b@.instructions) == chunk_fold(
                        self@.instructions,
                        chunk_words as nat,
                    ).0
                    &&& b@.is_64bit == self@.is_64bit
                },
                Err(e) => !all_fit(self@.instructions, chunk_words as nat) && chunk_error(
                    self@.instructions,
                    chunk_words as nat,
                    e,
                ),
            },
    {
        if chunk_words < 2 {
            return Err(UfoError::InvalidBytecodeChunkSize);
        }
        let ghost s = self.instructions@;
        let ghost cw = chunk_words as nat;
        let mut out: Vec<Instruction> = Vec::new();
        let mut current: usize = 0;
        let mut k: usize = 0;
        while k < self.instructions.len()
            invariant
                s == self.instructions@,
                cw == chunk_words as nat,
                chunk_words >= 2,
                k <= s.len(),
                total_words(models(s)) <= usize::MAX,
                forall|j: int| 0 <= j < k ==> !too_large(#[trigger] s[j], cw),
                models(out@) == chunk_fold(s.take(k as int), cw).0,
                current == chunk_fold(s.take(k as int), cw).1,
                current <= chunk_words - 1,
                current <= total_words(models(s.take(k as int))),
            decreases s.len() - k,
        {
            proof {
                lemma_word_le_total(s, k as int);
            }
            let instruction = &self.instructions[k];
            let words = instruction.encoded_word_count();
            if words > chunk_words - 1 {
                proof {
                    assert(too_large(s[k as int], cw));
                }
                return Err(
                    UfoError::InstructionTooLargeForChunk {
                        name: instruction.name.clone(),
                        words,
                        chunk_words,
                    },
                );
            }
            let ghost prev = s.take(k as int);
            let ghost next = s.take(k + 1);
            proof {
                assert(next.drop_last() =~= prev);
                assert(next.last() == s[k as int]);
                lemma_total_words_take_step(s, k as int);
            }
            if current > 0 && current + words > chunk_words - 1 {
                let ghost base = models(out@);
                let ghost start = current;
                while current < chunk_words - 1
                    invariant
                        start <= current <= chunk_words - 1,
                        models(out@) == base + pad_run((current - start) as nat),
                    decreases chunk_words - 1 - current,
                {
                    let pad = Instruction::noop("chunk_pad");
                    proof {
                        lemma_models_push(out@, pad);
                        assert(pad_run((current + 1 - start) as nat) =~= pad_run(
                            (current - start) as nat,
                        ).push(spec_noop("chunk_pad"@)));
                    }
                    out.push(pad);
                    current = current + 1;
                }
                let next_offset = Instruction::next_offset("next_offset");
                proof {
                    lemma_models_push(out@, next_offset);
                }
                out.push(next_offset);
                current = 0;
                let copy = instruction.duplicate();
                proof {
                    lemma_models_push(out@, copy);
                    assert(models(out@.push(copy)) =~= base + pad_run(
                        (chunk_words - 1 - start) as nat,
                    ) + seq![spec_next_offset("next_offset"@), s[k as int]@]);
                }
                out.push(copy);
                current = words;
            } else {
                let copy = instruction.duplicate();
                proof {
                    lemma_models_push(out@, copy);
                }
                out.push(copy);
                current = current + words;
            }
            k = k + 1;
        }
        assert(s.take(k as int) =~= s);
        Ok(Bytecode::from_instructions(out, self.is_64bit))
    }
}

proof fn lemma_word_le_total(s: Seq<Instruction>, k: int)
    requires
        0 <= k < s.len(),
    ensures
        spec_word_count(s[k]@) <= total_words(models(s)),
{
    lemma_total_words_prefix(models(s), k + 1);
    let t = models(s).take(k + 1);
    assert(t.last() == s[k]@);
    lemma_total_words_prefix(t, k);
}

proof fn lemma_total_words_take_step(s: Seq<Instruction>, k: int)
    requires
        0 <= k < s.len(),
    ensures
        total_words(models(s.take(k + 1))) == total_words(models(s.take(k))) + spec_word_count(
            s[k]@,
        ),
        total_words(models(s.take(k + 1))) <= total_words(models(s)),
{
    assert(s.take(k + 1) =~= s.take(k).push(s[k]));
    lemma_models_push(s.take(k), s[k]);
    lemma_total_words_push(models(s.take(k)), s[k]@);
    lemma_total_words_prefix(models(s), k + 1);
    assert(models(s).take(k + 1) =~= models(s.take(k + 1)));
}

proof fn lemma_total_words_prefix(s: Seq<InstructionModel>, k: int)
    requires
        0 <= k <= s.len(),
    ensures
        total_words(s.take(k)) <= total_words(s),
    decreases s.len() - k,
{
    if k < s.len() {
        lemma_total_words_prefix(s, k + 1);
        assert(s.take(k + 1).drop_last() =~= s.take(k));
    } else {
        assert(s.take(k) =~= s);
    }
}

proof fn lemma_emit_error_sticks(s: Seq<Instruction>, k: int, is_64bit: bool)
    requires
        0 <= k <= s.len(),
        spec_emit(s.take(k), is_64bit) is Err,
    ensures
        spec_emit(s, is_64bit) == spec_emit(s.take(k), is_64bit),
    decreases s.len() - k,
{
    if k < s.len() {
        assert(s.take(k + 1).drop_last() =~= s.take(k));
        lemma_emit_error_sticks(s, k + 1, is_64bit);
    } else {
        assert(s.take(k) =~= s);
    }
}

} // verus!

verus! {

/// Whether `i` is one of the instructions that chunking inserts.
pub open spec fn is_chunk_filler(i: InstructionModel) -> bool {
    i == spec_noop("chunk_pad"@) || i == spec_next_offset("next_offset"@)
}

/// Every instruction of `out` lies within the first `chunk_words - 1` words of its chunk,
/// except next-offset instructions, which may take a chunk's last word.
#[verifier::opaque]
pub open spec fn placed_within_chunks(out: Seq<InstructionModel>, chunk_words: nat) -> bool {
    forall|k: int|
        0 <= k < out.len() ==> {
            let offset = total_words(out.take(k)) % chunk_words;
            ||| offset + spec_word_count(#[trigger] out[k]) <= chunk_words - 1
            ||| out[k] == spec_next_offset("next_offset"@) && offset == chunk_words - 1
        }
}

/// `m` places the items of `s`, in order, within `out`, and every other item of `out` is
/// an inserted pad or next-offset instruction.
#[verifier::opaque]
pub open spec fn embeds(s: Seq<InstructionModel>, out: Seq<InstructionModel>, m: Seq<int>) -> bool {
    &&& m.len() == s.len()
    &&& forall|j: int| 0 <= j < m.len() ==> 0 <= #[trigger] m[j] < out.len() && out[m[j]] == s[j]
    &&& forall|j1: int, j2: int| 0 <= j1 < j2 < m.len() ==> #[trigger] m[j1] < #[trigger] m[j2]
    &&& forall|k: int| 0 <= k < out.len() && !m.contains(k) ==> is_chunk_filler(#[trigger] out[k])
}

proof fn lemma_mod_step(q: int, cw: int, r: int)
    requires
        cw > 0,
        0 <= r < cw,
    ensures
        (q * cw + r) % cw == r,
{
    vstd::arithmetic::div_mod::lemma_mod_multiples_vanish(q, r, cw);
    vstd::arithmetic::div_mod::lemma_small_mod(r as nat, cw as nat);
    assert(q * cw == cw * q) by (nonlinear_arith);
}

proof fn lemma_total_words_pair(a: InstructionModel, b: InstructionModel)
    ensures
        total_words(seq![a, b]) == spec_word_count(a) + spec_word_count(b),
        total_words(seq![a]) == spec_word_count(a),
{
    assert(seq![a] =~= Seq::<InstructionModel>::empty().push(a));
    assert(seq![a, b] =~= seq![a].push(b));
    lemma_total_words_push(Seq::<InstructionModel>::empty(), a);
    lemma_total_words_push(seq![a], b);
}

proof fn lemma_embeds_push(
    sm: Seq<InstructionModel>,
    out: Seq<InstructionModel>,
    m0: Seq<int>,
    out2: Seq<InstructionModel>,
    i: InstructionModel,
)
    requires
        embeds(sm, out, m0),
        out2.len() > out.len(),
        out2.last() == i,
        forall|k: int| 0 <= k < out.len() ==> out2[k] == out[k],
        forall|k: int| out.len() <= k < out2.len() - 1 ==> is_chunk_filler(#[trigger] out2[k]),
    ensures
        embeds(sm.push(i), out2, m0.push(out2.len() - 1)),
{
    reveal(embeds);
    let m = m0.push(out2.len() - 1);
    assert forall|k: int| 0 <= k < out2.len() && !m.contains(k) implies is_chunk_filler(
        #[trigger] out2[k],
    ) by {
        if k < out.len() {
            if m0.contains(k) {
                let j = choose|j: int| 0 <= j < m0.len() && m0[j] == k;
                assert(m[j] == k);
            }
            assert(out2[k] == out[k]);
        } else if k == out2.len() - 1 {
            assert(m[m.len() - 1] == k);
        }
    }
    assert forall|j: int| 0 <= j < m.len() implies 0 <= #[trigger] m[j] < out2.len() && out2[m[j]]
        == sm.push(i)[j] by {
        if j < m0.len() {
            assert(out2[m0[j]] == out[m0[j]]);
        }
    }
}

proof fn lemma_layout_close(
    out: Seq<InstructionModel>,
    cur: nat,
    q: int,
    cw: nat,
    i: InstructionModel,
)
    requires
        cw >= 2,
        0 < cur <= cw - 1,
        cur + spec_word_count(i) > cw - 1,
        spec_word_count(i) <= cw - 1,
        total_words(out) == q * cw + cur,
        placed_within_chunks(out, cw),
    ensures
        ({
            let out2 = out + pad_run((cw - 1 - cur) as nat) + seq![
                spec_next_offset("next_offset"@),
                i,
            ];
            &&& placed_within_chunks(out2, cw)
            &&& (total_words(out2) as int) % (cw as int) == spec_word_count(i)
        }),
{
    reveal(placed_within_chunks);
    let n = (cw - 1 - cur) as nat;
    let w = spec_word_count(i);
    let pads = pad_run(n);
    let no = spec_next_offset("next_offset"@);
    let tail = seq![no, i];
    let out2 = out + pads + tail;
    lemma_total_words_pads(n);
    lemma_total_words_concat(out, pads);
    lemma_total_words_concat(out + pads, tail);
    lemma_total_words_pair(no, i);
    assert(total_words(out2) == (q + 1) * cw + w) by (nonlinear_arith)
        requires
            total_words(out2) == total_words(out) + n + 1 + w,
            total_words(out) == q * cw + cur,
            n == cw - 1 - cur,
    ;
    lemma_mod_step(q + 1, cw as int, w as int);
    assert forall|k: int| 0 <= k < out2.len() implies {
        let offset = total_words(out2.take(k)) % cw;
        ||| offset + spec_word_count(#[trigger] out2[k]) <= cw - 1
        ||| out2[k] == spec_next_offset("next_offset"@) && offset == cw - 1
    } by {
        if k < out.len() {
            assert(out2.take(k) =~= out.take(k));
            assert(out2[k] == out[k]);
        } else if k < out.len() + n {
            let j = k - out.len();
            assert(out2.take(k) =~= out + pad_run(j as nat));
            lemma_total_words_pads(j as nat);
            lemma_total_words_concat(out, pad_run(j as nat));
            lemma_mod_step(q, cw as int, cur + j);
            assert(out2[k] == spec_noop("chunk_pad"@));
        } else if k == out.len() + n {
            assert(out2.take(k) =~= out + pads);
            lemma_mod_step(q, cw as int, cw - 1);
        } else {
            assert(out2.take(k) =~= out + pads + seq![no]);
            lemma_total_words_concat(out + pads, seq![no]);
            assert(total_words(out2.take(k)) == (q + 1) * cw + 0) by (nonlinear_arith)
                requires
                    total_words(out2.take(k)) == total_words(out) + n + 1,
                    total_words(out) == q * cw + cur,
                    n == cw - 1 - cur,
            ;
            lemma_mod_step(q + 1, cw as int, 0);
            assert(out2[k] == i);
        }
    }
}

proof fn lemma_layout_push(out: Seq<InstructionModel>, cur: nat, q: int, cw: nat, i: InstructionModel)
    requires
        cw >= 2,
        cur + spec_word_count(i) <= cw - 1,
        total_words(out) == q * cw + cur,
        placed_within_chunks(out, cw),
    ensures
        placed_within_chunks(out.push(i), cw),
        (total_words(out.push(i)) as int) % (cw as int) == cur + spec_word_count(i),
{
    reveal(placed_within_chunks);
    let out2 = out.push(i);
    lemma_total_words_push(out, i);
    lemma_mod_step(q, cw as int, (cur + spec_word_count(i)) as int);
    assert forall|k: int| 0 <= k < out2.len() implies {
        let offset = total_words(out2.take(k)) % cw;
        ||| offset + spec_word_count(#[trigger] out2[k]) <= cw - 1
        ||| out2[k] == spec_next_offset("next_offset"@) && offset == cw - 1
    } by {
        if k < out.len() {
            assert(out2.take(k) =~= out.take(k));
            assert(out2[k] == out[k]);
        } else {
            assert(out2.take(k) =~= out);
            lemma_mod_step(q, cw as int, cur as int);
        }
    }
}

proof fn lemma_chunk_fold_layout(s: Seq<Instruction>, cw: nat) -> (m: Seq<int>)
    requires
        all_fit(s, cw),
    ensures
        chunk_fold(s, cw).1 <= cw - 1,
        (total_words(chunk_fold(s, cw).0) as int) % (cw as int) == chunk_fold(s, cw).1,
        placed_within_chunks(chunk_fold(s, cw).0, cw),
        embeds(models(s), chunk_fold(s, cw).0, m),
    decreases s.len(),
{
    if s.len() == 0 {
        reveal(placed_within_chunks);
        reveal(embeds);
        vstd::arithmetic::div_mod::lemma_small_mod(0, cw);
        seq![]
    } else {
        let p = s.drop_last();
        assert forall|k: int| 0 <= k < p.len() implies !too_large(#[trigger] p[k], cw) by {
            assert(p[k] == s[k]);
        }
        let m0 = lemma_chunk_fold_layout(p, cw);
        let (out, cur) = chunk_fold(p, cw);
        let q = total_words(out) as int / cw as int;
        vstd::arithmetic::div_mod::lemma_fundamental_div_mod(total_words(out) as int, cw as int);
        assert(total_words(out) == q * cw + cur) by (nonlinear_arith)
            requires
                total_words(out) == cw * q + total_words(out) as int % cw as int,
                total_words(out) as int % cw as int == cur,
        ;
        let i = s.last()@;
        let w = spec_word_count(i);
        assert(!too_large(s[s.len() - 1], cw));
        assert(models(s) =~= models(p).push(i));
        if cur > 0 && cur + w > cw - 1 {
            let out2 = out + pad_run((cw - 1 - cur) as nat) + seq![
                spec_next_offset("next_offset"@),
                i,
            ];
            lemma_layout_close(out, cur, q, cw, i);
            lemma_embeds_push(models(p), out, m0, out2, i);
            m0.push(out2.len() - 1)
        } else {
            lemma_layout_push(out, cur, q, cw, i);
            lemma_embeds_push(models(p), out, m0, out.push(i), i);
            m0.push(out.len() as int)
        }
    }
}

/// Chunking keeps every instruction, in order, inserting only pad and next-offset
/// instructions, and no instruction but a next-offset one reaches the last word of a chunk.
pub proof fn lemma_chunked_layout(s: Seq<Instruction>, chunk_words: nat)
    requires
        all_fit(s, chunk_words),
    ensures
        placed_within_chunks(chunk_fold(s, chunk_words).0, chunk_words),
        exists|m: Seq<int>| embeds(models(s), chunk_fold(s, chunk_words).0, m),
{
    let m = lemma_chunk_fold_layout(s, chunk_words);
}


/// The number of bytes of one interpreter word.
pub open spec fn word_bytes(is_64bit: bool) -> nat {
    if is_64bit {
        8
    } else {
        4
    }
}

proof fn lemma_args_bytes(args: Seq<crate::instruction::ArgValue>)
    ensures
        crate::instruction::spec_args32(args).len() == 4 * args.len(),
        crate::instruction::spec_args64(args).len() == 8 * args.len(),
    decreases args.len(),
{
    if args.len() > 0 {
        lemma_args_bytes(args.drop_last());
    }
}

/// The encoded program has one word per interpreter word of its instructions: its length in
/// bytes is the word count times the word size.
pub proof fn lemma_emit_length(s: Seq<Instruction>, is_64bit: bool)
    ensures
        spec_emit(s, is_64bit) matches Ok(b) ==> b.len() == total_words(models(s)) * word_bytes(
            is_64bit,
        ),
    decreases s.len(),
{
    if s.len() > 0 {
        lemma_emit_length(s.drop_last(), is_64bit);
        lemma_args_bytes(s.last()@.args);
        lemma_models_push(s.drop_last(), s.last());
        assert(s.drop_last().push(s.last()) =~= s);
        lemma_total_words_push(models(s.drop_last()), s.last()@);
        let n = total_words(models(s.drop_last()));
        let a = s.last()@.args.len();
        assert(n * word_bytes(is_64bit) + (1 + a) * word_bytes(is_64bit) == (n + 1 + a)
            * word_bytes(is_64bit)) by (nonlinear_arith);
    }
}


/// The error, as a model, of an instruction whose counts do not fit the header.
pub open spec fn encode_error_model(m: InstructionModel, is_64bit: bool) -> crate::error::ErrorModel {
    if is_64bit {
        crate::error::ErrorModel::TooManyInstructionArgs {
            name: m.name,
            count: m.args.len() as usize,
            max: MAX_ARGS_64,
        }
    } else if m.args.len() > MAX_ARGS_32 {
        crate::error::ErrorModel::TooManyInstructionArgs {
            name: m.name,
            count: m.args.len() as usize,
            max: MAX_ARGS_32,
        }
    } else {
        crate::error::ErrorModel::TooManyInstructionArgs {
            name: m.name,
            count: m.aux as usize,
            max: MAX_ARGS_32,
        }
    }
}

/// The bytes of a sequence of instruction models, or the error of the first that does not
/// fit its header.
pub open spec fn emit_models(ms: Seq<InstructionModel>, is_64bit: bool) -> Result<Seq<u8>, crate::error::ErrorModel>
    decreases ms.len(),
{
    if ms.len() == 0 {
        Ok(seq![])
    } else {
        match emit_models(ms.drop_last(), is_64bit) {
            Err(e) => Err(e),
            Ok(b) => match spec_encode(ms.last(), is_64bit) {
                None => Err(encode_error_model(ms.last(), is_64bit)),
                Some(x) => Ok(b + x),
            },
        }
    }
}

/// Encoding depends on the instructions' models alone.
pub proof fn lemma_emit_models(s: Seq<Instruction>, is_64bit: bool)
    ensures
        match spec_emit(s, is_64bit) {
            Ok(b) => emit_models(models(s), is_64bit) == Ok::<Seq<u8>, crate::error::ErrorModel>(b),
            Err(e) => emit_models(models(s), is_64bit) == Err::<Seq<u8>, crate::error::ErrorModel>(e@),
        },
    decreases s.len(),
{
    if s.len() > 0 {
        lemma_emit_models(s.drop_last(), is_64bit);
        lemma_models_push(s.drop_last(), s.last());
        assert(s.drop_last().push(s.last()) =~= s);
        assert(models(s).drop_last() =~= models(s.drop_last()));
    } else {
        assert(models(s) =~= Seq::<InstructionModel>::empty());
    }
}

/// Encoding a sequence of models gives one word per interpreter word.
pub proof fn lemma_emit_models_length(ms: Seq<InstructionModel>, is_64bit: bool)
    ensures
        emit_models(ms, is_64bit) matches Ok(b) ==> b.len() == total_words(ms) * word_bytes(
            is_64bit,
        ),
    decreases ms.len(),
{
    if ms.len() > 0 {
        lemma_emit_models_length(ms.drop_last(), is_64bit);
        lemma_args_bytes(ms.last().args);
        let n = total_words(ms.drop_last());
        let a = ms.last().args.len();
        assert(n * word_bytes(is_64bit) + (1 + a) * word_bytes(is_64bit) == (n + 1 + a)
            * word_bytes(is_64bit)) by (nonlinear_arith);
    }
}

} // verus!
