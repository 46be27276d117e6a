use vstd::prelude::*;

use crate::error::UfoError;
use crate::flags::PassFlags;

verus! {

pub const OP_REWIND: u16 = 255;
pub const OP_NEXT_OFFSET: u16 = 254;
pub const OP_DUMP: u16 = 253;
pub const OP_DRIFT: u16 = 1;
pub const OP_KICK: u16 = 2;
pub const OP_TEAPOT: u16 = 3;
pub const OP_QUADRUPOLE: u16 = 4;
pub const OP_SBEND: u16 = 5;
pub const OP_EDGE: u16 = 6;
pub const OP_WIRE: u16 = 9;
pub const OP_CAVITY: u16 = 10;
pub const OP_TRAN_LINEAR: u16 = 11;
pub const OP_SET_APERTURE: u16 = 12;

/// Bit of a linear transfer marking an instruction that does not count as a passed element.
pub const FLAG_NO_PASS: u8 = 0x40;

/// The most arguments, and the largest auxiliary count, that a 32-bit header can hold.
pub const MAX_ARGS_32: usize = 255;

/// The most arguments that a 64-bit header can hold.
pub const MAX_ARGS_64: usize = 65535;

/// One instruction argument, as the interpreter reads it: the IEEE-754 bit pattern of the
/// value in double precision and in single precision.
#[derive(Clone, Copy, Debug, PartialEq, Eq, Structural)]
pub struct ArgValue {
    pub bits64: u64,
    pub bits32: u32,
}

/// Header of an instruction in 32-bit bytecode.
#[derive(Clone, Copy, Debug, Default, PartialEq, Eq, Structural)]
pub struct Inst32 {
    pub op: u8,
    pub flags: u8,
    pub aux: u8,
    pub argc: u8,
}

/// Header of an instruction in 64-bit bytecode.
#[derive(Clone, Copy, Debug, Default, PartialEq, Eq, Structural)]
pub struct Inst64 {
    pub op: u16,
    pub flags: u16,
    pub aux: u16,
    pub argc: u16,
}

/// One interpreter instruction.
#[derive(Clone, Debug)]
pub struct Instruction {
    pub name: String,
    pub kind: String,
    pub op: u16,
    pub flags: PassFlags,
    pub aux: u16,
    pub args: Vec<ArgValue>,
}

/// The mathematical content of an [`Instruction`].
pub struct InstructionModel {
    pub name: Seq<char>,
    pub kind: Seq<char>,
    pub op: u16,
    pub flags: u8,
    pub aux: u16,
    pub args: Seq<ArgValue>,
}

impl View for Instruction {
    type V = InstructionModel;

    open spec fn view(&self) -> InstructionModel {
        InstructionModel {
            name: self.name@,
            kind: self.kind@,
            op: self.op,
            flags: self.flags.bits,
            aux: self.aux,
            args: self.args@,
        }
    }
}

/// The instruction with the given fields.
pub open spec fn model(
    name: Seq<char>,
    kind: Seq<char>,
    op: u16,
    flags: u8,
    aux: u16,
    args: Seq<ArgValue>,
) -> InstructionModel {
    InstructionModel { name, kind, op, flags, aux, args }
}

/// `bits` with `flag` added when `cond` holds.
pub open spec fn with_flag(bits: u8, flag: u8, cond: bool) -> u8 {
    if cond {
        bits | flag
    } else {
        bits
    }
}

/// `s` cut to at most `n` items, as `Vec::truncate` does.
pub open spec fn truncated<A>(s: Seq<A>, n: nat) -> Seq<A> {
    if s.len() > n {
        s.take(n as int)
    } else {
        s
    }
}

/// The rewind instruction that ends one turn.
pub open spec fn spec_rewind(name: Seq<char>) -> InstructionModel {
    model(name, "rewind"@, OP_REWIND, PassFlags::NO_APERTURE_CHECK, 0, seq![])
}

/// The instruction that sends the interpreter to the next chunk.
pub open spec fn spec_next_offset(name: Seq<char>) -> InstructionModel {
    model(name, "next_offset"@, OP_NEXT_OFFSET, PassFlags::NO_APERTURE_CHECK, 0, seq![])
}

/// The instruction that records the particles.
pub open spec fn spec_dump(name: Seq<char>) -> InstructionModel {
    model(name, "dump"@, OP_DUMP, PassFlags::NO_APERTURE_CHECK, 0, seq![])
}

/// The instruction that does nothing and is not counted as a passed element.
pub open spec fn spec_noop(name: Seq<char>) -> InstructionModel {
    model(
        name,
        "noop"@,
        OP_TRAN_LINEAR,
        PassFlags::NO_APERTURE_CHECK | FLAG_NO_PASS,
        0,
        seq![],
    )
}

/// The multipole kick built from the normal and skew coefficients.
pub open spec fn spec_kick(
    name: Seq<char>,
    knl: Seq<ArgValue>,
    ksl: Seq<ArgValue>,
    linear: bool,
    achromatic: bool,
) -> InstructionModel {
    let knl = if linear {
        truncated(knl, 2)
    } else {
        knl
    };
    let ksl = if linear {
        truncated(ksl, 2)
    } else {
        ksl
    };
    let flags = with_flag(
        with_flag(
            with_flag(PassFlags::NO_APERTURE_CHECK, PassFlags::LINEAR, linear),
            PassFlags::ACHROMATIC,
            achromatic,
        ),
        PassFlags::LINEAR,
        knl.len() <= 2 && ksl.len() <= 2,
    );
    model(name, "kick"@, OP_KICK, flags, knl.len() as u16, knl + ksl)
}

/// The number of interpreter words that `i` occupies: one header word and one per argument.
pub open spec fn spec_word_count(i: InstructionModel) -> nat {
    1 + i.args.len()
}

/// The little-endian bytes of a 16-bit word.
pub open spec fn le16(x: u16) -> Seq<u8> {
    seq![(x & 0xff) as u8, ((x >> 8) & 0xff) as u8]
}

/// The little-endian bytes of a 32-bit word.
pub open spec fn le32(x: u32) -> Seq<u8> {
    seq![(x & 0xff) as u8, ((x >> 8) & 0xff) as u8, ((x >> 16) & 0xff) as u8, ((x >> 24) & 0xff) as u8]
}

/// The little-endian bytes of a 64-bit word.
pub open spec fn le64(x: u64) -> Seq<u8> {
    seq![
        (x & 0xff) as u8,
        ((x >> 8) & 0xff) as u8,
        ((x >> 16) & 0xff) as u8,
        ((x >> 24) & 0xff) as u8,
        ((x >> 32) & 0xff) as u8,
        ((x >> 40) & 0xff) as u8,
        ((x >> 48) & 0xff) as u8,
        ((x >> 56) & 0xff) as u8,
    ]
}

/// The single-precision argument words of `args`, each in little-endian order.
pub open spec fn spec_args32(args: Seq<ArgValue>) -> Seq<u8>
    decreases args.len(),
{
    if args.len() == 0 {
        seq![]
    } else {
        spec_args32(args.drop_last()) + le32(args.last().bits32)
    }
}

/// The double-precision argument words of `args`, each in little-endian order.
pub open spec fn spec_args64(args: Seq<ArgValue>) -> Seq<u8>
    decreases args.len(),
{
    if args.len() == 0 {
        seq![]
    } else {
        spec_args64(args.drop_last()) + le64(args.last().bits64)
    }
}

/// What encoding `i` in 32-bit words gives: the header bytes `op`, `flags`, `aux`, `argc`
/// (`op` cut to its low byte), then each argument's single-precision word.
pub open spec fn spec_encode32(i: InstructionModel) -> Option<Seq<u8>> {
    if i.args.len() > MAX_ARGS_32 || i.aux > MAX_ARGS_32 {
        None
    } else {
        Some(seq![i.op as u8, i.flags, i.aux as u8, i.args.len() as u8] + spec_args32(i.args))
    }
}

/// What encoding `i` in 64-bit words gives: the header fields `op`, `flags`, `aux`, `argc`
/// as little-endian 16-bit words, then each argument's double-precision word.
pub open spec fn spec_encode64(i: InstructionModel) -> Option<Seq<u8>> {
    if i.args.len() > MAX_ARGS_64 {
        None
    } else {
        Some(
            le16(i.op) + le16(i.flags as u16) + le16(i.aux) + le16(i.args.len() as u16)
                + spec_args64(i.args),
        )
    }
}

/// Appends the little-endian bytes of `x`.
pub fn push_le16(out: &mut Vec<u8>, x: u16)
    ensures
        final(out)@ == old(out)@ + le16(x),
{
    out.push((x & 0xff) as u8);
    out.push(((x >> 8) & 0xff) as u8);
    assert(final(out)@ =~= old(out)@ + le16(x));
}

/// Appends the little-endian bytes of `x`.
pub fn push_le32(out: &mut Vec<u8>, x: u32)
    ensures
        final(out)@ == old(out)@ + le32(x),
{
    out.push((x & 0xff) as u8);
    out.push(((x >> 8) & 0xff) as u8);
    out.push(((x >> 16) & 0xff) as u8);
    out.push(((x >> 24) & 0xff) as u8);
    assert(final(out)@ =~= old(out)@ + le32(x));
}

/// Appends the little-endian bytes of `x`.
pub fn push_le64(out: &mut Vec<u8>, x: u64)
    ensures
        final(out)@ == old(out)@ + le64(x),
{
    out.push((x & 0xff) as u8);
    out.push(((x >> 8) & 0xff) as u8);
    out.push(((x >> 16) & 0xff) as u8);
    out.push(((x >> 24) & 0xff) as u8);
    out.push(((x >> 32) & 0xff) as u8);
    out.push(((x >> 40) & 0xff) as u8);
    out.push(((x >> 48) & 0xff) as u8);
    out.push(((x >> 56) & 0xff) as u8);
    assert(final(out)@ =~= old(out)@ + le64(x));
}

fn copy_args(args: &Vec<ArgValue>) -> (out: Vec<ArgValue>)
    ensures
        out@ == args@,
{
    let mut out: Vec<ArgValue> = Vec::new();
    let mut i: usize = 0;
    while i < args.len()
        invariant
            i <= args.len(),
            out@ == args@.take(i as int),
        decreases args.len() - i,
    {
        out.push(args[i]);
        i = i + 1;
        assert(out@ =~= args@.take(i as int));
    }
    assert(args@.take(i as int) =~= args@);
    out
}

fn append_args(dst: &mut Vec<ArgValue>, src: &Vec<ArgValue>)
    ensures
        final(dst)@ == old(dst)@ + src@,
{
    let mut i: usize = 0;
    while i < src.len()
        invariant
            i <= src.len(),
            dst@ == old(dst)@ + src@.take(i as int),
        decreases src.len() - i,
    {
        dst.push(src[i]);
        i = i + 1;
        assert(dst@ =~= old(dst)@ + src@.take(i as int));
    }
    assert(src@.take(i as int) =~= src@);
}

impl Instruction {
    /// An exact copy of `self`.
    pub fn duplicate(&self) -> (r: Instruction)
        ensures
            r@ == self@,
    {
        Instruction {
            name: self.name.clone(),
            kind: self.kind.clone(),
            op: self.op,
            flags: self.flags,
            aux: self.aux,
            args: copy_args(&self.args),
        }
    }

    /// The instruction with the given fields.
    pub fn new(
        name: &str,
        kind: &str,
        op: u16,
        flags: PassFlags,
        aux: u16,
        args: Vec<ArgValue>,
    ) -> (r: Instruction)
        ensures
            r@ == model(name@, kind@, op, flags.bits, aux, args@),
    {
        Instruction { name: name.to_string(), kind: kind.to_string(), op, flags, aux, args }
    }

    /// The instruction that ends a turn and starts the next one.
    pub fn rewind(name: &str) -> (r: Instruction)
        ensures
            r@ == spec_rewind(name@),
    {
        Instruction::new(
            name,
            "rewind",
            OP_REWIND,
            PassFlags::from_bits_retain(PassFlags::NO_APERTURE_CHECK),
            0,
            Vec::new(),
        )
    }

    /// The instruction that moves the interpreter to the next chunk of bytecode.
    pub fn next_offset(name: &str) -> (r: Instruction)
        ensures
            r@ == spec_next_offset(name@),
    {
        Instruction::new(
            name,
            "next_offset",
            OP_NEXT_OFFSET,
            PassFlags::from_bits_retain(PassFlags::NO_APERTURE_CHECK),
            0,
            Vec::new(),
        )
    }

    /// The instruction that records the particle coordinates.
    pub fn dump(name: &str) -> (r: Instruction)
        ensures
            r@ == spec_dump(name@),
    {
        Instruction::new(
            name,
            "dump",
            OP_DUMP,
            PassFlags::from_bits_retain(PassFlags::NO_APERTURE_CHECK),
            0,
            Vec::new(),
        )
    }

    /// A drift of the given length; `exact` selects the exact drift formula.
    pub fn drift(name: &str, length: ArgValue, exact: bool) -> (r: Instruction)
        ensures
            r@ == model(
                name@,
                "drift"@,
                OP_DRIFT,
                with_flag(0, PassFlags::EXACT, exact),
                0,
                seq![length],
            ),
    {
        let mut flags = PassFlags::empty();
        if exact {
            flags.insert(PassFlags::EXACT);
        }
        let mut args: Vec<ArgValue> = Vec::new();
        args.push(length);
        let r = Instruction::new(name, "drift", OP_DRIFT, flags, 0, args);
        assert(r@.args =~= seq![length]);
        r
    }

    /// A thin multipole kick with normal coefficients `knl` and skew coefficients `ksl`.
    ///
    /// With `linear` only the first two of each are kept. The instruction is marked linear
    /// whenever neither list has more than two entries; `aux` holds the number of normal
    /// coefficients (its low 16 bits).
    pub fn kick(
        name: &str,
        knl: Vec<ArgValue>,
        ksl: Vec<ArgValue>,
        linear: bool,
        achromatic: bool,
    ) -> (r: Instruction)
        ensures
            r@ == spec_kick(name@, knl@, ksl@, linear, achromatic),
    {
        let ghost knl0 = knl@;
        let ghost ksl0 = ksl@;
        let mut knl = knl;
        let mut ksl = ksl;
        let mut flags = PassFlags::from_bits_retain(PassFlags::NO_APERTURE_CHECK);
        if linear {
            flags.insert(PassFlags::LINEAR);
            knl.truncate(2);
            ksl.truncate(2);
        }
        if achromatic {
            flags.insert(PassFlags::ACHROMATIC);
        }
        if knl.len() <= 2 && ksl.len() <= 2 {
            flags.insert(PassFlags::LINEAR);
        }
        let ghost knl_kept = knl@;
        assert(knl_kept =~= (if linear { truncated(knl0, 2) } else { knl0 }));
        assert(ksl@ =~= (if linear { truncated(ksl0, 2) } else { ksl0 }));
        #[verifier::truncate]
        let aux = knl.len() as u16;
        append_args(&mut knl, &ksl);
        Instruction::new(name, "kick", OP_KICK, flags, aux, knl)
    }

    /// A thick-element integrator step: drifts of length `inner` and `outer`, a weak-focusing
    /// coefficient, the slice count, then the normal and skew kick coefficients.
    pub fn teapot(
        name: &str,
        inner: ArgValue,
        outer: ArgValue,
        weak_coeff: ArgValue,
        slices: ArgValue,
        knl: Vec<ArgValue>,
        ksl: Vec<ArgValue>,
        flags: PassFlags,
    ) -> (r: Instruction)
        ensures
            r@ == model(
                name@,
                "teapot"@,
                OP_TEAPOT,
                flags.bits,
                knl.len() as u16,
                seq![inner, outer, weak_coeff, slices] + knl@ + ksl@,
            ),
    {
        let aux = knl.len() as u16;
        let mut args: Vec<ArgValue> = Vec::new();
        args.push(inner);
        args.push(outer);
        args.push(weak_coeff);
        args.push(slices);
        append_args(&mut args, &knl);
        append_args(&mut args, &ksl);
        let r = Instruction::new(name, "teapot", OP_TEAPOT, flags, aux, args);
        assert(r@.args =~= seq![inner, outer, weak_coeff, slices] + knl@ + ksl@);
        r
    }

    /// A quadrupole of strength `k1` and the given length.
    pub fn quadrupole(name: &str, length: ArgValue, k1: ArgValue, achromatic: bool) -> (r:
        Instruction)
        ensures
            r@ == model(
                name@,
                "quadrupole"@,
                OP_QUADRUPOLE,
                with_flag(0, PassFlags::ACHROMATIC, achromatic),
                0,
                seq![k1, length],
            ),
    {
        let mut flags = PassFlags::empty();
        if achromatic {
            flags.insert(PassFlags::ACHROMATIC);
        }
        let mut args: Vec<ArgValue> = Vec::new();
        args.push(k1);
        args.push(length);
        let r = Instruction::new(name, "quadrupole", OP_QUADRUPOLE, flags, 0, args);
        assert(r@.args =~= seq![k1, length]);
        r
    }

    /// A thin wire at `(x, y)` of strength `k`.
    pub fn wire(name: &str, x: ArgValue, y: ArgValue, k: ArgValue) -> (r: Instruction)
        ensures
            r@ == model(
                name@,
                "wire"@,
                OP_WIRE,
                PassFlags::NO_APERTURE_CHECK,
                0,
                seq![k, x, y],
            ),
    {
        let mut args: Vec<ArgValue> = Vec::new();
        args.push(k);
        args.push(x);
        args.push(y);
        let r = Instruction::new(
            name,
            "wire",
            OP_WIRE,
            PassFlags::from_bits_retain(PassFlags::NO_APERTURE_CHECK),
            0,
            args,
        );
        assert(r@.args =~= seq![k, x, y]);
        r
    }

    /// An RF cavity with the given field, angular frequency and phase lag.
    pub fn cavity(name: &str, field: ArgValue, omega: ArgValue, lag: ArgValue) -> (r:
        Instruction)
        ensures
            r@ == model(name@, "cavity"@, OP_CAVITY, 0, 0, seq![field, omega, lag]),
    {
        let mut args: Vec<ArgValue> = Vec::new();
        args.push(field);
        args.push(omega);
        args.push(lag);
        let r = Instruction::new(name, "cavity", OP_CAVITY, PassFlags::empty(), 0, args);
        assert(r@.args =~= seq![field, omega, lag]);
        r
    }

    /// An instruction that does nothing and is not counted as a passed element.
    pub fn noop(name: &str) -> (r: Instruction)
        ensures
            r@ == spec_noop(name@),
    {
        Instruction::new(
            name,
            "noop",
            OP_TRAN_LINEAR,
            PassFlags::from_bits_retain(PassFlags::NO_APERTURE_CHECK | FLAG_NO_PASS),
            0,
            Vec::new(),
        )
    }

    /// The number of interpreter words the instruction occupies.
    pub fn encoded_word_count(&self) -> (n: usize)
        requires
            spec_word_count(self@) <= usize::MAX,
        ensures
            n == spec_word_count(self@),
    {
        1 + self.args.len()
    }

    /// The instruction in 32-bit bytecode.
    ///
    /// Fails when it has more arguments, or a larger `aux`, than a byte can count; the error
    /// then reports that count.
    pub fn encode32(&self) -> (r: Result<Vec<u8>, UfoError>)
        ensures
            match r {
                Ok(bytes) => spec_encode32(self@) == Some(bytes@),
                Err(e) => spec_encode32(self@) is None && e == (if self.args.len() > MAX_ARGS_32 {
                    UfoError::TooManyInstructionArgs {
                        name: self.name,
                        count: self.args.len(),
                        max: MAX_ARGS_32,
                    }
                } else {
                    UfoError::TooManyInstructionArgs {
                        name: self.name,
                        count: self.aux as usize,
                        max: MAX_ARGS_32,
                    }
                }),
            },
    {
        if self.args.len() > MAX_ARGS_32 {
            return Err(
                UfoError::TooManyInstructionArgs {
                    name: self.name.clone(),
                    count: self.args.len(),
                    max: MAX_ARGS_32,
                },
            );
        }
        if self.aux > MAX_ARGS_32 as u16 {
            return Err(
                UfoError::TooManyInstructionArgs {
                    name: self.name.clone(),
                    count: self.aux as usize,
                    max: MAX_ARGS_32,
                },
            );
        }
        let header = Inst32 {
            op: self.op as u8,
            flags: self.flags.bits(),
            aux: self.aux as u8,
            argc: self.args.len() as u8,
        };
        let mut bytes: Vec<u8> = Vec::new();
        bytes.push(header.op);
        bytes.push(header.flags);
        bytes.push(header.aux);
        bytes.push(header.argc);
        let ghost head = bytes@;
        let mut k: usize = 0;
        while k < self.args.len()
            invariant
                k <= self.args.len(),
                bytes@ == head + spec_args32(self.args@.take(k as int)),
            decreases self.args.len() - k,
        {
            push_le32(&mut bytes, self.args[k].bits32);
            proof {
                let t = self.args@.take(k + 1);
                assert(t.drop_last() =~= self.args@.take(k as int));
            }
            k = k + 1;
        }
        assert(self.args@.take(k as int) =~= self.args@);
        assert(head =~= seq![self.op as u8, self.flags.bits, self.aux as u8, self.args.len() as u8]);
        Ok(bytes)
    }

    /// The instruction in 64-bit bytecode.
    ///
    /// Fails when it has more arguments than a 16-bit header field can count.
    pub fn encode64(&self) -> (r: Result<Vec<u8>, UfoError>)
        ensures
            match r {
                Ok(bytes) => spec_encode64(self@) == Some(bytes@),
                Err(e) => spec_encode64(self@) is None && e == UfoError::TooManyInstructionArgs {
                    name: self.name,
                    count: self.args.len(),
                    max: MAX_ARGS_64,
                },
            },
    {
        if self.args.len() > MAX_ARGS_64 {
            return Err(
                UfoError::TooManyInstructionArgs {
                    name: self.name.clone(),
                    count: self.args.len(),
                    max: MAX_ARGS_64,
                },
            );
        }
        let header = Inst64 {
            op: self.op,
            flags: self.flags.bits() as u16,
            aux: self.aux,
            argc: self.args.len() as u16,
        };
        let mut bytes: Vec<u8> = Vec::new();
        push_le16(&mut bytes, header.op);
        push_le16(&mut bytes, header.flags);
        push_le16(&mut bytes, header.aux);
        push_le16(&mut bytes, header.argc);
        let ghost head = bytes@;
        let mut k: usize = 0;
        while k < self.args.len()
            invariant
                k <= self.args.len(),
                bytes@ == head + spec_args64(self.args@.take(k as int)),
            decreases self.args.len() - k,
        {
            push_le64(&mut bytes, self.args[k].bits64);
            proof {
                let t = self.args@.take(k + 1);
                assert(t.drop_last() =~= self.args@.take(k as int));
            }
            k = k + 1;
        }
        assert(self.args@.take(k as int) =~= self.args@);
        Ok(bytes)
    }
}

} // verus!

verus! {

/// The number that `n` little-endian bytes of `b`, from position `at` on, stand for.
pub open spec fn read_le(b: Seq<u8>, at: int, n: nat) -> nat
    decreases n,
{
    if n == 0 {
        0
    } else {
        b[at] as nat + 256 * read_le(b, at + 1, (n - 1) as nat)
    }
}

proof fn lemma_read_le_same(b: Seq<u8>, at: int, c: Seq<u8>, at2: int, n: nat)
    requires
        0 <= at,
        at + n <= b.len(),
        0 <= at2,
        at2 + n <= c.len(),
        b.subrange(at, at + n) == c.subrange(at2, at2 + n),
    ensures
        read_le(b, at, n) == read_le(c, at2, n),
    decreases n,
{
    if n > 0 {
        assert(b[at] == b.subrange(at, at + n)[0]);
        assert(c[at2] == c.subrange(at2, at2 + n)[0]);
        assert(b.subrange(at + 1, at + n) =~= b.subrange(at, at + n).subrange(1, n as int));
        assert(c.subrange(at2 + 1, at2 + n) =~= c.subrange(at2, at2 + n).subrange(1, n as int));
        lemma_read_le_same(b, at + 1, c, at2 + 1, (n - 1) as nat);
    }
}

proof fn lemma_le16_reads_back(x: u16)
    ensures
        read_le(le16(x), 0, 2) == x,
{
    let s = le16(x);
    reveal_with_fuel(read_le, 3);
    let b0 = (x & 0xff) as u8;
    let b1 = ((x >> 8) & 0xff) as u8;
    assert(b0 + 256 * b1 == x) by (bit_vector)
        requires
            b0 == (x & 0xff) as u8,
            b1 == ((x >> 8) & 0xff) as u8,
    ;
    assert(s[0] == b0 && s[1] == b1);
}

proof fn lemma_le32_reads_back(x: u32)
    ensures
        read_le(le32(x), 0, 4) == x,
{
    let s = le32(x);
    reveal_with_fuel(read_le, 5);
    let b0 = (x & 0xff) as u8;
    let b1 = ((x >> 8) & 0xff) as u8;
    let b2 = ((x >> 16) & 0xff) as u8;
    let b3 = ((x >> 24) & 0xff) as u8;
    assert(b0 + 256 * (b1 + 256 * (b2 + 256 * b3)) == x) by (bit_vector)
        requires
            b0 == (x & 0xff) as u8,
            b1 == ((x >> 8) & 0xff) as u8,
            b2 == ((x >> 16) & 0xff) as u8,
            b3 == ((x >> 24) & 0xff) as u8,
    ;
    assert(s[0] == b0 && s[1] == b1 && s[2] == b2 && s[3] == b3);
}

proof fn lemma_le64_reads_back(x: u64)
    ensures
        read_le(le64(x), 0, 8) == x,
{
    let s = le64(x);
    reveal_with_fuel(read_le, 9);
    let b0 = (x & 0xff) as u8;
    let b1 = ((x >> 8) & 0xff) as u8;
    let b2 = ((x >> 16) & 0xff) as u8;
    let b3 = ((x >> 24) & 0xff) as u8;
    let b4 = ((x >> 32) & 0xff) as u8;
    let b5 = ((x >> 40) & 0xff) as u8;
    let b6 = ((x >> 48) & 0xff) as u8;
    let b7 = ((x >> 56) & 0xff) as u8;
    assert(b0 + 256 * b1 + 65536 * b2 + 16777216 * b3 + 4294967296 * b4 + 1099511627776 * b5
        + 281474976710656 * b6 + 72057594037927936 * b7 == x) by (bit_vector)
        requires
            b0 == (x & 0xff) as u8,
            b1 == ((x >> 8) & 0xff) as u8,
            b2 == ((x >> 16) & 0xff) as u8,
            b3 == ((x >> 24) & 0xff) as u8,
            b4 == ((x >> 32) & 0xff) as u8,
            b5 == ((x >> 40) & 0xff) as u8,
            b6 == ((x >> 48) & 0xff) as u8,
            b7 == ((x >> 56) & 0xff) as u8,
    ;
    assert(s[0] == b0 && s[1] == b1 && s[2] == b2 && s[3] == b3);
    assert(s[4] == b4 && s[5] == b5 && s[6] == b6 && s[7] == b7);
}

proof fn lemma_args32_words(args: Seq<ArgValue>)
    ensures
        spec_args32(args).len() == 4 * args.len(),
        forall|k: int| 0 <= k < args.len() ==> read_le(spec_args32(args), 4 * k, 4)
            == (#[trigger] args[k]).bits32,
    decreases args.len(),
{
    if args.len() > 0 {
        let front = args.drop_last();
        lemma_args32_words(front);
        let s = spec_args32(args);
        let w = le32(args.last().bits32);
        assert(s == spec_args32(front) + w);
        assert forall|k: int| 0 <= k < args.len() implies read_le(s, 4 * k, 4)
            == (#[trigger] args[k]).bits32 by {
            if k < args.len() - 1 {
                assert(front[k] == args[k]);
                assert(s.subrange(4 * k, 4 * k + 4) =~= spec_args32(front).subrange(4 * k, 4 * k + 4));
                lemma_read_le_same(s, 4 * k, spec_args32(front), 4 * k, 4);
            } else {
                lemma_le32_reads_back(args.last().bits32);
                assert(s.subrange(4 * k, 4 * k + 4) =~= w.subrange(0, 4));
                lemma_read_le_same(s, 4 * k, w, 0, 4);
            }
        }
    }
}

proof fn lemma_args64_words(args: Seq<ArgValue>)
    ensures
        spec_args64(args).len() == 8 * args.len(),
        forall|k: int| 0 <= k < args.len() ==> read_le(spec_args64(args), 8 * k, 8)
            == (#[trigger] args[k]).bits64,
    decreases args.len(),
{
    if args.len() > 0 {
        let front = args.drop_last();
        lemma_args64_words(front);
        let s = spec_args64(args);
        let w = le64(args.last().bits64);
        assert(s == spec_args64(front) + w);
        assert forall|k: int| 0 <= k < args.len() implies read_le(s, 8 * k, 8)
            == (#[trigger] args[k]).bits64 by {
            if k < args.len() - 1 {
                assert(front[k] == args[k]);
                assert(s.subrange(8 * k, 8 * k + 8) =~= spec_args64(front).subrange(8 * k, 8 * k + 8));
                lemma_read_le_same(s, 8 * k, spec_args64(front), 8 * k, 8);
            } else {
                lemma_le64_reads_back(args.last().bits64);
                assert(s.subrange(8 * k, 8 * k + 8) =~= w.subrange(0, 8));
                lemma_read_le_same(s, 8 * k, w, 0, 8);
            }
        }
    }
}

/// The 32-bit encoding of an instruction succeeds exactly when its argument count and its
/// auxiliary count fit a byte. Its header bytes are then the low byte of the opcode, the
/// flags, the auxiliary count (the number of normal coefficients of a kick) and the
/// argument count, and after them the `k`-th little-endian word holds the `k`-th argument's
/// single-precision bits.
pub proof fn lemma_encode32_layout(i: InstructionModel)
    ensures
        spec_encode32(i) is Some <==> (i.args.len() <= 255 && i.aux <= 255),
        spec_encode32(i) matches Some(b) ==> {
            &&& b.len() == 4 + 4 * i.args.len()
            &&& b[0] as int == i.op % 256
            &&& b[1] == i.flags
            &&& b[2] as int == i.aux
            &&& b[3] as int == i.args.len()
            &&& forall|k: int| 0 <= k < i.args.len() ==> read_le(b, 4 + 4 * k, 4)
                == (#[trigger] i.args[k]).bits32
        },
{
    if i.args.len() <= 255 && i.aux <= 255 {
        let b = spec_encode32(i)->0;
        let head = seq![i.op as u8, i.flags, i.aux as u8, i.args.len() as u8];
        let a = spec_args32(i.args);
        assert(b == head + a);
        lemma_args32_words(i.args);
        let op = i.op;
        assert((op as u8) as int == op % 256) by (bit_vector);
        assert forall|k: int| 0 <= k < i.args.len() implies read_le(b, 4 + 4 * k, 4)
            == (#[trigger] i.args[k]).bits32 by {
            assert(b.subrange(4 + 4 * k, 4 + 4 * k + 4) =~= a.subrange(4 * k, 4 * k + 4));
            lemma_read_le_same(b, 4 + 4 * k, a, 4 * k, 4);
        }
    }
}

/// The 64-bit encoding of an instruction succeeds exactly when its argument count fits a
/// 16-bit word. Its header is then the opcode, the flags, the auxiliary count and the
/// argument count, each as a little-endian 16-bit word, and after them the `k`-th
/// little-endian 64-bit word holds the `k`-th argument's double-precision bits.
pub proof fn lemma_encode64_layout(i: InstructionModel)
    ensures
        spec_encode64(i) is Some <==> i.args.len() <= 65535,
        spec_encode64(i) matches Some(b) ==> {
            &&& b.len() == 8 + 8 * i.args.len()
            &&& read_le(b, 0, 2) == i.op
            &&& read_le(b, 2, 2) == i.flags
            &&& read_le(b, 4, 2) == i.aux
            &&& read_le(b, 6, 2) == i.args.len()
            &&& forall|k: int| 0 <= k < i.args.len() ==> read_le(b, 8 + 8 * k, 8)
                == (#[trigger] i.args[k]).bits64
        },
{
    if i.args.len() <= 65535 {
        let b = spec_encode64(i)->0;
        let h0 = le16(i.op);
        let h1 = le16(i.flags as u16);
        let h2 = le16(i.aux);
        let h3 = le16(i.args.len() as u16);
        let a = spec_args64(i.args);
        assert(b == h0 + h1 + h2 + h3 + a);
        lemma_args64_words(i.args);
        lemma_le16_reads_back(i.op);
        lemma_le16_reads_back(i.flags as u16);
        lemma_le16_reads_back(i.aux);
        lemma_le16_reads_back(i.args.len() as u16);
        assert(b.subrange(0, 2) =~= h0.subrange(0, 2));
        assert(b.subrange(2, 4) =~= h1.subrange(0, 2));
        assert(b.subrange(4, 6) =~= h2.subrange(0, 2));
        assert(b.subrange(6, 8) =~= h3.subrange(0, 2));
        lemma_read_le_same(b, 0, h0, 0, 2);
        lemma_read_le_same(b, 2, h1, 0, 2);
        lemma_read_le_same(b, 4, h2, 0, 2);
        lemma_read_le_same(b, 6, h3, 0, 2);
        assert forall|k: int| 0 <= k < i.args.len() implies read_le(b, 8 + 8 * k, 8)
            == (#[trigger] i.args[k]).bits64 by {
            assert(b.subrange(8 + 8 * k, 8 + 8 * k + 8) =~= a.subrange(8 * k, 8 * k + 8));
            lemma_read_le_same(b, 8 + 8 * k, a, 8 * k, 8);
        }
    }
}

/// A kick always skips the aperture check; it is achromatic exactly when asked to be; it
/// is linear when asked to be or when it has at most two normal and two skew coefficients;
/// it sets no other flag. A linear kick keeps only the first two normal and the first two
/// skew coefficients; its auxiliary count is the number of normal coefficients it keeps,
/// and its arguments are those normal coefficients followed by the skew ones.
pub proof fn lemma_kick_layout(
    name: Seq<char>,
    knl: Seq<ArgValue>,
    ksl: Seq<ArgValue>,
    linear: bool,
    achromatic: bool,
)
    ensures
        ({
            let r = spec_kick(name, knl, ksl, linear, achromatic);
            let nk = if linear && knl.len() > 2 { 2 } else { knl.len() as int };
            let sk = if linear && ksl.len() > 2 { 2 } else { ksl.len() as int };
            &&& r.name == name
            &&& r.op == OP_KICK
            &&& ((r.flags & PassFlags::ACHROMATIC) != 0) == achromatic
            &&& (r.flags & PassFlags::NO_APERTURE_CHECK) != 0
            &&& ((r.flags & PassFlags::LINEAR) != 0) == (linear || (knl.len() <= 2 && ksl.len()
                <= 2))
            &&& r.flags & 0x3eu8 == 0
            &&& r.args == knl.take(nk) + ksl.take(sk)
            &&& nk < 65536 ==> r.aux == nk
        }),
{
    let kn = if linear { truncated(knl, 2) } else { knl };
    let ks = if linear { truncated(ksl, 2) } else { ksl };
    let lin2 = kn.len() <= 2 && ks.len() <= 2;
    assert(lin2 == (linear || (knl.len() <= 2 && ksl.len() <= 2)));
    let f1 = with_flag(PassFlags::NO_APERTURE_CHECK, PassFlags::LINEAR, linear);
    let f2 = with_flag(f1, PassFlags::ACHROMATIC, achromatic);
    let f3 = with_flag(f2, PassFlags::LINEAR, lin2);
    let r = spec_kick(name, knl, ksl, linear, achromatic);
    assert(r.flags == f3);
    assert(f1 == (if linear { 0x80u8 | 1u8 } else { 0x80u8 }));
    assert(f2 == (if achromatic { f1 | 0x40u8 } else { f1 }));
    assert(f3 == (if lin2 { f2 | 1u8 } else { f2 }));
    assert(((f3 & 0x40u8) != 0) == achromatic && (f3 & 0x80u8) != 0 && ((f3 & 1u8) != 0) == (
    linear || lin2) && f3 & 0x3eu8 == 0) by (bit_vector)
        requires
            f1 == (if linear { 0x80u8 | 1u8 } else { 0x80u8 }),
            f2 == (if achromatic { f1 | 0x40u8 } else { f1 }),
            f3 == (if lin2 { f2 | 1u8 } else { f2 }),
    ;
    let nk = if linear && knl.len() > 2 { 2 } else { knl.len() as int };
    let sk = if linear && ksl.len() > 2 { 2 } else { ksl.len() as int };
    assert(kn =~= knl.take(nk));
    assert(ks =~= ksl.take(sk));
}

} // verus!
