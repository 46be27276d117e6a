//! Stable aperture: the turn on which each particle is lost.
use vstd::prelude::*;

use crate::flags::PassFlags;
use crate::opencl::TrackRunOptions;

verus! {

/// How a stable aperture scan is run.
#[derive(Clone, Debug)]
pub struct StableApertureOptions {
    pub flags: PassFlags,
    pub turns: u32,
    pub is_64bit: bool,
    pub run_options: TrackRunOptions,
}

impl Default for StableApertureOptions {
    /// No pass flags, a thousand turns, 32-bit words, default run options.
    fn default() -> (o: Self)
        ensures
            o.flags.bits == 0,
            o.turns == 1000,
            !o.is_64bit,
            o.run_options.turns == 1,
            o.run_options.local_instruction_words is None,
            o.run_options.build_options@ == "-cl-fast-relaxed-math -cl-mad-enable -DUFO_QUIET"@,
    {
        StableApertureOptions {
            flags: PassFlags::empty(),
            turns: 1000,
            is_64bit: false,
            run_options: TrackRunOptions::default(),
        }
    }
}

/// For each particle, the first turn on which it was lost, or the number of turns when it
/// survived them all.
#[derive(Clone, Debug, PartialEq)]
pub struct StableAperture {
    pub lost_turns: Vec<u32>,
}

/// The number of turns a scan runs: at least one.
pub fn scan_turns(turns: u32) -> (t: u32)
    ensures
        t == if turns == 0 {
            1
        } else {
            turns
        },
{
    if turns == 0 {
        1
    } else {
        turns
    }
}

/// Whether `t` is the first turn on which particle `p` is marked lost in `lost`, or `t` is
/// the number of turns and it never is.
pub open spec fn first_lost_turn(lost: Seq<Seq<bool>>, p: int, t: int) -> bool {
    &&& 0 <= t <= lost.len()
    &&& forall|u: int| 0 <= u < t ==> !#[trigger] lost[u][p]
    &&& t < lost.len() ==> lost[t][p]
}

/// The stable aperture from the losses seen on each turn: `lost[turn][particle]` tells
/// whether the particle's sample at the end of that turn is lost.
pub fn first_lost_turns(turns: u32, particle_count: usize, lost: &Vec<Vec<bool>>) -> (r: StableAperture)
    requires
        lost@.len() == turns,
        forall|t: int| 0 <= t < turns ==> (#[trigger] lost@[t])@.len() == particle_count,
    ensures
        r.lost_turns@.len() == particle_count,
        forall|p: int|
            0 <= p < particle_count ==> first_lost_turn(
                lost@.map_values(|row: Vec<bool>| row@),
                p,
                #[trigger] r.lost_turns@[p] as int,
            ),
{
    let ghost rows = lost@.map_values(|row: Vec<bool>| row@);
    let mut lost_turns: Vec<u32> = Vec::new();
    let mut p: usize = 0;
    while p < particle_count
        invariant
            p <= particle_count,
            lost_turns@.len() == p,
            forall|q: int| 0 <= q < p ==> #[trigger] lost_turns@[q] == turns,
        decreases particle_count - p,
    {
        lost_turns.push(turns);
        p = p + 1;
    }
    let mut turn: u32 = 0;
    while turn < turns
        invariant
            turn <= turns,
            lost@.len() == turns,
            rows == lost@.map_values(|row: Vec<bool>| row@),
            forall|t: int| 0 <= t < turns ==> (#[trigger] lost@[t])@.len() == particle_count,
            lost_turns@.len() == particle_count,
            forall|q: int|
                0 <= q < particle_count ==> {
                    let v = #[trigger] lost_turns@[q];
                    &&& (v == turns || v < turn)
                    &&& v < turns ==> rows[v as int][q]
                    &&& forall|u: int| 0 <= u < turn && u < v ==> !rows[u][q]
                },
        decreases turns - turn,
    {
        let mut particle: usize = 0;
        while particle < particle_count
            invariant
                turn < turns,
                particle <= particle_count,
                lost@.len() == turns,
                rows == lost@.map_values(|row: Vec<bool>| row@),
                forall|t: int| 0 <= t < turns ==> (#[trigger] lost@[t])@.len() == particle_count,
                lost_turns@.len() == particle_count,
                forall|q: int|
                    0 <= q < particle_count ==> {
                        let v = #[trigger] lost_turns@[q];
                        &&& (v == turns || v < turn || (q < particle && v == turn))
                        &&& v < turns ==> rows[v as int][q]
                        &&& forall|u: int| 0 <= u < turn && u < v ==> !rows[u][q]
                        &&& (q < particle && v == turns) ==> !rows[turn as int][q]
                    },
            decreases particle_count - particle,
        {
            assert(rows[turn as int] == lost@[turn as int]@);
            if lost_turns[particle] == turns && lost[turn as usize][particle] {
                lost_turns.set(particle, turn);
            }
            particle = particle + 1;
        }
        turn = turn + 1;
    }
    StableAperture { lost_turns }
}

} // verus!
