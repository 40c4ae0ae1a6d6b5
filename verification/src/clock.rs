//! Clock readings: taken from the host's clock and written to the tape while
//! recording, read back from the tape while replaying.
use vstd::prelude::*;
use crate::kind::Kind;
use crate::tape::{ReplayError, Tape, record_step, replay_step};

verus! {

/// What a reading of `kind` does to the tape: recording appends `fresh` and
/// hands it back; replaying hands out the next recorded value of that kind.
pub open spec fn observed(before: Tape, after: Tape, kind: Kind, fresh: u64, r: u64) -> bool {
    &&& before is Record ==> {
        &&& r == fresh
        &&& after is Record
        &&& after.entries() == record_step(before.entries(), kind, fresh)
    }
    &&& before is Replay ==> {
        &&& replay_step(before.entries(), before.pos(), kind) == Ok::<u64, ReplayError>(r)
        &&& after is Replay
        &&& after.entries() == before.entries()
        &&& after.pos() == before.pos() + 1
    }
}

fn observe(tape: &mut Tape, kind: Kind, fresh: u64) -> (r: u64)
    requires
        old(tape).accepts(kind),
    ensures
        observed(*old(tape), *final(tape), kind, fresh, r),
{
    if tape.is_record() {
        tape.push(kind, fresh)
    } else {
        tape.next(kind)
    }
}

/// The wall clock, in nanoseconds since 1970. Recording: `since_epoch_nanos`,
/// the host's reading, cut to its low 64 bits, is written to the tape.
/// Replaying: the next recorded value, which must be a wall-clock reading
/// (`Tape::check_next` tells).
pub fn wall_now(tape: &mut Tape, since_epoch_nanos: u128) -> (r: u64)
    requires
        old(tape).accepts(Kind::Wall),
    ensures
        observed(*old(tape), *final(tape), Kind::Wall, since_epoch_nanos as u64, r),
{
    observe(tape, Kind::Wall, since_epoch_nanos as u64)
}

/// The monotonic clock, in nanoseconds since the run started. Recording:
/// `elapsed_nanos`, the host's reading, cut to its low 64 bits, is written to
/// the tape. Replaying: the next recorded value, which must be a monotonic
/// reading (`Tape::check_next` tells).
pub fn monotonic_now(tape: &mut Tape, elapsed_nanos: u128) -> (r: u64)
    requires
        old(tape).accepts(Kind::Monotonic),
    ensures
        observed(*old(tape), *final(tape), Kind::Monotonic, elapsed_nanos as u64, r),
{
    observe(tape, Kind::Monotonic, elapsed_nanos as u64)
}

} // verus!
