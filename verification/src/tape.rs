//! The tape: one shared ledger of host-call results, written in call order
//! while recording and read back in the same order while replaying.
use vstd::prelude::*;
use crate::kind::Kind;

verus! {

/// Why a replayed run stopped: it diverged from the recorded one.
#[derive(PartialEq, Eq, Structural, Debug, Clone, Copy)]
pub enum ReplayError {
    /// More requests than the tape holds: all `entries` of them were handed
    /// out, and request number `entries + 1` asked for `want`.
    Exhausted { entries: usize, want: Kind },
    /// Request number `request` asked for `want`, but the tape recorded `recorded` there.
    Mismatch { request: usize, recorded: Kind, want: Kind },
}

/// The ledger, in one of its two modes.
pub enum Tape {
    /// Recording: each value is appended.
    Record(Vec<(Kind, u64)>),
    /// Replaying: `entries[pos]` is the next value to hand out.
    Replay { entries: Vec<(Kind, u64)>, pos: usize },
}

/// What replaying hands out for one request for `want`, with `pos` values
/// already handed out of `entries`.
pub open spec fn replay_step(entries: Seq<(Kind, u64)>, pos: nat, want: Kind) -> Result<
    u64,
    ReplayError,
> {
    if pos >= entries.len() {
        Err(ReplayError::Exhausted { entries: entries.len() as usize, want })
    } else if entries[pos as int].0 != want {
        Err(ReplayError::Mismatch { request: (pos + 1) as usize, recorded: entries[pos as int].0, want })
    } else {
        Ok(entries[pos as int].1)
    }
}

/// What replaying hands out for the requests `wants`, one after another, and
/// the position it reaches; it stops at the first refused request.
pub open spec fn replay_run(entries: Seq<(Kind, u64)>, pos: nat, wants: Seq<Kind>) -> (
    Result<Seq<u64>, ReplayError>,
    nat,
)
    decreases wants.len(),
{
    if wants.len() == 0 {
        (Ok(Seq::empty()), pos)
    } else {
        let (before, p) = replay_run(entries, pos, wants.drop_last());
        match before {
            Err(e) => (Err(e), p),
            Ok(vs) => match replay_step(entries, p, wants.last()) {
                Ok(v) => (Ok(vs.push(v)), p + 1),
                Err(e) => (Err(e), p),
            },
        }
    }
}

/// The kinds of the entries, in order.
pub open spec fn kinds_of(entries: Seq<(Kind, u64)>) -> Seq<Kind> {
    entries.map_values(|e: (Kind, u64)| e.0)
}

/// The values of the entries, in order.
pub open spec fn values_of(entries: Seq<(Kind, u64)>) -> Seq<u64> {
    entries.map_values(|e: (Kind, u64)| e.1)
}

impl Tape {
    /// The entries, in either mode.
    pub open spec fn entries(&self) -> Seq<(Kind, u64)> {
        match self {
            Tape::Record(e) => e@,
            Tape::Replay { entries, .. } => entries@,
        }
    }

    /// How many entries replaying has handed out (0 while recording).
    pub open spec fn pos(&self) -> nat {
        match self {
            Tape::Record(_) => 0,
            Tape::Replay { pos, .. } => *pos as nat,
        }
    }

    /// The tape can serve a request for `want` now: it records, or it replays
    /// and the next recorded value is of that kind.
    pub open spec fn accepts(&self, want: Kind) -> bool {
        *self is Replay ==> replay_step(self.entries(), self.pos(), want) is Ok
    }

    /// The tape can serve `n` requests for `want` in a row.
    pub open spec fn accepts_run(&self, want: Kind, n: nat) -> bool {
        *self is Replay ==> replay_run(self.entries(), self.pos(), repeated(want, n)).0 is Ok
    }

    /// Whether the tape is recording.
    pub fn is_record(&self) -> (b: bool)
        ensures
            b == (self is Record),
    {
        match self {
            Tape::Record(_) => true,
            Tape::Replay { .. } => false,
        }
    }

    /// How many recorded values a replay has not handed out (0 while recording).
    pub fn remaining(&self) -> (n: usize)
        ensures
            n == if *self is Replay && self.pos() < self.entries().len() {
                self.entries().len() - self.pos()
            } else {
                0
            },
    {
        match self {
            Tape::Record(_) => 0,
            Tape::Replay { entries, pos } => if *pos < entries.len() {
                entries.len() - *pos
            } else {
                0
            },
        }
    }

    /// Recording: appends `(kind, value)` and hands `value` back.
    pub fn push(&mut self, kind: Kind, value: u64) -> (r: u64)
        requires
            *old(self) is Record,
        ensures
            r == value,
            *final(self) is Record,
            final(self).entries() == record_step(old(self).entries(), kind, value),
    {
        match self {
            Tape::Record(entries) => {
                entries.push((kind, value));
            },
            Tape::Replay { .. } => {},
        }
        value
    }

    /// Whether a replay may hand out a value for a request for `want` now;
    /// if not, how the run has diverged. A recording tape accepts every request.
    pub fn check_next(&self, want: Kind) -> (r: Result<(), ReplayError>)
        ensures
            *self is Record ==> r is Ok,
            *self is Replay ==> match replay_step(self.entries(), self.pos(), want) {
                Ok(_) => r is Ok,
                Err(e) => r == Err::<(), ReplayError>(e),
            },
    {
        match self {
            Tape::Record(_) => Ok(()),
            Tape::Replay { entries, pos } => {
                if *pos >= entries.len() {
                    Err(ReplayError::Exhausted { entries: entries.len(), want })
                } else if entries[*pos].0 != want {
                    Err(ReplayError::Mismatch { request: *pos + 1, recorded: entries[*pos].0, want })
                } else {
                    Ok(())
                }
            },
        }
    }

    /// Whether a replay may hand out values for `n` requests for `want` in a
    /// row; if not, how the run diverges. A recording tape accepts them all.
    #[verifier::loop_isolation(false)]
    pub fn check_run(&self, want: Kind, n: usize) -> (r: Result<(), ReplayError>)
        ensures
            *self is Record ==> r is Ok,
            *self is Replay ==> match replay_run(self.entries(), self.pos(), repeated(want, n as nat)).0 {
                Ok(_) => r is Ok,
                Err(e) => r == Err::<(), ReplayError>(e),
            },
    {
        match self {
            Tape::Record(_) => Ok(()),
            Tape::Replay { entries, pos } => {
                let ghost es = entries@;
                let ghost start = *pos as nat;
                let mut i: usize = 0;
                let mut p: usize = *pos;
                while i < n
                    invariant
                        i <= n,
                        es == entries@,
                        start == *pos as nat,
                        replay_run(es, start, repeated(want, i as nat)) == (
                            Ok::<Seq<u64>, ReplayError>(
                                replay_run(es, start, repeated(want, i as nat)).0->Ok_0,
                            ),
                            p as nat,
                        ),
                    decreases n - i,
                {
                    assert(repeated(want, (i + 1) as nat).drop_last() =~= repeated(want, i as nat));
                    assert(repeated(want, (i + 1) as nat).last() == want);
                    if p >= entries.len() || entries[p].0 != want {
                        let e = if p >= entries.len() {
                            ReplayError::Exhausted { entries: entries.len(), want }
                        } else {
                            ReplayError::Mismatch { request: p + 1, recorded: entries[p].0, want }
                        };
                        proof {
                            assert(replay_run(es, start, repeated(want, (i + 1) as nat)).0
                                == Err::<Seq<u64>, ReplayError>(e));
                            assert(repeated(want, n as nat).take((i + 1) as int) =~= repeated(
                                want,
                                (i + 1) as nat,
                            ));
                            lemma_replay_run_error_extends(es, start, repeated(want, n as nat), (i + 1) as nat);
                        }
                        return Err(e);
                    }
                    p = p + 1;
                    i = i + 1;
                }
                Ok(())
            },
        }
    }

    /// Replaying: hands out the next recorded value. The request must be one
    /// that `check_next` accepts: a recorded value of the same kind is left.
    pub fn next(&mut self, want: Kind) -> (r: u64)
        requires
            *old(self) is Replay,
            replay_step(old(self).entries(), old(self).pos(), want) is Ok,
        ensures
            replay_step(old(self).entries(), old(self).pos(), want) == Ok::<u64, ReplayError>(r),
            *final(self) is Replay,
            final(self).entries() == old(self).entries(),
            final(self).pos() == old(self).pos() + 1,
    {
        match self {
            Tape::Replay { entries, pos } => {
                assert(*pos < entries.len());
                let value = entries[*pos].1;
                *pos = *pos + 1;
                value
            },
            Tape::Record(_) => 0,
        }
    }
}

/// `n` requests for `want`.
pub open spec fn repeated(want: Kind, n: nat) -> Seq<Kind> {
    Seq::new(n, |i: int| want)
}

/// What recording one value does to the entries: it goes at the end.
pub open spec fn record_step(entries: Seq<(Kind, u64)>, kind: Kind, value: u64) -> Seq<(Kind, u64)> {
    entries.push((kind, value))
}

/// What recording the values `calls`, one after another, does to the entries.
pub open spec fn record_run(entries: Seq<(Kind, u64)>, calls: Seq<(Kind, u64)>) -> Seq<(Kind, u64)>
    decreases calls.len(),
{
    if calls.len() == 0 {
        entries
    } else {
        let e = calls.last();
        record_step(record_run(entries, calls.drop_last()), e.0, e.1)
    }
}

/// Recording a run, whatever kinds its requests are, leaves the tape holding
/// exactly its values in call order.
pub proof fn lemma_record_keeps_call_order(entries: Seq<(Kind, u64)>, calls: Seq<(Kind, u64)>)
    ensures
        record_run(entries, calls) == entries + calls,
    decreases calls.len(),
{
    if calls.len() > 0 {
        lemma_record_keeps_call_order(entries, calls.drop_last());
        assert(entries + calls.drop_last() + seq![calls.last()] =~= entries + calls);
    } else {
        assert(entries + calls =~= entries);
    }
}

/// Once a replay of the first `m` requests is refused, the whole replay is
/// refused the same way.
pub proof fn lemma_replay_run_error_extends(
    entries: Seq<(Kind, u64)>,
    pos: nat,
    wants: Seq<Kind>,
    m: nat,
)
    requires
        m <= wants.len(),
        replay_run(entries, pos, wants.take(m as int)).0 is Err,
    ensures
        replay_run(entries, pos, wants).0 == replay_run(entries, pos, wants.take(m as int)).0,
    decreases wants.len() - m,
{
    if m < wants.len() {
        assert(wants.take((m + 1) as int).drop_last() =~= wants.take(m as int));
        lemma_replay_run_error_extends(entries, pos, wants, m + 1);
    } else {
        assert(wants.take(m as int) =~= wants);
    }
}

/// Replaying `wants` from position `pos` succeeds exactly when the next
/// `wants.len()` entries were recorded for those kinds, in that order; it then
/// hands out their values and moves past them.
pub proof fn lemma_replay_run_characterized(entries: Seq<(Kind, u64)>, pos: nat, wants: Seq<Kind>)
    requires
        pos <= entries.len(),
    ensures
        (replay_run(entries, pos, wants).0 is Ok) <==> (pos + wants.len() <= entries.len() && forall|
            j: int,
        |
            0 <= j < wants.len() ==> entries[pos + j].0 == wants[j]),
        replay_run(entries, pos, wants).0 is Ok ==> replay_run(entries, pos, wants) == (
            Ok::<Seq<u64>, ReplayError>(
                values_of(entries.subrange(pos as int, (pos + wants.len()) as int)),
            ),
            pos + wants.len(),
        ),
        replay_run(entries, pos, wants).1 <= entries.len(),
    decreases wants.len(),
{
    if wants.len() > 0 {
        let w = wants.drop_last();
        lemma_replay_run_characterized(entries, pos, w);
        let (before, p) = replay_run(entries, pos, w);
        assert forall|j: int| 0 <= j < w.len() implies wants[j] == w[j] by {}
        if before is Ok {
            assert(p == pos + w.len());
            let vs = before->Ok_0;
            assert(vs == values_of(entries.subrange(pos as int, (pos + w.len()) as int)));
            match replay_step(entries, p, wants.last()) {
                Ok(v) => {
                    assert(v == entries[p as int].1);
                    assert(replay_run(entries, pos, wants) == (
                        Ok::<Seq<u64>, ReplayError>(vs.push(v)),
                        p + 1,
                    ));
                    assert(values_of(entries.subrange(pos as int, (pos + wants.len()) as int))
                        =~= vs.push(v));
                    assert(entries[pos + (wants.len() - 1)].0 == wants.last());
                },
                Err(e) => {
                    assert(replay_run(entries, pos, wants).0 == Err::<Seq<u64>, ReplayError>(e));
                    if pos + wants.len() <= entries.len() {
                        assert(entries[pos + (wants.len() - 1)].0 != wants[wants.len() - 1]);
                    }
                },
            }
        } else {
            assert(replay_run(entries, pos, wants).0 is Err);
            if pos + wants.len() <= entries.len() {
                let j = choose|j: int| 0 <= j < w.len() && entries[pos + j].0 != w[j];
                assert(wants[j] == w[j]);
            }
        }
    } else {
        assert(entries.subrange(pos as int, pos as int) =~= Seq::<(Kind, u64)>::empty());
        assert(values_of(Seq::<(Kind, u64)>::empty()) =~= Seq::<u64>::empty());
    }
}

/// Replaying a tape with the requests that recorded it hands out exactly the
/// recorded values, in order, and uses the tape up.
pub proof fn lemma_replay_reproduces_record(entries: Seq<(Kind, u64)>)
    ensures
        replay_run(entries, 0, kinds_of(entries)) == (
            Ok::<Seq<u64>, ReplayError>(values_of(entries)),
            entries.len(),
        ),
{
    lemma_replay_run_characterized(entries, 0, kinds_of(entries));
    assert(entries.subrange(0, entries.len() as int) =~= entries);
}

/// A replay succeeds exactly when its requests follow the recorded order:
/// the requests made so far are the kinds of a prefix of the tape.
pub proof fn lemma_replay_accepts_recorded_order(entries: Seq<(Kind, u64)>, wants: Seq<Kind>)
    ensures
        (replay_run(entries, 0, wants).0 is Ok) <==> (wants.len() <= entries.len() && wants
            =~= kinds_of(entries).take(wants.len() as int)),
{
    lemma_replay_run_characterized(entries, 0, wants);
    if wants.len() <= entries.len() {
        if wants =~= kinds_of(entries).take(wants.len() as int) {
            assert forall|j: int| 0 <= j < wants.len() implies entries[0 + j].0 == wants[j] by {
                assert(kinds_of(entries).take(wants.len() as int)[j] == entries[j].0);
            }
        }
    }
}

} // verus!
