//! Random numbers: drawn from a generator and written to the tape while
//! recording, read back from the tape while replaying.
use vstd::prelude::*;
use rand::rngs::StdRng;
use rand::Rng;
use crate::kind::Kind;
use crate::tape::{
    ReplayError, Tape, lemma_replay_run_error_extends, record_step, repeated, replay_run, replay_step,
};

verus! {

#[verifier::external_type_specification]
#[verifier::external_body]
pub struct ExStdRng(StdRng);

/// Calls `rand_core::Rng::next_u64` on the standard generator, which advances
/// its stream. The value is chance: nothing is stated of it.
#[verifier::external_body]
fn draw_u64(rng: &mut StdRng) -> u64 {
    rng.next_u64()
}

/// Byte `j` (from 0, least significant first) of `w`, as `u64::to_le_bytes` lays it out.
pub open spec fn le_byte(w: u64, j: int) -> u8 {
    (w >> ((8 * j) as u64)) as u8
}

/// The first `len` bytes of the words `ws` laid out one after another, each in
/// little-endian order.
pub open spec fn chunk_bytes(ws: Seq<u64>, len: nat) -> Seq<u8> {
    Seq::new(len, |i: int| le_byte(ws[i / 8], i % 8))
}

/// How many 8-byte words fill `len` bytes.
pub open spec fn words_for(len: nat) -> nat {
    ((len + 7) / 8) as nat
}

/// Whether the tape can serve the random words that `len` bytes take; if not,
/// how the replay diverges.
pub fn check_fill(tape: &Tape, len: usize) -> (r: Result<(), ReplayError>)
    ensures
        *tape is Record ==> r is Ok,
        *tape is Replay ==> match replay_run(
            tape.entries(),
            tape.pos(),
            repeated(Kind::Random, words_for(len as nat)),
        ).0 {
            Ok(_) => r is Ok,
            Err(e) => r == Err::<(), ReplayError>(e),
        },
{
    let words = len / 8 + if len % 8 == 0 {
        0
    } else {
        1
    };
    assert(words == words_for(len as nat));
    tape.check_run(Kind::Random, words)
}

/// The random-number source of a run: a generator while recording, none while replaying.
pub struct ReplayRandom {
    pub inner: Option<StdRng>,
}

impl ReplayRandom {
    /// A random word. Recording: drawn from the generator and appended to the
    /// tape. Replaying: the next value on the tape, which must have been
    /// recorded as a random word (`Tape::check_next` tells).
    pub fn try_next_u64(&mut self, tape: &mut Tape) -> (r: u64)
        requires
            old(self).inner is Some <==> *old(tape) is Record,
            old(tape).accepts(Kind::Random),
        ensures
            final(self).inner is Some <==> old(self).inner is Some,
            final(self).inner is Some <==> *final(tape) is Record,
            old(self).inner is Some ==> {
                &&& *final(tape) is Record
                &&& final(tape).entries() == record_step(old(tape).entries(), Kind::Random, r)
            },
            old(self).inner is None ==> {
                &&& replay_step(old(tape).entries(), old(tape).pos(), Kind::Random) == Ok::<
                    u64,
                    ReplayError,
                >(r)
                &&& *final(tape) is Replay
                &&& final(tape).entries() == old(tape).entries()
                &&& final(tape).pos() == old(tape).pos() + 1
            },
    {
        match self.inner.take() {
            Some(mut rng) => {
                let v = draw_u64(&mut rng);
                self.inner = Some(rng);
                tape.push(Kind::Random, v)
            },
            None => tape.next(Kind::Random),
        }
    }

    /// The low 32 bits of a random word, drawn or replayed as by `try_next_u64`.
    pub fn try_next_u32(&mut self, tape: &mut Tape) -> (r: u32)
        requires
            old(self).inner is Some <==> *old(tape) is Record,
            old(tape).accepts(Kind::Random),
        ensures
            final(self).inner is Some <==> old(self).inner is Some,
            final(self).inner is Some <==> *final(tape) is Record,
            old(self).inner is Some ==> {
                &&& *final(tape) is Record
                &&& final(tape).entries().len() == old(tape).entries().len() + 1
                &&& final(tape).entries().drop_last() == old(tape).entries()
                &&& final(tape).entries().last().0 == Kind::Random
                &&& r == final(tape).entries().last().1 as u32
            },
            old(self).inner is None ==> {
                &&& replay_step(old(tape).entries(), old(tape).pos(), Kind::Random) matches Ok(v)
                    && r == v as u32
                &&& *final(tape) is Replay
                &&& final(tape).entries() == old(tape).entries()
                &&& final(tape).pos() == old(tape).pos() + 1
            },
    {
        let v = self.try_next_u64(tape);
        proof {
            if self.inner is Some {
                assert(tape.entries().drop_last() =~= old(tape).entries());
            }
        }
        v as u32
    }

    /// `len` random bytes: `words_for(len)` random words, drawn or replayed one
    /// after another as by `try_next_u64`, each laid out in little-endian
    /// order, the last one cut to what is left. Replaying, the tape must hold
    /// that many random words next (`Tape::check_run` tells).
    pub fn try_fill_bytes(&mut self, tape: &mut Tape, len: usize) -> (r: Vec<u8>)
        requires
            old(self).inner is Some <==> *old(tape) is Record,
            old(tape).accepts_run(Kind::Random, words_for(len as nat)),
        ensures
            final(self).inner is Some <==> old(self).inner is Some,
            final(self).inner is Some <==> *final(tape) is Record,
            old(self).inner is Some ==> {
                let before = old(tape).entries();
                let after = final(tape).entries();
                let k = words_for(len as nat);
                &&& *final(tape) is Record
                &&& after.len() == before.len() + k
                &&& after.take(before.len() as int) == before
                &&& forall|j: int| 0 <= j < k ==> #[trigger] after[before.len() + j].0 == Kind::Random
                &&& r@ == chunk_bytes(Seq::new(k, |j: int| after[before.len() + j].1), len as nat)
            },
            old(self).inner is None ==> {
                let (run, p) = replay_run(
                    old(tape).entries(),
                    old(tape).pos(),
                    repeated(Kind::Random, words_for(len as nat)),
                );
                &&& *final(tape) is Replay
                &&& final(tape).entries() == old(tape).entries()
                &&& r@ == chunk_bytes(run->Ok_0, len as nat)
                &&& final(tape).pos() == p
            },
    {
        let ghost before = tape.entries();
        let ghost start = tape.pos();
        let ghost recording = self.inner is Some;
        let ghost k = words_for(len as nat);
        let words = len / 8 + if len % 8 == 0 {
            0
        } else {
            1
        };
        assert(words == k);
        let mut bytes: Vec<u8> = Vec::new();
        let ghost mut ws: Seq<u64> = Seq::empty();
        let mut c: usize = 0;
        while c < words
            invariant
                words == k,
                k == words_for(len as nat),
                c <= words,
                recording == (old(self).inner is Some),
                before == old(tape).entries(),
                start == old(tape).pos(),
                ws.len() == c,
                self.inner is Some <==> recording,
                recording <==> *tape is Record,
                !recording ==> replay_run(before, start, repeated(Kind::Random, k)).0 is Ok,
                bytes.len() == if 8 * c < len {
                    8 * c
                } else {
                    len as int
                },
                forall|i: int| 0 <= i < bytes.len() ==> #[trigger] bytes@[i] == le_byte(ws[i / 8], i % 8),
                recording ==> {
                    &&& tape.entries().len() == before.len() + c
                    &&& tape.entries().take(before.len() as int) == before
                    &&& forall|j: int| 0 <= j < c ==> #[trigger] tape.entries()[before.len() + j] == (Kind::Random, ws[j])
                },
                !recording ==> {
                    &&& tape.entries() == before
                    &&& replay_run(before, start, repeated(Kind::Random, c as nat)) == (
                        Ok::<Seq<u64>, ReplayError>(ws),
                        tape.pos(),
                    )
                },
            decreases words - c,
        {
            assert(repeated(Kind::Random, (c + 1) as nat).drop_last() =~= repeated(Kind::Random, c as nat));
            assert(repeated(Kind::Random, (c + 1) as nat).last() == Kind::Random);
            assert(8 * c < len) by (nonlinear_arith)
                requires
                    c < words,
                    words == (len + 7) / 8,
            ;
            proof {
                if !recording {
                    assert(repeated(Kind::Random, k).take((c + 1) as int) =~= repeated(
                        Kind::Random,
                        (c + 1) as nat,
                    ));
                    if replay_run(before, start, repeated(Kind::Random, (c + 1) as nat)).0 is Err {
                        lemma_replay_run_error_extends(before, start, repeated(Kind::Random, k), (c + 1) as nat);
                    }
                }
            }
            let v = self.try_next_u64(tape);
            proof {
                ws = ws.push(v);
            }
            let mut j: usize = 0;
            while j < 8 && bytes.len() < len
                invariant
                    c < words,
                    ws.len() == c + 1,
                    ws[c as int] == v,
                    j <= 8,
                    bytes.len() == 8 * c + j,
                    8 * c + j <= len,
                    forall|i: int| 0 <= i < bytes.len() ==> #[trigger] bytes@[i] == le_byte(ws[i / 8], i % 8),
                decreases 8 - j,
            {
                bytes.push((v >> (8 * j as u64)) as u8);
                assert(bytes@[8 * c + j] == le_byte(ws[(8 * c + j) / 8], (8 * c + j) % 8));
                j = j + 1;
            }
            proof {
                if recording {
                    assert forall|jj: int| 0 <= jj < c + 1 implies #[trigger] tape.entries()[before.len() + jj] == (Kind::Random, ws[jj]) by {
                        if jj < c {
                        }
                    }
                    assert(tape.entries().take(before.len() as int) =~= before);
                }
            }
            c = c + 1;
        }
        proof {
            if recording {
                assert(Seq::new(k, |j: int| tape.entries()[before.len() + j].1) =~= ws);
            } else {
                assert(repeated(Kind::Random, c as nat) =~= repeated(Kind::Random, k));
            }
            assert(bytes@ =~= chunk_bytes(ws, len as nat));
        }
        bytes
    }
}

} // verus!
