use rand::SeedableRng;
use rand::rngs::StdRng;
use wasi_replay::clock::{monotonic_now, wall_now};
use wasi_replay::kind::Kind;
use wasi_replay::random::{ReplayRandom, check_fill};
use wasi_replay::tape::{ReplayError, Tape};

fn entries_of(tape: &Tape) -> Vec<(Kind, u64)> {
    match tape {
        Tape::Record(e) => e.clone(),
        Tape::Replay { entries, .. } => entries.clone(),
    }
}

#[test]
fn kind_names_read_back() {
    for k in [Kind::Random, Kind::Wall, Kind::Monotonic] {
        assert_eq!(Kind::parse(k.as_str()).unwrap(), k);
    }
    assert_eq!(Kind::Random.as_str(), "random");
    assert_eq!(Kind::Wall.as_str(), "wall");
    assert_eq!(Kind::Monotonic.as_str(), "monotonic");
}

#[test]
fn unknown_kind_is_refused() {
    let e = Kind::parse("clock").unwrap_err();
    assert_eq!(e.text, "clock");
    assert!(Kind::parse("Random").is_err());
    assert!(Kind::parse("random ").is_err());
}

#[test]
fn record_then_replay_gives_recorded_values() {
    let mut tape = Tape::Record(Vec::new());
    assert_eq!(tape.check_next(Kind::Random), Ok(()));
    assert_eq!(tape.push(Kind::Random, 7), 7);
    assert_eq!(tape.push(Kind::Wall, 1_000), 1_000);
    assert_eq!(tape.push(Kind::Monotonic, 3), 3);
    assert!(tape.is_record());
    assert_eq!(tape.remaining(), 0);
    let recorded = entries_of(&tape);
    assert_eq!(recorded, vec![(Kind::Random, 7), (Kind::Wall, 1_000), (Kind::Monotonic, 3)]);

    let mut replay = Tape::Replay { entries: recorded, pos: 0 };
    assert!(!replay.is_record());
    assert_eq!(replay.remaining(), 3);
    assert_eq!(replay.check_run(Kind::Random, 1), Ok(()));
    assert_eq!(replay.next(Kind::Random), 7);
    assert_eq!(replay.next(Kind::Wall), 1_000);
    assert_eq!(replay.remaining(), 1);
    assert_eq!(replay.next(Kind::Monotonic), 3);
    assert_eq!(replay.remaining(), 0);
}

#[test]
fn replay_stops_on_a_different_order() {
    let mut replay = Tape::Replay { entries: vec![(Kind::Random, 7), (Kind::Wall, 9)], pos: 0 };
    assert_eq!(replay.next(Kind::Random), 7);
    assert_eq!(
        replay.check_next(Kind::Monotonic),
        Err(ReplayError::Mismatch { request: 2, recorded: Kind::Wall, want: Kind::Monotonic })
    );
    assert_eq!(replay.check_next(Kind::Wall), Ok(()));
    assert_eq!(replay.next(Kind::Wall), 9);
    let replay = Tape::Replay { entries: vec![(Kind::Wall, 7)], pos: 0 };
    assert_eq!(
        replay.check_next(Kind::Random),
        Err(ReplayError::Mismatch { request: 1, recorded: Kind::Wall, want: Kind::Random })
    );
}

#[test]
fn replay_stops_past_the_end() {
    let mut replay = Tape::Replay { entries: vec![(Kind::Wall, 9)], pos: 0 };
    assert_eq!(replay.next(Kind::Wall), 9);
    assert_eq!(
        replay.check_next(Kind::Random),
        Err(ReplayError::Exhausted { entries: 1, want: Kind::Random })
    );
    // a position past the end counts as used up
    let past = Tape::Replay { entries: vec![(Kind::Wall, 9)], pos: 5 };
    assert_eq!(past.remaining(), 0);
    assert_eq!(past.check_next(Kind::Wall), Err(ReplayError::Exhausted { entries: 1, want: Kind::Wall }));
}

#[test]
fn run_checks_find_the_first_divergence() {
    let replay = Tape::Replay {
        entries: vec![(Kind::Random, 1), (Kind::Random, 2), (Kind::Wall, 3)],
        pos: 0,
    };
    assert_eq!(replay.check_run(Kind::Random, 0), Ok(()));
    assert_eq!(replay.check_run(Kind::Random, 2), Ok(()));
    assert_eq!(
        replay.check_run(Kind::Random, 3),
        Err(ReplayError::Mismatch { request: 3, recorded: Kind::Wall, want: Kind::Random })
    );
    let replay = Tape::Replay { entries: vec![(Kind::Random, 1)], pos: 0 };
    assert_eq!(
        replay.check_run(Kind::Random, 2),
        Err(ReplayError::Exhausted { entries: 1, want: Kind::Random })
    );
}

#[test]
fn clocks_record_their_readings() {
    let mut tape = Tape::Record(Vec::new());
    assert_eq!(wall_now(&mut tape, 1_787_837_699_250_915_580), 1_787_837_699_250_915_580);
    assert_eq!(monotonic_now(&mut tape, 12_345), 12_345);
    // a reading beyond 64 bits keeps its low 64 bits
    assert_eq!(monotonic_now(&mut tape, (1u128 << 64) + 5), 5);
    assert_eq!(
        entries_of(&tape),
        vec![(Kind::Wall, 1_787_837_699_250_915_580), (Kind::Monotonic, 12_345), (Kind::Monotonic, 5)]
    );

    let mut replay = Tape::Replay { entries: entries_of(&tape), pos: 0 };
    assert_eq!(wall_now(&mut replay, 0), 1_787_837_699_250_915_580);
    assert_eq!(monotonic_now(&mut replay, 99), 12_345);
    assert_eq!(
        replay.check_next(Kind::Wall),
        Err(ReplayError::Mismatch { request: 3, recorded: Kind::Monotonic, want: Kind::Wall })
    );
}

#[test]
fn random_words_are_recorded_and_replayed() {
    let mut tape = Tape::Record(Vec::new());
    let mut source = ReplayRandom { inner: Some(StdRng::seed_from_u64(1)) };
    let a = source.try_next_u64(&mut tape);
    let b = source.try_next_u32(&mut tape);
    let recorded = entries_of(&tape);
    assert_eq!(recorded.len(), 2);
    assert_eq!(recorded[0], (Kind::Random, a));
    assert_eq!(recorded[1].0, Kind::Random);
    assert_eq!(recorded[1].1 as u32, b);
    // the generator's words are not all the same value
    let c = source.try_next_u64(&mut tape);
    let d = source.try_next_u64(&mut tape);
    assert!(a != c || c != d);

    let mut replay = Tape::Replay { entries: entries_of(&tape), pos: 0 };
    let mut none = ReplayRandom { inner: None };
    assert_eq!(none.try_next_u64(&mut replay), a);
    assert_eq!(none.try_next_u32(&mut replay), b);
}

#[test]
fn replayed_bytes_are_little_endian() {
    let mut replay = Tape::Replay {
        entries: vec![(Kind::Random, 0x0807_0605_0403_0201), (Kind::Random, 0x1817_1615_1413_1211)],
        pos: 0,
    };
    let mut none = ReplayRandom { inner: None };
    assert_eq!(check_fill(&replay, 10), Ok(()));
    let bytes = none.try_fill_bytes(&mut replay, 10);
    assert_eq!(bytes, vec![1, 2, 3, 4, 5, 6, 7, 8, 0x11, 0x12]);
    assert_eq!(replay.remaining(), 0);
}

#[test]
fn filling_bytes_needs_enough_recorded_words() {
    let replay = Tape::Replay { entries: vec![(Kind::Random, 1)], pos: 0 };
    assert_eq!(check_fill(&replay, 8), Ok(()));
    assert_eq!(
        check_fill(&replay, 9),
        Err(ReplayError::Exhausted { entries: 1, want: Kind::Random })
    );
    let mut replay = Tape::Replay { entries: vec![(Kind::Wall, 1)], pos: 0 };
    let mut none = ReplayRandom { inner: None };
    assert_eq!(check_fill(&replay, 0), Ok(()));
    assert_eq!(none.try_fill_bytes(&mut replay, 0), Vec::<u8>::new());
    assert_eq!(
        check_fill(&replay, 1),
        Err(ReplayError::Mismatch { request: 1, recorded: Kind::Wall, want: Kind::Random })
    );
}

#[test]
fn recorded_bytes_come_from_recorded_words() {
    let mut tape = Tape::Record(vec![(Kind::Wall, 5)]);
    let mut source = ReplayRandom { inner: Some(StdRng::seed_from_u64(42)) };
    assert_eq!(check_fill(&tape, 12), Ok(()));
    let bytes = source.try_fill_bytes(&mut tape, 12);
    let recorded = entries_of(&tape);
    assert_eq!(recorded.len(), 3);
    assert_eq!(recorded[0], (Kind::Wall, 5));
    let mut expected = recorded[1].1.to_le_bytes().to_vec();
    expected.extend_from_slice(&recorded[2].1.to_le_bytes()[..4]);
    assert_eq!(bytes, expected);
}
