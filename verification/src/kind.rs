//! The three sources whose readings the tape holds, and their names in a tape file.
use vstd::prelude::*;

verus! {

/// Which host call produced a value on the tape.
#[derive(PartialEq, Eq, Structural, Debug, Clone, Copy)]
pub enum Kind {
    /// `wasi:random`.
    Random,
    /// `wasi:clocks/wall-clock`.
    Wall,
    /// `wasi:clocks/monotonic-clock`.
    Monotonic,
}

/// The name of a kind in a tape file.
pub open spec fn kind_name(k: Kind) -> Seq<char> {
    match k {
        Kind::Random => seq!['r', 'a', 'n', 'd', 'o', 'm'],
        Kind::Wall => seq!['w', 'a', 'l', 'l'],
        Kind::Monotonic => seq!['m', 'o', 'n', 'o', 't', 'o', 'n', 'i', 'c'],
    }
}

/// The kind whose name is exactly `s`, if any.
pub open spec fn kind_of(s: Seq<char>) -> Option<Kind> {
    if s == kind_name(Kind::Random) {
        Some(Kind::Random)
    } else if s == kind_name(Kind::Wall) {
        Some(Kind::Wall)
    } else if s == kind_name(Kind::Monotonic) {
        Some(Kind::Monotonic)
    } else {
        None
    }
}

/// A name that no kind has.
#[derive(Debug)]
pub struct UnknownKind {
    pub text: String,
}

impl Kind {
    /// The name of this kind.
    pub fn as_str(self) -> (s: &'static str)
        ensures
            s@ == kind_name(self),
    {
        proof {
            reveal_strlit("random");
            reveal_strlit("wall");
            reveal_strlit("monotonic");
        }
        match self {
            Kind::Random => {
                assert("random"@ =~= kind_name(Kind::Random));
                "random"
            },
            Kind::Wall => {
                assert("wall"@ =~= kind_name(Kind::Wall));
                "wall"
            },
            Kind::Monotonic => {
                assert("monotonic"@ =~= kind_name(Kind::Monotonic));
                "monotonic"
            },
        }
    }

    /// The kind named `s`; any other text is refused, and the error holds it.
    pub fn parse(s: &str) -> (r: Result<Kind, UnknownKind>)
        ensures
            match kind_of(s@) {
                Some(k) => r matches Ok(k2) && k2 == k,
                None => r matches Err(e) && e.text@ == s@,
            },
    {
        let chars = crate::text::chars_of(s);
        match kind_in(&chars, 0, chars.len()) {
            Some(k) => {
                assert(chars@.subrange(0, chars@.len() as int) =~= s@);
                Ok(k)
            },
            None => {
                assert(chars@.subrange(0, chars@.len() as int) =~= s@);
                Err(UnknownKind { text: String::from_str(s) })
            },
        }
    }
}

/// The kind named by `chars[lo..hi]`, if any.
pub fn kind_in(chars: &Vec<char>, lo: usize, hi: usize) -> (r: Option<Kind>)
    requires
        lo <= hi <= chars.len(),
    ensures
        r == kind_of(chars@.subrange(lo as int, hi as int)),
{
    let random = Kind::Random.as_str();
    let wall = Kind::Wall.as_str();
    let monotonic = Kind::Monotonic.as_str();
    if crate::text::range_is(chars, lo, hi, random) {
        Some(Kind::Random)
    } else if crate::text::range_is(chars, lo, hi, wall) {
        Some(Kind::Wall)
    } else if crate::text::range_is(chars, lo, hi, monotonic) {
        Some(Kind::Monotonic)
    } else {
        None
    }
}

/// Reading a kind's name gives the kind back.
pub proof fn lemma_kind_name_roundtrip(k: Kind)
    ensures
        kind_of(kind_name(k)) == Some(k),
{
    assert(kind_name(Kind::Random) != kind_name(Kind::Wall));
    assert(kind_name(Kind::Random) != kind_name(Kind::Monotonic));
    assert(kind_name(Kind::Wall) != kind_name(Kind::Monotonic));
}

} // verus!
