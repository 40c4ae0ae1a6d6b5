//! Recorded host-call results as text: a value and a call entry can be
//! written out, and a value read back from its text.
use vstd::prelude::*;
use crate::text::{
    is_digit, is_space,
    lacks, lemma_dec_digits, lemma_first_after, lemma_lacks_concat, lemma_parse_dec,
    lemma_trim_around,
    NumberError, chars_of, dec, find_char, find_in, parse_uint, parse_uint_in, push_decimal, push_piece,
    range_is, trim, trim_range,
};

verus! {

/// The result of a host call.
#[derive(PartialEq, Eq, Structural, Debug, Clone, Copy)]
pub enum Value {
    U64(u64),
    Datetime { seconds: u64, nanoseconds: u32 },
}

/// A host call, named as in WIT (`package/interface@version#function`), and its result.
pub struct Entry {
    pub call: String,
    pub result: Value,
}

/// Why a text is not a value.
#[derive(PartialEq, Eq, Structural, Debug, Clone, Copy)]
pub enum ValueError {
    /// A datetime text without `{`.
    MissingOpenBrace,
    /// A datetime text without `}`.
    MissingCloseBrace,
    /// No `,` between the braces.
    MissingComma,
    /// No `:` in the part before the comma.
    MissingSecondsColon,
    /// No `:` in the part after the comma.
    MissingNanosecondsColon,
    /// A number that does not read as the field's integer type.
    BadNumber(NumberError),
}

pub open spec fn datetime_word() -> Seq<char> {
    seq!['d', 'a', 't', 'e', 't', 'i', 'm', 'e']
}

/// `datetime { seconds: `
pub open spec fn datetime_head() -> Seq<char> {
    datetime_word() + seq![' ', '{', ' ', 's', 'e', 'c', 'o', 'n', 'd', 's', ':', ' ']
}

/// `, nanoseconds: `
pub open spec fn datetime_middle() -> Seq<char> {
    seq![',', ' ', 'n', 'a', 'n', 'o', 's', 'e', 'c', 'o', 'n', 'd', 's', ':', ' ']
}

/// ` }`
pub open spec fn datetime_tail() -> Seq<char> {
    seq![' ', '}']
}

/// ` -> `
pub open spec fn arrow() -> Seq<char> {
    seq![' ', '-', '>', ' ']
}

/// The text of a value: a number in decimal, or
/// `datetime { seconds: S, nanoseconds: N }`.
pub open spec fn value_text(v: Value) -> Seq<char> {
    match v {
        Value::U64(n) => dec(n as nat),
        Value::Datetime { seconds, nanoseconds } => datetime_head() + dec(seconds as nat)
            + datetime_middle() + dec(nanoseconds as nat) + datetime_tail(),
    }
}

pub open spec fn starts_with(s: Seq<char>, p: Seq<char>) -> bool {
    p.len() <= s.len() && s.take(p.len() as int) == p
}

/// Reading a datetime text: the part between the first `{` and the first `}`
/// is split at its first `,`; each half holds its number after its first `:`.
pub open spec fn parse_datetime(s: Seq<char>) -> Result<Value, ValueError> {
    match find_char(s, '{') {
        None => Err(ValueError::MissingOpenBrace),
        Some(open) => match find_char(s, '}') {
            None => Err(ValueError::MissingCloseBrace),
            Some(close) => {
                let inner = s.subrange(open + 1, close);
                match find_char(inner, ',') {
                    None => Err(ValueError::MissingComma),
                    Some(comma) => {
                        let a = inner.take(comma);
                        let b = inner.skip(comma + 1);
                        match find_char(a, ':') {
                            None => Err(ValueError::MissingSecondsColon),
                            Some(i) => match parse_uint(trim(a.skip(i + 1)), u64::MAX as int) {
                                Err(e) => Err(ValueError::BadNumber(e)),
                                Ok(seconds) => match find_char(b, ':') {
                                    None => Err(ValueError::MissingNanosecondsColon),
                                    Some(j) => match parse_uint(
                                        trim(b.skip(j + 1)),
                                        u32::MAX as int,
                                    ) {
                                        Err(e) => Err(ValueError::BadNumber(e)),
                                        Ok(nanoseconds) => Ok(
                                            Value::Datetime {
                                                seconds: seconds as u64,
                                                nanoseconds: nanoseconds as u32,
                                            },
                                        ),
                                    },
                                },
                            },
                        }
                    },
                }
            },
        },
    }
}

/// Reading a value: a text that starts with `datetime` is a datetime, any
/// other is a number, around which whitespace is allowed.
pub open spec fn parse_value(s: Seq<char>) -> Result<Value, ValueError> {
    if starts_with(s, datetime_word()) {
        parse_datetime(s)
    } else {
        match parse_uint(trim(s), u64::MAX as int) {
            Ok(n) => Ok(Value::U64(n as u64)),
            Err(e) => Err(ValueError::BadNumber(e)),
        }
    }
}

/// The datetime texts whose first `}` stands before their first `{`: the part
/// between them cannot be cut out, and reading stops there.
pub open spec fn parse_value_aborts(s: Seq<char>) -> bool {
    &&& starts_with(s, datetime_word())
    &&& find_char(s, '{') matches Some(open)
    &&& find_char(s, '}') matches Some(close)
    &&& close < open + 1
}



/// Reads `chars` as a datetime text.
fn read_datetime(chars: &Vec<char>) -> (r: Result<Value, ValueError>)
    requires
        !(find_char(chars@, '{') matches Some(open) && find_char(chars@, '}') matches Some(close)
            && close < open + 1),
    ensures
        r == parse_datetime(chars@),
{
    let n = chars.len();
    assert(chars@.subrange(0, n as int) =~= chars@);
    let open = match find_in(chars, 0, n, '{') {
        None => {
            return Err(ValueError::MissingOpenBrace);
        },
        Some(i) => i,
    };
    let close = match find_in(chars, 0, n, '}') {
        None => {
            return Err(ValueError::MissingCloseBrace);
        },
        Some(i) => i,
    };
    let ghost inner = chars@.subrange(open + 1, close as int);
    let comma = match find_in(chars, open + 1, close, ',') {
        None => {
            return Err(ValueError::MissingComma);
        },
        Some(i) => i,
    };
    let ghost a = inner.take(comma - (open + 1));
    let ghost b = inner.skip(comma - (open + 1) + 1);
    assert(a =~= chars@.subrange(open + 1, comma as int));
    assert(b =~= chars@.subrange(comma + 1, close as int));
    let colon = match find_in(chars, open + 1, comma, ':') {
        None => {
            return Err(ValueError::MissingSecondsColon);
        },
        Some(i) => i,
    };
    assert(a.skip(colon - (open + 1) + 1) =~= chars@.subrange(colon + 1, comma as int));
    let (x, y) = trim_range(chars, colon + 1, comma);
    let seconds = match parse_uint_in(chars, x, y, u64::MAX) {
        Err(e) => {
            return Err(ValueError::BadNumber(e));
        },
        Ok(v) => v,
    };
    let colon2 = match find_in(chars, comma + 1, close, ':') {
        None => {
            return Err(ValueError::MissingNanosecondsColon);
        },
        Some(i) => i,
    };
    assert(b.skip(colon2 - (comma + 1) + 1) =~= chars@.subrange(colon2 + 1, close as int));
    let (x2, y2) = trim_range(chars, colon2 + 1, close);
    let nanoseconds = match parse_uint_in(chars, x2, y2, u32::MAX as u64) {
        Err(e) => {
            return Err(ValueError::BadNumber(e));
        },
        Ok(v) => v,
    };
    Ok(Value::Datetime { seconds, nanoseconds: nanoseconds as u32 })
}

impl Value {
    /// The text of this value.
    pub fn to_text(&self) -> (r: String)
        ensures
            r@ == value_text(*self),
    {
        let mut out = String::new();
        match self {
            Value::U64(n) => {
                push_decimal(&mut out, *n);
                assert(out@ =~= value_text(*self));
            },
            Value::Datetime { seconds, nanoseconds } => {
                proof {
                    reveal_strlit("datetime { seconds: ");
                    reveal_strlit(", nanoseconds: ");
                    reveal_strlit(" }");
                    assert("datetime { seconds: "@ =~= datetime_head());
                    assert(", nanoseconds: "@ =~= datetime_middle());
                    assert(" }"@ =~= datetime_tail());
                }
                push_piece(&mut out, "datetime { seconds: ", Ghost(datetime_head()));
                push_decimal(&mut out, *seconds);
                push_piece(&mut out, ", nanoseconds: ", Ghost(datetime_middle()));
                push_decimal(&mut out, *nanoseconds as u64);
                push_piece(&mut out, " }", Ghost(datetime_tail()));
                assert(out@ =~= value_text(*self));
            },
        }
        out
    }

    /// Reads a value from its text.
    pub fn parse(s: &str) -> (r: Result<Value, ValueError>)
        requires
            !parse_value_aborts(s@),
        ensures
            r == parse_value(s@),
    {
        let chars = chars_of(s);
        let n = chars.len();
        assert(chars@.subrange(0, n as int) =~= chars@);
        proof {
            reveal_strlit("datetime");
            assert("datetime"@ =~= datetime_word());
        }
        if n >= 8 && range_is(&chars, 0, 8, "datetime") {
            assert(chars@.subrange(0, 8) =~= chars@.take(8));
            assert(starts_with(s@, datetime_word()));
            read_datetime(&chars)
        } else {
            assert(!starts_with(s@, datetime_word())) by {
                if starts_with(s@, datetime_word()) {
                    assert(chars@.subrange(0, 8) =~= chars@.take(8));
                }
            }
            let (x, y) = trim_range(&chars, 0, n);
            match parse_uint_in(&chars, x, y, u64::MAX) {
                Ok(v) => Ok(Value::U64(v)),
                Err(e) => Err(ValueError::BadNumber(e)),
            }
        }
    }
}

impl Entry {
    /// `call -> value`.
    pub fn to_text(&self) -> (r: String)
        ensures
            r@ == self.call@ + arrow() + value_text(self.result),
    {
        proof {
            reveal_strlit(" -> ");
            assert(" -> "@ =~= arrow());
        }
        let mut out = String::from_str(self.call.as_str());
        push_piece(&mut out, " -> ", Ghost(arrow()));
        let value = self.result.to_text();
        out.append(value.as_str());
        out
    }
}

/// ` seconds: `
spec fn seconds_label() -> Seq<char> {
    seq![' ', 's', 'e', 'c', 'o', 'n', 'd', 's', ':', ' ']
}

/// ` nanoseconds: `
spec fn nanoseconds_label() -> Seq<char> {
    seq![' ', 'n', 'a', 'n', 'o', 's', 'e', 'c', 'o', 'n', 'd', 's', ':', ' ']
}

proof fn lemma_braces(d1: Seq<char>, d2: Seq<char>)
    requires
        forall|i: int| 0 <= i < d1.len() ==> is_digit(#[trigger] d1[i]),
        forall|i: int| 0 <= i < d2.len() ==> is_digit(#[trigger] d2[i]),
    ensures
        ({
            let s = datetime_head() + d1 + datetime_middle() + d2 + datetime_tail();
            &&& s.take(8) == datetime_word()
            &&& find_char(s, '{') == Some(9int)
            &&& find_char(s, '}') == Some(s.len() - 1)
            &&& s.subrange(10, s.len() - 1) == seconds_label() + d1 + (seq![','] + nanoseconds_label()
                + d2 + seq![' '])
        }),
{
    let s = datetime_head() + d1 + datetime_middle() + d2 + datetime_tail();
    let word = datetime_word();
    let sl = seconds_label();
    let nl = nanoseconds_label();
    assert(s =~= word + seq![' ', '{'] + sl + d1 + seq![','] + nl + d2 + seq![' ', '}']);
    assert(s.take(8) =~= word);
    let tail_open = seq!['{'] + sl + d1 + seq![','] + nl + d2 + seq![' ', '}'];
    assert(s =~= (word + seq![' ']) + tail_open);
    lemma_first_after(word + seq![' '], tail_open, '{');
    let p1 = word + seq![' ', '{'] + sl;
    assert(lacks(p1, '}'));
    assert(lacks(d1, '}'));
    assert(lacks(d2, '}'));
    lemma_lacks_concat(p1, d1, '}');
    let p2 = seq![','] + nl;
    assert(lacks(p2, '}'));
    lemma_lacks_concat(p1 + d1, p2, '}');
    lemma_lacks_concat(p1 + d1 + p2, d2, '}');
    lemma_lacks_concat(p1 + d1 + p2 + d2, seq![' '], '}');
    let body = p1 + d1 + p2 + d2 + seq![' '];
    assert(s =~= body + seq!['}']);
    lemma_first_after(body, seq!['}'], '}');
    assert(s.subrange(10, s.len() - 1) =~= sl + d1 + (seq![','] + nl + d2 + seq![' ']));
}

proof fn lemma_comma(d1: Seq<char>, rest: Seq<char>)
    requires
        forall|i: int| 0 <= i < d1.len() ==> is_digit(#[trigger] d1[i]),
        rest.len() > 0,
        rest[0] == ',',
    ensures
        find_char(seconds_label() + d1 + rest, ',') == Some((seconds_label() + d1).len() as int),
{
    assert(lacks(seconds_label(), ','));
    assert(lacks(d1, ','));
    lemma_lacks_concat(seconds_label(), d1, ',');
    lemma_first_after(seconds_label() + d1, rest, ',');
}

proof fn lemma_seconds_field(d1: Seq<char>)
    requires
        d1.len() > 0,
        forall|i: int| 0 <= i < d1.len() ==> is_digit(#[trigger] d1[i]) && !is_space(d1[i]),
    ensures
        find_char(seconds_label() + d1, ':') == Some(8int),
        trim((seconds_label() + d1).skip(9)) == d1,
{
    let head = seq![' ', 's', 'e', 'c', 'o', 'n', 'd', 's'];
    assert(seconds_label() + d1 =~= head + (seq![':', ' '] + d1));
    assert(lacks(head, ':'));
    lemma_first_after(head, seq![':', ' '] + d1, ':');
    assert((seconds_label() + d1).skip(9) =~= seq![' '] + d1 + Seq::<char>::empty());
    lemma_trim_around(seq![' '], d1, Seq::empty());
}

proof fn lemma_nanoseconds_field(d2: Seq<char>)
    requires
        d2.len() > 0,
        forall|i: int| 0 <= i < d2.len() ==> is_digit(#[trigger] d2[i]) && !is_space(d2[i]),
    ensures
        find_char(nanoseconds_label() + d2 + seq![' '], ':') == Some(12int),
        trim((nanoseconds_label() + d2 + seq![' ']).skip(13)) == d2,
{
    let head = seq![' ', 'n', 'a', 'n', 'o', 's', 'e', 'c', 'o', 'n', 'd', 's'];
    assert(nanoseconds_label() + d2 + seq![' '] =~= head + (seq![':', ' '] + d2 + seq![' ']));
    assert(lacks(head, ':'));
    lemma_first_after(head, seq![':', ' '] + d2 + seq![' '], ':');
    assert((nanoseconds_label() + d2 + seq![' ']).skip(13) =~= seq![' '] + d2 + seq![' ']);
    lemma_trim_around(seq![' '], d2, seq![' ']);
}

/// Reading back the text of a value gives the value.
pub proof fn lemma_value_text_roundtrip(v: Value)
    ensures
        !parse_value_aborts(value_text(v)),
        parse_value(value_text(v)) == Ok::<Value, ValueError>(v),
{
    match v {
        Value::U64(n) => {
            let d = dec(n as nat);
            lemma_dec_digits(n as nat);
            if starts_with(d, datetime_word()) {
                assert(d[0] == d.take(8)[0]);
                assert(false);
            }
            lemma_trim_around(Seq::empty(), d, Seq::empty());
            assert(Seq::<char>::empty() + d + Seq::<char>::empty() =~= d);
            lemma_parse_dec(n as nat, u64::MAX as int);
        },
        Value::Datetime { seconds, nanoseconds } => {
            let d1 = dec(seconds as nat);
            let d2 = dec(nanoseconds as nat);
            lemma_dec_digits(seconds as nat);
            lemma_dec_digits(nanoseconds as nat);
            let s = value_text(v);
            lemma_braces(d1, d2);
            let inner = s.subrange(10, s.len() - 1);
            let rest = seq![','] + nanoseconds_label() + d2 + seq![' '];
            lemma_comma(d1, rest);
            let k = (seconds_label() + d1).len() as int;
            let a = inner.take(k);
            let b = inner.skip(k + 1);
            assert(a =~= seconds_label() + d1);
            assert(b =~= nanoseconds_label() + d2 + seq![' ']);
            lemma_seconds_field(d1);
            lemma_nanoseconds_field(d2);
            lemma_parse_dec(seconds as nat, u64::MAX as int);
            lemma_parse_dec(nanoseconds as nat, u32::MAX as int);
            assert(starts_with(s, datetime_word()));
            assert(parse_datetime(s) == Ok::<Value, ValueError>(v));
        },
    }
}

} // verus!
