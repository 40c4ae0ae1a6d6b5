//! Character-level building blocks, each stated over `Seq<char>`:
//! whitespace trimming, searching for a character, and decimal numbers.
use vstd::prelude::*;

verus! {

// ---------------------------------------------------------------- whitespace

/// The characters that `char::is_whitespace` accepts (Unicode `White_Space`).
pub open spec fn is_space(c: char) -> bool {
    ||| c == '\t'
    ||| c == '\n'
    ||| c == '\u{0B}'
    ||| c == '\u{0C}'
    ||| c == '\r'
    ||| c == ' '
    ||| c == '\u{85}'
    ||| c == '\u{A0}'
    ||| c == '\u{1680}'
    ||| ('\u{2000}' <= c && c <= '\u{200A}')
    ||| c == '\u{2028}'
    ||| c == '\u{2029}'
    ||| c == '\u{202F}'
    ||| c == '\u{205F}'
    ||| c == '\u{3000}'
}

/// `s` without its leading whitespace.
pub open spec fn trim_start(s: Seq<char>) -> Seq<char>
    decreases s.len(),
{
    if s.len() > 0 && is_space(s[0]) {
        trim_start(s.drop_first())
    } else {
        s
    }
}

/// `s` without its trailing whitespace.
pub open spec fn trim_end(s: Seq<char>) -> Seq<char>
    decreases s.len(),
{
    if s.len() > 0 && is_space(s.last()) {
        trim_end(s.drop_last())
    } else {
        s
    }
}

/// `s` without leading and trailing whitespace (what `str::trim` gives).
pub open spec fn trim(s: Seq<char>) -> Seq<char> {
    trim_end(trim_start(s))
}

pub fn is_space_char(c: char) -> (b: bool)
    ensures
        b == is_space(c),
{
    c == '\t' || c == '\n' || c == '\u{0B}' || c == '\u{0C}' || c == '\r' || c == ' ' || c
        == '\u{85}' || c == '\u{A0}' || c == '\u{1680}' || ('\u{2000}' <= c && c <= '\u{200A}')
        || c == '\u{2028}' || c == '\u{2029}' || c == '\u{202F}' || c == '\u{205F}' || c
        == '\u{3000}'
}

/// The bounds of `chars[lo..hi]` once trimmed.
pub fn trim_range(chars: &Vec<char>, lo: usize, hi: usize) -> (r: (usize, usize))
    requires
        lo <= hi <= chars.len(),
    ensures
        lo <= r.0 <= r.1 <= hi,
        chars@.subrange(r.0 as int, r.1 as int) == trim(chars@.subrange(lo as int, hi as int)),
{
    let mut a = lo;
    while a < hi && is_space_char(chars[a])
        invariant
            lo <= a <= hi <= chars.len(),
            trim_start(chars@.subrange(lo as int, hi as int)) == trim_start(
                chars@.subrange(a as int, hi as int),
            ),
        decreases hi - a,
    {
        assert(chars@.subrange(a as int, hi as int).drop_first() =~= chars@.subrange(
            a + 1,
            hi as int,
        ));
        a = a + 1;
    }
    let mut b = hi;
    while b > a && is_space_char(chars[b - 1])
        invariant
            lo <= a <= b <= hi <= chars.len(),
            trim_start(chars@.subrange(lo as int, hi as int)) == chars@.subrange(
                a as int,
                hi as int,
            ),
            trim_end(chars@.subrange(a as int, hi as int)) == trim_end(
                chars@.subrange(a as int, b as int),
            ),
        decreases b - a,
    {
        assert(chars@.subrange(a as int, b as int).drop_last() =~= chars@.subrange(
            a as int,
            b - 1,
        ));
        b = b - 1;
    }
    (a, b)
}


/// Whitespace around a text whose ends are not whitespace is exactly what
/// trimming removes.
pub proof fn lemma_trim_around(pre: Seq<char>, core: Seq<char>, post: Seq<char>)
    requires
        forall|i: int| 0 <= i < pre.len() ==> is_space(#[trigger] pre[i]),
        forall|i: int| 0 <= i < post.len() ==> is_space(#[trigger] post[i]),
        core.len() > 0,
        !is_space(core[0]),
        !is_space(core.last()),
    ensures
        trim(pre + core + post) == core,
{
    lemma_trim_start_spaces(pre, core + post);
    lemma_trim_end_spaces(core, post);
    assert(pre + core + post =~= pre + (core + post));
}

proof fn lemma_trim_start_spaces(pre: Seq<char>, rest: Seq<char>)
    requires
        forall|i: int| 0 <= i < pre.len() ==> is_space(#[trigger] pre[i]),
        rest.len() > 0,
        !is_space(rest[0]),
    ensures
        trim_start(pre + rest) == rest,
    decreases pre.len(),
{
    if pre.len() == 0 {
        assert(pre + rest =~= rest);
    } else {
        assert((pre + rest).drop_first() =~= pre.drop_first() + rest);
        lemma_trim_start_spaces(pre.drop_first(), rest);
    }
}

proof fn lemma_trim_end_spaces(core: Seq<char>, post: Seq<char>)
    requires
        forall|i: int| 0 <= i < post.len() ==> is_space(#[trigger] post[i]),
        core.len() > 0,
        !is_space(core.last()),
    ensures
        trim_end(core + post) == core,
    decreases post.len(),
{
    if post.len() == 0 {
        assert(core + post =~= core);
    } else {
        assert((core + post).drop_last() =~= core + post.drop_last());
        lemma_trim_end_spaces(core, post.drop_last());
    }
}

/// `s` is whitespace only.
pub open spec fn all_space(s: Seq<char>) -> bool {
    forall|i: int| 0 <= i < s.len() ==> is_space(#[trigger] s[i])
}

proof fn lemma_trim_start_prefix(pre: Seq<char>, y: Seq<char>)
    requires
        all_space(pre),
    ensures
        trim_start(pre + y) == trim_start(y),
    decreases pre.len(),
{
    if pre.len() == 0 {
        assert(pre + y =~= y);
    } else {
        assert((pre + y).drop_first() =~= pre.drop_first() + y);
        lemma_trim_start_prefix(pre.drop_first(), y);
    }
}

proof fn lemma_trim_end_suffix(y: Seq<char>, post: Seq<char>)
    requires
        all_space(post),
    ensures
        trim_end(y + post) == trim_end(y),
    decreases post.len(),
{
    if post.len() == 0 {
        assert(y + post =~= y);
    } else {
        assert((y + post).drop_last() =~= y + post.drop_last());
        lemma_trim_end_suffix(y, post.drop_last());
    }
}

proof fn lemma_trim_start_append(s: Seq<char>, post: Seq<char>)
    ensures
        trim_start(s).len() > 0 ==> trim_start(s + post) == trim_start(s) + post,
        trim_start(s).len() == 0 ==> trim_start(s + post) == trim_start(post),
    decreases s.len(),
{
    if s.len() == 0 {
        assert(s + post =~= post);
    } else if is_space(s[0]) {
        assert((s + post).drop_first() =~= s.drop_first() + post);
        lemma_trim_start_append(s.drop_first(), post);
    } else {
        assert((s + post)[0] == s[0]);
    }
}

/// Whitespace added around a text changes nothing once trimmed.
pub proof fn lemma_trim_padding(pre: Seq<char>, s: Seq<char>, post: Seq<char>)
    requires
        all_space(pre),
        all_space(post),
    ensures
        trim(pre + s + post) == trim(s),
{
    assert(pre + s + post =~= pre + (s + post));
    lemma_trim_start_prefix(pre, s + post);
    lemma_trim_start_append(s, post);
    if trim_start(s).len() > 0 {
        lemma_trim_end_suffix(trim_start(s), post);
    } else {
        lemma_trim_start_prefix(post, Seq::empty());
        assert(post + Seq::<char>::empty() =~= post);
    }
}

// ---------------------------------------------------------------- searching

/// `i` is the position of the first `c` in `s`.
pub open spec fn is_first(s: Seq<char>, c: char, i: int) -> bool {
    &&& 0 <= i < s.len()
    &&& s[i] == c
    &&& forall|k: int| 0 <= k < i ==> s[k] != c
}

/// The position of the first `c` in `s`, if any (what `str::find` with a
/// character, or the split point of `str::split_once`, gives, counted in characters).
pub open spec fn find_char(s: Seq<char>, c: char) -> Option<int> {
    if s.contains(c) {
        Some(choose|i: int| is_first(s, c, i))
    } else {
        None
    }
}

/// A position that holds `c`, with no `c` before it, is what `find_char` gives.
pub proof fn lemma_find_char_first(s: Seq<char>, c: char, i: int)
    requires
        is_first(s, c, i),
    ensures
        find_char(s, c) == Some(i),
{
    assert(s.contains(c));
    let j = choose|j: int| is_first(s, c, j);
    assert(is_first(s, c, j));
    assert(j == i) by {
        if j < i {
            assert(s[j] != c);
        }
        if i < j {
            assert(s[i] != c);
        }
    }
}

/// Whatever `find_char` gives is the position of the first `c`.
pub proof fn lemma_find_char_some(s: Seq<char>, c: char)
    ensures
        find_char(s, c) matches Some(i) ==> is_first(s, c, i),
        find_char(s, c) is None ==> forall|k: int| 0 <= k < s.len() ==> s[k] != c,
{
    if s.contains(c) {
        lemma_first_exists(s, c);
    }
}

proof fn lemma_first_exists(s: Seq<char>, c: char)
    requires
        s.contains(c),
    ensures
        exists|i: int| is_first(s, c, i),
    decreases s.len(),
{
    if s[0] == c {
        assert(is_first(s, c, 0));
    } else {
        let k = choose|k: int| 0 <= k < s.len() && s[k] == c;
        assert(s.drop_first()[k - 1] == c);
        lemma_first_exists(s.drop_first(), c);
        let i = choose|i: int| is_first(s.drop_first(), c, i);
        assert forall|m: int| 0 <= m < i + 1 implies s[m] != c by {
            if m > 0 {
                assert(s[m] == s.drop_first()[m - 1]);
            }
        }
        assert(is_first(s, c, i + 1));
    }
}

/// `s` holds no `c`.
pub open spec fn lacks(s: Seq<char>, c: char) -> bool {
    forall|k: int| 0 <= k < s.len() ==> s[k] != c
}

pub proof fn lemma_lacks_concat(p: Seq<char>, q: Seq<char>, c: char)
    requires
        lacks(p, c),
        lacks(q, c),
    ensures
        lacks(p + q, c),
{
    assert forall|k: int| 0 <= k < (p + q).len() implies (p + q)[k] != c by {
        if k >= p.len() {
            assert((p + q)[k] == q[k - p.len()]);
        }
    }
}

/// The first `c` of `p + q` is the first of `q` when `p` holds none.
pub proof fn lemma_first_after(p: Seq<char>, q: Seq<char>, c: char)
    requires
        lacks(p, c),
        q.len() > 0,
        q[0] == c,
    ensures
        find_char(p + q, c) == Some(p.len() as int),
{
    assert((p + q)[p.len() as int] == c);
    lemma_find_char_first(p + q, c, p.len() as int);
}

/// A sequence without `c` has no position for it.
pub proof fn lemma_find_char_none(s: Seq<char>, c: char)
    requires
        forall|k: int| 0 <= k < s.len() ==> s[k] != c,
    ensures
        find_char(s, c) == None::<int>,
{
    if s.contains(c) {
        let k = choose|k: int| 0 <= k < s.len() && s[k] == c;
        assert(s[k] == c);
    }
}

/// The position of the first `c` in `chars[lo..hi]`, as an index of `chars`.
pub fn find_in(chars: &Vec<char>, lo: usize, hi: usize, c: char) -> (r: Option<usize>)
    requires
        lo <= hi <= chars.len(),
    ensures
        match r {
            Some(i) => lo <= i < hi && find_char(chars@.subrange(lo as int, hi as int), c) == Some(
                i - lo,
            ),
            None => find_char(chars@.subrange(lo as int, hi as int), c) == None::<int>,
        },
{
    let ghost s = chars@.subrange(lo as int, hi as int);
    let mut i = lo;
    while i < hi
        invariant
            lo <= i <= hi <= chars.len(),
            s == chars@.subrange(lo as int, hi as int),
            forall|k: int| 0 <= k < i - lo ==> s[k] != c,
        decreases hi - i,
    {
        if chars[i] == c {
            proof {
                lemma_find_char_first(s, c, i - lo);
            }
            return Some(i);
        }
        i = i + 1;
    }
    proof {
        lemma_find_char_none(s, c);
    }
    None
}

/// `chars[lo..hi]` is the text of `word`.
pub fn range_is(chars: &Vec<char>, lo: usize, hi: usize, word: &str) -> (b: bool)
    requires
        lo <= hi <= chars.len(),
    ensures
        b == (chars@.subrange(lo as int, hi as int) == word@),
{
    let len = word.unicode_len();
    if hi - lo != len {
        return false;
    }
    let mut i: usize = 0;
    while i < len
        invariant
            lo <= hi <= chars.len(),
            hi - lo == len == word@.len(),
            0 <= i <= len,
            forall|k: int| 0 <= k < i ==> chars@[lo + k] == word@[k],
        decreases len - i,
    {
        if chars[lo + i] != word.get_char(i) {
            assert(chars@.subrange(lo as int, hi as int)[i as int] != word@[i as int]);
            return false;
        }
        i = i + 1;
    }
    assert(chars@.subrange(lo as int, hi as int) =~= word@);
    true
}

// ---------------------------------------------------------------- numbers

/// The character of the decimal digit `d` (for `0 <= d < 10`).
pub open spec fn digit_char(d: int) -> char {
    (d + 48) as char
}

pub open spec fn is_digit(c: char) -> bool {
    '0' <= c && c <= '9'
}

pub open spec fn digit_value(c: char) -> int {
    c as int - 48
}

/// Decimal rendering of a natural number, most significant digit first,
/// without sign or leading zeros (what `to_string` gives for an unsigned integer).
pub open spec fn dec(n: nat) -> Seq<char>
    decreases n,
{
    if n < 10 {
        seq![digit_char(n as int)]
    } else {
        dec(n / 10).push(digit_char((n % 10) as int))
    }
}

/// Why a text is not an unsigned integer (the kinds of `ParseIntError` that an
/// unsigned type can give).
#[derive(PartialEq, Eq, Structural, Debug, Clone, Copy)]
pub enum NumberError {
    /// The text is empty.
    Empty,
    /// A character that is not a decimal digit, or a lone `+`.
    InvalidDigit,
    /// The value exceeds the type's maximum.
    Overflow,
}

/// Reading the digits `d` from left to right, as `from_str` does: the first
/// position that holds a non-digit, or at which the value so far exceeds `max`, decides the error.
pub open spec fn digits_value(d: Seq<char>, max: int) -> Result<int, NumberError>
    decreases d.len(),
{
    if d.len() == 0 {
        Ok(0)
    } else {
        match digits_value(d.drop_last(), max) {
            Err(e) => Err(e),
            Ok(v) => if !is_digit(d.last()) {
                Err(NumberError::InvalidDigit)
            } else if v * 10 + digit_value(d.last()) > max {
                Err(NumberError::Overflow)
            } else {
                Ok(v * 10 + digit_value(d.last()))
            },
        }
    }
}

/// What `str::parse` gives for an unsigned integer type whose maximum is `max`:
/// an optional `+`, then at least one decimal digit.
pub open spec fn parse_uint(s: Seq<char>, max: int) -> Result<int, NumberError> {
    if s.len() == 0 {
        Err(NumberError::Empty)
    } else if s[0] == '+' {
        if s.len() == 1 {
            Err(NumberError::InvalidDigit)
        } else {
            digits_value(s.drop_first(), max)
        }
    } else {
        digits_value(s, max)
    }
}

proof fn lemma_digits_value_bounds(d: Seq<char>, max: int)
    requires
        0 <= max,
    ensures
        digits_value(d, max) matches Ok(v) ==> 0 <= v <= max,
    decreases d.len(),
{
    if d.len() > 0 {
        lemma_digits_value_bounds(d.drop_last(), max);
    }
}

/// Reads `chars[lo..hi]` as an unsigned integer no greater than `max`.
pub fn parse_uint_in(chars: &Vec<char>, lo: usize, hi: usize, max: u64) -> (r: Result<
    u64,
    NumberError,
>)
    requires
        lo <= hi <= chars.len(),
    ensures
        match parse_uint(chars@.subrange(lo as int, hi as int), max as int) {
            Ok(v) => r == Ok::<u64, NumberError>(v as u64),
            Err(e) => r == Err::<u64, NumberError>(e),
        },
        r matches Ok(v) ==> v <= max,
        parse_uint(chars@.subrange(lo as int, hi as int), max as int) matches Ok(v) ==> 0 <= v
            <= max,
{
    let ghost s = chars@.subrange(lo as int, hi as int);
    if lo == hi {
        return Err(NumberError::Empty);
    }
    let mut start = lo;
    if chars[lo] == '+' {
        if hi - lo == 1 {
            return Err(NumberError::InvalidDigit);
        }
        start = lo + 1;
        assert(s.drop_first() =~= chars@.subrange(start as int, hi as int));
    } else {
        assert(s =~= chars@.subrange(start as int, hi as int));
    }
    let mut acc: u64 = 0;
    let mut i = start;
    while i < hi
        invariant
            lo <= start <= i <= hi <= chars.len(),
            parse_uint(chars@.subrange(lo as int, hi as int), max as int) == digits_value(
                chars@.subrange(start as int, hi as int),
                max as int,
            ),
            digits_value(chars@.subrange(start as int, i as int), max as int) == Ok::<
                int,
                NumberError,
            >(acc as int),
        decreases hi - i,
    {
        let ghost d = chars@.subrange(start as int, i + 1);
        assert(d.drop_last() =~= chars@.subrange(start as int, i as int));
        let c = chars[i];
        assert(d.last() == c);
        proof {
            lemma_digits_value_bounds(chars@.subrange(start as int, i as int), max as int);
        }
        if !('0' <= c && c <= '9') {
            assert(digits_value(d, max as int) == Err::<int, NumberError>(NumberError::InvalidDigit));
            proof {
                assert(chars@.subrange(start as int, hi as int).take((i - start + 1) as int)
                    =~= d);
                lemma_digits_value_error_extends(chars@.subrange(start as int, hi as int), (i
                    - start + 1) as int, max as int);
            }
            return Err(NumberError::InvalidDigit);
        }
        let digit = (c as u32 - 48) as u64;
        assert(digit == digit_value(c));
        if (acc as u128) * 10 + (digit as u128) > (max as u128) {
            assert(digits_value(d, max as int) == Err::<int, NumberError>(NumberError::Overflow));
            proof {
                assert(chars@.subrange(start as int, hi as int).take((i - start + 1) as int)
                    =~= d);
                lemma_digits_value_error_extends(chars@.subrange(start as int, hi as int), (i
                    - start + 1) as int, max as int);
            }
            return Err(NumberError::Overflow);
        }
        acc = acc * 10 + digit;
        i = i + 1;
    }
    proof {
        lemma_digits_value_bounds(chars@.subrange(start as int, hi as int), max as int);
    }
    Ok(acc)
}

/// Once a prefix of the digits is refused, the whole is refused the same way.
proof fn lemma_digits_value_error_extends(d: Seq<char>, k: int, max: int)
    requires
        0 <= k <= d.len(),
        digits_value(d.take(k), max) is Err,
    ensures
        digits_value(d, max) == digits_value(d.take(k), max),
    decreases d.len() - k,
{
    if k < d.len() {
        assert(d.take(k + 1).drop_last() =~= d.take(k));
        lemma_digits_value_error_extends(d, k + 1, max);
    } else {
        assert(d.take(k) =~= d);
    }
}

/// Appends a literal piece of text.
pub(crate) fn push_piece(out: &mut String, piece: &str, Ghost(text): Ghost<Seq<char>>)
    requires
        piece@ == text,
    ensures
        final(out)@ == old(out)@ + text,
{
    out.append(piece);
}

/// Appends the digit character of `d`.
fn push_digit(out: &mut String, d: u64)
    requires
        d < 10,
    ensures
        final(out)@ == old(out)@.push(digit_char(d as int)),
{
    proof {
        reveal_strlit("0");
        reveal_strlit("1");
        reveal_strlit("2");
        reveal_strlit("3");
        reveal_strlit("4");
        reveal_strlit("5");
        reveal_strlit("6");
        reveal_strlit("7");
        reveal_strlit("8");
        reveal_strlit("9");
    }
    let digit = match d {
        0 => "0",
        1 => "1",
        2 => "2",
        3 => "3",
        4 => "4",
        5 => "5",
        6 => "6",
        7 => "7",
        8 => "8",
        _ => "9",
    };
    out.append(digit);
    assert(final(out)@ =~= old(out)@.push(digit_char(d as int)));
}

/// Appends the decimal rendering of `n`.
pub fn push_decimal(out: &mut String, n: u64)
    ensures
        final(out)@ == old(out)@ + dec(n as nat),
    decreases n,
{
    if n >= 10 {
        push_decimal(out, n / 10);
    }
    push_digit(out, n % 10);
    assert(final(out)@ =~= old(out)@ + dec(n as nat));
}

/// The characters of `s`, in order.
pub fn chars_of(s: &str) -> (v: Vec<char>)
    ensures
        v@ == s@,
{
    broadcast use vstd::string::group_string_axioms;

    let mut v: Vec<char> = Vec::new();
    for c in it: s.chars()
        invariant
            v@ == it.seq().take(it.index() as int),
    {
        v.push(c);
    }
    v
}

// ---------------------------------------------------------------- lemmas on numbers

pub proof fn lemma_digit_char(d: int)
    requires
        0 <= d < 10,
    ensures
        is_digit(digit_char(d)),
        digit_value(digit_char(d)) == d,
        !is_space(digit_char(d)),
        digit_char(d) != '+',
{
}

/// The decimal rendering is made of digits only.
pub proof fn lemma_dec_digits(n: nat)
    ensures
        dec(n).len() >= 1,
        forall|i: int| 0 <= i < dec(n).len() ==> is_digit(#[trigger] dec(n)[i]) && !is_space(
            dec(n)[i],
        ),
    decreases n,
{
    if n < 10 {
        lemma_digit_char(n as int);
    } else {
        lemma_dec_digits(n / 10);
        lemma_digit_char((n % 10) as int);
    }
}

/// Reading back a decimal rendering gives the number.
pub proof fn lemma_parse_dec(n: nat, max: int)
    requires
        n <= max,
    ensures
        digits_value(dec(n), max) == Ok::<int, NumberError>(n as int),
        parse_uint(dec(n), max) == Ok::<int, NumberError>(n as int),
    decreases n,
{
    lemma_dec_digits(n);
    if n < 10 {
        lemma_digit_char(n as int);
        assert(dec(n).drop_last() =~= Seq::<char>::empty());
        assert(digits_value(Seq::<char>::empty(), max) == Ok::<int, NumberError>(0));
        assert(dec(n).last() == digit_char(n as int));
    } else {
        lemma_parse_dec(n / 10, max);
        lemma_digit_char((n % 10) as int);
        assert(dec(n).drop_last() =~= dec(n / 10));
        assert(dec(n).last() == digit_char((n % 10) as int));
        assert((n / 10) * 10 + n % 10 == n);
    }
    assert(dec(n)[0] != '+');
}

} // verus!
