//! The tape file: one `kind value` line per entry, in call order.
use vstd::prelude::*;
use crate::tape::{ReplayError, kinds_of, lemma_replay_reproduces_record, replay_run, values_of};
use crate::kind::{Kind, kind_in, kind_name, kind_of, lemma_kind_name_roundtrip};
use crate::text::{
    NumberError, all_space, chars_of, dec, lacks, lemma_lacks_concat, lemma_trim_padding, find_char, find_in, is_first, lemma_dec_digits,
    lemma_find_char_first, lemma_find_char_none, lemma_find_char_some, lemma_parse_dec,
    lemma_trim_around, parse_uint, parse_uint_in, push_decimal, push_piece, trim, trim_range,
};

verus! {

/// Why a text is not a tape.
#[derive(Debug)]
pub enum TapeError {
    /// Line number `line` (from 1) holds `text` (trimmed), which has no space.
    Malformed { line: usize, text: String },
    /// A line names a kind that does not exist.
    UnknownKind { text: String },
    /// A line's value does not read as a `u64`.
    Number(NumberError),
}

/// A `TapeError` with its texts as sequences of characters.
pub enum TapeFault {
    Malformed { line: nat, text: Seq<char> },
    UnknownKind { text: Seq<char> },
    Number(NumberError),
}

impl View for TapeError {
    type V = TapeFault;

    open spec fn view(&self) -> TapeFault {
        match self {
            TapeError::Malformed { line, text } => TapeFault::Malformed {
                line: *line as nat,
                text: text@,
            },
            TapeError::UnknownKind { text } => TapeFault::UnknownKind { text: text@ },
            TapeError::Number(e) => TapeFault::Number(*e),
        }
    }
}

/// The line of one entry: its kind's name, a space, and its value in decimal.
pub open spec fn entry_line(e: (Kind, u64)) -> Seq<char> {
    kind_name(e.0) + seq![' '] + dec(e.1 as nat)
}

/// The lines joined with `\n` between them (no newline after the last).
pub open spec fn join_lines(ls: Seq<Seq<char>>) -> Seq<char>
    decreases ls.len(),
{
    if ls.len() == 0 {
        Seq::empty()
    } else if ls.len() == 1 {
        ls[0]
    } else {
        join_lines(ls.drop_last()) + seq!['\n'] + ls.last()
    }
}

/// The text of a tape file that holds `entries`.
pub open spec fn tape_text(entries: Seq<(Kind, u64)>) -> Seq<char> {
    join_lines(entries.map_values(|e: (Kind, u64)| entry_line(e)))
}

/// Reading one line, number `no` (from 1): blank lines hold no entry; any
/// other, once trimmed, is a kind's name, a space, and a `u64` (whitespace
/// around it allowed).
pub open spec fn parse_line(line: Seq<char>, no: nat) -> Result<Option<(Kind, u64)>, TapeFault> {
    let t = trim(line);
    if t.len() == 0 {
        Ok(None)
    } else {
        match find_char(t, ' ') {
            None => Err(TapeFault::Malformed { line: no, text: t }),
            Some(i) => match kind_of(t.take(i)) {
                None => Err(TapeFault::UnknownKind { text: t.take(i) }),
                Some(k) => match parse_uint(trim(t.skip(i + 1)), u64::MAX as int) {
                    Err(e) => Err(TapeFault::Number(e)),
                    Ok(v) => Ok(Some((k, v as u64))),
                },
            },
        }
    }
}

pub open spec fn optional(o: Option<(Kind, u64)>) -> Seq<(Kind, u64)> {
    match o {
        Some(e) => seq![e],
        None => Seq::empty(),
    }
}

/// Reading a tape text whose first line is number `no`: its lines are the
/// pieces between `\n`s, read in order; the first line that is refused decides the error.
/// (A `\r` before a `\n`, which `str::lines` drops, and a last empty piece,
/// which it does not yield, are removed by trimming and skipping blank lines.)
pub open spec fn parse_text(s: Seq<char>, no: nat) -> Result<Seq<(Kind, u64)>, TapeFault>
    decreases s.len(),
{
    match find_char(s, '\n') {
        None => match parse_line(s, no) {
            Err(e) => Err(e),
            Ok(o) => Ok(optional(o)),
        },
        Some(j) => {
            proof {
                lemma_find_char_some(s, '\n');
            }
            match parse_line(s.take(j), no) {
                Err(e) => Err(e),
                Ok(o) => match parse_text(s.skip(j + 1), no + 1) {
                    Err(e) => Err(e),
                    Ok(es) => Ok(optional(o) + es),
                },
            }
        },
    }
}

/// `es` followed by what `r` read, or the error of `r`.
pub open spec fn prepend(es: Seq<(Kind, u64)>, r: Result<Seq<(Kind, u64)>, TapeFault>) -> Result<
    Seq<(Kind, u64)>,
    TapeFault,
> {
    match r {
        Ok(rest) => Ok(es + rest),
        Err(e) => Err(e),
    }
}

/// The text of a tape file that holds `entries`.
pub fn render_tape(entries: &Vec<(Kind, u64)>) -> (r: String)
    ensures
        r@ == tape_text(entries@),
{
    proof {
        reveal_strlit("\n");
        reveal_strlit(" ");
        assert("\n"@ =~= seq!['\n']);
        assert(" "@ =~= seq![' ']);
    }
    let ghost newline: Seq<char> = seq!['\n'];
    let ghost space: Seq<char> = seq![' '];
    let mut out = String::new();
    let mut i: usize = 0;
    while i < entries.len()
        invariant
            i <= entries.len(),
            newline == seq!['\n'],
            space == seq![' '],
            "\n"@ == newline,
            " "@ == space,
            out@ == tape_text(entries@.take(i as int)),
        decreases entries.len() - i,
    {
        let ghost before = out@;
        let ghost f = |e: (Kind, u64)| entry_line(e);
        assert(entries@.take(i + 1).map_values(f).drop_last() =~= entries@.take(i as int).map_values(f));
        if i > 0 {
            push_piece(&mut out, "\n", Ghost(newline));
        }
        let (kind, value) = entries[i];
        out.append(kind.as_str());
        push_piece(&mut out, " ", Ghost(space));
        push_decimal(&mut out, value);
        assert(entries@.take(i + 1).map_values(f).last() == entry_line((kind, value)));
        if i > 0 {
            assert(out@ =~= before + seq!['\n'] + entry_line((kind, value)));
        } else {
            assert(out@ =~= entry_line((kind, value)));
        }
        i = i + 1;
    }
    assert(entries@.take(entries.len() as int) =~= entries@);
    out
}

/// Reads `chars[lo..hi]`, line number `done + 1`.
fn read_line(text: &str, chars: &Vec<char>, lo: usize, hi: usize, done: usize) -> (r: Result<
    Option<(Kind, u64)>,
    TapeError,
>)
    requires
        lo <= hi <= chars.len(),
        chars@ == text@,
        done <= lo,
    ensures
        match r {
            Ok(o) => parse_line(chars@.subrange(lo as int, hi as int), (done + 1) as nat) == Ok::<
                Option<(Kind, u64)>,
                TapeFault,
            >(o),
            Err(e) => parse_line(chars@.subrange(lo as int, hi as int), (done + 1) as nat) == Err::<
                Option<(Kind, u64)>,
                TapeFault,
            >(e@),
        },
{
    let ghost line = chars@.subrange(lo as int, hi as int);
    let (a, b) = trim_range(chars, lo, hi);
    let ghost t = chars@.subrange(a as int, b as int);
    if a == b {
        return Ok(None);
    }
    match find_in(chars, a, b, ' ') {
        None => {
            let piece = text.substring_char(a, b);
            Err(TapeError::Malformed { line: done + 1, text: String::from_str(piece) })
        },
        Some(space) => {
            assert(t.take(space - a) =~= chars@.subrange(a as int, space as int));
            assert(t.skip(space - a + 1) =~= chars@.subrange(space + 1, b as int));
            match kind_in(chars, a, space) {
                None => {
                    let piece = text.substring_char(a, space);
                    Err(TapeError::UnknownKind { text: String::from_str(piece) })
                },
                Some(kind) => {
                    let (x, y) = trim_range(chars, space + 1, b);
                    match parse_uint_in(chars, x, y, u64::MAX) {
                        Err(e) => Err(TapeError::Number(e)),
                        Ok(v) => Ok(Some((kind, v))),
                    }
                },
            }
        },
    }
}

/// Reads a tape file: one entry per line that is not blank.
pub fn parse_tape(text: &str) -> (r: Result<Vec<(Kind, u64)>, TapeError>)
    ensures
        match r {
            Ok(es) => parse_text(text@, 1) == Ok::<Seq<(Kind, u64)>, TapeFault>(es@),
            Err(e) => parse_text(text@, 1) == Err::<Seq<(Kind, u64)>, TapeFault>(e@),
        },
{
    let chars = chars_of(text);
    let n = chars.len();
    let mut entries: Vec<(Kind, u64)> = Vec::new();
    let mut start: usize = 0;
    let mut done: usize = 0;
    assert(chars@.skip(0) =~= chars@);
    assert(entries@ + Seq::<(Kind, u64)>::empty() =~= entries@);
    loop
        invariant
            start <= n == chars.len(),
            done <= start,
            chars@ == text@,
            prepend(entries@, parse_text(chars@.skip(start as int), (done + 1) as nat))
                == parse_text(text@, 1),
        decreases n - start,
    {
        let ghost s = chars@.skip(start as int);
        assert(s =~= chars@.subrange(start as int, n as int));
        let found = find_in(&chars, start, n, '\n');
        let end = match found {
            Some(j) => j,
            None => n,
        };
        let ghost before = entries@;
        let line = read_line(text, &chars, start, end, done);
        match found {
            None => {
                match line {
                    Err(e) => {
                        return Err(e);
                    },
                    Ok(o) => {
                        match o {
                            Some(entry) => {
                                entries.push(entry);
                            },
                            None => {},
                        }
                        assert(entries@ =~= before + optional(o));
                        return Ok(entries);
                    },
                }
            },
            Some(j) => {
                assert(s.take(j - start) =~= chars@.subrange(start as int, j as int));
                assert(s.skip(j - start + 1) =~= chars@.skip(j + 1));
                match line {
                    Err(e) => {
                        return Err(e);
                    },
                    Ok(o) => {
                        match o {
                            Some(entry) => {
                                entries.push(entry);
                            },
                            None => {},
                        }
                        assert(entries@ =~= before + optional(o));
                        proof {
                            let rest = parse_text(chars@.skip(j + 1), (done + 2) as nat);
                            if rest is Ok {
                                assert(before + (optional(o) + rest->Ok_0) =~= entries@
                                    + rest->Ok_0);
                            }
                        }
                        start = j + 1;
                        done = done + 1;
                    },
                }
            },
        }
    }
}

proof fn lemma_join_front(ls: Seq<Seq<char>>)
    requires
        ls.len() >= 2,
    ensures
        join_lines(ls) == ls[0] + seq!['\n'] + join_lines(ls.drop_first()),
    decreases ls.len(),
{
    if ls.len() == 2 {
        assert(ls.drop_last().len() == 1);
        assert(ls.drop_first().len() == 1);
        assert(join_lines(ls.drop_last()) == ls[0]);
        assert(join_lines(ls.drop_first()) == ls[1]);
        assert(join_lines(ls) =~= ls[0] + seq!['\n'] + join_lines(ls.drop_first()));
    } else {
        lemma_join_front(ls.drop_last());
        assert(ls.drop_last().drop_first() =~= ls.drop_first().drop_last());
        assert(ls.drop_last()[0] == ls[0]);
        assert(ls.drop_first().last() == ls.last());
        assert(join_lines(ls.drop_first()) == join_lines(ls.drop_first().drop_last()) + seq!['\n']
            + ls.drop_first().last());
        assert(join_lines(ls) =~= ls[0] + seq!['\n'] + join_lines(ls.drop_first()));
    }
}

proof fn lemma_kind_name_chars(k: Kind)
    ensures
        kind_name(k).len() > 0,
        forall|i: int| 0 <= i < kind_name(k).len() ==> 'a' <= #[trigger] kind_name(k)[i] <= 'z',
{
}

/// The line of an entry has no newline, and reads back as that entry.
proof fn lemma_entry_line(e: (Kind, u64), no: nat)
    ensures
        forall|i: int| 0 <= i < entry_line(e).len() ==> #[trigger] entry_line(e)[i] != '\n',
        parse_line(entry_line(e), no) == Ok::<Option<(Kind, u64)>, TapeFault>(Some(e)),
{
    let name = kind_name(e.0);
    let digits = dec(e.1 as nat);
    let line = entry_line(e);
    lemma_kind_name_chars(e.0);
    lemma_dec_digits(e.1 as nat);
    assert forall|i: int| 0 <= i < line.len() implies #[trigger] line[i] != '\n' by {
        if i < name.len() {
            assert(line[i] == name[i]);
        } else if i > name.len() {
            assert(line[i] == digits[i - name.len() - 1]);
        }
    }
    lemma_trim_around(Seq::empty(), line, Seq::empty());
    assert(Seq::<char>::empty() + line + Seq::<char>::empty() =~= line);
    assert(line[0] == name[0]);
    assert(line.last() == digits.last());
    assert(is_first(line, ' ', name.len() as int)) by {
        assert forall|k: int| 0 <= k < name.len() implies line[k] != ' ' by {
            assert(line[k] == name[k]);
        }
    }
    lemma_find_char_first(line, ' ', name.len() as int);
    assert(line.take(name.len() as int) =~= name);
    assert(line.skip((name.len() + 1) as int) =~= digits);
    lemma_kind_name_roundtrip(e.0);
    lemma_trim_around(Seq::empty(), digits, Seq::empty());
    assert(Seq::<char>::empty() + digits + Seq::<char>::empty() =~= digits);
    lemma_parse_dec(e.1 as nat, u64::MAX as int);
}

proof fn lemma_parse_joined(es: Seq<(Kind, u64)>, no: nat)
    requires
        es.len() >= 1,
    ensures
        parse_text(join_lines(es.map_values(|e: (Kind, u64)| entry_line(e))), no) == Ok::<
            Seq<(Kind, u64)>,
            TapeFault,
        >(es),
    decreases es.len(),
{
    let f = |e: (Kind, u64)| entry_line(e);
    let ls = es.map_values(f);
    let first = entry_line(es[0]);
    lemma_entry_line(es[0], no);
    if es.len() == 1 {
        lemma_find_char_none(first, '\n');
        assert(optional(Some(es[0])) =~= es);
    } else {
        lemma_join_front(ls);
        assert(ls.drop_first() =~= es.drop_first().map_values(f));
        lemma_parse_joined(es.drop_first(), no + 1);
        let joined = join_lines(ls);
        let rest = join_lines(ls.drop_first());
        assert(is_first(joined, '\n', first.len() as int)) by {
            assert forall|k: int| 0 <= k < first.len() implies joined[k] != '\n' by {
                assert(joined[k] == first[k]);
            }
        }
        lemma_find_char_first(joined, '\n', first.len() as int);
        assert(joined.take(first.len() as int) =~= first);
        assert(joined.skip((first.len() + 1) as int) =~= rest);
        assert(optional(Some(es[0])) + es.drop_first() =~= es);
    }
}

/// Reading back the text of a tape gives its entries: what a recorded run
/// saves is exactly what its replay loads.
pub proof fn lemma_tape_text_roundtrip(entries: Seq<(Kind, u64)>)
    ensures
        parse_text(tape_text(entries), 1) == Ok::<Seq<(Kind, u64)>, TapeFault>(entries),
{
    if entries.len() == 0 {
        let t = tape_text(entries);
        assert(t.len() == 0);
        lemma_find_char_none(t, '\n');
        assert(trim(t) =~= t);
        assert(optional(None) =~= entries);
    } else {
        lemma_parse_joined(entries, 1);
    }
}

/// A recorded run, saved and loaded again, replays with the same requests to
/// exactly the values it recorded, in order, using the whole tape.
pub proof fn lemma_saved_run_replays(entries: Seq<(Kind, u64)>)
    ensures
        parse_text(tape_text(entries), 1) matches Ok(loaded) && replay_run(loaded, 0, kinds_of(entries))
            == (Ok::<Seq<u64>, ReplayError>(values_of(entries)), entries.len()),
{
    lemma_tape_text_roundtrip(entries);
    lemma_replay_reproduces_record(entries);
}

/// Reading the lines `ls`, the first being number `no`, in order; the first
/// line that is refused decides the error.
pub open spec fn parse_lines(ls: Seq<Seq<char>>, no: nat) -> Result<Seq<(Kind, u64)>, TapeFault>
    decreases ls.len(),
{
    if ls.len() == 0 {
        Ok(Seq::empty())
    } else {
        match parse_line(ls[0], no) {
            Err(e) => Err(e),
            Ok(o) => match parse_lines(ls.drop_first(), no + 1) {
                Err(e) => Err(e),
                Ok(es) => Ok(optional(o) + es),
            },
        }
    }
}

/// Every line of `ls` is free of newlines.
pub open spec fn single_lines(ls: Seq<Seq<char>>) -> bool {
    forall|i: int| 0 <= i < ls.len() ==> lacks(#[trigger] ls[i], '\n')
}

/// A text made of lines joined with newlines reads as those lines, in order.
pub proof fn lemma_parse_text_lines(ls: Seq<Seq<char>>, no: nat)
    requires
        single_lines(ls),
    ensures
        parse_text(join_lines(ls), no) == parse_lines(ls, no),
    decreases ls.len(),
{
    if ls.len() == 0 {
        let t = join_lines(ls);
        lemma_find_char_none(t, '\n');
        assert(trim(t) =~= t);
    } else if ls.len() == 1 {
        assert(lacks(ls[0], '\n'));
        lemma_find_char_none(ls[0], '\n');
        assert(ls.drop_first().len() == 0);
        if parse_line(ls[0], no) is Ok {
            assert(optional(parse_line(ls[0], no)->Ok_0) + Seq::<(Kind, u64)>::empty() =~= optional(
                parse_line(ls[0], no)->Ok_0,
            ));
        }
    } else {
        lemma_join_front(ls);
        assert(single_lines(ls.drop_first())) by {
            assert forall|i: int| 0 <= i < ls.drop_first().len() implies lacks(
                #[trigger] ls.drop_first()[i],
                '\n',
            ) by {
                assert(ls.drop_first()[i] == ls[i + 1]);
            }
        }
        lemma_parse_text_lines(ls.drop_first(), no + 1);
        let first = ls[0];
        assert(lacks(first, '\n'));
        let joined = join_lines(ls);
        let rest = join_lines(ls.drop_first());
        assert(is_first(joined, '\n', first.len() as int)) by {
            assert forall|k: int| 0 <= k < first.len() implies joined[k] != '\n' by {
                assert(joined[k] == first[k]);
            }
        }
        lemma_find_char_first(joined, '\n', first.len() as int);
        assert(joined.take(first.len() as int) =~= first);
        assert(joined.skip((first.len() + 1) as int) =~= rest);
    }
}

/// Line numbers only show in errors: reading the same lines from another
/// first number succeeds or fails alike, with the same entries.
proof fn lemma_renumber(ls: Seq<Seq<char>>, a: nat, b: nat)
    ensures
        parse_lines(ls, a) is Ok <==> parse_lines(ls, b) is Ok,
        parse_lines(ls, a) is Ok ==> parse_lines(ls, a) == parse_lines(ls, b),
    decreases ls.len(),
{
    if ls.len() > 0 {
        lemma_renumber(ls.drop_first(), a + 1, b + 1);
    }
}

proof fn lemma_insert_blank(ls: Seq<Seq<char>>, k: int, blank: Seq<char>, no: nat)
    requires
        0 <= k <= ls.len(),
        all_space(blank),
    ensures
        parse_lines(ls.insert(k, blank), no) is Ok <==> parse_lines(ls, no) is Ok,
        parse_lines(ls, no) is Ok ==> parse_lines(ls.insert(k, blank), no) == parse_lines(ls, no),
    decreases k,
{
    let ls2 = ls.insert(k, blank);
    if k == 0 {
        lemma_trim_padding(blank, Seq::empty(), Seq::empty());
        assert(blank + Seq::<char>::empty() + Seq::<char>::empty() =~= blank);
        assert(ls2[0] == blank);
        assert(ls2.drop_first() =~= ls);
        lemma_renumber(ls, no + 1, no);
        if parse_lines(ls, no + 1) is Ok {
            assert(optional(None) + parse_lines(ls, no + 1)->Ok_0 =~= parse_lines(ls, no + 1)->Ok_0);
        }
    } else {
        assert(ls2[0] == ls[0]);
        assert(ls2.drop_first() =~= ls.drop_first().insert(k - 1, blank));
        lemma_insert_blank(ls.drop_first(), k - 1, blank, no + 1);
    }
}

proof fn lemma_replace_line(ls: Seq<Seq<char>>, k: int, line: Seq<char>, no: nat)
    requires
        0 <= k < ls.len(),
        trim(line) == trim(ls[k]),
    ensures
        parse_lines(ls.update(k, line), no) == parse_lines(ls, no),
    decreases k,
{
    let ls2 = ls.update(k, line);
    if k == 0 {
        assert(ls2.drop_first() =~= ls.drop_first());
    } else {
        assert(ls2[0] == ls[0]);
        assert(ls2.drop_first() =~= ls.drop_first().update(k - 1, line));
        lemma_replace_line(ls.drop_first(), k - 1, line, no + 1);
    }
}

/// Adding a blank (whitespace-only) line anywhere in a tape file does not
/// change whether it reads, nor the entries it reads as.
pub proof fn lemma_blank_line_irrelevant(ls: Seq<Seq<char>>, k: int, blank: Seq<char>)
    requires
        single_lines(ls),
        0 <= k <= ls.len(),
        all_space(blank),
        lacks(blank, '\n'),
    ensures
        parse_text(join_lines(ls.insert(k, blank)), 1) is Ok <==> parse_text(join_lines(ls), 1) is Ok,
        parse_text(join_lines(ls), 1) is Ok ==> parse_text(join_lines(ls.insert(k, blank)), 1)
            == parse_text(join_lines(ls), 1),
{
    let ls2 = ls.insert(k, blank);
    assert(single_lines(ls2)) by {
        assert forall|i: int| 0 <= i < ls2.len() implies lacks(#[trigger] ls2[i], '\n') by {
            if i < k {
                assert(ls2[i] == ls[i]);
            } else if i > k {
                assert(ls2[i] == ls[i - 1]);
            }
        }
    }
    lemma_parse_text_lines(ls, 1);
    lemma_parse_text_lines(ls2, 1);
    lemma_insert_blank(ls, k, blank, 1);
}

/// Whitespace added at the start or end of a line of a tape file changes
/// nothing: the file reads the same, errors included.
pub proof fn lemma_padding_irrelevant(ls: Seq<Seq<char>>, k: int, pre: Seq<char>, post: Seq<char>)
    requires
        single_lines(ls),
        0 <= k < ls.len(),
        all_space(pre),
        all_space(post),
        lacks(pre, '\n'),
        lacks(post, '\n'),
    ensures
        parse_text(join_lines(ls.update(k, pre + ls[k] + post)), 1) == parse_text(join_lines(ls), 1),
{
    let line = pre + ls[k] + post;
    let ls2 = ls.update(k, line);
    assert(lacks(line, '\n')) by {
        assert(lacks(ls[k], '\n'));
        lemma_lacks_concat(pre, ls[k], '\n');
        lemma_lacks_concat(pre + ls[k], post, '\n');
    }
    assert(single_lines(ls2)) by {
        assert forall|i: int| 0 <= i < ls2.len() implies lacks(#[trigger] ls2[i], '\n') by {
            if i != k {
                assert(ls2[i] == ls[i]);
            }
        }
    }
    lemma_trim_padding(pre, ls[k], post);
    lemma_parse_text_lines(ls, 1);
    lemma_parse_text_lines(ls2, 1);
    lemma_replace_line(ls, k, line, 1);
}

} // verus!
