//! Parsing of the tab-separated input: splitting text into lines and
//! fields, the grammar of the decimal seconds fields, and the derivation
//! of a millisecond count from a record's start time.

use vstd::prelude::*;
use vstd::pervasive::unreached;
use vstd::string::StrSliceExecFns;
use crate::digits::{digit_val, digits_val, all_digits, is_digit};

verus! {

/// Saturation bound for stored millisecond counts: one more than a day.
/// Any count at or above it is out of range either way, so parsing may
/// saturate there without changing which records are valid.
pub const MILLIS_SAT: u64 = 86_400_001;

/// Saturating cap of a (possibly huge) millisecond count at `MILLIS_SAT`.
pub open spec fn clamp_millis(m: int) -> int {
    if m > MILLIS_SAT as int {
        MILLIS_SAT as int
    } else {
        m
    }
}

/// Index of the first occurrence of `c` in `s`, or `s.len()` if absent.
pub open spec fn find_char(s: Seq<char>, c: char) -> int
    decreases s.len(),
{
    if s.len() == 0 {
        0
    } else if s[0] == c {
        0
    } else {
        1 + find_char(s.subrange(1, s.len() as int), c)
    }
}

/// `find_char` returns a position within `[0, s.len()]`, everything before
/// it differs from `c`, and the position itself holds `c` when in range.
pub proof fn lemma_find_char_props(s: Seq<char>, c: char)
    ensures
        0 <= find_char(s, c) <= s.len(),
        forall|i: int| 0 <= i < find_char(s, c) ==> s[i] != c,
        find_char(s, c) < s.len() ==> s[find_char(s, c)] == c,
    decreases s.len(),
{
    if s.len() == 0 {
    } else if s[0] == c {
    } else {
        let t = s.subrange(1, s.len() as int);
        lemma_find_char_props(t, c);
        assert(forall|i: int| 0 <= i < find_char(t, c) ==> t[i] != c);
        assert(forall|i: int| 1 <= i < find_char(s, c) ==> s[i] == t[i - 1] && t[i - 1] != c);
    }
}

/// The characterization of `find_char` pins it down: a position with no `c`
/// before it, and `c` at it unless it is the length, is the result.
pub proof fn lemma_find_char_is(s: Seq<char>, c: char, k: int)
    requires
        0 <= k <= s.len(),
        forall|i: int| 0 <= i < k ==> s[i] != c,
        k < s.len() ==> s[k] == c,
    ensures
        find_char(s, c) == k,
{
    lemma_find_char_props(s, c);
    let f = find_char(s, c);
    if f < k {
        assert(s[f] != c);
    } else if f > k {
        assert(s[k] != c);
    }
}

/// A line with its trailing carriage return, if any, removed.
pub open spec fn strip_cr(l: Seq<char>) -> Seq<char> {
    if l.len() > 0 && l.last() == '\r' {
        l.drop_last()
    } else {
        l
    }
}

/// The lines of a text: maximal newline-free runs, each with a trailing
/// carriage return removed, where a final newline ends the last line
/// rather than opening an empty one.
pub open spec fn split_lines(s: Seq<char>) -> Seq<Seq<char>>
    decreases s.len(),
    via split_lines_decreases
{
    if s.len() == 0 {
        Seq::empty()
    } else {
        let k = find_char(s, '\n');
        if k == s.len() {
            seq![strip_cr(s)]
        } else {
            seq![strip_cr(s.subrange(0, k))] + split_lines(s.subrange(k + 1, s.len() as int))
        }
    }
}

#[via_fn]
proof fn split_lines_decreases(s: Seq<char>) {
    lemma_find_char_props(s, '\n');
}

/// One scanning step of `split_lines`: when `k` is the position of the
/// first newline at or after `pos` (or the text's length when none is
/// left), the line at ordinal `idx` is the run `[pos, k)` with its
/// carriage return stripped, and the lines after it are the lines of the
/// text after the newline.
pub proof fn lemma_split_lines_step(
    whole: Seq<char>,
    pos: int,
    k: int,
    lines: Seq<Seq<char>>,
    idx: int,
)
    requires
        0 <= pos <= k <= whole.len(),
        pos < whole.len(),
        lines == split_lines(whole),
        0 <= idx <= lines.len(),
        split_lines(whole.subrange(pos, whole.len() as int)) == lines.subrange(
            idx,
            lines.len() as int,
        ),
        forall|i: int| pos <= i < k ==> whole[i] != '\n',
        k < whole.len() ==> whole[k] == '\n',
    ensures
        idx < lines.len(),
        lines[idx] == strip_cr(whole.subrange(pos, k)),
        k < whole.len() ==> split_lines(whole.subrange(k + 1, whole.len() as int)) == lines
            .subrange(idx + 1, lines.len() as int),
        k == whole.len() ==> idx + 1 == lines.len(),
{
    let wl = whole.len() as int;
    let suffix = whole.subrange(pos, wl);
    assert(forall|i: int| 0 <= i < k - pos ==> suffix[i] == whole[pos + i] && whole[pos + i]
        != '\n');
    assert(k < wl ==> suffix[k - pos] == whole[k]);
    lemma_find_char_is(suffix, '\n', k - pos);
    let tail_lines = lines.subrange(idx, lines.len() as int);
    if k == wl {
        assert(split_lines(suffix) =~~= seq![strip_cr(suffix)]);
        assert(suffix =~= whole.subrange(pos, k));
        assert(tail_lines.len() == 1);
        assert(lines[idx] == tail_lines[0]);
    } else {
        let kk = k - pos;
        assert(split_lines(suffix) == seq![strip_cr(suffix.subrange(0, kk))] + split_lines(
            suffix.subrange(kk + 1, suffix.len() as int),
        ));
        assert(suffix.subrange(0, kk) =~= whole.subrange(pos, k));
        assert(suffix.subrange(kk + 1, suffix.len() as int) =~= whole.subrange(k + 1, wl));
        assert(tail_lines.len() >= 1);
        assert(lines[idx] == tail_lines[0]);
        assert(split_lines(whole.subrange(k + 1, wl)) =~~= tail_lines.subrange(
            1,
            tail_lines.len() as int,
        ));
        assert(tail_lines.subrange(1, tail_lines.len() as int) =~~= lines.subrange(
            idx + 1,
            lines.len() as int,
        ));
    }
}

/// The three tab-separated fields of a record line, or nothing when the
/// line does not hold exactly two tabs.
pub open spec fn line_split(line: Seq<char>) -> Option<(Seq<char>, Seq<char>, Seq<char>)> {
    let t1 = find_char(line, '\t');
    if t1 == line.len() {
        None
    } else {
        let rest = line.subrange(t1 + 1, line.len() as int);
        let t2 = find_char(rest, '\t');
        if t2 == rest.len() {
            None
        } else {
            let tail = rest.subrange(t2 + 1, rest.len() as int);
            if find_char(tail, '\t') == tail.len() {
                Some((line.subrange(0, t1), rest.subrange(0, t2), tail))
            } else {
                None
            }
        }
    }
}

/// The grammar of a seconds field: an unsigned decimal numeral, digits
/// with at most one point and at least one digit. A sign, an exponent or
/// anything else is rejected; in particular a negative start time is a
/// parse failure, which closes the range check against negative input.
pub open spec fn dec_ok(f: Seq<char>) -> bool {
    let k = find_char(f, '.');
    if k == f.len() {
        f.len() >= 1 && all_digits(f)
    } else {
        f.len() >= 2 && all_digits(f.subrange(0, k)) && all_digits(
            f.subrange(k + 1, f.len() as int),
        )
    }
}

/// Fractional digit `i` of a fractional part, zero beyond its end.
pub open spec fn frac_digit(fp: Seq<char>, i: int) -> int {
    if i < fp.len() {
        digit_val(fp[i])
    } else {
        0
    }
}

/// The whole milliseconds written by a decimal seconds numeral: the
/// integer part in milliseconds plus the first three fractional digits;
/// fractional digits beyond the third are truncated away.
pub open spec fn dec_millis(f: Seq<char>) -> int {
    let k = find_char(f, '.');
    if k == f.len() {
        digits_val(f) * 1000
    } else {
        let fp = f.subrange(k + 1, f.len() as int);
        digits_val(f.subrange(0, k)) * 1000 + frac_digit(fp, 0) * 100 + frac_digit(fp, 1) * 10
            + frac_digit(fp, 2)
    }
}

/// A digit string writes a non-negative value.
pub proof fn lemma_digits_val_nonneg(s: Seq<char>)
    requires
        all_digits(s),
    ensures
        digits_val(s) >= 0,
    decreases s.len(),
{
    if s.len() > 0 {
        lemma_digits_val_nonneg(s.drop_last());
    }
}

/// First position of `c` in `s` at or after `from`, or `n` if absent there.
pub(crate) fn find_from(s: &str, from: usize, n: usize, c: char) -> (k: usize)
    requires
        from <= n,
        n == s@.len(),
    ensures
        from <= k <= n,
        forall|i: int| from <= i < k ==> s@[i] != c,
        k < n ==> s@[k as int] == c,
{
    let mut j: usize = from;
    while j < n
        invariant
            from <= j <= n,
            n == s@.len(),
            forall|i: int| from <= i < j ==> s@[i] != c,
        decreases n - j,
    {
        if s.get_char(j) == c {
            return j;
        }
        j = j + 1;
    }
    j
}

/// The value of a digit character.
fn digit_of(c: char) -> (d: u64)
    requires
        is_digit(c),
    ensures
        d == digit_val(c),
{
    match c {
        '0' => 0,
        '1' => 1,
        '2' => 2,
        '3' => 3,
        '4' => 4,
        '5' => 5,
        '6' => 6,
        '7' => 7,
        '8' => 8,
        '9' => 9,
        _ => unreached(),
    }
}

/// Reads the digit run `s[from..to]`, saturating its value at `MILLIS_SAT`.
/// Yields nothing when some character of the run is no digit.
fn scan_digits(s: &str, from: usize, to: usize) -> (r: Option<u64>)
    requires
        from <= to <= s@.len(),
    ensures
        r is Some <==> all_digits(s@.subrange(from as int, to as int)),
        r is Some ==> r->0 == clamp_millis(digits_val(s@.subrange(from as int, to as int))),
{
    let mut acc: u64 = 0;
    let mut j: usize = from;
    while j < to
        invariant
            from <= j <= to <= s@.len(),
            all_digits(s@.subrange(from as int, j as int)),
            acc == clamp_millis(digits_val(s@.subrange(from as int, j as int))),
            acc <= MILLIS_SAT,
        decreases to - j,
    {
        let ghost pre = s@.subrange(from as int, j as int);
        let c = s.get_char(j);
        let d: u64 = match c {
            '0' => 0,
            '1' => 1,
            '2' => 2,
            '3' => 3,
            '4' => 4,
            '5' => 5,
            '6' => 6,
            '7' => 7,
            '8' => 8,
            '9' => 9,
            _ => {
                proof {
                    assert(!is_digit(s@.subrange(from as int, to as int)[j - from]));
                }
                return None;
            },
        };
        let t: u64 = acc * 10 + d;
        let next: u64 = if t > MILLIS_SAT {
            MILLIS_SAT
        } else {
            t
        };
        proof {
            let cur = s@.subrange(from as int, j + 1);
            assert(cur.drop_last() =~= pre);
            assert(cur.last() == c);
            assert(digits_val(cur) == digits_val(pre) * 10 + digit_val(c));
            lemma_digits_val_nonneg(pre);
            assert(forall|i: int| 0 <= i < cur.len() ==> is_digit(#[trigger] cur[i]));
        }
        acc = next;
        j = j + 1;
    }
    proof {
        assert(s@.subrange(from as int, j as int) =~= s@.subrange(from as int, to as int));
    }
    Some(acc)
}

/// Parses a decimal seconds field into whole milliseconds, saturated at
/// `MILLIS_SAT`. Yields nothing exactly when the field breaks the grammar.
pub fn parse_millis(f: &str) -> (r: Option<u64>)
    ensures
        r is Some <==> dec_ok(f@),
        r is Some ==> r->0 == clamp_millis(dec_millis(f@)),
{
    let n = f.unicode_len();
    let k = find_from(f, 0, n, '.');
    proof {
        lemma_find_char_is(f@, '.', k as int);
    }
    if k == n {
        if n < 1 {
            return None;
        }
        let ip = match scan_digits(f, 0, n) {
            Some(v) => v,
            None => {
                return None;
            },
        };
        proof {
            assert(f@.subrange(0, n as int) =~= f@);
            lemma_digits_val_nonneg(f@);
            let v = digits_val(f@);
            assert(clamp_millis(clamp_millis(v) * 1000) == clamp_millis(v * 1000));
        }
        let t: u64 = ip * 1000;
        let r: u64 = if t > MILLIS_SAT {
            MILLIS_SAT
        } else {
            t
        };
        Some(r)
    } else {
        if n < 2 {
            return None;
        }
        let ip = match scan_digits(f, 0, k) {
            Some(v) => v,
            None => {
                return None;
            },
        };
        let ghost fp = f@.subrange(k + 1, f@.len() as int);
        match scan_digits(f, k + 1, n) {
            Some(_) => {},
            None => {
                return None;
            },
        };
        let mut fr: u64 = 0;
        if k + 1 < n {
            proof {
                assert(is_digit(fp[0]));
            }
            fr = fr + 100 * digit_of(f.get_char(k + 1));
            if k + 2 < n {
                proof {
                    assert(is_digit(fp[1]));
                }
                fr = fr + 10 * digit_of(f.get_char(k + 2));
                if k + 3 < n {
                    proof {
                        assert(is_digit(fp[2]));
                    }
                    fr = fr + digit_of(f.get_char(k + 3));
                }
            }
        }
        proof {
            assert(fr == frac_digit(fp, 0) * 100 + frac_digit(fp, 1) * 10 + frac_digit(fp, 2));
            assert(0 <= fr <= 999);
            lemma_digits_val_nonneg(f@.subrange(0, k as int));
            let v = digits_val(f@.subrange(0, k as int));
            assert(clamp_millis(clamp_millis(v) * 1000 + fr) == clamp_millis(v * 1000 + fr));
        }
        let t: u64 = ip * 1000 + fr;
        let r: u64 = if t > MILLIS_SAT {
            MILLIS_SAT
        } else {
            t
        };
        Some(r)
    }
}

/// One input record: start and stop times in whole milliseconds, each
/// saturated at `MILLIS_SAT`, and the single type character. Only the
/// start time feeds the conversion; the other two fields must merely be
/// present and well formed.
#[derive(Clone, Copy, Debug, PartialEq, Eq, Structural)]
pub struct Beat {
    pub start_millis: u64,
    pub stop_millis: u64,
    pub b_type: char,
}

/// A line parses into a record: exactly three tab-separated fields, two
/// decimal seconds numerals and a one-character type code.
pub open spec fn line_ok(line: Seq<char>) -> bool {
    match line_split(line) {
        Some(fields) => dec_ok(fields.0) && dec_ok(fields.1) && fields.2.len() == 1,
        None => false,
    }
}

/// The start time of a well-formed line, in whole milliseconds.
pub open spec fn line_start_millis(line: Seq<char>) -> int {
    dec_millis((line_split(line)->0).0)
}

/// The stop time of a well-formed line, in whole milliseconds.
pub open spec fn line_stop_millis(line: Seq<char>) -> int {
    dec_millis((line_split(line)->0).1)
}

/// The type character of a well-formed line.
pub open spec fn line_b_type(line: Seq<char>) -> char {
    (line_split(line)->0).2[0]
}

/// Parses one record line. Yields a record exactly when the line has
/// three tab-separated fields of the expected shapes; the record carries
/// both times saturated at `MILLIS_SAT` and the type character.
pub fn parse_line(line: &str) -> (r: Option<Beat>)
    ensures
        r is Some <==> line_ok(line@),
        r is Some ==> r->0.start_millis == clamp_millis(line_start_millis(line@)),
        r is Some ==> r->0.stop_millis == clamp_millis(line_stop_millis(line@)),
        r is Some ==> r->0.b_type == line_b_type(line@),
{
    let n = line.unicode_len();
    let t1 = find_from(line, 0, n, '\t');
    proof {
        lemma_find_char_is(line@, '\t', t1 as int);
    }
    if t1 == n {
        return None;
    }
    let ghost rest = line@.subrange(t1 + 1, n as int);
    let t2 = find_from(line, t1 + 1, n, '\t');
    proof {
        assert(forall|i: int| 0 <= i < t2 - t1 - 1 ==> rest[i] == line@[t1 + 1 + i]);
        assert(t2 < n ==> rest[t2 - t1 - 1] == line@[t2 as int]);
        lemma_find_char_is(rest, '\t', t2 - t1 - 1);
    }
    if t2 == n {
        return None;
    }
    let ghost tail = rest.subrange(t2 - t1, rest.len() as int);
    let t3 = find_from(line, t2 + 1, n, '\t');
    proof {
        assert(forall|i: int| 0 <= i < t3 - t2 - 1 ==> tail[i] == line@[t2 + 1 + i]);
        assert(t3 < n ==> tail[t3 - t2 - 1] == line@[t3 as int]);
        lemma_find_char_is(tail, '\t', t3 - t2 - 1);
    }
    if t3 < n {
        return None;
    }
    if n - t2 != 2 {
        proof {
            assert(tail.len() != 1);
        }
        return None;
    }
    let f1 = line.substring_char(0, t1);
    let f2 = line.substring_char(t1 + 1, t2);
    proof {
        assert(f2@ =~= rest.subrange(0, t2 - t1 - 1));
    }
    let start = match parse_millis(f1) {
        Some(v) => v,
        None => {
            return None;
        },
    };
    let stop = match parse_millis(f2) {
        Some(v) => v,
        None => {
            return None;
        },
    };
    let ch = line.get_char(t2 + 1);
    proof {
        assert(tail[0] == line@[t2 + 1]);
        assert(tail.len() == 1);
    }
    Some(Beat { start_millis: start, stop_millis: stop, b_type: ch })
}

} // verus!
