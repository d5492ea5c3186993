//! The conversion pipeline: every record line of the input text becomes
//! one output line `HH:MM:SS.mmm <index>`, in input order, and the first
//! malformed or out-of-range record aborts the whole run with an error
//! naming that record's zero-based index.

use vstd::prelude::*;
use vstd::string::StringExecFns;
use crate::digits::dec_chars;
use crate::reader::{
    clamp_millis, line_ok, line_start_millis, split_lines, parse_line,
};
use crate::timestamp::{valid_millis, timestamp_chars, millis_to_string, u64_to_string};

verus! {

/// Why a run was aborted: the record at `index` either did not parse as a
/// three-field row of the expected shapes, or its derived millisecond
/// count lay outside the valid range of a single day.
#[derive(Clone, Copy, Debug, PartialEq, Eq, Structural)]
pub enum ConvertError {
    Parse { index: usize },
    Range { index: usize },
}

/// The outcome of one record line at ordinal `idx`: its output line, a
/// parse failure, or a range failure.
pub open spec fn line_result(line: Seq<char>, idx: usize) -> Result<Seq<char>, ConvertError> {
    if !line_ok(line) {
        Err(ConvertError::Parse { index: idx })
    } else if !valid_millis(line_start_millis(line)) {
        Err(ConvertError::Range { index: idx })
    } else {
        Ok(
            timestamp_chars(line_start_millis(line)) + seq![' '] + dec_chars(idx as int)
                + seq!['\n'],
        )
    }
}

/// The outcome of the lines from position `i` on: the concatenation of
/// their output lines, or the first failure among them.
pub open spec fn convert_lines(lines: Seq<Seq<char>>, i: int) -> Result<Seq<char>, ConvertError>
    decreases lines.len() - i,
{
    if i < 0 || i >= lines.len() {
        Ok(Seq::empty())
    } else {
        match line_result(lines[i], i as usize) {
            Err(e) => Err(e),
            Ok(s) => match convert_lines(lines, i + 1) {
                Err(e) => Err(e),
                Ok(t) => Ok(s + t),
            },
        }
    }
}

/// The outcome of a whole input text: one output line per record line, in
/// input order, or the first record's failure.
pub open spec fn convert_spec(input: Seq<char>) -> Result<Seq<char>, ConvertError> {
    convert_lines(split_lines(input), 0)
}

/// Converts one record line at ordinal `idx` into its output line
/// `HH:MM:SS.mmm <idx>` followed by a newline, or reports the failure
/// that `line_result` assigns to the line.
pub fn line_to_output(line: &str, idx: usize) -> (r: Result<String, ConvertError>)
    ensures
        r is Ok <==> line_result(line@, idx) is Ok,
        r is Ok ==> r->Ok_0@ == line_result(line@, idx)->Ok_0,
        r is Err ==> r->Err_0 == line_result(line@, idx)->Err_0,
{
    let beat = match parse_line(line) {
        Some(b) => b,
        None => {
            return Err(ConvertError::Parse { index: idx });
        },
    };
    proof {
        let m = line_start_millis(line@);
        assert(valid_millis(clamp_millis(m)) <==> valid_millis(m));
    }
    let mut out = match millis_to_string(beat.start_millis as u128) {
        Some(t) => t,
        None => {
            return Err(ConvertError::Range { index: idx });
        },
    };
    out.append(" ");
    let idx_str = u64_to_string(idx as u64);
    out.append(idx_str.as_str());
    out.append("\n");
    proof {
        reveal_strlit(" ");
        reveal_strlit("\n");
        assert(" "@ =~= seq![' ']);
        assert("\n"@ =~= seq!['\n']);
        let m = line_start_millis(line@);
        assert(clamp_millis(m) == m);
        assert(out@ =~= timestamp_chars(m) + seq![' '] + dec_chars(idx as int) + seq!['\n']);
    }
    Ok(out)
}

/// One unfolding of `convert_lines` at a position in range.
proof fn lemma_convert_lines_unfold(lines: Seq<Seq<char>>, i: int)
    requires
        0 <= i < lines.len(),
    ensures
        convert_lines(lines, i) == (match line_result(lines[i], i as usize) {
            Err(e) => Err::<Seq<char>, ConvertError>(e),
            Ok(s) => match convert_lines(lines, i + 1) {
                Err(e) => Err(e),
                Ok(t) => Ok(s + t),
            },
        }),
{
}

/// Converts a whole input text.
///
/// On success the returned text holds, for each record line of the input
/// in order, the line `HH:MM:SS.mmm <index>` with a trailing newline. On
/// failure the error names the first offending record: `Parse` when the
/// record does not have the three expected fields, `Range` when its start
/// time falls outside the valid millisecond window of one day.
#[verifier::rlimit(60)]
pub fn convert(input: &str) -> (r: Result<String, ConvertError>)
    ensures
        r is Ok <==> convert_spec(input@) is Ok,
        r is Ok ==> r->Ok_0@ == convert_spec(input@)->Ok_0,
        r is Err ==> r->Err_0 == convert_spec(input@)->Err_0,
{
    let ghost lines = split_lines(input@);
    let n = input.unicode_len();
    let mut out = String::new();
    let mut pos: usize = 0;
    let mut idx: usize = 0;
    proof {
        assert(input@.subrange(0, n as int) =~= input@);
        assert(lines.subrange(0, lines.len() as int) =~~= lines);
    }
    while pos < n
        invariant
            n == input@.len(),
            pos <= n,
            idx <= pos,
            idx <= lines.len(),
            lines == split_lines(input@),
            split_lines(input@.subrange(pos as int, n as int)) == lines.subrange(
                idx as int,
                lines.len() as int,
            ),
            match convert_lines(lines, 0) {
                Ok(t) => convert_lines(lines, idx as int) is Ok && t == out@ + convert_lines(
                    lines,
                    idx as int,
                )->Ok_0,
                Err(e) => convert_lines(lines, idx as int) == Err::<Seq<char>, ConvertError>(e),
            },
        decreases n - pos,
    {
        let k = crate::reader::find_from(input, pos, n, '\n');
        proof {
            crate::reader::lemma_split_lines_step(input@, pos as int, k as int, lines, idx as int);
        }
        let line_end = if k > pos && input.get_char(k - 1) == '\r' {
            k - 1
        } else {
            k
        };
        let line = input.substring_char(pos, line_end);
        proof {
            let raw = input@.subrange(pos as int, k as int);
            if k > pos && input@[k - 1] == '\r' {
                assert(raw.last() == '\r');
                assert(raw.drop_last() =~= input@.subrange(pos as int, k - 1));
            }
            assert(line@ == crate::reader::strip_cr(raw));
            assert(lines[idx as int] == line@);
            lemma_convert_lines_unfold(lines, idx as int);
        }
        match line_to_output(line, idx) {
            Err(e) => {
                proof {
                    assert(convert_lines(lines, idx as int) == Err::<Seq<char>, ConvertError>(e));
                }
                return Err(e);
            },
            Ok(s) => {
                let ghost out_pre = out@;
                out.append(s.as_str());
                proof {
                    if k == n {
                        assert(input@.subrange(n as int, n as int) =~= Seq::<char>::empty());
                        assert(split_lines(Seq::<char>::empty()) =~~= lines.subrange(
                            idx + 1,
                            lines.len() as int,
                        ));
                    }
                    match convert_lines(lines, 0) {
                        Ok(t) => {
                            let rest = convert_lines(lines, idx + 1)->Ok_0;
                            assert(t == out_pre + (s@ + rest));
                            assert(out_pre + (s@ + rest) =~= out@ + rest);
                        },
                        Err(_) => {},
                    }
                }
                idx = idx + 1;
                pos = if k < n {
                    k + 1
                } else {
                    n
                };
            },
        }
    }
    proof {
        assert(input@.subrange(pos as int, n as int) =~= Seq::<char>::empty());
        assert(split_lines(Seq::<char>::empty()) == Seq::<Seq<char>>::empty());
        assert(lines.subrange(idx as int, lines.len() as int).len() == 0);
        assert(idx == lines.len());
        assert(convert_lines(lines, idx as int) == Ok::<Seq<char>, ConvertError>(Seq::empty()));
        match convert_lines(lines, 0) {
            Ok(t) => {
                assert(t =~= out@);
            },
            Err(_) => {
                assert(false);
            },
        }
    }
    Ok(out)
}

} // verus!
