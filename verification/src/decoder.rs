//! The Decoder: re-parses dot-run notation line by line with a two-phase
//! state machine and re-derives the original grid letters.
//!
//! Stray characters are skipped, an incomplete trailing token is discarded,
//! and a token whose counters fall outside the Grid Table yields nothing;
//! none of these is an error, and every input line yields one terminated
//! output line.

use vstd::prelude::*;
use crate::grid::{grid_at, grid_char};
use crate::text::{push_char, spec_lines, split_lines};
use vstd::string::{StrSliceExecFns, StringExecFns};

verus! {

/// The two phases of the per-line token parser: counting the row dot-run,
/// then counting the column dot-run.
#[derive(Clone, Copy, PartialEq, Eq, Structural, Debug)]
pub enum Phase {
    CountingRow,
    CountingColumn,
}

/// The letter a completed token with counters `(i, j)` yields.
///
/// Counters are converted to 0-based grid indices by subtracting one; a
/// counter of exactly 0 falls back to index 1 instead of underflowing (a
/// defensive path never taken on well-formed encoder output, whose dot-runs
/// have length at least 1).  An index outside the 5x5 grid yields nothing.
pub open spec fn token_out(i: int, j: int) -> Seq<char> {
    let r = if i == 0 { 1int } else { i - 1 };
    let c = if j == 0 { 1int } else { j - 1 };
    if 0 <= r < 5 && 0 <= c < 5 {
        seq![grid_at(r, c)]
    } else {
        Seq::empty()
    }
}

/// The letters decoded from the rest of a line, starting in `phase` with row
/// counter `i` and column counter `j`.
///
/// In the row phase a `.` counts, a space moves to the column phase, and any
/// other character is skipped.  In the column phase a `.` counts, a space
/// completes the token and resets the state, and any other character is
/// skipped.  Whatever state the line ends in is discarded.
pub open spec fn decode_seq(s: Seq<char>, phase: Phase, i: int, j: int) -> Seq<char>
    decreases s.len(),
{
    if s.len() == 0 {
        Seq::empty()
    } else {
        let ch = s[0];
        let rest = s.drop_first();
        match phase {
            Phase::CountingRow => {
                if ch == '.' {
                    decode_seq(rest, Phase::CountingRow, i + 1, j)
                } else if ch == ' ' {
                    decode_seq(rest, Phase::CountingColumn, i, j)
                } else {
                    decode_seq(rest, Phase::CountingRow, i, j)
                }
            },
            Phase::CountingColumn => {
                if ch == '.' {
                    decode_seq(rest, Phase::CountingColumn, i, j + 1)
                } else if ch == ' ' {
                    token_out(i, j) + decode_seq(rest, Phase::CountingRow, 0, 0)
                } else {
                    decode_seq(rest, Phase::CountingColumn, i, j)
                }
            },
        }
    }
}

/// The letters decoded from one full line, starting from the reset state.
pub open spec fn decode_line_spec(line: Seq<char>) -> Seq<char> {
    decode_seq(line, Phase::CountingRow, 0, 0)
}

/// The decoding of a sequence of lines: one terminated output line per input
/// line, each parsed from the reset state.
pub open spec fn decode_lines_spec(lines: Seq<Seq<char>>) -> Seq<char>
    decreases lines.len(),
{
    if lines.len() == 0 {
        Seq::empty()
    } else {
        decode_line_spec(lines[0]) + seq!['\n'] + decode_lines_spec(lines.drop_first())
    }
}

/// The decoding of a whole text.
pub open spec fn decode_text_spec(s: Seq<char>) -> Seq<char> {
    decode_lines_spec(spec_lines(s))
}

/// Everything the decoder emits on a line is a grid letter: in particular it
/// holds no line terminator and cannot end in a carriage return.
pub proof fn lemma_decode_seq_letters(s: Seq<char>, phase: Phase, i: int, j: int)
    ensures
        forall|k: int|
            0 <= k < decode_seq(s, phase, i, j).len() ==> crate::grid::is_grid_letter(
                decode_seq(s, phase, i, j)[k],
            ),
    decreases s.len(),
{
    if s.len() > 0 {
        let ch = s[0];
        let rest = s.drop_first();
        if phase == Phase::CountingColumn && ch == ' ' {
            lemma_decode_seq_letters(rest, Phase::CountingRow, 0, 0);
            let t = token_out(i, j);
            let r = if i == 0 { 1int } else { i - 1 };
            let c = if j == 0 { 1int } else { j - 1 };
            if 0 <= r < 5 && 0 <= c < 5 {
                crate::grid::lemma_grid_coord(r, c);
            }
            assert forall|k: int|
                0 <= k < decode_seq(s, phase, i, j).len() implies crate::grid::is_grid_letter(
                decode_seq(s, phase, i, j)[k],
            ) by {
                if k < t.len() {
                    assert(decode_seq(s, phase, i, j)[k] == t[k]);
                } else {
                    assert(decode_seq(s, phase, i, j)[k] == decode_seq(
                        rest,
                        Phase::CountingRow,
                        0,
                        0,
                    )[k - t.len()]);
                }
            }
        } else {
            let p2 = if phase == Phase::CountingRow {
                if ch == ' ' {
                    Phase::CountingColumn
                } else {
                    Phase::CountingRow
                }
            } else {
                Phase::CountingColumn
            };
            let i2 = if phase == Phase::CountingRow && ch == '.' {
                i + 1
            } else {
                i
            };
            let j2 = if phase == Phase::CountingColumn && ch == '.' {
                j + 1
            } else {
                j
            };
            lemma_decode_seq_letters(rest, p2, i2, j2);
            assert(decode_seq(s, phase, i, j) == decode_seq(rest, p2, i2, j2));
            assert forall|k: int|
                0 <= k < decode_seq(s, phase, i, j).len() implies crate::grid::is_grid_letter(
                decode_seq(s, phase, i, j)[k],
            ) by {
                assert(decode_seq(s, phase, i, j)[k] == decode_seq(rest, p2, i2, j2)[k]);
            }
        }
    }
}

/// The decoding of a sequence of lines is the decoded lines joined with a
/// terminator after each.
pub proof fn lemma_decode_lines_join(lines: Seq<Seq<char>>)
    ensures
        decode_lines_spec(lines) == crate::text::join_lines(
            lines.map_values(|l: Seq<char>| decode_line_spec(l)),
        ),
    decreases lines.len(),
{
    let mapped = lines.map_values(|l: Seq<char>| decode_line_spec(l));
    if lines.len() == 0 {
        assert(mapped.len() == 0);
    } else {
        lemma_decode_lines_join(lines.drop_first());
        assert(mapped[0] == decode_line_spec(lines[0]));
        assert(mapped.drop_first() =~= lines.drop_first().map_values(
            |l: Seq<char>| decode_line_spec(l),
        ));
    }
}

/// Decode one line of dot-run notation into its letters.
pub fn decode_line(line: &str) -> (res: String)
    ensures
        res@ == decode_line_spec(line@),
{
    let n = line.unicode_len();
    let mut out = String::new();
    let mut phase = Phase::CountingRow;
    let mut i: usize = 0;
    let mut j: usize = 0;
    let mut k: usize = 0;
    proof {
        assert(line@.skip(0) =~= line@);
    }
    while k < n
        invariant
            k <= n,
            n == line@.len(),
            i <= k,
            j <= k,
            decode_line_spec(line@) == out@ + decode_seq(
                line@.skip(k as int),
                phase,
                i as int,
                j as int,
            ),
        decreases n - k,
    {
        let ch = line.get_char(k);
        proof {
            assert(line@.skip(k as int)[0] == line@[k as int]);
            assert(line@.skip(k as int).drop_first() =~= line@.skip(k as int + 1));
        }
        match phase {
            Phase::CountingRow => {
                if ch == '.' {
                    i += 1;
                } else if ch == ' ' {
                    phase = Phase::CountingColumn;
                }
            },
            Phase::CountingColumn => {
                if ch == '.' {
                    j += 1;
                } else if ch == ' ' {
                    let ghost prev = out@;
                    let row = if i == 0 { 1 } else { i - 1 };
                    let col = if j == 0 { 1 } else { j - 1 };
                    if row < 5 && col < 5 {
                        let letter = grid_char(row, col);
                        push_char(&mut out, letter);
                        proof {
                            assert(out@ =~= prev + token_out(i as int, j as int));
                        }
                    } else {
                        proof {
                            assert(prev + token_out(i as int, j as int) =~= prev);
                        }
                    }
                    proof {
                        assert(out@ + decode_seq(
                            line@.skip(k as int + 1),
                            Phase::CountingRow,
                            0,
                            0,
                        ) =~= prev + decode_seq(line@.skip(k as int), phase, i as int, j as int));
                    }
                    i = 0;
                    j = 0;
                    phase = Phase::CountingRow;
                }
            },
        }
        k += 1;
    }
    proof {
        assert(decode_seq(line@.skip(n as int), phase, i as int, j as int) =~= Seq::<
            char,
        >::empty());
        assert(out@ + Seq::<char>::empty() =~= out@);
    }
    out
}

/// Decode a whole text, line by line: every input line yields exactly one
/// terminated output line, with the parser reset at each line start.
pub fn decode_text(input: &str) -> (res: String)
    ensures
        res@ == decode_text_spec(input@),
{
    let lines = split_lines(input);
    let ghost lv: Seq<Seq<char>> = lines@.map_values(|t: &str| t@);
    let mut out = String::new();
    let mut k: usize = 0;
    proof {
        assert(lv.skip(0) =~= lv);
    }
    while k < lines.len()
        invariant
            k <= lines@.len(),
            lv == lines@.map_values(|t: &str| t@),
            lv == spec_lines(input@),
            decode_lines_spec(lv) == out@ + decode_lines_spec(lv.skip(k as int)),
        decreases lines@.len() - k,
    {
        let line = lines[k];
        let line_out = decode_line(line);
        let ghost prev = out@;
        out.append(line_out.as_str());
        out.append("\n");
        proof {
            reveal_strlit("\n");
            assert(lv.skip(k as int)[0] == line@);
            assert(lv.skip(k as int).drop_first() =~= lv.skip(k as int + 1));
            assert(out@ =~= prev + (decode_line_spec(line@) + seq!['\n']));
            assert(out@ + decode_lines_spec(lv.skip(k as int + 1)) =~= prev + decode_lines_spec(
                lv.skip(k as int),
            ));
        }
        k += 1;
    }
    proof {
        assert(decode_lines_spec(lv.skip(k as int)) =~= Seq::<char>::empty());
        assert(out@ + Seq::<char>::empty() =~= out@);
    }
    out
}

} // verus!
