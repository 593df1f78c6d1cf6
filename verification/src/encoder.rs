//! The Encoder: uppercases and remaps each character of a line, looks its
//! grid coordinates up, and emits a dot-run token per letter.
//!
//! An input character remapped to the skip sentinel `-` is dropped silently;
//! one that (after remapping) is no grid letter is dropped too, but reported
//! back to the caller as unsupported, one report per occurrence.

use vstd::prelude::*;
use crate::grid::{coord_of, is_grid_letter, CoordIndex};
use crate::remap::RemapTable;
use crate::text::{spec_lines, split_lines, to_upper, upper_char};
use vstd::string::{StrSliceExecFns, StringExecFns};

verus! {

/// The character actually encoded for input `ch`: uppercased, then replaced
/// by its (again uppercased) substitute when the remap table has one.
pub open spec fn remap_char(m: Map<char, char>, ch: char) -> char {
    let u = to_upper(ch);
    if m.contains_key(u) {
        to_upper(m[u])
    } else {
        u
    }
}

/// A run of `n` dots.
pub open spec fn dots(n: int) -> Seq<char> {
    Seq::new(n as nat, |k: int| '.')
}

/// The token one input character contributes: a run of row dots, a space, a
/// run of column dots, a space.  A character remapped to the skip sentinel,
/// or absent from the Grid Table, contributes nothing.
pub open spec fn encode_char(m: Map<char, char>, ch: char) -> Seq<char> {
    let r = remap_char(m, ch);
    if r == '-' {
        Seq::empty()
    } else {
        match coord_of(r) {
            Some(rc) => dots(rc.0) + seq![' '] + dots(rc.1) + seq![' '],
            None => Seq::empty(),
        }
    }
}

/// Whether input character `ch` is unsupported: not suppressed by the skip
/// sentinel, yet (after remapping) no letter of the Grid Table.
pub open spec fn is_unsupported(m: Map<char, char>, ch: char) -> bool {
    remap_char(m, ch) != '-' && !is_grid_letter(remap_char(m, ch))
}

/// The encoding of one line: each character's token, in input order.
pub open spec fn encode_line_spec(m: Map<char, char>, line: Seq<char>) -> Seq<char>
    decreases line.len(),
{
    if line.len() == 0 {
        Seq::empty()
    } else {
        encode_char(m, line[0]) + encode_line_spec(m, line.drop_first())
    }
}

/// The unsupported characters of one line, as the encoder reports them
/// (after remapping), in input order.
pub open spec fn line_diags(m: Map<char, char>, line: Seq<char>) -> Seq<char>
    decreases line.len(),
{
    if line.len() == 0 {
        Seq::empty()
    } else {
        (if is_unsupported(m, line[0]) {
            seq![remap_char(m, line[0])]
        } else {
            Seq::empty()
        }) + line_diags(m, line.drop_first())
    }
}

/// The encoding of a sequence of lines: one terminated output line per input
/// line.
pub open spec fn encode_lines_spec(m: Map<char, char>, lines: Seq<Seq<char>>) -> Seq<char>
    decreases lines.len(),
{
    if lines.len() == 0 {
        Seq::empty()
    } else {
        encode_line_spec(m, lines[0]) + seq!['\n'] + encode_lines_spec(m, lines.drop_first())
    }
}

/// The unsupported characters of a sequence of lines, in input order.
pub open spec fn lines_diags(m: Map<char, char>, lines: Seq<Seq<char>>) -> Seq<char>
    decreases lines.len(),
{
    if lines.len() == 0 {
        Seq::empty()
    } else {
        line_diags(m, lines[0]) + lines_diags(m, lines.drop_first())
    }
}

/// The encoding of a whole text.
pub open spec fn encode_text_spec(m: Map<char, char>, s: Seq<char>) -> Seq<char> {
    encode_lines_spec(m, spec_lines(s))
}

/// The letters a line actually encodes, after uppercasing and remapping:
/// the characters whose tokens appear on the encoded line, in order.
pub open spec fn encoded_letters(m: Map<char, char>, line: Seq<char>) -> Seq<char>
    decreases line.len(),
{
    if line.len() == 0 {
        Seq::empty()
    } else {
        (if remap_char(m, line[0]) != '-' && is_grid_letter(remap_char(m, line[0])) {
            seq![remap_char(m, line[0])]
        } else {
            Seq::empty()
        }) + encoded_letters(m, line.drop_first())
    }
}

/// A token consists of dots and spaces only.
proof fn lemma_encode_char_chars(m: Map<char, char>, ch: char)
    ensures
        forall|k: int|
            0 <= k < encode_char(m, ch).len() ==> (encode_char(m, ch)[k] == '.' || encode_char(
                m,
                ch,
            )[k] == ' '),
{
    let t = encode_char(m, ch);
    let r = remap_char(m, ch);
    if r != '-' && coord_of(r) is Some {
        let a = coord_of(r)->Some_0.0;
        let b = coord_of(r)->Some_0.1;
        crate::grid::lemma_coord_in_grid(r);
        assert forall|k: int| 0 <= k < t.len() implies (t[k] == '.' || t[k] == ' ') by {
            if k < a {
                assert(t[k] == dots(a)[k]);
            } else if k == a {
                assert(t[k] == ' ');
            } else if k < a + 1 + b {
                assert(t[k] == dots(b)[k - a - 1]);
            } else {
                assert(t[k] == ' ');
            }
        }
    }
}

/// An encoded line consists of dots and spaces only: in particular it holds
/// no line terminator and cannot end in a carriage return.
pub proof fn lemma_encode_line_chars(m: Map<char, char>, line: Seq<char>)
    ensures
        forall|k: int|
            0 <= k < encode_line_spec(m, line).len() ==> (encode_line_spec(m, line)[k] == '.'
                || encode_line_spec(m, line)[k] == ' '),
    decreases line.len(),
{
    if line.len() > 0 {
        lemma_encode_char_chars(m, line[0]);
        lemma_encode_line_chars(m, line.drop_first());
        let t = encode_char(m, line[0]);
        let rest = encode_line_spec(m, line.drop_first());
        assert forall|k: int|
            0 <= k < encode_line_spec(m, line).len() implies (encode_line_spec(m, line)[k] == '.'
                || encode_line_spec(m, line)[k] == ' ') by {
            if k < t.len() {
                assert(encode_line_spec(m, line)[k] == t[k]);
            } else {
                assert(encode_line_spec(m, line)[k] == rest[k - t.len()]);
            }
        }
    }
}

/// The encoding of a sequence of lines is the encoded lines joined with a
/// terminator after each.
pub proof fn lemma_encode_lines_join(m: Map<char, char>, lines: Seq<Seq<char>>)
    ensures
        encode_lines_spec(m, lines) == crate::text::join_lines(
            lines.map_values(|l: Seq<char>| encode_line_spec(m, l)),
        ),
    decreases lines.len(),
{
    let mapped = lines.map_values(|l: Seq<char>| encode_line_spec(m, l));
    if lines.len() == 0 {
        assert(mapped.len() == 0);
    } else {
        lemma_encode_lines_join(m, lines.drop_first());
        assert(mapped[0] == encode_line_spec(m, lines[0]));
        assert(mapped.drop_first() =~= lines.drop_first().map_values(
            |l: Seq<char>| encode_line_spec(m, l),
        ));
    }
}

/// Append `n` dots to `out`.
fn append_dots(out: &mut String, n: u8)
    ensures
        final(out)@ == old(out)@ + dots(n as int),
{
    let mut d: u8 = 0;
    proof {
        assert(old(out)@ + dots(0) =~= old(out)@);
    }
    while d < n
        invariant
            d <= n,
            out@ == old(out)@ + dots(d as int),
        decreases n - d,
    {
        out.append(".");
        proof {
            reveal_strlit(".");
            assert(old(out)@ + dots(d as int) + "."@ =~= old(out)@ + dots(d as int + 1));
        }
        d += 1;
    }
}

/// Encode one line.  Returns the encoded line (without terminator) and the
/// unsupported characters met along the way, one entry per occurrence.
pub fn encode_line(line: &str, map: &RemapTable, idx: &CoordIndex) -> (res: (String, Vec<char>))
    ensures
        res.0@ == encode_line_spec(map@, line@),
        res.1@ == line_diags(map@, line@),
{
    let n = line.unicode_len();
    let mut out = String::new();
    let mut diags: Vec<char> = Vec::new();
    let mut k: usize = 0;
    proof {
        assert(line@.skip(0) =~= line@);
    }
    while k < n
        invariant
            k <= n,
            n == line@.len(),
            encode_line_spec(map@, line@) == out@ + encode_line_spec(
                map@,
                line@.skip(k as int),
            ),
            line_diags(map@, line@) == diags@ + line_diags(map@, line@.skip(k as int)),
        decreases n - k,
    {
        let ch = line.get_char(k);
        let mut cur = upper_char(ch);
        match map.get(cur) {
            Some(v) => {
                cur = upper_char(v);
            },
            None => {},
        }
        proof {
            assert(line@.skip(k as int)[0] == line@[k as int]);
            assert(line@.skip(k as int).drop_first() =~= line@.skip(k as int + 1));
            assert(cur == remap_char(map@, line@[k as int]));
        }
        if cur == '-' {
            proof {
                assert(out@ + encode_line_spec(map@, line@.skip(k as int)) =~= out@
                    + encode_line_spec(map@, line@.skip(k as int + 1)));
                assert(diags@ + line_diags(map@, line@.skip(k as int)) =~= diags@ + line_diags(
                    map@,
                    line@.skip(k as int + 1),
                ));
            }
        } else {
            match idx.lookup(cur) {
                Some(rc) => {
                    let ghost prev = out@;
                    append_dots(&mut out, rc.0);
                    out.append(" ");
                    append_dots(&mut out, rc.1);
                    out.append(" ");
                    proof {
                        reveal_strlit(" ");
                        assert(out@ =~= prev + encode_char(map@, line@[k as int]));
                        assert(out@ + encode_line_spec(map@, line@.skip(k as int + 1))
                            =~= prev + encode_line_spec(map@, line@.skip(k as int)));
                        assert(diags@ + line_diags(map@, line@.skip(k as int)) =~= diags@
                            + line_diags(map@, line@.skip(k as int + 1)));
                    }
                },
                None => {
                    diags.push(cur);
                    proof {
                        assert(out@ + encode_line_spec(map@, line@.skip(k as int)) =~= out@
                            + encode_line_spec(map@, line@.skip(k as int + 1)));
                        assert(diags@ + line_diags(map@, line@.skip(k as int + 1))
                            =~= diags@.drop_last() + line_diags(map@, line@.skip(k as int)));
                    }
                },
            }
        }
        k += 1;
    }
    proof {
        assert(encode_line_spec(map@, line@.skip(n as int)) =~= Seq::<char>::empty());
        assert(out@ + Seq::<char>::empty() =~= out@);
        assert(diags@ + Seq::<char>::empty() =~= diags@);
    }
    (out, diags)
}

/// Encode a whole text, line by line: every input line yields exactly one
/// terminated output line, however many of its characters were dropped.
/// Also returns every unsupported character met, one entry per occurrence.
pub fn encode_text(input: &str, map: &RemapTable, idx: &CoordIndex) -> (res: (String, Vec<char>))
    ensures
        res.0@ == encode_text_spec(map@, input@),
        res.1@ == lines_diags(map@, spec_lines(input@)),
{
    let lines = split_lines(input);
    let ghost lv: Seq<Seq<char>> = lines@.map_values(|t: &str| t@);
    let mut out = String::new();
    let mut diags: Vec<char> = Vec::new();
    let mut k: usize = 0;
    proof {
        assert(lv.skip(0) =~= lv);
    }
    while k < lines.len()
        invariant
            k <= lines@.len(),
            lv == lines@.map_values(|t: &str| t@),
            lv == spec_lines(input@),
            encode_lines_spec(map@, lv) == out@ + encode_lines_spec(map@, lv.skip(k as int)),
            lines_diags(map@, lv) == diags@ + lines_diags(map@, lv.skip(k as int)),
        decreases lines@.len() - k,
    {
        let line = lines[k];
        let (line_out, mut line_bad) = encode_line(line, map, idx);
        let ghost prev = out@;
        let ghost prev_diags = diags@;
        out.append(line_out.as_str());
        out.append("\n");
        diags.append(&mut line_bad);
        proof {
            reveal_strlit("\n");
            assert(lv.skip(k as int)[0] == line@);
            assert(lv.skip(k as int).drop_first() =~= lv.skip(k as int + 1));
            assert(out@ =~= prev + (encode_line_spec(map@, line@) + seq!['\n']));
            assert(out@ + encode_lines_spec(map@, lv.skip(k as int + 1)) =~= prev
                + encode_lines_spec(map@, lv.skip(k as int)));
            assert(diags@ + lines_diags(map@, lv.skip(k as int + 1)) =~= prev_diags
                + lines_diags(map@, lv.skip(k as int)));
        }
        k += 1;
    }
    proof {
        assert(encode_lines_spec(map@, lv.skip(k as int)) =~= Seq::<char>::empty());
        assert(out@ + Seq::<char>::empty() =~= out@);
        assert(diags@ + Seq::<char>::empty() =~= diags@);
    }
    (out, diags)
}

} // verus!
