//! Character and line utilities shared by the encoder and the decoder:
//! ASCII uppercasing, first-occurrence search, and splitting a text into
//! lines the way the codec reads its input (a line is a run of characters
//! terminated by `\n`, with a `\r` immediately before the `\n` stripped).

use vstd::prelude::*;
use vstd::string::StrSliceExecFns;

verus! {

/// ASCII uppercase: `a`-`z` map to `A`-`Z`, everything else is unchanged.
pub open spec fn to_upper(ch: char) -> char {
    if ch == 'a' { 'A' } else if ch == 'b' { 'B' } else if ch == 'c' { 'C' }
    else if ch == 'd' { 'D' } else if ch == 'e' { 'E' } else if ch == 'f' { 'F' }
    else if ch == 'g' { 'G' } else if ch == 'h' { 'H' } else if ch == 'i' { 'I' }
    else if ch == 'j' { 'J' } else if ch == 'k' { 'K' } else if ch == 'l' { 'L' }
    else if ch == 'm' { 'M' } else if ch == 'n' { 'N' } else if ch == 'o' { 'O' }
    else if ch == 'p' { 'P' } else if ch == 'q' { 'Q' } else if ch == 'r' { 'R' }
    else if ch == 's' { 'S' } else if ch == 't' { 'T' } else if ch == 'u' { 'U' }
    else if ch == 'v' { 'V' } else if ch == 'w' { 'W' } else if ch == 'x' { 'X' }
    else if ch == 'y' { 'Y' } else if ch == 'z' { 'Z' } else { ch }
}

/// ASCII uppercase of a single character.
pub fn upper_char(ch: char) -> (res: char)
    ensures
        res == to_upper(ch),
{
    if ch == 'a' { 'A' } else if ch == 'b' { 'B' } else if ch == 'c' { 'C' }
    else if ch == 'd' { 'D' } else if ch == 'e' { 'E' } else if ch == 'f' { 'F' }
    else if ch == 'g' { 'G' } else if ch == 'h' { 'H' } else if ch == 'i' { 'I' }
    else if ch == 'j' { 'J' } else if ch == 'k' { 'K' } else if ch == 'l' { 'L' }
    else if ch == 'm' { 'M' } else if ch == 'n' { 'N' } else if ch == 'o' { 'O' }
    else if ch == 'p' { 'P' } else if ch == 'q' { 'Q' } else if ch == 'r' { 'R' }
    else if ch == 's' { 'S' } else if ch == 't' { 'T' } else if ch == 'u' { 'U' }
    else if ch == 'v' { 'V' } else if ch == 'w' { 'W' } else if ch == 'x' { 'X' }
    else if ch == 'y' { 'Y' } else if ch == 'z' { 'Z' } else { ch }
}

/// The index of the first occurrence of `ch` in `s`, or `s.len()` when `ch`
/// does not occur.
pub open spec fn find_idx(s: Seq<char>, ch: char) -> nat
    decreases s.len(),
{
    if s.len() == 0 {
        0
    } else if s[0] == ch {
        0
    } else {
        1 + find_idx(s.drop_first(), ch)
    }
}

/// `find_idx` returns the position of the first occurrence: nothing before it
/// matches, and it points at a match unless `ch` is absent altogether.
proof fn lemma_find_idx(s: Seq<char>, ch: char)
    ensures
        find_idx(s, ch) <= s.len(),
        forall|k: int| 0 <= k < find_idx(s, ch) ==> s[k] != ch,
        find_idx(s, ch) < s.len() ==> s[find_idx(s, ch) as int] == ch,
    decreases s.len(),
{
    if s.len() > 0 && s[0] != ch {
        lemma_find_idx(s.drop_first(), ch);
        assert forall|k: int| 0 <= k < find_idx(s, ch) implies s[k] != ch by {
            if k > 0 {
                assert(s.drop_first()[k - 1] != ch);
            }
        }
    }
}

/// A position that holds `ch` bounds the first occurrence from above.
proof fn lemma_find_idx_le(s: Seq<char>, ch: char, j: int)
    requires
        0 <= j < s.len(),
        s[j] == ch,
    ensures
        find_idx(s, ch) <= j,
{
    lemma_find_idx(s, ch);
    if find_idx(s, ch) > j {
        assert(s[j] != ch);
    }
}

/// `find_idx` at the exact position where the first `ch` stands.
pub proof fn lemma_find_idx_at(s: Seq<char>, ch: char, j: int)
    requires
        0 <= j < s.len(),
        s[j] == ch,
        forall|m: int| 0 <= m < j ==> s[m] != ch,
    ensures
        find_idx(s, ch) == j,
{
    lemma_find_idx(s, ch);
    lemma_find_idx_le(s, ch, j);
    if find_idx(s, ch) < j {
        assert(s[find_idx(s, ch) as int] == ch);
    }
}

/// `find_idx` when `ch` does not occur at all.
pub proof fn lemma_find_idx_absent(s: Seq<char>, ch: char)
    requires
        forall|m: int| 0 <= m < s.len() ==> s[m] != ch,
    ensures
        find_idx(s, ch) == s.len(),
{
    lemma_find_idx(s, ch);
    if find_idx(s, ch) < s.len() {
        assert(s[find_idx(s, ch) as int] == ch);
    }
}

/// A line as the codec reads it: a `\r` standing immediately before the line
/// break is not part of the line.
pub open spec fn strip_cr(line: Seq<char>) -> Seq<char> {
    if line.len() > 0 && line.last() == '\r' {
        line.drop_last()
    } else {
        line
    }
}

/// The lines of a text: split at each `\n`, with a `\r` immediately before
/// the `\n` stripped; a final fragment without a terminator is still a line,
/// and a text ending in `\n` has no empty line after it.
pub open spec fn spec_lines(s: Seq<char>) -> Seq<Seq<char>>
    decreases s.len(),
{
    if s.len() == 0 {
        Seq::empty()
    } else {
        let i = find_idx(s, '\n');
        if i >= s.len() {
            seq![s]
        } else {
            seq![strip_cr(s.take(i as int))] + spec_lines(s.skip(i as int + 1))
        }
    }
}

/// Split a text into its lines.
pub fn split_lines<'a>(s: &'a str) -> (lines: Vec<&'a str>)
    ensures
        lines@.map_values(|t: &'a str| t@) == spec_lines(s@),
{
    let n = s.unicode_len();
    let mut lines: Vec<&'a str> = Vec::new();
    let mut start: usize = 0;
    let mut k: usize = 0;
    proof {
        assert(s@.skip(0) =~= s@);
        assert(lines@.map_values(|t: &'a str| t@) + spec_lines(s@) =~= spec_lines(s@));
    }
    while k < n
        invariant
            start <= k <= n,
            n == s@.len(),
            spec_lines(s@) == lines@.map_values(|t: &'a str| t@) + spec_lines(
                s@.skip(start as int),
            ),
            forall|m: int| start <= m < k ==> s@[m] != '\n',
        decreases n - k,
    {
        let ch = s.get_char(k);
        if ch == '\n' {
            let mut endx: usize = k;
            if k > start && s.get_char(k - 1) == '\r' {
                endx = k - 1;
            }
            let line = s.substring_char(start, endx);
            proof {
                let tail = s@.skip(start as int);
                assert forall|m: int| 0 <= m < k - start implies tail[m] != '\n' by {
                    assert(tail[m] == s@[start + m]);
                }
                lemma_find_idx_at(tail, '\n', k - start);
                assert(tail.take(k - start) =~= s@.subrange(start as int, k as int));
                assert(strip_cr(tail.take(k - start)) =~= line@);
                assert(tail.skip(k - start + 1) =~= s@.skip(k + 1));
                assert(spec_lines(tail) == seq![line@] + spec_lines(s@.skip(k + 1)));
                assert(lines@.push(line).map_values(|t: &'a str| t@) =~= lines@.map_values(
                    |t: &'a str| t@,
                ).push(line@));
                assert(lines@.map_values(|t: &'a str| t@).push(line@) + spec_lines(
                    s@.skip(k + 1),
                ) =~= lines@.map_values(|t: &'a str| t@) + spec_lines(tail));
            }
            lines.push(line);
            start = k + 1;
        }
        k += 1;
    }
    if start < n {
        let line = s.substring_char(start, n);
        proof {
            let tail = s@.skip(start as int);
            assert forall|m: int| 0 <= m < tail.len() implies tail[m] != '\n' by {
                assert(tail[m] == s@[start + m]);
            }
            lemma_find_idx_absent(tail, '\n');
            assert(tail =~= line@);
            assert(spec_lines(tail) == seq![line@]);
            assert(lines@.push(line).map_values(|t: &'a str| t@) =~= lines@.map_values(
                |t: &'a str| t@,
            ) + seq![line@]);
        }
        lines.push(line);
    } else {
        proof {
            assert(s@.skip(start as int) =~= Seq::<char>::empty());
            assert(lines@.map_values(|t: &'a str| t@) + spec_lines(s@.skip(start as int))
                =~= lines@.map_values(|t: &'a str| t@));
        }
    }
    lines
}

/// A sequence of lines joined back into a text, a terminator after every
/// line.
pub open spec fn join_lines(lines: Seq<Seq<char>>) -> Seq<char>
    decreases lines.len(),
{
    if lines.len() == 0 {
        Seq::empty()
    } else {
        lines[0] + seq!['\n'] + join_lines(lines.drop_first())
    }
}

/// Splitting undoes joining: for lines that hold no terminator and do not
/// end in `\r`, the lines of the joined text are exactly the lines joined.
pub proof fn lemma_spec_lines_of_join(lines: Seq<Seq<char>>)
    requires
        forall|n: int, k: int|
            0 <= n < lines.len() && 0 <= k < lines[n].len() ==> lines[n][k] != '\n',
        forall|n: int|
            0 <= n < lines.len() && lines[n].len() > 0 ==> lines[n].last() != '\r',
    ensures
        spec_lines(join_lines(lines)) =~= lines,
    decreases lines.len(),
{
    if lines.len() > 0 {
        let first = lines[0];
        let rest = join_lines(lines.drop_first());
        let whole = join_lines(lines);
        assert(whole =~= first + seq!['\n'] + rest);
        assert forall|k: int| 0 <= k < first.len() implies whole[k] != '\n' by {
            assert(whole[k] == first[k]);
        }
        assert(whole[first.len() as int] == '\n');
        lemma_find_idx_at(whole, '\n', first.len() as int);
        assert(whole.take(first.len() as int) =~= first);
        assert(strip_cr(first) == first);
        assert(whole.skip(first.len() as int + 1) =~= rest);
        assert forall|n: int, k: int|
            0 <= n < lines.drop_first().len() && 0 <= k < lines.drop_first()[n].len()
            implies lines.drop_first()[n][k] != '\n' by {
            assert(lines.drop_first()[n] == lines[n + 1]);
        }
        assert forall|n: int|
            0 <= n < lines.drop_first().len() && lines.drop_first()[n].len() > 0
            implies lines.drop_first()[n].last() != '\r' by {
            assert(lines.drop_first()[n] == lines[n + 1]);
        }
        lemma_spec_lines_of_join(lines.drop_first());
        assert(spec_lines(whole) =~= seq![first] + lines.drop_first());
        assert(seq![first] + lines.drop_first() =~= lines);
    }
}

/// Relies on `String::push`: appends the given character to the end of the
/// string.
#[verifier::external_body]
pub(crate) fn push_char(s: &mut String, ch: char)
    ensures
        final(s)@ == old(s)@.push(ch),
{
    s.push(ch);
}

} // verus!
