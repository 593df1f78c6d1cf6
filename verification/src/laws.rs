//! The laws of the codec, proved once and for all: the encode/decode round
//! trip, the silent skip and unsupported-character behaviour, and the
//! line-preserving shape of both transforms.

use vstd::prelude::*;
use crate::decoder::{decode_line_spec, decode_seq, decode_text_spec, lemma_decode_lines_join,
    lemma_decode_seq_letters, token_out, Phase};
use crate::encoder::{dots, encode_line_spec, encode_text_spec, encoded_letters, is_unsupported,
    lemma_encode_line_chars, lemma_encode_lines_join, line_diags, remap_char};
use crate::grid::{coord_of, grid_at, is_grid_letter, lemma_coord_in_grid};
use crate::text::{join_lines, lemma_spec_lines_of_join, spec_lines, to_upper};

verus! {

/// Decoding a run of dots in the row phase counts them all into the row
/// counter.
proof fn lemma_decode_dots_row(n: int, tail: Seq<char>, i: int, j: int)
    requires
        n >= 0,
    ensures
        decode_seq(dots(n) + tail, Phase::CountingRow, i, j) == decode_seq(
            tail,
            Phase::CountingRow,
            i + n,
            j,
        ),
    decreases n,
{
    if n == 0 {
        assert(dots(0) + tail =~= tail);
    } else {
        let s = dots(n) + tail;
        assert(s[0] == '.');
        assert(s.drop_first() =~= dots(n - 1) + tail);
        lemma_decode_dots_row(n - 1, tail, i + 1, j);
    }
}

/// Decoding a run of dots in the column phase counts them all into the
/// column counter.
proof fn lemma_decode_dots_col(n: int, tail: Seq<char>, i: int, j: int)
    requires
        n >= 0,
    ensures
        decode_seq(dots(n) + tail, Phase::CountingColumn, i, j) == decode_seq(
            tail,
            Phase::CountingColumn,
            i,
            j + n,
        ),
    decreases n,
{
    if n == 0 {
        assert(dots(0) + tail =~= tail);
    } else {
        let s = dots(n) + tail;
        assert(s[0] == '.');
        assert(s.drop_first() =~= dots(n - 1) + tail);
        lemma_decode_dots_col(n - 1, tail, i, j + 1);
    }
}

/// Decoding one well-formed token from the reset state yields exactly the
/// grid letter at its coordinates, and returns to the reset state for the
/// rest of the line.
proof fn lemma_decode_token(a: int, b: int, rest: Seq<char>)
    requires
        1 <= a <= 5,
        1 <= b <= 5,
    ensures
        decode_seq(
            dots(a) + seq![' '] + dots(b) + seq![' '] + rest,
            Phase::CountingRow,
            0,
            0,
        ) == seq![grid_at(a - 1, b - 1)] + decode_seq(rest, Phase::CountingRow, 0, 0),
{
    let s3 = seq![' '] + rest;
    let s2 = dots(b) + s3;
    let s1 = seq![' '] + s2;
    assert(dots(a) + seq![' '] + dots(b) + seq![' '] + rest =~= dots(a) + s1);
    lemma_decode_dots_row(a, s1, 0, 0);
    assert(s1[0] == ' ');
    assert(s1.drop_first() =~= s2);
    lemma_decode_dots_col(b, s3, a, 0);
    assert(s3[0] == ' ');
    assert(s3.drop_first() =~= rest);
    assert(token_out(a, b) =~= seq![grid_at(a - 1, b - 1)]);
}

/// The round trip on a line: decoding an encoded line returns exactly the
/// letters the encoder looked up, i.e. every input character after
/// uppercasing and remapping, minus those suppressed by the skip sentinel
/// and those outside the Grid Table.
pub proof fn lemma_round_trip_line(m: Map<char, char>, line: Seq<char>)
    ensures
        decode_line_spec(encode_line_spec(m, line)) == encoded_letters(m, line),
    decreases line.len(),
{
    if line.len() > 0 {
        let ch = line[0];
        let rest = line.drop_first();
        lemma_round_trip_line(m, rest);
        let r = remap_char(m, ch);
        let e_rest = encode_line_spec(m, rest);
        if r != '-' && coord_of(r) is Some {
            let a = coord_of(r)->Some_0.0;
            let b = coord_of(r)->Some_0.1;
            lemma_coord_in_grid(r);
            assert(encode_line_spec(m, line) =~= dots(a) + seq![' '] + dots(b) + seq![' ']
                + e_rest);
            lemma_decode_token(a, b, e_rest);
            assert(decode_line_spec(encode_line_spec(m, line)) =~= seq![r] + encoded_letters(
                m,
                rest,
            ));
            assert(seq![r] + encoded_letters(m, rest) =~= encoded_letters(m, line));
        } else {
            assert(encode_line_spec(m, line) =~= e_rest);
            assert(encoded_letters(m, line) =~= encoded_letters(m, rest));
        }
    }
}

/// The round trip on one Grid Table letter, with no remap table: decoding
/// its encoding gives the letter back, uppercased.
pub proof fn lemma_round_trip_letter(ch: char)
    requires
        is_grid_letter(to_upper(ch)),
    ensures
        decode_line_spec(encode_line_spec(Map::empty(), seq![ch])) == seq![to_upper(ch)],
{
    lemma_round_trip_line(Map::empty(), seq![ch]);
    assert(seq![ch].len() == 1);
    assert(seq![ch][0] == ch);
    assert(seq![ch].drop_first() =~= Seq::<char>::empty());
    assert(encoded_letters(Map::empty(), Seq::<char>::empty()) == Seq::<char>::empty());
    assert(remap_char(Map::empty(), ch) == to_upper(ch));
    assert(encoded_letters(Map::empty(), seq![ch]) =~= seq![to_upper(ch)]);
}

/// A character that is neither remapped nor (after uppercasing) a Grid Table
/// letter contributes no token and exactly one unsupported report.  The skip
/// sentinel itself is left out: a plain `-` in the input is dropped silently.
pub proof fn lemma_unsupported_char(m: Map<char, char>, ch: char)
    requires
        !m.contains_key(to_upper(ch)),
        !is_grid_letter(to_upper(ch)),
        ch != '-',
    ensures
        encode_line_spec(m, seq![ch]) == Seq::<char>::empty(),
        line_diags(m, seq![ch]) == seq![to_upper(ch)],
{
    assert(seq![ch].len() == 1);
    assert(seq![ch][0] == ch);
    assert(seq![ch].drop_first() =~= Seq::<char>::empty());
    assert(encode_line_spec(m, Seq::<char>::empty()) == Seq::<char>::empty());
    assert(line_diags(m, Seq::<char>::empty()) == Seq::<char>::empty());
    assert(is_unsupported(m, ch));
    assert(encode_line_spec(m, seq![ch]) =~= Seq::<char>::empty());
    assert(line_diags(m, seq![ch]) =~= seq![to_upper(ch)]);
}

/// A remap entry whose value is the skip sentinel suppresses its character
/// silently: no token and no unsupported report.
pub proof fn lemma_skip_sentinel(m: Map<char, char>, ch: char)
    requires
        m.contains_key(to_upper(ch)),
        m[to_upper(ch)] == '-',
    ensures
        encode_line_spec(m, seq![ch]) == Seq::<char>::empty(),
        line_diags(m, seq![ch]) == Seq::<char>::empty(),
{
    assert(seq![ch].len() == 1);
    assert(seq![ch][0] == ch);
    assert(seq![ch].drop_first() =~= Seq::<char>::empty());
    assert(encode_line_spec(m, Seq::<char>::empty()) == Seq::<char>::empty());
    assert(line_diags(m, Seq::<char>::empty()) == Seq::<char>::empty());
    assert(remap_char(m, ch) == '-');
    assert(encode_line_spec(m, seq![ch]) =~= Seq::<char>::empty());
    assert(line_diags(m, seq![ch]) =~= Seq::<char>::empty());
}

/// Encoding is line-preserving: the encoded text has exactly one line per
/// input line, each the encoding of its input line, however many characters
/// were dropped.
pub proof fn lemma_encode_line_preserving(m: Map<char, char>, s: Seq<char>)
    ensures
        spec_lines(encode_text_spec(m, s)) =~= spec_lines(s).map_values(
            |l: Seq<char>| encode_line_spec(m, l),
        ),
        spec_lines(encode_text_spec(m, s)).len() == spec_lines(s).len(),
{
    let lines = spec_lines(s);
    let mapped = lines.map_values(|l: Seq<char>| encode_line_spec(m, l));
    lemma_encode_lines_join(m, lines);
    assert forall|n: int, k: int|
        0 <= n < mapped.len() && 0 <= k < mapped[n].len() implies mapped[n][k] != '\n' by {
        lemma_encode_line_chars(m, lines[n]);
    }
    assert forall|n: int|
        0 <= n < mapped.len() && mapped[n].len() > 0 implies mapped[n].last() != '\r' by {
        lemma_encode_line_chars(m, lines[n]);
    }
    lemma_spec_lines_of_join(mapped);
}

/// Decoding is line-preserving too: whatever state a line ends in, its
/// terminator is emitted and the decoded text has exactly one line per input
/// line.
pub proof fn lemma_decode_line_preserving(s: Seq<char>)
    ensures
        spec_lines(decode_text_spec(s)) =~= spec_lines(s).map_values(
            |l: Seq<char>| decode_line_spec(l),
        ),
        spec_lines(decode_text_spec(s)).len() == spec_lines(s).len(),
{
    let lines = spec_lines(s);
    let mapped = lines.map_values(|l: Seq<char>| decode_line_spec(l));
    lemma_decode_lines_join(lines);
    assert forall|n: int, k: int|
        0 <= n < mapped.len() && 0 <= k < mapped[n].len() implies mapped[n][k] != '\n' by {
        lemma_decode_seq_letters(lines[n], Phase::CountingRow, 0, 0);
        assert(is_grid_letter(mapped[n][k]));
    }
    assert forall|n: int|
        0 <= n < mapped.len() && mapped[n].len() > 0 implies mapped[n].last() != '\r' by {
        lemma_decode_seq_letters(lines[n], Phase::CountingRow, 0, 0);
        assert(is_grid_letter(mapped[n].last()));
    }
    lemma_spec_lines_of_join(mapped);
}

/// The round trip on a whole text: decoding an encoded text gives, line for
/// line, exactly the letters the encoder looked up on that line.
pub proof fn lemma_round_trip_text(m: Map<char, char>, s: Seq<char>)
    ensures
        decode_text_spec(encode_text_spec(m, s)) == join_lines(
            spec_lines(s).map_values(|l: Seq<char>| encoded_letters(m, l)),
        ),
{
    let lines = spec_lines(s);
    let enc = lines.map_values(|l: Seq<char>| encode_line_spec(m, l));
    lemma_encode_line_preserving(m, s);
    lemma_decode_lines_join(enc);
    let dec = enc.map_values(|l: Seq<char>| decode_line_spec(l));
    let letters = lines.map_values(|l: Seq<char>| encoded_letters(m, l));
    assert forall|n: int| 0 <= n < lines.len() implies dec[n] == letters[n] by {
        assert(enc[n] == encode_line_spec(m, lines[n]));
        lemma_round_trip_line(m, lines[n]);
    }
    assert(dec =~= letters);
}

/// With no remap table the remapping layer is the identity on top of
/// uppercasing: an absent or unloadable remap resource, which degrades to
/// the empty mapping, encodes exactly as no remapping at all.
pub proof fn lemma_empty_remap(ch: char)
    ensures
        remap_char(Map::empty(), ch) == to_upper(ch),
{
}

} // verus!
