//! The Grid Table: the fixed 5x5 arrangement of 25 letters (A-Z without K)
//! that defines the cipher alphabet, and the Coordinate Index derived from it.

use vstd::prelude::*;

verus! {

/// The letter of the Grid Table at 0-based row `r`, column `c`.
///
/// Out-of-range positions are given an arbitrary in-grid letter; every use
/// guards the indices first.
pub open spec fn grid_at(r: int, c: int) -> char {
    if r == 0 {
        if c == 0 { 'A' } else if c == 1 { 'B' } else if c == 2 { 'C' }
        else if c == 3 { 'D' } else { 'E' }
    } else if r == 1 {
        if c == 0 { 'F' } else if c == 1 { 'G' } else if c == 2 { 'H' }
        else if c == 3 { 'I' } else { 'J' }
    } else if r == 2 {
        if c == 0 { 'L' } else if c == 1 { 'M' } else if c == 2 { 'N' }
        else if c == 3 { 'O' } else { 'P' }
    } else if r == 3 {
        if c == 0 { 'Q' } else if c == 1 { 'R' } else if c == 2 { 'S' }
        else if c == 3 { 'T' } else { 'U' }
    } else {
        if c == 0 { 'V' } else if c == 1 { 'W' } else if c == 2 { 'X' }
        else if c == 3 { 'Y' } else { 'Z' }
    }
}

/// The 1-based (row, column) coordinates of a grid letter, or `None` for any
/// character outside the Grid Table (the letter K never appears in it).
pub open spec fn coord_of(ch: char) -> Option<(int, int)> {
    if ch == 'A' { Some((1, 1)) } else if ch == 'B' { Some((1, 2)) }
    else if ch == 'C' { Some((1, 3)) } else if ch == 'D' { Some((1, 4)) }
    else if ch == 'E' { Some((1, 5)) } else if ch == 'F' { Some((2, 1)) }
    else if ch == 'G' { Some((2, 2)) } else if ch == 'H' { Some((2, 3)) }
    else if ch == 'I' { Some((2, 4)) } else if ch == 'J' { Some((2, 5)) }
    else if ch == 'L' { Some((3, 1)) } else if ch == 'M' { Some((3, 2)) }
    else if ch == 'N' { Some((3, 3)) } else if ch == 'O' { Some((3, 4)) }
    else if ch == 'P' { Some((3, 5)) } else if ch == 'Q' { Some((4, 1)) }
    else if ch == 'R' { Some((4, 2)) } else if ch == 'S' { Some((4, 3)) }
    else if ch == 'T' { Some((4, 4)) } else if ch == 'U' { Some((4, 5)) }
    else if ch == 'V' { Some((5, 1)) } else if ch == 'W' { Some((5, 2)) }
    else if ch == 'X' { Some((5, 3)) } else if ch == 'Y' { Some((5, 4)) }
    else if ch == 'Z' { Some((5, 5)) } else { None }
}

/// Whether `ch` appears in the Grid Table.
pub open spec fn is_grid_letter(ch: char) -> bool {
    coord_of(ch) is Some
}

/// Coordinates returned by `coord_of` are 1-based positions inside the 5x5
/// grid, and point back at the letter they were derived from.
pub proof fn lemma_coord_in_grid(ch: char)
    requires
        coord_of(ch) is Some,
    ensures
        1 <= coord_of(ch)->Some_0.0 <= 5,
        1 <= coord_of(ch)->Some_0.1 <= 5,
        grid_at(coord_of(ch)->Some_0.0 - 1, coord_of(ch)->Some_0.1 - 1) == ch,
{
}

/// Every position of the Grid Table maps back to itself through `coord_of`.
pub proof fn lemma_grid_coord(r: int, c: int)
    requires
        0 <= r < 5,
        0 <= c < 5,
    ensures
        coord_of(grid_at(r, c)) == Some((r + 1, c + 1)),
{
}

/// A character found nowhere in the Grid Table has no coordinates.
proof fn lemma_grid_cover(ch: char)
    requires
        is_grid_letter(ch),
    ensures
        exists|r: int, c: int| 0 <= r < 5 && 0 <= c < 5 && grid_at(r, c) == ch,
{
    let (row, col) = coord_of(ch)->Some_0;
    lemma_coord_in_grid(ch);
    assert(0 <= row - 1 < 5 && 0 <= col - 1 < 5 && grid_at(row - 1, col - 1) == ch);
}

/// The letter of the Grid Table at 0-based row `r`, column `c`.
pub fn grid_char(r: usize, c: usize) -> (ch: char)
    requires
        r < 5,
        c < 5,
    ensures
        ch == grid_at(r as int, c as int),
{
    if r == 0 {
        if c == 0 { 'A' } else if c == 1 { 'B' } else if c == 2 { 'C' }
        else if c == 3 { 'D' } else { 'E' }
    } else if r == 1 {
        if c == 0 { 'F' } else if c == 1 { 'G' } else if c == 2 { 'H' }
        else if c == 3 { 'I' } else { 'J' }
    } else if r == 2 {
        if c == 0 { 'L' } else if c == 1 { 'M' } else if c == 2 { 'N' }
        else if c == 3 { 'O' } else { 'P' }
    } else if r == 3 {
        if c == 0 { 'Q' } else if c == 1 { 'R' } else if c == 2 { 'S' }
        else if c == 3 { 'T' } else { 'U' }
    } else {
        if c == 0 { 'V' } else if c == 1 { 'W' } else if c == 2 { 'X' }
        else if c == 3 { 'Y' } else { 'Z' }
    }
}

/// The Coordinate Index: the letter -> (row, column) mapping derived from the
/// Grid Table, built once and passed by shared reference into the encoder.
///
/// Coordinates are stored 1-based, ready for dot-run emission.
pub struct CoordIndex {
    entries: Vec<(char, (u8, u8))>,
}

impl CoordIndex {
    /// The index holds exactly the 25 grid letters, in row-major order, each
    /// with its 1-based coordinates.
    #[verifier::type_invariant]
    spec fn wf(&self) -> bool {
        &&& self.entries@.len() == 25
        &&& forall|k: int|
            0 <= k < 25 ==> self.entries@[k] == (
                grid_at(k / 5, k % 5),
                (((k / 5) + 1) as u8, ((k % 5) + 1) as u8),
            )
    }

    /// Build the Coordinate Index by walking the Grid Table once.
    pub fn new() -> (idx: Self) {
        let mut entries: Vec<(char, (u8, u8))> = Vec::new();
        let mut r: usize = 0;
        while r < 5
            invariant
                r <= 5,
                entries@.len() == 5 * r,
                forall|k: int|
                    0 <= k < entries@.len() ==> entries@[k] == (
                        grid_at(k / 5, k % 5),
                        (((k / 5) + 1) as u8, ((k % 5) + 1) as u8),
                    ),
            decreases 5 - r,
        {
            let mut c: usize = 0;
            while c < 5
                invariant
                    r < 5,
                    c <= 5,
                    entries@.len() == 5 * r + c,
                    forall|k: int|
                        0 <= k < entries@.len() ==> entries@[k] == (
                            grid_at(k / 5, k % 5),
                            (((k / 5) + 1) as u8, ((k % 5) + 1) as u8),
                        ),
                decreases 5 - c,
            {
                let ch = grid_char(r, c);
                entries.push((ch, ((r + 1) as u8, (c + 1) as u8)));
                c += 1;
            }
            r += 1;
        }
        CoordIndex { entries }
    }

    /// Look up the 1-based grid coordinates of `ch`, or `None` when `ch` is
    /// not a grid letter.
    pub fn lookup(&self, ch: char) -> (res: Option<(u8, u8)>)
        ensures
            match res {
                Some(rc) => coord_of(ch) == Some((rc.0 as int, rc.1 as int)),
                None => coord_of(ch) is None,
            },
    {
        proof {
            use_type_invariant(self);
        }
        let mut k: usize = 0;
        while k < self.entries.len()
            invariant
                self.wf(),
                k <= self.entries@.len(),
                forall|m: int| 0 <= m < k ==> self.entries@[m].0 != ch,
            decreases self.entries@.len() - k,
        {
            let (letter, rc) = self.entries[k];
            if letter == ch {
                proof {
                    lemma_grid_coord(k as int / 5, k as int % 5);
                }
                return Some(rc);
            }
            k += 1;
        }
        proof {
            if is_grid_letter(ch) {
                lemma_grid_cover(ch);
                let (r, c) = choose|r: int, c: int|
                    0 <= r < 5 && 0 <= c < 5 && grid_at(r, c) == ch;
                assert(self.entries@[5 * r + c].0 == ch);
            }
        }
        None
    }
}

} // verus!
