//! The Character Remapper: an optional, user-supplied mapping from one
//! character to a substitute, applied before grid lookup during encoding.
//!
//! A remap resource is a text of `key,value` lines; a missing value defaults
//! to the skip sentinel `-`.  Loading is all-or-nothing: any malformed line
//! (no comma, or an empty key) makes the whole load fail, and the caller then
//! falls back to the empty mapping.

use vstd::prelude::*;
use crate::text::{find_idx, lemma_find_idx_at, lemma_find_idx_absent, spec_lines, split_lines};
use vstd::string::StrSliceExecFns;

verus! {

/// The mapping that a sequence of `(key, value)` entries denotes: a later
/// entry overrides an earlier one with the same key.
pub open spec fn entries_map(s: Seq<(char, char)>) -> Map<char, char>
    decreases s.len(),
{
    if s.len() == 0 {
        Map::empty()
    } else {
        entries_map(s.drop_last()).insert(s.last().0, s.last().1)
    }
}

/// Lookup by scanning the entries from the most recent one.
spec fn entries_get(s: Seq<(char, char)>, ch: char) -> Option<char>
    decreases s.len(),
{
    if s.len() == 0 {
        None
    } else if s.last().0 == ch {
        Some(s.last().1)
    } else {
        entries_get(s.drop_last(), ch)
    }
}

proof fn lemma_entries_get(s: Seq<(char, char)>, ch: char)
    ensures
        entries_get(s, ch) == if entries_map(s).contains_key(ch) {
            Some(entries_map(s)[ch])
        } else {
            None::<char>
        },
    decreases s.len(),
{
    if s.len() > 0 {
        lemma_entries_get(s.drop_last(), ch);
    }
}

/// The entry a single `key,value` line denotes, or `None` for a malformed
/// line: the key is the character before the first comma, the value the
/// character right after it; no comma at all, or nothing before it, is
/// malformed; an empty value part defaults to the skip sentinel `-`.
pub open spec fn parse_entry(line: Seq<char>) -> Option<(char, char)> {
    let i = find_idx(line, ',');
    if i >= line.len() {
        None
    } else if i == 0 {
        None
    } else {
        Some((line[0], if i + 1 < line.len() { line[i as int + 1] } else { '-' }))
    }
}

/// The entries of a whole remap resource, line by line; `None` as soon as any
/// line is malformed.
pub open spec fn parse_entries(lines: Seq<Seq<char>>) -> Option<Seq<(char, char)>>
    decreases lines.len(),
{
    if lines.len() == 0 {
        Some(Seq::empty())
    } else {
        match parse_entry(lines[0]) {
            None => None,
            Some(e) => match parse_entries(lines.drop_first()) {
                None => None,
                Some(rest) => Some(seq![e] + rest),
            },
        }
    }
}

/// The Remap Table: an immutable character -> character substitution looked
/// up by the encoder before the grid lookup.  Its view is the mapping the
/// entries denote.
pub struct RemapTable {
    entries: Vec<(char, char)>,
}

impl View for RemapTable {
    type V = Map<char, char>;

    closed spec fn view(&self) -> Map<char, char> {
        entries_map(self.entries@)
    }
}

impl RemapTable {
    /// The empty mapping: every character passes through unchanged.
    pub fn empty() -> (t: Self)
        ensures
            t@ == Map::<char, char>::empty(),
    {
        RemapTable { entries: Vec::new() }
    }

    /// Add one substitution; it overrides any earlier entry for `key`.
    pub fn insert(&mut self, key: char, value: char)
        ensures
            final(self)@ == old(self)@.insert(key, value),
    {
        self.entries.push((key, value));
        proof {
            assert(self.entries@.drop_last() =~= old(self).entries@);
        }
    }

    /// The substitute for `ch`, or `None` when the table does not remap it.
    pub fn get(&self, ch: char) -> (res: Option<char>)
        ensures
            res == if self@.contains_key(ch) {
                Some(self@[ch])
            } else {
                None::<char>
            },
    {
        proof {
            lemma_entries_get(self.entries@, ch);
            assert(self.entries@.take(self.entries@.len() as int) =~= self.entries@);
        }
        let mut k: usize = self.entries.len();
        while k > 0
            invariant
                k <= self.entries@.len(),
                entries_get(self.entries@, ch) == entries_get(
                    self.entries@.take(k as int),
                    ch,
                ),
                entries_get(self.entries@, ch) == if self@.contains_key(ch) {
                    Some(self@[ch])
                } else {
                    None::<char>
                },
            decreases k,
        {
            k = k - 1;
            let (key, value) = self.entries[k];
            proof {
                assert(self.entries@.take(k as int + 1).last() == self.entries@[k as int]);
                assert(self.entries@.take(k as int + 1).drop_last() =~= self.entries@.take(
                    k as int,
                ));
            }
            if key == ch {
                return Some(value);
            }
        }
        None
    }
}

/// Parse the text of a remap resource into a Remap Table.
///
/// All-or-nothing: one malformed line makes the whole load fail, and the
/// caller degrades to the empty mapping instead of a partial one.
pub fn parse_mapping_table(contents: &str) -> (res: Option<RemapTable>)
    ensures
        match res {
            Some(t) => parse_entries(spec_lines(contents@)) is Some && t@ == entries_map(
                parse_entries(spec_lines(contents@))->Some_0,
            ),
            None => parse_entries(spec_lines(contents@)) is None,
        },
{
    let lines = split_lines(contents);
    let ghost lv: Seq<Seq<char>> = lines@.map_values(|t: &str| t@);
    let mut entries: Vec<(char, char)> = Vec::new();
    let mut k: usize = 0;
    proof {
        assert(lv.skip(0) =~= lv);
    }
    while k < lines.len()
        invariant
            k <= lines@.len(),
            lv == lines@.map_values(|t: &str| t@),
            lv == spec_lines(contents@),
            parse_entries(lv) == match parse_entries(lv.skip(k as int)) {
                Some(rest) => Some(entries@ + rest),
                None => None::<Seq<(char, char)>>,
            },
        decreases lines@.len() - k,
    {
        let line = lines[k];
        proof {
            assert(lv.skip(k as int)[0] == line@);
            assert(lv.skip(k as int).drop_first() =~= lv.skip(k as int + 1));
        }
        match parse_line_entry(line) {
            None => {
                return None;
            },
            Some(e) => {
                entries.push(e);
                proof {
                    if parse_entries(lv.skip(k as int + 1)) is Some {
                        let rest = parse_entries(lv.skip(k as int + 1))->Some_0;
                        assert(entries@ + rest =~= entries@.drop_last() + (seq![e] + rest));
                    }
                }
            },
        }
        k += 1;
    }
    proof {
        assert(lv.skip(k as int).len() == 0);
        assert(entries@ + Seq::<(char, char)>::empty() =~= entries@);
    }
    Some(RemapTable { entries })
}

/// Parse one `key,value` line.
fn parse_line_entry(line: &str) -> (res: Option<(char, char)>)
    ensures
        res == parse_entry(line@),
{
    let n = line.unicode_len();
    let mut i: usize = 0;
    while i < n
        invariant
            i <= n,
            n == line@.len(),
            forall|m: int| 0 <= m < i ==> line@[m] != ',',
        decreases n - i,
    {
        if line.get_char(i) == ',' {
            proof {
                lemma_find_idx_at(line@, ',', i as int);
            }
            if i == 0 {
                return None;
            }
            let key = line.get_char(0);
            let value = if i + 1 < n {
                line.get_char(i + 1)
            } else {
                '-'
            };
            return Some((key, value));
        }
        i += 1;
    }
    proof {
        lemma_find_idx_absent(line@, ',');
    }
    None
}

} // verus!
