use pigpen::decoder::{decode_line, decode_text};
use pigpen::encoder::{encode_line, encode_text};
use pigpen::grid::CoordIndex;
use pigpen::remap::{parse_mapping_table, RemapTable};

const GRID_LETTERS: &str = "ABCDEFGHIJLMNOPQRSTUVWXYZ";

fn token(row: usize, col: usize) -> String {
    format!("{} {} ", ".".repeat(row), ".".repeat(col))
}

#[test]
fn index_lookup_grid_letters() {
    let idx = CoordIndex::new();
    assert_eq!(idx.lookup('A'), Some((1, 1)));
    assert_eq!(idx.lookup('E'), Some((1, 5)));
    assert_eq!(idx.lookup('H'), Some((2, 3)));
    assert_eq!(idx.lookup('Z'), Some((5, 5)));
    assert_eq!(idx.lookup('K'), None);
    assert_eq!(idx.lookup('a'), None);
    assert_eq!(idx.lookup('-'), None);
}

#[test]
fn encode_single_letter() {
    let idx = CoordIndex::new();
    let (out, diags) = encode_text("A", &RemapTable::empty(), &idx);
    assert_eq!(out, ". . \n");
    assert!(diags.is_empty());
}

#[test]
fn decode_single_token() {
    assert_eq!(decode_line(". . "), "A");
    assert_eq!(decode_text(". . \n"), "A\n");
    assert_eq!(decode_text(". . "), "A\n");
}

#[test]
fn round_trip_hello() {
    let idx = CoordIndex::new();
    let expected = format!(
        "{}{}{}{}{}\n",
        token(2, 3),
        token(1, 5),
        token(3, 1),
        token(3, 1),
        token(3, 4)
    );
    let (out, diags) = encode_text("HELLO", &RemapTable::empty(), &idx);
    assert_eq!(out, expected);
    assert!(diags.is_empty());
    assert_eq!(decode_text(&out), "HELLO\n");
}

#[test]
fn round_trip_every_grid_letter() {
    let idx = CoordIndex::new();
    let map = RemapTable::empty();
    for letter in GRID_LETTERS.chars() {
        let input = letter.to_string();
        let (out, diags) = encode_text(&input, &map, &idx);
        assert!(diags.is_empty());
        assert_eq!(decode_text(&out), format!("{letter}\n"));
    }
}

#[test]
fn round_trip_uppercases_input() {
    let idx = CoordIndex::new();
    let (out, diags) = encode_text("hello", &RemapTable::empty(), &idx);
    assert!(diags.is_empty());
    assert_eq!(decode_text(&out), "HELLO\n");
}

#[test]
fn unsupported_char_reported() {
    let idx = CoordIndex::new();
    let (out, diags) = encode_text("K", &RemapTable::empty(), &idx);
    assert_eq!(out, "\n");
    assert_eq!(diags, vec!['K']);

    let (out, diags) = encode_text("A7B", &RemapTable::empty(), &idx);
    assert_eq!(out, format!("{}{}\n", token(1, 1), token(1, 2)));
    assert_eq!(diags, vec!['7']);
}

#[test]
fn skip_sentinel_drops_silently() {
    let idx = CoordIndex::new();
    let mut map = RemapTable::empty();
    map.insert('!', '-');
    let (out, diags) = encode_text("A!B", &map, &idx);
    assert_eq!(out, format!("{}{}\n", token(1, 1), token(1, 2)));
    assert!(diags.is_empty());
}

#[test]
fn plain_sentinel_in_input_drops_silently() {
    let idx = CoordIndex::new();
    let (out, diags) = encode_text("A-B", &RemapTable::empty(), &idx);
    assert_eq!(out, format!("{}{}\n", token(1, 1), token(1, 2)));
    assert!(diags.is_empty());
}

#[test]
fn remap_substitutes_before_lookup() {
    let idx = CoordIndex::new();
    let map = parse_mapping_table("H,X").expect("well-formed table");
    let (out, diags) = encode_text("HI", &map, &idx);
    assert_eq!(out, format!("{}{}\n", token(5, 3), token(2, 4)));
    assert!(diags.is_empty());
    assert_eq!(decode_text(&out), "XI\n");
}

#[test]
fn remap_value_is_uppercased() {
    let idx = CoordIndex::new();
    let map = parse_mapping_table("A,b").expect("well-formed table");
    let (out, diags) = encode_text("a", &map, &idx);
    assert_eq!(out, format!("{}\n", token(1, 2)));
    assert!(diags.is_empty());
}

#[test]
fn remap_missing_value_defaults_to_skip() {
    let idx = CoordIndex::new();
    let map = parse_mapping_table("X,").expect("well-formed table");
    let (out, diags) = encode_text("X", &map, &idx);
    assert_eq!(out, "\n");
    assert!(diags.is_empty());
}

#[test]
fn malformed_remap_fails_whole_load() {
    assert!(parse_mapping_table("H").is_none());
    assert!(parse_mapping_table(",X").is_none());
    assert!(parse_mapping_table("H,X\nbad line").is_none());
}

#[test]
fn empty_remap_resource_is_identity() {
    let idx = CoordIndex::new();
    let loaded = parse_mapping_table("").expect("empty resource loads");
    let (with_loaded, d1) = encode_text("HI", &loaded, &idx);
    let (with_empty, d2) = encode_text("HI", &RemapTable::empty(), &idx);
    assert_eq!(with_loaded, with_empty);
    assert_eq!(d1, d2);
}

#[test]
fn remap_last_entry_wins() {
    let mut map = RemapTable::empty();
    map.insert('A', 'B');
    map.insert('A', 'C');
    assert_eq!(map.get('A'), Some('C'));
    assert_eq!(map.get('B'), None);

    let idx = CoordIndex::new();
    let map = parse_mapping_table("A,B\nA,C").expect("well-formed table");
    let (out, _) = encode_text("A", &map, &idx);
    assert_eq!(out, format!("{}\n", token(1, 3)));
}

#[test]
fn encoding_preserves_line_count() {
    let idx = CoordIndex::new();
    let (out, diags) = encode_text("AB\n\nK!", &RemapTable::empty(), &idx);
    assert_eq!(out, format!("{}{}\n\n\n", token(1, 1), token(1, 2)));
    assert_eq!(out.matches('\n').count(), 3);
    assert_eq!(diags, vec!['K', '!']);
}

#[test]
fn trailing_newline_adds_no_line() {
    let idx = CoordIndex::new();
    let (out, _) = encode_text("A\n", &RemapTable::empty(), &idx);
    assert_eq!(out, ". . \n");
}

#[test]
fn crlf_line_endings_are_stripped() {
    let idx = CoordIndex::new();
    let (out, diags) = encode_text("A\r\nB", &RemapTable::empty(), &idx);
    assert_eq!(out, format!("{}\n{}\n", token(1, 1), token(1, 2)));
    assert!(diags.is_empty());
}

#[test]
fn decode_tolerates_incomplete_trailing_token() {
    assert_eq!(decode_text(".."), "\n");
    assert_eq!(decode_text(".. ."), "\n");
    assert_eq!(decode_text(".. ... .. "), "H\n");
}

#[test]
fn decode_skips_stray_characters() {
    assert_eq!(decode_text("x.. zzz... q "), "H\n");
}

#[test]
fn decode_zero_counter_falls_back_to_index_one() {
    assert_eq!(decode_text(" . "), "F\n");
    assert_eq!(decode_text("  "), "G\n");
}

#[test]
fn decode_drops_out_of_range_token() {
    assert_eq!(decode_text("...... . "), "\n");
    assert_eq!(decode_text(". ...... "), "\n");
}

#[test]
fn decode_resets_state_at_line_start() {
    assert_eq!(decode_text(".. \n. . "), "\nA\n");
}

#[test]
fn empty_input_yields_empty_output() {
    let idx = CoordIndex::new();
    let (out, diags) = encode_text("", &RemapTable::empty(), &idx);
    assert_eq!(out, "");
    assert!(diags.is_empty());
    assert_eq!(decode_text(""), "");
}

#[test]
fn encode_line_emits_no_terminator() {
    let idx = CoordIndex::new();
    let (out, diags) = encode_line("AK", &RemapTable::empty(), &idx);
    assert_eq!(out, ". . ");
    assert_eq!(diags, vec!['K']);
}
