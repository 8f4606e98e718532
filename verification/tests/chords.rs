use wayplover::steno::{Chord, decode_frame, key_rank, name_of_rank, numeral_of_rank, steno_key_name};
use wayplover::workers::device_frame;

#[test]
fn all_zero_frame_decodes_to_no_keys() {
    let keys = decode_frame(&[0u8; 6]);
    assert!(keys.is_empty());
    let chord = Chord::new(keys);
    assert!(chord.is_empty());
}

#[test]
fn all_zero_frame_is_never_forwarded() {
    assert!(device_frame(&[0u8; 6]).is_none());
}

#[test]
fn reserved_top_bits_contribute_no_keys() {
    assert!(device_frame(&[0x80u8; 6]).is_none());
}

#[test]
fn frame_bits_map_to_position_names() {
    // position 7 is the first S- switch: byte 1, mask 0x40
    let keys = decode_frame(&[0x00, 0x40, 0x00, 0x00, 0x00, 0x00]);
    assert_eq!(keys, vec!["S-"]);
    // position 1 is a number-bar switch: byte 0, mask 0x20
    let keys = decode_frame(&[0x20, 0x00, 0x00, 0x00, 0x00, 0x00]);
    assert_eq!(keys, vec!["#"]);
    // position 41 is -Z: byte 5, mask 0x01
    let keys = decode_frame(&[0x00, 0x00, 0x00, 0x00, 0x00, 0x01]);
    assert_eq!(keys, vec!["-Z"]);
}

#[test]
fn position_table_matches_layout() {
    assert_eq!(steno_key_name(0), "Fn");
    assert_eq!(steno_key_name(3), "#");
    assert_eq!(steno_key_name(7), "S-");
    assert_eq!(steno_key_name(17), "*");
    assert_eq!(steno_key_name(21), "pwr");
    assert_eq!(steno_key_name(24), "-E");
    assert_eq!(steno_key_name(41), "-Z");
}

#[test]
fn chord_sorts_by_rank_table_regardless_of_arrival_order() {
    let a = Chord::new(vec!["O-", "T-", "S-"]);
    let b = Chord::new(vec!["S-", "T-", "O-"]);
    assert_eq!(a.raw(), vec!["S-", "T-", "O-"]);
    assert_eq!(b.raw(), vec!["S-", "T-", "O-"]);
}

#[test]
fn chord_deduplicates_keys() {
    let c = Chord::new(vec!["S-", "S-", "T-", "S-"]);
    assert_eq!(c.raw(), vec!["S-", "T-"]);
}

#[test]
fn chord_drops_reserved_markers() {
    let c = Chord::new(vec!["Fn", "S-", "pwr", "res"]);
    assert_eq!(c.raw(), vec!["S-"]);
}

#[test]
fn resorting_a_canonical_chord_changes_nothing() {
    let first = Chord::new(vec!["-Z", "A-", "H-"]);
    let raw = first.raw();
    let again = Chord::new(raw.iter().map(|s| s.as_str()).collect());
    assert_eq!(again.raw(), first.raw());
}

#[test]
fn sto_chord_plain_is_sto() {
    let c = Chord::new(vec!["S-", "T-", "O-"]);
    assert_eq!(c.plain(), "STO");
}

#[test]
fn plain_strips_hyphens_on_both_sides() {
    let c = Chord::new(vec!["S-", "-E", "-Z"]);
    assert_eq!(c.plain(), "SEZ");
}

#[test]
fn number_bar_substitutes_numerals() {
    // {#, S-} canonicalizes to the numeral chord ["1-"], plain "1"
    let c = Chord::new(vec!["#", "S-"]);
    assert_eq!(c.raw(), vec!["1-"]);
    assert_eq!(c.plain(), "1");
}

#[test]
fn number_bar_skips_keys_without_numerals() {
    // K- has no numeral substitution, so a {#, K-} chord comes out empty
    let c = Chord::new(vec!["#", "K-"]);
    assert!(c.is_empty());
    // and the number bar itself never reaches the output
    let c = Chord::new(vec!["#"]);
    assert!(c.is_empty());
}

#[test]
fn number_bar_keeps_rank_order() {
    let c = Chord::new(vec!["-T", "O-", "#", "T-"]);
    assert_eq!(c.raw(), vec!["2-", "0-", "-9"]);
    assert_eq!(c.plain(), "209");
}

#[test]
fn rank_lookup_inverts_name_table() {
    for r in 0..23usize {
        let name = name_of_rank(r);
        assert_eq!(key_rank(name.as_str()), Some(r));
    }
    assert_eq!(key_rank("Fn"), None);
    assert_eq!(key_rank(""), None);
    assert_eq!(key_rank("S"), None);
}

#[test]
fn numeral_table_contents() {
    assert_eq!(numeral_of_rank(1), Some("1-".to_string()));
    assert_eq!(numeral_of_rank(9), Some("0-".to_string()));
    assert_eq!(numeral_of_rank(19), Some("-9".to_string()));
    assert_eq!(numeral_of_rank(3), None);
    assert_eq!(numeral_of_rank(10), None);
}
