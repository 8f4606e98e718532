use wayplover::dictionary::{Dictionary, NewEntry};
use wayplover::steno::{Chord, Command, ActionSymbol};

fn entry(chord: &str, translation: &str) -> NewEntry {
    NewEntry { chord: chord.to_string(), translation: translation.to_string() }
}

fn expect_output(c: Command, text: &str) {
    match c {
        Command::Output(t) => assert_eq!(t, text),
        _ => panic!("expected an output command"),
    }
}

#[test]
fn sto_resolves_to_test() {
    let mut dict = Dictionary::new();
    dict.add(entry("STO", "test"));
    let chord = Chord::new(vec!["S-", "T-", "O-"]);
    expect_output(chord.resolve(&mut dict), "test");
}

#[test]
fn star_always_deletes_even_with_a_star_entry() {
    let mut dict = Dictionary::new();
    dict.add(entry("*", "never used"));
    let chord = Chord::new(vec!["*"]);
    assert!(matches!(chord.resolve(&mut dict), Command::Delete));
}

#[test]
fn miss_echoes_the_stroke() {
    let mut dict = Dictionary::new();
    dict.add(entry("STO", "test"));
    let chord = Chord::new(vec!["K-", "R-"]);
    match chord.resolve(&mut dict) {
        Command::Error(t) => assert_eq!(t, "KR"),
        _ => panic!("expected an error command"),
    }
}

#[test]
fn glue_appends_to_preceding_output() {
    let mut dict = Dictionary::new();
    dict.add(entry("KAT", "cat"));
    dict.add(entry("KR", "{^'s}"));
    let cat = Chord::new(vec!["K-", "A-", "-T"]);
    expect_output(cat.resolve(&mut dict), "cat");
    let kr = Chord::new(vec!["K-", "R-"]);
    match kr.resolve(&mut dict) {
        Command::Append(t) => assert_eq!(t, "cat's"),
        _ => panic!("expected an append command"),
    }
}

#[test]
fn glue_without_prior_output_degrades_to_output() {
    let mut dict = Dictionary::new();
    dict.add(entry("KR", "{^'s}"));
    let kr = Chord::new(vec!["K-", "R-"]);
    expect_output(kr.resolve(&mut dict), "'s");
}

#[test]
fn miss_clears_glue_memory() {
    let mut dict = Dictionary::new();
    dict.add(entry("KAT", "cat"));
    dict.add(entry("KR", "{^'s}"));
    let cat = Chord::new(vec!["K-", "A-", "-T"]);
    expect_output(cat.resolve(&mut dict), "cat");
    let miss = Chord::new(vec!["W-"]);
    assert!(matches!(miss.resolve(&mut dict), Command::Error(_)));
    let kr = Chord::new(vec!["K-", "R-"]);
    expect_output(kr.resolve(&mut dict), "'s");
}

#[test]
fn glue_chains_through_appends() {
    let mut dict = Dictionary::new();
    dict.add(entry("KAT", "cat"));
    dict.add(entry("KR", "{^'s}"));
    dict.add(entry("Z", "{^z}"));
    let cat = Chord::new(vec!["K-", "A-", "-T"]);
    expect_output(cat.resolve(&mut dict), "cat");
    let kr = Chord::new(vec!["K-", "R-"]);
    match kr.resolve(&mut dict) {
        Command::Append(t) => assert_eq!(t, "cat's"),
        _ => panic!("expected an append command"),
    }
    let z = Chord::new(vec!["-Z"]);
    match z.resolve(&mut dict) {
        Command::Append(t) => assert_eq!(t, "cat'sz"),
        _ => panic!("expected an append command"),
    }
}

#[test]
fn resolve_is_deterministic_for_equal_dictionary_states() {
    let mut d1 = Dictionary::new();
    d1.add(entry("STO", "test"));
    let mut d2 = Dictionary::new();
    d2.add(entry("STO", "test"));
    let chord = Chord::new(vec!["S-", "T-", "O-"]);
    let c1 = chord.resolve(&mut d1);
    let c2 = chord.resolve(&mut d2);
    match (c1, c2) {
        (Command::Output(a), Command::Output(b)) => assert_eq!(a, b),
        _ => panic!("expected two equal output commands"),
    }
}

#[test]
fn latest_entry_wins_on_duplicate_strokes() {
    let mut dict = Dictionary::new();
    dict.add(entry("STO", "old"));
    dict.add(entry("STO", "new"));
    let chord = Chord::new(vec!["S-", "T-", "O-"]);
    expect_output(chord.resolve(&mut dict), "new");
}

#[test]
fn lookup_takes_the_flat_stroke_string() {
    let mut dict = Dictionary::new();
    dict.add(entry("SEZ", "says"));
    expect_output(dict.lookup("SEZ".to_string()), "says");
    assert!(matches!(dict.lookup("ZES".to_string()), Command::Error(_)));
}

#[test]
fn find_returns_matches_in_insertion_order() {
    let mut dict = Dictionary::new();
    dict.add(entry("KAT", "cat"));
    dict.add(entry("STO", "test"));
    dict.add(entry("KR", "{^'s}"));
    let hits = dict.find(&"K".to_string());
    assert_eq!(hits.len(), 2);
    assert_eq!(hits[0].chord, "KAT");
    assert_eq!(hits[0].id, 1);
    assert_eq!(hits[1].chord, "KR");
    assert_eq!(hits[1].id, 3);
    let all = dict.find(&"".to_string());
    assert_eq!(all.len(), 3);
    let none = dict.find(&"Q".to_string());
    assert!(none.is_empty());
}

#[test]
fn from_entries_numbers_in_insertion_order() {
    let dict = Dictionary::from_entries(vec![entry("A", "x"), entry("B", "y")]);
    let all = dict.find(&"".to_string());
    assert_eq!(all.len(), 2);
    assert_eq!(all[0].id, 1);
    assert_eq!(all[0].translation, "x");
    assert_eq!(all[1].id, 2);
    assert_eq!(all[1].translation, "y");
}

#[test]
fn command_text_pairs() {
    let (sym, text) = Command::Output("abc".to_string()).as_text();
    assert_eq!(sym, ActionSymbol::Noop);
    assert_eq!(text, "abc");
    let (sym, text) = Command::Append("s".to_string()).as_text();
    assert_eq!(sym, ActionSymbol::Suffix);
    assert_eq!(text, "s");
    let (sym, text) = Command::Delete.as_text();
    assert_eq!(sym, ActionSymbol::Delete);
    assert_eq!(text, "");
    let (sym, text) = Command::Error("KR".to_string()).as_text();
    assert_eq!(sym, ActionSymbol::Noop);
    assert_eq!(text, "KR");
}
