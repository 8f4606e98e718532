//! The stroke dictionary and the resolution protocol.
//!
//! A dictionary is an insertion-ordered store of stroke-to-translation
//! entries. Resolution takes the flat lookup string of a chord: the star
//! stroke always deletes, a miss echoes the stroke and clears the glue
//! memory, and a hit either outputs the translation or, when the
//! translation carries a suffix-glue annotation of the form `{^text}`,
//! attaches the suffix to the immediately preceding output.

use vstd::prelude::*;
use vstd::string::*;
use crate::steno::{Chord, Command, CommandModel, plain_view};
use crate::text::{contains_frag, str_contains, str_eq, push_char};

verus! {

/// One stored dictionary entry. Entries keep their insertion identifier;
/// when two entries share a stroke, the most recently inserted one wins.
#[derive(Debug)]
pub struct Entry {
    pub id: i32,
    pub chord: String,
    pub translation: String,
}

/// A not-yet-stored dictionary entry, before an identifier is assigned.
#[derive(Debug)]
pub struct NewEntry {
    pub chord: String,
    pub translation: String,
}

/// Whether a translation carries the suffix-glue annotation `{^text}`.
pub open spec fn is_glue(t: Seq<char>) -> bool {
    t.len() >= 3 && t[0] == '{' && t[1] == '^' && t[t.len() - 1] == '}'
}

/// The suffix text inside a glue annotation `{^text}`.
pub open spec fn glue_suffix(t: Seq<char>) -> Seq<char> {
    t.subrange(2, t.len() - 1)
}

/// Extracts the suffix of a glue-annotated translation, or `None` when the
/// translation carries no glue annotation.
pub fn parse_glue(t: &str) -> (r: Option<String>)
    ensures
        match r {
            Some(s) => is_glue(t@) && s@ == glue_suffix(t@),
            None => !is_glue(t@),
        },
{
    let n = t.unicode_len();
    if n < 3 {
        return None;
    }
    if t.get_char(0) != '{' || t.get_char(1) != '^' || t.get_char(n - 1) != '}' {
        return None;
    }
    let mut out = String::new();
    let mut i: usize = 2;
    while i < n - 1
        invariant
            n == t@.len(),
            3 <= n,
            2 <= i <= n - 1,
            out@ == t@.subrange(2, i as int),
        decreases n - 1 - i,
    {
        push_char(&mut out, t.get_char(i));
        assert(t@.subrange(2, i as int + 1) =~= t@.subrange(2, i as int).push(t@[i as int]));
        i = i + 1;
    }
    Some(out)
}

/// The translation of the most recently inserted entry whose stroke equals
/// `key`, if any.
pub open spec fn lookup_translation(
    es: Seq<(Seq<char>, Seq<char>)>,
    key: Seq<char>,
) -> Option<Seq<char>>
    decreases es.len(),
{
    if es.len() == 0 {
        None
    } else if es.last().0 == key {
        Some(es.last().1)
    } else {
        lookup_translation(es.drop_last(), key)
    }
}

/// One step of the resolution protocol: from the flat lookup string, the
/// stored strokes, and the glue memory, to the command and the new glue
/// memory.
pub open spec fn resolve_spec(
    flat: Seq<char>,
    es: Seq<(Seq<char>, Seq<char>)>,
    glue: Option<Seq<char>>,
) -> (CommandModel, Option<Seq<char>>) {
    if flat == "*"@ {
        (CommandModel::Delete, glue)
    } else {
        match lookup_translation(es, flat) {
            Option::None => (CommandModel::Error(flat), Option::None),
            Option::Some(t) => {
                if is_glue(t) {
                    match glue {
                        Option::Some(prior) => (
                            CommandModel::Append(prior + glue_suffix(t)),
                            Option::Some(prior + glue_suffix(t)),
                        ),
                        Option::None => (
                            CommandModel::Output(glue_suffix(t)),
                            Option::Some(glue_suffix(t)),
                        ),
                    }
                } else {
                    (CommandModel::Output(t), Option::Some(t))
                }
            }
        }
    }
}

/// Resolution is deterministic: the command is a function of the flat
/// stroke, the stored entries, and the glue memory alone, so the same
/// chord against an unchanged dictionary always yields the same command.
/// Only a hit on a glue-annotated translation reads the glue memory — the
/// memory set by the immediately preceding output — and it yields an
/// `Append` of the prior output exactly when that memory holds one.
pub proof fn lemma_resolve_deterministic(
    flat: Seq<char>,
    es: Seq<(Seq<char>, Seq<char>)>,
    g1: Option<Seq<char>>,
    g2: Option<Seq<char>>,
)
    ensures
        g1 == g2 ==> resolve_spec(flat, es, g1) == resolve_spec(flat, es, g2),
        (flat == "*"@ || lookup_translation(es, flat) is None
            || (lookup_translation(es, flat) matches Some(t) && !is_glue(t)))
            ==> resolve_spec(flat, es, g1).0 == resolve_spec(flat, es, g2).0,
        (flat != "*"@ && (lookup_translation(es, flat) matches Some(t) && is_glue(t)))
            ==> resolve_spec(flat, es, g1).0 == match g1 {
                Some(prior) => CommandModel::Append(
                    prior + glue_suffix(lookup_translation(es, flat)->Some_0),
                ),
                None => CommandModel::Output(
                    glue_suffix(lookup_translation(es, flat)->Some_0),
                ),
            },
{
}

/// The entries matching a fragment, in insertion order.
pub open spec fn find_matches(es: Seq<Entry>, frag: Seq<char>) -> Seq<Entry>
    decreases es.len(),
{
    if es.len() == 0 {
        Seq::empty()
    } else {
        find_matches(es.drop_last(), frag)
            + if contains_frag(es.last().chord@, frag) { seq![es.last()] } else { Seq::empty() }
    }
}

/// The insertion-ordered stroke dictionary, together with the glue memory
/// that links a suffix stroke to the immediately preceding output.
pub struct Dictionary {
    entries: Vec<Entry>,
    last: Option<String>,
}

impl Dictionary {
    /// The stored entries, in insertion order.
    pub closed spec fn entries_view(&self) -> Seq<Entry> {
        self.entries@
    }

    /// The stored (stroke, translation) pairs, in insertion order.
    pub open spec fn strokes(&self) -> Seq<(Seq<char>, Seq<char>)> {
        self.entries_view().map_values(|e: Entry| (e.chord@, e.translation@))
    }

    /// The glue memory: the text of the immediately preceding output, if
    /// the preceding resolution produced one.
    pub closed spec fn glue_memory(&self) -> Option<Seq<char>> {
        match self.last {
            Some(s) => Some(s@),
            None => None,
        }
    }

    /// An empty dictionary with clear glue memory.
    pub fn new() -> (d: Dictionary)
        ensures
            d.entries_view() == Seq::<Entry>::empty(),
            d.glue_memory() is None,
    {
        Dictionary { entries: Vec::new(), last: None }
    }

    /// Stores one entry after all existing ones, assigning it the next
    /// insertion identifier. A repeated stroke is stored again; lookups
    /// then prefer this newer entry.
    pub fn add(&mut self, entry: NewEntry)
        requires
            old(self).entries_view().len() < 0x7fff_ffff,
        ensures
            final(self).entries_view() == old(self).entries_view().push(
                Entry {
                    id: (old(self).entries_view().len() + 1) as i32,
                    chord: entry.chord,
                    translation: entry.translation,
                },
            ),
            final(self).glue_memory() == old(self).glue_memory(),
    {
        let id = self.entries.len() as i32 + 1;
        self.entries.push(Entry { id, chord: entry.chord, translation: entry.translation });
    }

    /// Builds a dictionary holding the given entries in order.
    pub fn from_entries(list: Vec<NewEntry>) -> (d: Dictionary)
        requires
            list@.len() < 0x7fff_ffff,
        ensures
            d.entries_view().len() == list@.len(),
            forall|i: int| 0 <= i < list@.len() ==> {
                &&& (#[trigger] d.entries_view()[i]).id == i + 1
                &&& d.entries_view()[i].chord == list@[i].chord
                &&& d.entries_view()[i].translation == list@[i].translation
            },
            d.glue_memory() is None,
    {
        let mut d = Dictionary::new();
        let mut i: usize = 0;
        while i < list.len()
            invariant
                i <= list@.len(),
                list@.len() < 0x7fff_ffff,
                d.entries_view().len() == i,
                forall|j: int| 0 <= j < i ==> {
                    &&& (#[trigger] d.entries_view()[j]).id == j + 1
                    &&& d.entries_view()[j].chord == list@[j].chord
                    &&& d.entries_view()[j].translation == list@[j].translation
                },
                d.glue_memory() is None,
            decreases list@.len() - i,
        {
            d.add(NewEntry {
                chord: list[i].chord.clone(),
                translation: list[i].translation.clone(),
            });
            i = i + 1;
        }
        d
    }

    /// The translation of the most recently inserted entry for `key`.
    fn latest_translation(&self, key: &str) -> (r: Option<String>)
        ensures
            match r {
                Some(t) => lookup_translation(self.strokes(), key@) == Some(t@),
                None => lookup_translation(self.strokes(), key@) is None,
            },
    {
        let mut i: usize = self.entries.len();
        proof {
            assert(self.strokes().len() == self.entries@.len());
            assert(self.strokes().take(i as int) =~= self.strokes());
        }
        while i > 0
            invariant
                i <= self.entries@.len(),
                lookup_translation(self.strokes(), key@)
                    == lookup_translation(self.strokes().take(i as int), key@),
            decreases i,
        {
            i = i - 1;
            proof {
                assert(self.strokes().take(i as int + 1).drop_last() =~= self.strokes().take(i as int));
                assert(self.strokes().take(i as int + 1).last() == self.strokes()[i as int]);
            }
            if str_eq(self.entries[i].chord.as_str(), key) {
                return Some(self.entries[i].translation.clone());
            }
        }
        None
    }

    /// Resolves the flat lookup string of one stroke: the star stroke
    /// deletes, a miss echoes the stroke and clears the glue memory, and a
    /// hit outputs its translation or glues its suffix to the preceding
    /// output. The stored entries never change.
    pub fn lookup(&mut self, in_chord: String) -> (c: Command)
        ensures
            final(self).entries_view() == old(self).entries_view(),
            c@ == resolve_spec(in_chord@, old(self).strokes(), old(self).glue_memory()).0,
            final(self).glue_memory()
                == resolve_spec(in_chord@, old(self).strokes(), old(self).glue_memory()).1,
    {
        if str_eq(in_chord.as_str(), "*") {
            return Command::Delete;
        }
        match self.latest_translation(in_chord.as_str()) {
            None => {
                self.last = None;
                Command::Error(in_chord)
            }
            Some(t) => {
                match parse_glue(t.as_str()) {
                    Some(suffix) => {
                        match &self.last {
                            Some(prior) => {
                                let mut combined = prior.clone();
                                combined.append(suffix.as_str());
                                let out = combined.clone();
                                self.last = Some(combined);
                                Command::Append(out)
                            }
                            None => {
                                self.last = Some(suffix.clone());
                                Command::Output(suffix)
                            }
                        }
                    }
                    None => {
                        self.last = Some(t.clone());
                        Command::Output(t)
                    }
                }
            }
        }
    }

    /// All entries whose stroke contains the fragment, in insertion order
    /// (oldest first). Used by interactive lookup, never by resolution.
    pub fn find(&self, search: &String) -> (results: Vec<Entry>)
        ensures
            results@ == find_matches(self.entries_view(), search@),
    {
        let mut results: Vec<Entry> = Vec::new();
        let mut i: usize = 0;
        while i < self.entries.len()
            invariant
                i <= self.entries@.len(),
                results@ == find_matches(self.entries_view().take(i as int), search@),
            decreases self.entries@.len() - i,
        {
            proof {
                assert(self.entries_view().take(i as int + 1).drop_last()
                    =~= self.entries_view().take(i as int));
                assert(self.entries_view().take(i as int + 1).last()
                    == self.entries_view()[i as int]);
            }
            let e = &self.entries[i];
            if str_contains(e.chord.as_str(), search.as_str()) {
                results.push(Entry {
                    id: e.id,
                    chord: e.chord.clone(),
                    translation: e.translation.clone(),
                });
                assert(results@.last() == self.entries_view()[i as int]);
                assert(results@ =~= find_matches(self.entries_view().take(i as int + 1), search@));
            } else {
                assert(results@ =~= find_matches(self.entries_view().take(i as int + 1), search@));
            }
            i = i + 1;
        }
        proof {
            assert(self.entries_view().take(self.entries_view().len() as int)
                =~= self.entries_view());
        }
        results
    }
}

impl Chord {
    /// Resolves this chord against the dictionary through its flat lookup
    /// string, updating the dictionary's glue memory and nothing else.
    pub fn resolve(&self, dict: &mut Dictionary) -> (c: Command)
        ensures
            final(dict).entries_view() == old(dict).entries_view(),
            c@ == resolve_spec(plain_view(self@), old(dict).strokes(), old(dict).glue_memory()).0,
            final(dict).glue_memory()
                == resolve_spec(plain_view(self@), old(dict).strokes(), old(dict).glue_memory()).1,
    {
        dict.lookup(self.plain())
    }
}

} // verus!
