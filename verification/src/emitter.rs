//! The virtual-keystroke emission sequencer.
//!
//! A resolved command is split into an action symbol and literal text; this
//! module builds from them the ordered key sequence (an action prefix, then
//! one key or modifier-plus-key per character) and expands that sequence
//! into the timed stream of press/release events that the virtual keyboard
//! device receives. Every event must be followed by one settle interval:
//! the virtual-device driver drops or coalesces events that arrive faster.

use vstd::prelude::*;
use vstd::string::*;
use crate::steno::ActionSymbol;

verus! {

/// Virtual key identifiers, as the host's input-event codes.
pub const KEY_A: u16 = 30;
pub const KEY_B: u16 = 48;
pub const KEY_C: u16 = 46;
pub const KEY_D: u16 = 32;
pub const KEY_E: u16 = 18;
pub const KEY_F: u16 = 33;
pub const KEY_G: u16 = 34;
pub const KEY_H: u16 = 35;
pub const KEY_I: u16 = 23;
pub const KEY_J: u16 = 36;
pub const KEY_K: u16 = 37;
pub const KEY_L: u16 = 38;
pub const KEY_M: u16 = 50;
pub const KEY_N: u16 = 49;
pub const KEY_O: u16 = 24;
pub const KEY_P: u16 = 25;
pub const KEY_Q: u16 = 16;
pub const KEY_R: u16 = 19;
pub const KEY_S: u16 = 31;
pub const KEY_T: u16 = 20;
pub const KEY_U: u16 = 22;
pub const KEY_V: u16 = 47;
pub const KEY_W: u16 = 17;
pub const KEY_X: u16 = 45;
pub const KEY_Y: u16 = 21;
pub const KEY_Z: u16 = 44;
pub const KEY_SPACE: u16 = 57;
pub const KEY_APOSTROPHE: u16 = 40;
pub const KEY_BACKSPACE: u16 = 14;
pub const KEY_LEFTCTRL: u16 = 29;
pub const KEY_LEFTSHIFT: u16 = 42;
pub const KEY_LEFTALT: u16 = 56;

/// One virtual key transition: a press or a release of one key.
#[derive(Clone, Copy, Debug, PartialEq, Eq, Structural)]
pub struct KeyEvent {
    pub code: u16,
    pub press: bool,
}

/// A press of key `k`.
pub open spec fn press(k: u16) -> KeyEvent {
    KeyEvent { code: k, press: true }
}

/// A release of key `k`.
pub open spec fn release(k: u16) -> KeyEvent {
    KeyEvent { code: k, press: false }
}

/// Whether `k` is one of the held modifiers.
pub open spec fn is_modifier(k: u16) -> bool {
    k == KEY_LEFTCTRL || k == KEY_LEFTALT || k == KEY_LEFTSHIFT
}

/// The key, and optional shift modifier, that types character `c`;
/// characters without a mapping are silently dropped.
pub open spec fn char_key_spec(c: char) -> Option<(Option<u16>, u16)> {
    match c {
        'a' => Some((None, KEY_A)), 'A' => Some((Some(KEY_LEFTSHIFT), KEY_A)),
        'b' => Some((None, KEY_B)), 'B' => Some((Some(KEY_LEFTSHIFT), KEY_B)),
        'c' => Some((None, KEY_C)), 'C' => Some((Some(KEY_LEFTSHIFT), KEY_C)),
        'd' => Some((None, KEY_D)), 'D' => Some((Some(KEY_LEFTSHIFT), KEY_D)),
        'e' => Some((None, KEY_E)), 'E' => Some((Some(KEY_LEFTSHIFT), KEY_E)),
        'f' => Some((None, KEY_F)), 'F' => Some((Some(KEY_LEFTSHIFT), KEY_F)),
        'g' => Some((None, KEY_G)), 'G' => Some((Some(KEY_LEFTSHIFT), KEY_G)),
        'h' => Some((None, KEY_H)), 'H' => Some((Some(KEY_LEFTSHIFT), KEY_H)),
        'i' => Some((None, KEY_I)), 'I' => Some((Some(KEY_LEFTSHIFT), KEY_I)),
        'j' => Some((None, KEY_J)), 'J' => Some((Some(KEY_LEFTSHIFT), KEY_J)),
        'k' => Some((None, KEY_K)), 'K' => Some((Some(KEY_LEFTSHIFT), KEY_K)),
        'l' => Some((None, KEY_L)), 'L' => Some((Some(KEY_LEFTSHIFT), KEY_L)),
        'm' => Some((None, KEY_M)), 'M' => Some((Some(KEY_LEFTSHIFT), KEY_M)),
        'n' => Some((None, KEY_N)), 'N' => Some((Some(KEY_LEFTSHIFT), KEY_N)),
        'o' => Some((None, KEY_O)), 'O' => Some((Some(KEY_LEFTSHIFT), KEY_O)),
        'p' => Some((None, KEY_P)), 'P' => Some((Some(KEY_LEFTSHIFT), KEY_P)),
        'q' => Some((None, KEY_Q)), 'Q' => Some((Some(KEY_LEFTSHIFT), KEY_Q)),
        'r' => Some((None, KEY_R)), 'R' => Some((Some(KEY_LEFTSHIFT), KEY_R)),
        's' => Some((None, KEY_S)), 'S' => Some((Some(KEY_LEFTSHIFT), KEY_S)),
        't' => Some((None, KEY_T)), 'T' => Some((Some(KEY_LEFTSHIFT), KEY_T)),
        'u' => Some((None, KEY_U)), 'U' => Some((Some(KEY_LEFTSHIFT), KEY_U)),
        'v' => Some((None, KEY_V)), 'V' => Some((Some(KEY_LEFTSHIFT), KEY_V)),
        'w' => Some((None, KEY_W)), 'W' => Some((Some(KEY_LEFTSHIFT), KEY_W)),
        'x' => Some((None, KEY_X)), 'X' => Some((Some(KEY_LEFTSHIFT), KEY_X)),
        'y' => Some((None, KEY_Y)), 'Y' => Some((Some(KEY_LEFTSHIFT), KEY_Y)),
        'z' => Some((None, KEY_Z)), 'Z' => Some((Some(KEY_LEFTSHIFT), KEY_Z)),
        ' ' => Some((None, KEY_SPACE)),
        '\'' => Some((None, KEY_APOSTROPHE)),
        '"' => Some((Some(KEY_LEFTSHIFT), KEY_APOSTROPHE)),
        _ => None,
    }
}

/// The key, and optional shift modifier, that types character `c`.
pub fn char_key(c: char) -> (r: Option<(Option<u16>, u16)>)
    ensures
        r == char_key_spec(c),
{
    match c {
        'a' => Some((None, KEY_A)), 'A' => Some((Some(KEY_LEFTSHIFT), KEY_A)),
        'b' => Some((None, KEY_B)), 'B' => Some((Some(KEY_LEFTSHIFT), KEY_B)),
        'c' => Some((None, KEY_C)), 'C' => Some((Some(KEY_LEFTSHIFT), KEY_C)),
        'd' => Some((None, KEY_D)), 'D' => Some((Some(KEY_LEFTSHIFT), KEY_D)),
        'e' => Some((None, KEY_E)), 'E' => Some((Some(KEY_LEFTSHIFT), KEY_E)),
        'f' => Some((None, KEY_F)), 'F' => Some((Some(KEY_LEFTSHIFT), KEY_F)),
        'g' => Some((None, KEY_G)), 'G' => Some((Some(KEY_LEFTSHIFT), KEY_G)),
        'h' => Some((None, KEY_H)), 'H' => Some((Some(KEY_LEFTSHIFT), KEY_H)),
        'i' => Some((None, KEY_I)), 'I' => Some((Some(KEY_LEFTSHIFT), KEY_I)),
        'j' => Some((None, KEY_J)), 'J' => Some((Some(KEY_LEFTSHIFT), KEY_J)),
        'k' => Some((None, KEY_K)), 'K' => Some((Some(KEY_LEFTSHIFT), KEY_K)),
        'l' => Some((None, KEY_L)), 'L' => Some((Some(KEY_LEFTSHIFT), KEY_L)),
        'm' => Some((None, KEY_M)), 'M' => Some((Some(KEY_LEFTSHIFT), KEY_M)),
        'n' => Some((None, KEY_N)), 'N' => Some((Some(KEY_LEFTSHIFT), KEY_N)),
        'o' => Some((None, KEY_O)), 'O' => Some((Some(KEY_LEFTSHIFT), KEY_O)),
        'p' => Some((None, KEY_P)), 'P' => Some((Some(KEY_LEFTSHIFT), KEY_P)),
        'q' => Some((None, KEY_Q)), 'Q' => Some((Some(KEY_LEFTSHIFT), KEY_Q)),
        'r' => Some((None, KEY_R)), 'R' => Some((Some(KEY_LEFTSHIFT), KEY_R)),
        's' => Some((None, KEY_S)), 'S' => Some((Some(KEY_LEFTSHIFT), KEY_S)),
        't' => Some((None, KEY_T)), 'T' => Some((Some(KEY_LEFTSHIFT), KEY_T)),
        'u' => Some((None, KEY_U)), 'U' => Some((Some(KEY_LEFTSHIFT), KEY_U)),
        'v' => Some((None, KEY_V)), 'V' => Some((Some(KEY_LEFTSHIFT), KEY_V)),
        'w' => Some((None, KEY_W)), 'W' => Some((Some(KEY_LEFTSHIFT), KEY_W)),
        'x' => Some((None, KEY_X)), 'X' => Some((Some(KEY_LEFTSHIFT), KEY_X)),
        'y' => Some((None, KEY_Y)), 'Y' => Some((Some(KEY_LEFTSHIFT), KEY_Y)),
        'z' => Some((None, KEY_Z)), 'Z' => Some((Some(KEY_LEFTSHIFT), KEY_Z)),
        ' ' => Some((None, KEY_SPACE)),
        '\'' => Some((None, KEY_APOSTROPHE)),
        '"' => Some((Some(KEY_LEFTSHIFT), KEY_APOSTROPHE)),
        _ => None,
    }
}

/// The keys an action symbol prepends: a suffix removes the previously
/// emitted separator with one backspace; a delete holds control around a
/// backspace to remove the previous word.
pub open spec fn prefix_keys(sym: ActionSymbol) -> Seq<u16> {
    match sym {
        ActionSymbol::Suffix => seq![KEY_BACKSPACE],
        ActionSymbol::Delete => seq![KEY_LEFTCTRL, KEY_BACKSPACE],
        _ => Seq::empty(),
    }
}

/// The keys that type a character: its modifier (if any) then its key;
/// unmapped characters contribute nothing.
pub open spec fn char_keys(c: char) -> Seq<u16> {
    match char_key_spec(c) {
        None => Seq::empty(),
        Some((None, k)) => seq![k],
        Some((Some(m), k)) => seq![m, k],
    }
}

/// The keys that type a text, character by character.
pub open spec fn text_keys(text: Seq<char>) -> Seq<u16>
    decreases text.len(),
{
    if text.len() == 0 {
        Seq::empty()
    } else {
        text_keys(text.drop_last()) + char_keys(text.last())
    }
}

/// The ordered key sequence of one command: the action prefix, then the
/// keys of the literal text.
pub open spec fn stream_keys(sym: ActionSymbol, text: Seq<char>) -> Seq<u16> {
    prefix_keys(sym) + text_keys(text)
}

/// Builds the ordered key sequence for an action symbol and literal text.
pub fn create_stream(cmd: ActionSymbol, text: &str) -> (keys: Vec<u16>)
    ensures
        keys@ == stream_keys(cmd, text@),
{
    let mut keys: Vec<u16> = Vec::new();
    match cmd {
        ActionSymbol::Suffix => {
            keys.push(KEY_BACKSPACE);
        }
        ActionSymbol::Delete => {
            keys.push(KEY_LEFTCTRL);
            keys.push(KEY_BACKSPACE);
        }
        _ => {}
    }
    assert(keys@ =~= prefix_keys(cmd));
    let n = text.unicode_len();
    let mut i: usize = 0;
    while i < n
        invariant
            n == text@.len(),
            i <= n,
            keys@ == prefix_keys(cmd) + text_keys(text@.take(i as int)),
        decreases n - i,
    {
        let c = text.get_char(i);
        proof {
            assert(text@.take(i as int + 1).drop_last() =~= text@.take(i as int));
            assert(text@.take(i as int + 1).last() == text@[i as int]);
        }
        match char_key(c) {
            None => {}
            Some((None, k)) => {
                keys.push(k);
            }
            Some((Some(m), k)) => {
                keys.push(m);
                keys.push(k);
            }
        }
        assert(keys@ =~= prefix_keys(cmd) + text_keys(text@.take(i as int + 1)));
        i = i + 1;
    }
    proof {
        assert(text@.take(text@.len() as int) =~= text@);
    }
    keys
}

/// The press/release events that the emission algorithm produces from the
/// key sequence `s`, starting at index `i` with `held` as the currently
/// held modifier. A modifier is pressed and held; an ordinary key is
/// pressed and released, then a held modifier is released, and the very
/// last key of an unmodified combination is followed by the automatic
/// word-separator space.
pub open spec fn emission_from(s: Seq<u16>, i: int, held: Option<u16>) -> Seq<KeyEvent>
    decreases s.len() - i,
{
    if i < 0 || i >= s.len() {
        Seq::empty()
    } else {
        let k = s[i];
        if is_modifier(k) {
            seq![press(k)] + emission_from(s, i + 1, Some(k))
        } else {
            seq![press(k), release(k)] + match held {
                Some(m) => seq![release(m)] + emission_from(s, i + 1, None),
                None => if i == s.len() - 1 {
                    seq![press(KEY_SPACE), release(KEY_SPACE)]
                } else {
                    emission_from(s, i + 1, None)
                },
            }
        }
    }
}

/// The full event stream of one key sequence.
pub open spec fn emission(s: Seq<u16>) -> Seq<KeyEvent> {
    emission_from(s, 0, None)
}

/// Expands a key sequence into its ordered press/release event stream.
/// The caller must wait one settle interval after emitting each event.
pub fn emit_sequence(seq_keys: &Vec<u16>) -> (events: Vec<KeyEvent>)
    ensures
        events@ == emission(seq_keys@),
{
    let mut events: Vec<KeyEvent> = Vec::new();
    let mut held: Option<u16> = None;
    let n = seq_keys.len();
    let mut i: usize = 0;
    while i < n
        invariant
            n == seq_keys@.len(),
            i <= n,
            emission(seq_keys@) == events@ + emission_from(seq_keys@, i as int, held),
        decreases n - i,
    {
        let ghost pre = events@;
        let ghost pre_held = held;
        let k = seq_keys[i];
        if k == KEY_LEFTCTRL || k == KEY_LEFTALT || k == KEY_LEFTSHIFT {
            events.push(KeyEvent { code: k, press: true });
            held = Some(k);
        } else {
            events.push(KeyEvent { code: k, press: true });
            events.push(KeyEvent { code: k, press: false });
            match held {
                Some(m) => {
                    events.push(KeyEvent { code: m, press: false });
                    held = None;
                }
                None => {
                    if i == n - 1 {
                        events.push(KeyEvent { code: KEY_SPACE, press: true });
                        events.push(KeyEvent { code: KEY_SPACE, press: false });
                    }
                }
            }
        }
        proof {
            assert(events@ + emission_from(seq_keys@, i as int + 1, held)
                =~= pre + emission_from(seq_keys@, i as int, pre_held));
        }
        i = i + 1;
    }
    proof {
        assert(events@ =~= events@ + emission_from(seq_keys@, n as int, held));
    }
    events
}

/// Builds the complete timed event stream of one command: the key sequence
/// of its action symbol and text, expanded by the emission algorithm. The
/// caller must wait one settle interval after each event.
pub fn emit_events(cmd: ActionSymbol, text: &str) -> (events: Vec<KeyEvent>)
    ensures
        events@ == emission(stream_keys(cmd, text@)),
{
    let keys = create_stream(cmd, text);
    emit_sequence(&keys)
}

/// How many presses of key `k` an event stream holds.
pub open spec fn count_presses(evs: Seq<KeyEvent>, k: u16) -> nat
    decreases evs.len(),
{
    if evs.len() == 0 {
        0
    } else {
        count_presses(evs.drop_last(), k) + if evs.last() == press(k) { 1nat } else { 0nat }
    }
}

/// Press counting distributes over concatenation.
proof fn lemma_count_presses_concat(a: Seq<KeyEvent>, b: Seq<KeyEvent>, k: u16)
    ensures
        count_presses(a + b, k) == count_presses(a, k) + count_presses(b, k),
    decreases b.len(),
{
    if b.len() == 0 {
        assert(a + b =~= a);
    } else {
        lemma_count_presses_concat(a, b.drop_last(), k);
        assert((a + b).drop_last() =~= a + b.drop_last());
        assert((a + b).last() == b.last());
    }
}

/// Press counting over a two-event stream.
proof fn lemma_count_pair(e1: KeyEvent, e2: KeyEvent, k: u16)
    ensures
        count_presses(seq![e1, e2], k) == (if e1 == press(k) { 1nat } else { 0nat })
            + (if e2 == press(k) { 1nat } else { 0nat }),
{
    reveal_with_fuel(count_presses, 3);
    assert(seq![e1, e2].drop_last() =~= seq![e1]);
    assert(seq![e1].drop_last() =~= Seq::<KeyEvent>::empty());
    assert(seq![e1, e2].last() == e2);
    assert(seq![e1].last() == e1);
}

/// How many keys of `s`, at or after position `i`, equal `k`.
pub open spec fn count_keys_from(s: Seq<u16>, i: int, k: u16) -> nat
    decreases s.len() - i,
{
    if i < 0 || i >= s.len() {
        0
    } else {
        (if s[i] == k { 1nat } else { 0nat }) + count_keys_from(s, i + 1, k)
    }
}

/// Over a key sequence without modifiers or spaces, the emission algorithm
/// presses the separator space exactly once, as the last two events.
proof fn lemma_plain_emission_space(s: Seq<u16>, i: int)
    requires
        0 <= i,
        forall|j: int| i <= j < s.len() ==> !is_modifier(#[trigger] s[j]) && s[j] != KEY_SPACE,
    ensures
        i >= s.len() ==> emission_from(s, i, None).len() == 0,
        i < s.len() ==> {
            let evs = emission_from(s, i, None);
            &&& count_presses(evs, KEY_SPACE) == 1
            &&& evs.len() >= 2
            &&& evs[evs.len() - 2] == press(KEY_SPACE)
            &&& evs[evs.len() - 1] == release(KEY_SPACE)
        },
    decreases s.len() - i,
{
    if i < s.len() {
        let k = s[i];
        let pair = seq![press(k), release(k)];
        lemma_count_pair(press(k), release(k), KEY_SPACE);
        if i == s.len() - 1 {
            let tail = seq![press(KEY_SPACE), release(KEY_SPACE)];
            lemma_count_pair(press(KEY_SPACE), release(KEY_SPACE), KEY_SPACE);
            lemma_count_presses_concat(pair, tail, KEY_SPACE);
            assert(emission_from(s, i, None) =~= pair + tail);
        } else {
            lemma_plain_emission_space(s, i + 1);
            let rest = emission_from(s, i + 1, None);
            lemma_count_presses_concat(pair, rest, KEY_SPACE);
            assert(emission_from(s, i, None) =~= pair + rest);
        }
    }
}

/// Over a key sequence without modifiers or spaces, each key other than
/// the separator space is pressed exactly as often as it occurs.
proof fn lemma_plain_emission_count(s: Seq<u16>, i: int, k: u16)
    requires
        0 <= i,
        k != KEY_SPACE,
        forall|j: int| i <= j < s.len() ==> !is_modifier(#[trigger] s[j]) && s[j] != KEY_SPACE,
    ensures
        count_presses(emission_from(s, i, None), k) == count_keys_from(s, i, k),
    decreases s.len() - i,
{
    if 0 <= i && i < s.len() {
        let key = s[i];
        let pair = seq![press(key), release(key)];
        lemma_count_pair(press(key), release(key), k);
        if i == s.len() - 1 {
            let tail = seq![press(KEY_SPACE), release(KEY_SPACE)];
            lemma_count_pair(press(KEY_SPACE), release(KEY_SPACE), k);
            lemma_count_presses_concat(pair, tail, k);
            assert(emission_from(s, i, None) =~= pair + tail);
            assert(count_keys_from(s, i + 1, k) == 0);
        } else {
            lemma_plain_emission_count(s, i + 1, k);
            let rest = emission_from(s, i + 1, None);
            lemma_count_presses_concat(pair, rest, k);
            assert(emission_from(s, i, None) =~= pair + rest);
        }
    }
}

/// A character whose key carries no modifier, and is neither the space nor
/// the backspace key: the text of an ordinary word is made of these.
pub open spec fn plain_char(c: char) -> bool {
    match char_key_spec(c) {
        Some((m, k)) => m is None && !is_modifier(k) && k != KEY_SPACE && k != KEY_BACKSPACE,
        None => false,
    }
}

/// The keys of a text of plain characters: one unmodified key per
/// character, none of them a space, a backspace, or a modifier.
proof fn lemma_text_keys_plain(text: Seq<char>)
    requires
        forall|i: int| 0 <= i < text.len() ==> plain_char(#[trigger] text[i]),
    ensures
        text_keys(text).len() == text.len(),
        forall|j: int| 0 <= j < text_keys(text).len() ==> {
            &&& !is_modifier(#[trigger] text_keys(text)[j])
            &&& text_keys(text)[j] != KEY_SPACE
            &&& text_keys(text)[j] != KEY_BACKSPACE
        },
    decreases text.len(),
{
    if text.len() > 0 {
        assert(plain_char(text[text.len() - 1]));
        lemma_text_keys_plain(text.drop_last());
        let k = match char_key_spec(text.last()) {
            Some((m, k)) => k,
            None => 0u16,
        };
        assert(char_keys(text.last()) =~= seq![k]);
        assert(text_keys(text) =~= text_keys(text.drop_last()).push(k));
    }
}

/// An ordinary output of plain text emits exactly one automatic trailing
/// separator space, as its final press/release pair, and no backspace.
pub proof fn lemma_output_trailing_space(text: Seq<char>)
    requires
        text.len() > 0,
        forall|i: int| 0 <= i < text.len() ==> plain_char(#[trigger] text[i]),
    ensures
        ({
            let evs = emission(stream_keys(ActionSymbol::Noop, text));
            &&& count_presses(evs, KEY_SPACE) == 1
            &&& count_presses(evs, KEY_BACKSPACE) == 0
            &&& evs.len() >= 2
            &&& evs[evs.len() - 2] == press(KEY_SPACE)
            &&& evs[evs.len() - 1] == release(KEY_SPACE)
        }),
{
    lemma_text_keys_plain(text);
    let s = stream_keys(ActionSymbol::Noop, text);
    assert(s =~= text_keys(text));
    lemma_plain_emission_space(s, 0);
    lemma_plain_emission_count(s, 0, KEY_BACKSPACE);
    lemma_count_keys_absent(s, 0, KEY_BACKSPACE);
}

/// A key that occurs nowhere in the suffix is counted zero times.
proof fn lemma_count_keys_absent(s: Seq<u16>, i: int, k: u16)
    requires
        forall|j: int| i <= j < s.len() ==> #[trigger] s[j] != k,
    ensures
        count_keys_from(s, i, k) == 0,
    decreases s.len() - i,
{
    if 0 <= i && i < s.len() {
        lemma_count_keys_absent(s, i + 1, k);
    }
}

/// A suffix glued to the previous output first removes the separator that
/// the previous output emitted — one leading backspace pair — and then
/// emits its text and exactly one new separator space: the net number of
/// separators on the screen does not change.
pub proof fn lemma_append_glues_without_extra_space(text: Seq<char>)
    requires
        text.len() > 0,
        forall|i: int| 0 <= i < text.len() ==> plain_char(#[trigger] text[i]),
    ensures
        ({
            let evs = emission(stream_keys(ActionSymbol::Suffix, text));
            &&& evs.len() >= 4
            &&& evs[0] == press(KEY_BACKSPACE)
            &&& evs[1] == release(KEY_BACKSPACE)
            &&& count_presses(evs, KEY_BACKSPACE) == 1
            &&& count_presses(evs, KEY_SPACE) == 1
            &&& evs[evs.len() - 2] == press(KEY_SPACE)
            &&& evs[evs.len() - 1] == release(KEY_SPACE)
        }),
{
    lemma_text_keys_plain(text);
    let s = stream_keys(ActionSymbol::Suffix, text);
    assert(s =~= seq![KEY_BACKSPACE] + text_keys(text));
    assert(s.len() == 1 + text.len());
    assert(s[0] == KEY_BACKSPACE);
    assert forall|j: int| 0 <= j < s.len() implies
        !is_modifier(#[trigger] s[j]) && s[j] != KEY_SPACE by {
        if j > 0 {
            assert(s[j] == text_keys(text)[j - 1]);
        }
    }
    lemma_plain_emission_space(s, 0);
    lemma_plain_emission_count(s, 0, KEY_BACKSPACE);
    assert(count_keys_from(s, 0, KEY_BACKSPACE) == 1) by {
        lemma_count_keys_once(s, KEY_BACKSPACE);
    }
    let evs = emission(s);
    assert(evs =~= seq![press(KEY_BACKSPACE), release(KEY_BACKSPACE)]
        + emission_from(s, 1, None));
    assert(evs[0] == press(KEY_BACKSPACE));
    assert(evs[1] == release(KEY_BACKSPACE));
    assert(evs.len() >= 4) by {
        lemma_plain_emission_space(s, 1);
    }
}

/// A key that occurs only at the head of the sequence is counted once.
proof fn lemma_count_keys_once(s: Seq<u16>, k: u16)
    requires
        s.len() >= 1,
        s[0] == k,
        forall|j: int| 1 <= j < s.len() ==> #[trigger] s[j] != k,
    ensures
        count_keys_from(s, 0, k) == 1,
{
    lemma_count_keys_absent(s, 1, k);
}

/// A delete command holds control around one backspace and emits no
/// automatic separator space at all.
pub proof fn lemma_delete_no_trailing_space()
    ensures
        ({
            let evs = emission(stream_keys(ActionSymbol::Delete, Seq::empty()));
            &&& evs =~= seq![
                press(KEY_LEFTCTRL),
                press(KEY_BACKSPACE),
                release(KEY_BACKSPACE),
                release(KEY_LEFTCTRL),
            ]
            &&& count_presses(evs, KEY_SPACE) == 0
        }),
{
    let s = stream_keys(ActionSymbol::Delete, Seq::empty());
    assert(s =~= seq![KEY_LEFTCTRL, KEY_BACKSPACE]);
    let evs = emission(s);
    assert(emission_from(s, 2, None) =~= Seq::<KeyEvent>::empty());
    assert(emission_from(s, 1, Some(KEY_LEFTCTRL))
        =~= seq![press(KEY_BACKSPACE), release(KEY_BACKSPACE), release(KEY_LEFTCTRL)]);
    assert(evs =~= seq![
        press(KEY_LEFTCTRL),
        press(KEY_BACKSPACE),
        release(KEY_BACKSPACE),
        release(KEY_LEFTCTRL),
    ]);
    assert(count_presses(evs, KEY_SPACE) == 0) by {
        let front = seq![press(KEY_LEFTCTRL), press(KEY_BACKSPACE)];
        let back = seq![release(KEY_BACKSPACE), release(KEY_LEFTCTRL)];
        assert(evs =~= front + back);
        lemma_count_presses_concat(front, back, KEY_SPACE);
        lemma_count_pair(press(KEY_LEFTCTRL), press(KEY_BACKSPACE), KEY_SPACE);
        lemma_count_pair(release(KEY_BACKSPACE), release(KEY_LEFTCTRL), KEY_SPACE);
    }
}

} // verus!
