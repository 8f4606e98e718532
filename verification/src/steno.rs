//! Steno key tables, frame decoding, and chord canonicalization.
//!
//! A raw frame is six bytes from the serial device; each byte contributes its
//! seven low bits (the 0x80 bit is reserved), giving 42 key positions. A
//! position maps to a logical key name through the fixed position table. The
//! 23 meaningful key names carry a fixed rank; a chord is canonical when its
//! names are deduplicated and listed in rank order, with the number-bar
//! substitution applied when the number bar `#` is present.

use vstd::prelude::*;
use vstd::string::*;
use crate::text::str_eq;

verus! {

/// Number of bytes in one raw frame.
pub const BYTES_PER_STROKE: usize = 6;

/// The key name holding rank `r` in the fixed steno order table.
pub open spec fn rank_name(r: int) -> Seq<char> {
    if r == 0 { "#"@ }
    else if r == 1 { "S-"@ }
    else if r == 2 { "T-"@ }
    else if r == 3 { "K-"@ }
    else if r == 4 { "P-"@ }
    else if r == 5 { "W-"@ }
    else if r == 6 { "H-"@ }
    else if r == 7 { "R-"@ }
    else if r == 8 { "A-"@ }
    else if r == 9 { "O-"@ }
    else if r == 10 { "*"@ }
    else if r == 11 { "-E"@ }
    else if r == 12 { "-U"@ }
    else if r == 13 { "-F"@ }
    else if r == 14 { "-R"@ }
    else if r == 15 { "-P"@ }
    else if r == 16 { "-B"@ }
    else if r == 17 { "-L"@ }
    else if r == 18 { "-G"@ }
    else if r == 19 { "-T"@ }
    else if r == 20 { "-S"@ }
    else if r == 21 { "-D"@ }
    else if r == 22 { "-Z"@ }
    else { Seq::empty() }
}

/// The rank of a key name, or -1 when the name is not in the order table.
pub open spec fn rank_of(s: Seq<char>) -> int {
    if s == rank_name(0) { 0 }
    else if s == rank_name(1) { 1 }
    else if s == rank_name(2) { 2 }
    else if s == rank_name(3) { 3 }
    else if s == rank_name(4) { 4 }
    else if s == rank_name(5) { 5 }
    else if s == rank_name(6) { 6 }
    else if s == rank_name(7) { 7 }
    else if s == rank_name(8) { 8 }
    else if s == rank_name(9) { 9 }
    else if s == rank_name(10) { 10 }
    else if s == rank_name(11) { 11 }
    else if s == rank_name(12) { 12 }
    else if s == rank_name(13) { 13 }
    else if s == rank_name(14) { 14 }
    else if s == rank_name(15) { 15 }
    else if s == rank_name(16) { 16 }
    else if s == rank_name(17) { 17 }
    else if s == rank_name(18) { 18 }
    else if s == rank_name(19) { 19 }
    else if s == rank_name(20) { 20 }
    else if s == rank_name(21) { 21 }
    else if s == rank_name(22) { 22 }
    else { -1 }
}

/// Whether the key at rank `r` has a numeral substitution under the number bar.
pub open spec fn has_numeral(r: int) -> bool {
    r == 1 || r == 2 || r == 4 || r == 6 || r == 8 || r == 9
        || r == 13 || r == 15 || r == 17 || r == 19
}

/// The numeral glyph that replaces the key at rank `r` in a number-bar chord.
pub open spec fn numeral_name(r: int) -> Seq<char> {
    if r == 1 { "1-"@ }
    else if r == 2 { "2-"@ }
    else if r == 4 { "3-"@ }
    else if r == 6 { "4-"@ }
    else if r == 8 { "5-"@ }
    else if r == 9 { "0-"@ }
    else if r == 13 { "-6"@ }
    else if r == 15 { "-7"@ }
    else if r == 17 { "-8"@ }
    else if r == 19 { "-9"@ }
    else { Seq::empty() }
}

/// The rank table and the name table invert each other.
#[verifier::rlimit(100)]
pub proof fn lemma_rank_of_name(r: int)
    requires
        0 <= r < 23,
    ensures
        rank_of(rank_name(r)) == r,
{
    reveal_strlit("#");
    reveal_strlit("S-");
    reveal_strlit("T-");
    reveal_strlit("K-");
    reveal_strlit("P-");
    reveal_strlit("W-");
    reveal_strlit("H-");
    reveal_strlit("R-");
    reveal_strlit("A-");
    reveal_strlit("O-");
    reveal_strlit("*");
    reveal_strlit("-E");
    reveal_strlit("-U");
    reveal_strlit("-F");
    reveal_strlit("-R");
    reveal_strlit("-P");
    reveal_strlit("-B");
    reveal_strlit("-L");
    reveal_strlit("-G");
    reveal_strlit("-T");
    reveal_strlit("-S");
    reveal_strlit("-D");
    reveal_strlit("-Z");
    assert("#"@.len() == 1 && "#"@[0] == '#');
    assert("S-"@.len() == 2 && "S-"@[0] == 'S' && "S-"@[1] == '-');
    assert("T-"@.len() == 2 && "T-"@[0] == 'T' && "T-"@[1] == '-');
    assert("K-"@.len() == 2 && "K-"@[0] == 'K' && "K-"@[1] == '-');
    assert("P-"@.len() == 2 && "P-"@[0] == 'P' && "P-"@[1] == '-');
    assert("W-"@.len() == 2 && "W-"@[0] == 'W' && "W-"@[1] == '-');
    assert("H-"@.len() == 2 && "H-"@[0] == 'H' && "H-"@[1] == '-');
    assert("R-"@.len() == 2 && "R-"@[0] == 'R' && "R-"@[1] == '-');
    assert("A-"@.len() == 2 && "A-"@[0] == 'A' && "A-"@[1] == '-');
    assert("O-"@.len() == 2 && "O-"@[0] == 'O' && "O-"@[1] == '-');
    assert("*"@.len() == 1 && "*"@[0] == '*');
    assert("-E"@.len() == 2 && "-E"@[0] == '-' && "-E"@[1] == 'E');
    assert("-U"@.len() == 2 && "-U"@[0] == '-' && "-U"@[1] == 'U');
    assert("-F"@.len() == 2 && "-F"@[0] == '-' && "-F"@[1] == 'F');
    assert("-R"@.len() == 2 && "-R"@[0] == '-' && "-R"@[1] == 'R');
    assert("-P"@.len() == 2 && "-P"@[0] == '-' && "-P"@[1] == 'P');
    assert("-B"@.len() == 2 && "-B"@[0] == '-' && "-B"@[1] == 'B');
    assert("-L"@.len() == 2 && "-L"@[0] == '-' && "-L"@[1] == 'L');
    assert("-G"@.len() == 2 && "-G"@[0] == '-' && "-G"@[1] == 'G');
    assert("-T"@.len() == 2 && "-T"@[0] == '-' && "-T"@[1] == 'T');
    assert("-S"@.len() == 2 && "-S"@[0] == '-' && "-S"@[1] == 'S');
    assert("-D"@.len() == 2 && "-D"@[0] == '-' && "-D"@[1] == 'D');
    assert("-Z"@.len() == 2 && "-Z"@[0] == '-' && "-Z"@[1] == 'Z');
    if r == 0 { assert(rank_of(rank_name(0)) == 0); }
    else if r == 1 { assert(rank_of(rank_name(1)) == 1); }
    else if r == 2 { assert(rank_of(rank_name(2)) == 2); }
    else if r == 3 { assert(rank_of(rank_name(3)) == 3); }
    else if r == 4 { assert(rank_of(rank_name(4)) == 4); }
    else if r == 5 { assert(rank_of(rank_name(5)) == 5); }
    else if r == 6 { assert(rank_of(rank_name(6)) == 6); }
    else if r == 7 { assert(rank_of(rank_name(7)) == 7); }
    else if r == 8 { assert(rank_of(rank_name(8)) == 8); }
    else if r == 9 { assert(rank_of(rank_name(9)) == 9); }
    else if r == 10 { assert(rank_of(rank_name(10)) == 10); }
    else if r == 11 { assert(rank_of(rank_name(11)) == 11); }
    else if r == 12 { assert(rank_of(rank_name(12)) == 12); }
    else if r == 13 { assert(rank_of(rank_name(13)) == 13); }
    else if r == 14 { assert(rank_of(rank_name(14)) == 14); }
    else if r == 15 { assert(rank_of(rank_name(15)) == 15); }
    else if r == 16 { assert(rank_of(rank_name(16)) == 16); }
    else if r == 17 { assert(rank_of(rank_name(17)) == 17); }
    else if r == 18 { assert(rank_of(rank_name(18)) == 18); }
    else if r == 19 { assert(rank_of(rank_name(19)) == 19); }
    else if r == 20 { assert(rank_of(rank_name(20)) == 20); }
    else if r == 21 { assert(rank_of(rank_name(21)) == 21); }
    else { assert(rank_of(rank_name(22)) == 22); }
}

/// Every pair of distinct ranks names distinct keys: the order table is a
/// total order on the 23 key names.
pub proof fn lemma_rank_name_injective(a: int, b: int)
    requires
        0 <= a < 23,
        0 <= b < 23,
        a != b,
    ensures
        rank_name(a) != rank_name(b),
{
    lemma_rank_of_name(a);
    lemma_rank_of_name(b);
}

/// The name at rank `r` of the steno order table.
pub fn name_of_rank(r: usize) -> (s: String)
    requires
        r < 23,
    ensures
        s@ == rank_name(r as int),
{
    let n: &'static str = if r == 0 { "#" }
    else if r == 1 { "S-" }
    else if r == 2 { "T-" }
    else if r == 3 { "K-" }
    else if r == 4 { "P-" }
    else if r == 5 { "W-" }
    else if r == 6 { "H-" }
    else if r == 7 { "R-" }
    else if r == 8 { "A-" }
    else if r == 9 { "O-" }
    else if r == 10 { "*" }
    else if r == 11 { "-E" }
    else if r == 12 { "-U" }
    else if r == 13 { "-F" }
    else if r == 14 { "-R" }
    else if r == 15 { "-P" }
    else if r == 16 { "-B" }
    else if r == 17 { "-L" }
    else if r == 18 { "-G" }
    else if r == 19 { "-T" }
    else if r == 20 { "-S" }
    else if r == 21 { "-D" }
    else { "-Z" };
    n.to_owned()
}

/// The numeral glyph for rank `r`, or `None` when `r` has no substitution.
pub fn numeral_of_rank(r: usize) -> (g: Option<String>)
    requires
        r < 23,
    ensures
        match g {
            Some(s) => has_numeral(r as int) && s@ == numeral_name(r as int),
            None => !has_numeral(r as int),
        },
{
    let n: &'static str = if r == 1 { "1-" }
    else if r == 2 { "2-" }
    else if r == 4 { "3-" }
    else if r == 6 { "4-" }
    else if r == 8 { "5-" }
    else if r == 9 { "0-" }
    else if r == 13 { "-6" }
    else if r == 15 { "-7" }
    else if r == 17 { "-8" }
    else if r == 19 { "-9" }
    else { return None; };
    Some(n.to_owned())
}

/// The rank of a key name, or `None` when the name is not one of the 23
/// meaningful steno keys.
pub fn key_rank(s: &str) -> (r: Option<usize>)
    ensures
        match r {
            Some(k) => k < 23 && s@ == rank_name(k as int) && rank_of(s@) == k,
            None => rank_of(s@) == -1,
        },
{
    let r: Option<usize> = if str_eq(s, "#") { Some(0) }
    else if str_eq(s, "S-") { Some(1) }
    else if str_eq(s, "T-") { Some(2) }
    else if str_eq(s, "K-") { Some(3) }
    else if str_eq(s, "P-") { Some(4) }
    else if str_eq(s, "W-") { Some(5) }
    else if str_eq(s, "H-") { Some(6) }
    else if str_eq(s, "R-") { Some(7) }
    else if str_eq(s, "A-") { Some(8) }
    else if str_eq(s, "O-") { Some(9) }
    else if str_eq(s, "*") { Some(10) }
    else if str_eq(s, "-E") { Some(11) }
    else if str_eq(s, "-U") { Some(12) }
    else if str_eq(s, "-F") { Some(13) }
    else if str_eq(s, "-R") { Some(14) }
    else if str_eq(s, "-P") { Some(15) }
    else if str_eq(s, "-B") { Some(16) }
    else if str_eq(s, "-L") { Some(17) }
    else if str_eq(s, "-G") { Some(18) }
    else if str_eq(s, "-T") { Some(19) }
    else if str_eq(s, "-S") { Some(20) }
    else if str_eq(s, "-D") { Some(21) }
    else if str_eq(s, "-Z") { Some(22) }
    else { None };
    r
}

/// The logical key name at frame position `p` (byte `p / 7`, bit `p % 7 + 1`).
/// `Fn`, `pwr` and `res` mark reserved switches that carry no logical key.
pub open spec fn steno_map_name(p: int) -> Seq<char> {
    if p == 0 { "Fn"@ }
    else if 1 <= p <= 6 { "#"@ }
    else if 7 <= p <= 8 { "S-"@ }
    else if p == 9 { "T-"@ }
    else if p == 10 { "K-"@ }
    else if p == 11 { "P-"@ }
    else if p == 12 { "W-"@ }
    else if p == 13 { "H-"@ }
    else if p == 14 { "R-"@ }
    else if p == 15 { "A-"@ }
    else if p == 16 { "O-"@ }
    else if 17 <= p <= 18 { "*"@ }
    else if 19 <= p <= 20 { "res"@ }
    else if p == 21 { "pwr"@ }
    else if 22 <= p <= 23 { "*"@ }
    else if p == 24 { "-E"@ }
    else if p == 25 { "-U"@ }
    else if p == 26 { "-F"@ }
    else if p == 27 { "-R"@ }
    else if p == 28 { "-P"@ }
    else if p == 29 { "-B"@ }
    else if p == 30 { "-L"@ }
    else if p == 31 { "-G"@ }
    else if p == 32 { "-T"@ }
    else if p == 33 { "-S"@ }
    else if p == 34 { "-D"@ }
    else if 35 <= p <= 40 { "#"@ }
    else { "-Z"@ }
}

/// The key name at frame position `p` of the fixed position table.
pub fn steno_key_name(p: usize) -> (s: &'static str)
    requires
        p < 42,
    ensures
        s@ == steno_map_name(p as int),
{
    if p == 0 { "Fn" }
    else if p <= 6 { "#" }
    else if p <= 8 { "S-" }
    else if p == 9 { "T-" }
    else if p == 10 { "K-" }
    else if p == 11 { "P-" }
    else if p == 12 { "W-" }
    else if p == 13 { "H-" }
    else if p == 14 { "R-" }
    else if p == 15 { "A-" }
    else if p == 16 { "O-" }
    else if p <= 18 { "*" }
    else if p <= 20 { "res" }
    else if p == 21 { "pwr" }
    else if p <= 23 { "*" }
    else if p == 24 { "-E" }
    else if p == 25 { "-U" }
    else if p == 26 { "-F" }
    else if p == 27 { "-R" }
    else if p == 28 { "-P" }
    else if p == 29 { "-B" }
    else if p == 30 { "-L" }
    else if p == 31 { "-G" }
    else if p == 32 { "-T" }
    else if p == 33 { "-S" }
    else if p == 34 { "-D" }
    else if p <= 40 { "#" }
    else { "-Z" }
}

/// Whether frame position `p` is pressed: bit `p % 7 + 1` of byte `p / 7`,
/// counting bits from the reserved 0x80 bit downwards.
pub open spec fn frame_bit(f: Seq<u8>, p: int) -> bool {
    f[p / 7] & (0x80u8 >> ((p % 7 + 1) as u8)) != 0u8
}

/// The raw key names of the pressed positions below `n`, in position order.
pub open spec fn raw_keys_prefix(f: Seq<u8>, n: int) -> Seq<Seq<char>>
    decreases n,
{
    if n <= 0 {
        Seq::empty()
    } else {
        raw_keys_prefix(f, n - 1)
            + if frame_bit(f, n - 1) { seq![steno_map_name(n - 1)] } else { Seq::empty() }
    }
}

/// The raw key names of one frame, in position order.
pub open spec fn raw_frame_keys(f: Seq<u8>) -> Seq<Seq<char>> {
    raw_keys_prefix(f, 42)
}

/// Decodes one raw frame into the key names of its pressed positions,
/// in position order. A frame with no usable bit set decodes to no keys.
pub fn decode_frame(frame: &[u8; 6]) -> (keys: Vec<&'static str>)
    ensures
        keys.deep_view() == raw_frame_keys(frame@),
        (forall|p: int| 0 <= p < 42 ==> !frame_bit(frame@, p)) ==> keys@.len() == 0,
{
    let mut keys: Vec<&'static str> = Vec::new();
    let mut p: usize = 0;
    while p < 42
        invariant
            p <= 42,
            keys.deep_view() == raw_keys_prefix(frame@, p as int),
        decreases 42 - p,
    {
        let byte = frame[p / 7];
        let mask: u8 = 0x80u8 >> ((p % 7 + 1) as u8);
        if byte & mask != 0u8 {
            let ghost old_keys = keys.deep_view();
            keys.push(steno_key_name(p));
            assert(keys.deep_view() =~= old_keys + seq![steno_map_name(p as int)]);
        } else {
            assert(keys.deep_view() =~= raw_keys_prefix(frame@, p as int) + Seq::<Seq<char>>::empty());
        }
        p = p + 1;
    }
    proof {
        if forall|q: int| 0 <= q < 42 ==> !frame_bit(frame@, q) {
            lemma_raw_keys_prefix_empty(frame@, 42);
        }
    }
    keys
}

/// A frame with no usable bit set below `n` contributes no keys.
proof fn lemma_raw_keys_prefix_empty(f: Seq<u8>, n: int)
    requires
        forall|p: int| 0 <= p < n ==> !frame_bit(f, p),
    ensures
        raw_keys_prefix(f, n).len() == 0,
    decreases n,
{
    if n > 0 {
        lemma_raw_keys_prefix_empty(f, n - 1);
    }
}

/// The resolved intent of one chord against the dictionary.
#[derive(Debug)]
pub enum Command {
    /// Attach text to the immediately preceding output without a space.
    Append(String),
    /// Ordinary output text.
    Output(String),
    /// The echoed text of a stroke that matched no dictionary entry.
    Error(String),
    /// Delete the previous word.
    Delete,
}

/// The mathematical value of a `Command`: the same variants over character
/// sequences.
pub enum CommandModel {
    Append(Seq<char>),
    Output(Seq<char>),
    Error(Seq<char>),
    Delete,
}

impl View for Command {
    type V = CommandModel;

    open spec fn view(&self) -> CommandModel {
        match self {
            Command::Append(s) => CommandModel::Append(s@),
            Command::Output(s) => CommandModel::Output(s@),
            Command::Error(s) => CommandModel::Error(s@),
            Command::Delete => CommandModel::Delete,
        }
    }
}

impl Clone for Command {
    /// A clone carries the same command.
    fn clone(&self) -> (r: Self)
        ensures
            r@ == self@,
    {
        match self {
            Command::Append(s) => Command::Append(s.clone()),
            Command::Output(s) => Command::Output(s.clone()),
            Command::Error(s) => Command::Error(s.clone()),
            Command::Delete => Command::Delete,
        }
    }
}

/// The action that the keystroke emitter prepends before the literal text
/// of a command.
#[derive(Clone, Copy, Debug, PartialEq, Eq, Structural)]
pub enum ActionSymbol {
    Suffix,
    Glue,
    Delete,
    Noop,
}

impl Command {
    /// Splits a command into the emitter's action symbol and literal text:
    /// appends emit a suffix action, deletes emit a delete action with no
    /// text, and plain output and unresolved strokes are echoed as they are.
    pub fn as_text(&self) -> (r: (ActionSymbol, String))
        ensures
            match self@ {
                CommandModel::Append(t) => r.0 == ActionSymbol::Suffix && r.1@ == t,
                CommandModel::Output(t) => r.0 == ActionSymbol::Noop && r.1@ == t,
                CommandModel::Error(t) => r.0 == ActionSymbol::Noop && r.1@ == t,
                CommandModel::Delete => r.0 == ActionSymbol::Delete && r.1@.len() == 0,
            },
    {
        match self {
            Command::Append(s) => (ActionSymbol::Suffix, s.clone()),
            Command::Output(s) => (ActionSymbol::Noop, s.clone()),
            Command::Delete => (ActionSymbol::Delete, String::new()),
            Command::Error(s) => (ActionSymbol::Noop, s.clone()),
        }
    }
}

/// Whether the raw key list contains the name at rank `r`.
pub open spec fn has_key(keys: Seq<Seq<char>>, r: int) -> bool {
    exists|i: int| 0 <= i < keys.len() && keys[i] == rank_name(r)
}

/// The canonical letter chord restricted to ranks below `n`: each present
/// rank contributes its name, in rank order.
pub open spec fn letter_chord_prefix(keys: Seq<Seq<char>>, n: int) -> Seq<Seq<char>>
    decreases n,
{
    if n <= 0 {
        Seq::empty()
    } else {
        letter_chord_prefix(keys, n - 1)
            + if has_key(keys, n - 1) { seq![rank_name(n - 1)] } else { Seq::empty() }
    }
}

/// The canonical numeral chord restricted to ranks below `n`: each present
/// rank with a numeral substitution contributes its glyph, in rank order;
/// keys without a substitution are skipped.
pub open spec fn numeral_chord_prefix(keys: Seq<Seq<char>>, n: int) -> Seq<Seq<char>>
    decreases n,
{
    if n <= 0 {
        Seq::empty()
    } else {
        numeral_chord_prefix(keys, n - 1)
            + if has_key(keys, n - 1) && has_numeral(n - 1) {
                seq![numeral_name(n - 1)]
            } else {
                Seq::empty()
            }
    }
}

/// The canonical form of a raw key list: deduplicated, sorted by rank, and
/// with the number-bar substitution applied when `#` is present.
pub open spec fn canonical_keys(keys: Seq<Seq<char>>) -> Seq<Seq<char>> {
    if has_key(keys, 0) {
        numeral_chord_prefix(keys, 23)
    } else {
        letter_chord_prefix(keys, 23)
    }
}

/// A canonicalized chord: the deduplicated key names of one stroke, in the
/// fixed steno rank order, with the number-bar substitution applied.
#[derive(Debug)]
pub struct Chord(Vec<String>);

impl View for Chord {
    type V = Seq<Seq<char>>;

    closed spec fn view(&self) -> Seq<Seq<char>> {
        self.0.deep_view()
    }
}

impl Chord {
    /// Canonicalizes a raw key list: deduplicates, sorts by the rank table,
    /// drops names outside the table, and applies the number-bar
    /// substitution when `#` is among the keys.
    pub fn new(steno_keys: Vec<&str>) -> (c: Chord)
        ensures
            c@ == canonical_keys(steno_keys.deep_view()),
    {
        let ghost kv = steno_keys.deep_view();
        let mut present: Vec<bool> = vec![false; 23];
        let mut idx: usize = 0;
        while idx < steno_keys.len()
            invariant
                kv == steno_keys.deep_view(),
                kv.len() == steno_keys@.len(),
                forall|i: int| 0 <= i < kv.len() ==> kv[i] == #[trigger] steno_keys@[i]@,
                idx <= steno_keys@.len(),
                present@.len() == 23,
                forall|r: int| 0 <= r < 23 ==>
                    present@[r] == has_key(#[trigger] kv.take(idx as int), r),
            decreases steno_keys@.len() - idx,
        {
            let ghost prefix = kv.take(idx as int);
            let key = steno_keys[idx];
            match key_rank(key) {
                Some(r) => {
                    present.set(r, true);
                    proof {
                        assert forall|q: int| 0 <= q < 23 implies
                            present@[q] == has_key(#[trigger] kv.take(idx as int + 1), q) by {
                            assert(kv.take(idx as int + 1) =~= prefix.push(key@));
                            lemma_has_key_push(prefix, key@, q);
                            if q != r && key@ == rank_name(q) {
                                lemma_rank_name_injective(q, r as int);
                            }
                        }
                    }
                }
                None => {
                    proof {
                        assert forall|q: int| 0 <= q < 23 implies
                            present@[q] == has_key(#[trigger] kv.take(idx as int + 1), q) by {
                            assert(kv.take(idx as int + 1) =~= prefix.push(key@));
                            lemma_has_key_push(prefix, key@, q);
                            if key@ == rank_name(q) {
                                lemma_rank_of_name(q);
                            }
                        }
                    }
                }
            }
            idx = idx + 1;
        }
        proof {
            assert(kv.take(kv.len() as int) =~= kv);
        }
        let has_number = present[0];
        let mut out: Vec<String> = Vec::new();
        let mut r: usize = 0;
        while r < 23
            invariant
                r <= 23,
                present@.len() == 23,
                forall|q: int| 0 <= q < 23 ==> present@[q] == has_key(kv, q),
                has_number == has_key(kv, 0),
                out.deep_view() == if has_number {
                    numeral_chord_prefix(kv, r as int)
                } else {
                    letter_chord_prefix(kv, r as int)
                },
            decreases 23 - r,
        {
            let ghost old_out = out.deep_view();
            if present[r] {
                if has_number {
                    match numeral_of_rank(r) {
                        Some(g) => {
                            out.push(g);
                            assert(out.deep_view() =~= old_out + seq![numeral_name(r as int)]);
                        }
                        None => {
                            assert(out.deep_view() =~= old_out + Seq::<Seq<char>>::empty());
                        }
                    }
                } else {
                    let nm = name_of_rank(r);
                    out.push(nm);
                    assert(out.deep_view() =~= old_out + seq![rank_name(r as int)]);
                }
            } else {
                assert(out.deep_view() =~= old_out + Seq::<Seq<char>>::empty());
            }
            r = r + 1;
        }
        Chord(out)
    }

    /// The canonical key names of this chord.
    pub fn raw(&self) -> (keys: Vec<String>)
        ensures
            keys.deep_view() == self@,
    {
        let mut keys: Vec<String> = Vec::new();
        let mut i: usize = 0;
        while i < self.0.len()
            invariant
                i <= self.0@.len(),
                keys.deep_view() == self@.take(i as int),
            decreases self.0@.len() - i,
        {
            let ghost old_keys = keys.deep_view();
            keys.push(self.0[i].clone());
            assert(keys.deep_view() =~= old_keys.push(self.0@[i as int]@));
            assert(self@.take(i as int + 1) =~= self@.take(i as int).push(self@[i as int]));
            i = i + 1;
        }
        proof {
            assert(self@.take(self@.len() as int) =~= self@);
        }
        keys
    }

    /// Whether the chord holds no keys. An empty chord must not be
    /// forwarded to resolution.
    pub fn is_empty(&self) -> (e: bool)
        ensures
            e == (self@.len() == 0),
    {
        self.0.is_empty()
    }

    /// The flat lookup string of this chord: every key name with its
    /// hyphens stripped, concatenated in order. This is the string used
    /// both for dictionary resolution and for display.
    pub fn plain(&self) -> (r: String)
        ensures
            r@ == plain_view(self@),
    {
        let mut out = String::new();
        let mut i: usize = 0;
        while i < self.0.len()
            invariant
                i <= self.0@.len(),
                out@ == plain_view(self@.take(i as int)),
            decreases self.0@.len() - i,
        {
            let piece = crate::text::strip_hyphens_str(self.0[i].as_str());
            out.append(piece.as_str());
            proof {
                assert(self@.take(i as int + 1).drop_last() =~= self@.take(i as int));
                assert(self@.take(i as int + 1).last() == self@[i as int]);
            }
            i = i + 1;
        }
        proof {
            assert(self@.take(self@.len() as int) =~= self@);
        }
        out
    }
}

/// The flat lookup string of a canonical key list: each name stripped of
/// hyphens, concatenated in order.
pub open spec fn plain_view(keys: Seq<Seq<char>>) -> Seq<char>
    decreases keys.len(),
{
    if keys.len() == 0 {
        Seq::empty()
    } else {
        plain_view(keys.drop_last()) + crate::text::strip_hyphens(keys.last())
    }
}

/// The source rank of a numeral glyph, or -1 when the name is no numeral
/// glyph.
pub open spec fn numeral_rank_of(s: Seq<char>) -> int {
    if s == numeral_name(1) { 1 }
    else if s == numeral_name(2) { 2 }
    else if s == numeral_name(4) { 4 }
    else if s == numeral_name(6) { 6 }
    else if s == numeral_name(8) { 8 }
    else if s == numeral_name(9) { 9 }
    else if s == numeral_name(13) { 13 }
    else if s == numeral_name(15) { 15 }
    else if s == numeral_name(17) { 17 }
    else if s == numeral_name(19) { 19 }
    else { -1 }
}

/// Numeral glyphs carry their source rank and are no key names of the
/// order table.
#[verifier::rlimit(100)]
pub proof fn lemma_numeral_glyph(r: int)
    requires
        has_numeral(r),
    ensures
        numeral_rank_of(numeral_name(r)) == r,
        rank_of(numeral_name(r)) == -1,
{
    reveal_strlit("#");
    reveal_strlit("S-");
    reveal_strlit("T-");
    reveal_strlit("K-");
    reveal_strlit("P-");
    reveal_strlit("W-");
    reveal_strlit("H-");
    reveal_strlit("R-");
    reveal_strlit("A-");
    reveal_strlit("O-");
    reveal_strlit("*");
    reveal_strlit("-E");
    reveal_strlit("-U");
    reveal_strlit("-F");
    reveal_strlit("-R");
    reveal_strlit("-P");
    reveal_strlit("-B");
    reveal_strlit("-L");
    reveal_strlit("-G");
    reveal_strlit("-T");
    reveal_strlit("-S");
    reveal_strlit("-D");
    reveal_strlit("-Z");
    reveal_strlit("1-");
    reveal_strlit("2-");
    reveal_strlit("3-");
    reveal_strlit("4-");
    reveal_strlit("5-");
    reveal_strlit("0-");
    reveal_strlit("-6");
    reveal_strlit("-7");
    reveal_strlit("-8");
    reveal_strlit("-9");
    assert("#"@.len() == 1 && "#"@[0] == '#');
    assert("S-"@[0] == 'S' && "T-"@[0] == 'T' && "K-"@[0] == 'K' && "P-"@[0] == 'P');
    assert("W-"@[0] == 'W' && "H-"@[0] == 'H' && "R-"@[0] == 'R' && "A-"@[0] == 'A');
    assert("O-"@[0] == 'O' && "*"@.len() == 1);
    assert("-E"@[1] == 'E' && "-U"@[1] == 'U' && "-F"@[1] == 'F' && "-R"@[1] == 'R');
    assert("-P"@[1] == 'P' && "-B"@[1] == 'B' && "-L"@[1] == 'L' && "-G"@[1] == 'G');
    assert("-T"@[1] == 'T' && "-S"@[1] == 'S' && "-D"@[1] == 'D' && "-Z"@[1] == 'Z');
    assert("-E"@.len() == 2 && "-E"@[0] == '-');
    assert("-U"@.len() == 2 && "-U"@[0] == '-');
    assert("-F"@.len() == 2 && "-F"@[0] == '-');
    assert("-R"@.len() == 2 && "-R"@[0] == '-');
    assert("-P"@.len() == 2 && "-P"@[0] == '-');
    assert("-B"@.len() == 2 && "-B"@[0] == '-');
    assert("-L"@.len() == 2 && "-L"@[0] == '-');
    assert("-G"@.len() == 2 && "-G"@[0] == '-');
    assert("-T"@.len() == 2 && "-T"@[0] == '-');
    assert("-S"@.len() == 2 && "-S"@[0] == '-');
    assert("-D"@.len() == 2 && "-D"@[0] == '-');
    assert("-Z"@.len() == 2 && "-Z"@[0] == '-');
    assert("S-"@.len() == 2 && "S-"@[1] == '-');
    assert("T-"@.len() == 2 && "T-"@[1] == '-');
    assert("K-"@.len() == 2 && "K-"@[1] == '-');
    assert("P-"@.len() == 2 && "P-"@[1] == '-');
    assert("W-"@.len() == 2 && "W-"@[1] == '-');
    assert("H-"@.len() == 2 && "H-"@[1] == '-');
    assert("R-"@.len() == 2 && "R-"@[1] == '-');
    assert("A-"@.len() == 2 && "A-"@[1] == '-');
    assert("O-"@.len() == 2 && "O-"@[1] == '-');
    assert("1-"@.len() == 2 && "1-"@[0] == '1' && "1-"@[1] == '-');
    assert("2-"@.len() == 2 && "2-"@[0] == '2' && "2-"@[1] == '-');
    assert("3-"@.len() == 2 && "3-"@[0] == '3' && "3-"@[1] == '-');
    assert("4-"@.len() == 2 && "4-"@[0] == '4' && "4-"@[1] == '-');
    assert("5-"@.len() == 2 && "5-"@[0] == '5' && "5-"@[1] == '-');
    assert("0-"@.len() == 2 && "0-"@[0] == '0' && "0-"@[1] == '-');
    assert("-6"@.len() == 2 && "-6"@[0] == '-' && "-6"@[1] == '6');
    assert("-7"@.len() == 2 && "-7"@[0] == '-' && "-7"@[1] == '7');
    assert("-8"@.len() == 2 && "-8"@[0] == '-' && "-8"@[1] == '8');
    assert("-9"@.len() == 2 && "-9"@[0] == '-' && "-9"@[1] == '9');
    if r == 1 { assert(numeral_rank_of(numeral_name(1)) == 1 && rank_of(numeral_name(1)) == -1); }
    else if r == 2 { assert(numeral_rank_of(numeral_name(2)) == 2 && rank_of(numeral_name(2)) == -1); }
    else if r == 4 { assert(numeral_rank_of(numeral_name(4)) == 4 && rank_of(numeral_name(4)) == -1); }
    else if r == 6 { assert(numeral_rank_of(numeral_name(6)) == 6 && rank_of(numeral_name(6)) == -1); }
    else if r == 8 { assert(numeral_rank_of(numeral_name(8)) == 8 && rank_of(numeral_name(8)) == -1); }
    else if r == 9 { assert(numeral_rank_of(numeral_name(9)) == 9 && rank_of(numeral_name(9)) == -1); }
    else if r == 13 { assert(numeral_rank_of(numeral_name(13)) == 13 && rank_of(numeral_name(13)) == -1); }
    else if r == 15 { assert(numeral_rank_of(numeral_name(15)) == 15 && rank_of(numeral_name(15)) == -1); }
    else if r == 17 { assert(numeral_rank_of(numeral_name(17)) == 17 && rank_of(numeral_name(17)) == -1); }
    else { assert(numeral_rank_of(numeral_name(19)) == 19 && rank_of(numeral_name(19)) == -1); }
}

/// Pushing one key extends key membership by exactly that key.
proof fn lemma_has_key_push(keys: Seq<Seq<char>>, k: Seq<char>, r: int)
    ensures
        has_key(keys.push(k), r) == (has_key(keys, r) || k == rank_name(r)),
{
    if has_key(keys, r) {
        let i = choose|i: int| 0 <= i < keys.len() && keys[i] == rank_name(r);
        assert(keys.push(k)[i] == rank_name(r));
    }
    if k == rank_name(r) {
        assert(keys.push(k)[keys.len() as int] == rank_name(r));
    }
    if has_key(keys.push(k), r) {
        let i = choose|i: int| 0 <= i < keys.push(k).len() && keys.push(k)[i] == rank_name(r);
        if i < keys.len() {
            assert(keys[i] == rank_name(r));
        }
    }
}

/// The letter chord of an empty raw key list is empty.
proof fn lemma_letter_prefix_no_keys(keys: Seq<Seq<char>>, n: int)
    requires
        keys.len() == 0,
    ensures
        letter_chord_prefix(keys, n).len() == 0,
    decreases n,
{
    if n > 0 {
        lemma_letter_prefix_no_keys(keys, n - 1);
    }
}

/// A frame with no usable bit set decodes and canonicalizes to the empty
/// chord, which is never forwarded downstream.
pub proof fn lemma_empty_frame_empty_chord(f: Seq<u8>)
    requires
        forall|p: int| 0 <= p < 42 ==> !frame_bit(f, p),
    ensures
        canonical_keys(raw_frame_keys(f)).len() == 0,
{
    lemma_raw_keys_prefix_empty(f, 42);
    let keys = raw_frame_keys(f);
    assert(!has_key(keys, 0));
    lemma_letter_prefix_no_keys(keys, 23);
}

/// Letter chords restricted to the same present ranks agree.
proof fn lemma_letter_prefix_congruent(k1: Seq<Seq<char>>, k2: Seq<Seq<char>>, n: int)
    requires
        n <= 23,
        forall|r: int| 0 <= r < 23 ==> has_key(k1, r) == has_key(k2, r),
    ensures
        letter_chord_prefix(k1, n) == letter_chord_prefix(k2, n),
    decreases n,
{
    if n > 0 {
        lemma_letter_prefix_congruent(k1, k2, n - 1);
    }
}

/// Numeral chords restricted to the same present ranks agree.
proof fn lemma_numeral_prefix_congruent(k1: Seq<Seq<char>>, k2: Seq<Seq<char>>, n: int)
    requires
        n <= 23,
        forall|r: int| 0 <= r < 23 ==> has_key(k1, r) == has_key(k2, r),
    ensures
        numeral_chord_prefix(k1, n) == numeral_chord_prefix(k2, n),
    decreases n,
{
    if n > 0 {
        lemma_numeral_prefix_congruent(k1, k2, n - 1);
    }
}

/// Canonicalization depends only on which keys are present, never on the
/// order or multiplicity in which they arrived.
pub proof fn lemma_canonical_order_independent(k1: Seq<Seq<char>>, k2: Seq<Seq<char>>)
    requires
        forall|r: int| 0 <= r < 23 ==> has_key(k1, r) == has_key(k2, r),
    ensures
        canonical_keys(k1) == canonical_keys(k2),
{
    lemma_letter_prefix_congruent(k1, k2, 23);
    lemma_numeral_prefix_congruent(k1, k2, 23);
}

/// Every key of a letter chord prefix carries a rank below the bound, in
/// strictly increasing order.
proof fn lemma_letter_prefix_ranks(keys: Seq<Seq<char>>, n: int)
    requires
        0 <= n <= 23,
    ensures
        forall|i: int| 0 <= i < letter_chord_prefix(keys, n).len() ==> {
            let s = #[trigger] letter_chord_prefix(keys, n)[i];
            &&& 0 <= rank_of(s) < n
            &&& s == rank_name(rank_of(s))
            &&& has_key(keys, rank_of(s))
        },
        forall|i: int, j: int|
            0 <= i < j < letter_chord_prefix(keys, n).len()
            ==> rank_of(#[trigger] letter_chord_prefix(keys, n)[i])
                < rank_of(#[trigger] letter_chord_prefix(keys, n)[j]),
    decreases n,
{
    if n > 0 {
        lemma_letter_prefix_ranks(keys, n - 1);
        lemma_rank_of_name(n - 1);
        let prev = letter_chord_prefix(keys, n - 1);
        let cur = letter_chord_prefix(keys, n);
        if has_key(keys, n - 1) {
            assert(cur =~= prev.push(rank_name(n - 1)));
        } else {
            assert(cur =~= prev);
        }
    }
}

/// The canonical chord of a stroke without the number bar is strictly
/// sorted by the fixed rank table: sorting is deterministic and
/// order-table-driven.
pub proof fn lemma_canonical_sorted(keys: Seq<Seq<char>>)
    requires
        !has_key(keys, 0),
    ensures
        forall|i: int, j: int|
            0 <= i < j < canonical_keys(keys).len()
            ==> rank_of(#[trigger] canonical_keys(keys)[i])
                < rank_of(#[trigger] canonical_keys(keys)[j]),
{
    lemma_letter_prefix_ranks(keys, 23);
}

/// Every key of a numeral chord prefix is the numeral glyph of a present
/// rank below the bound, in strictly increasing rank order.
proof fn lemma_numeral_prefix_ranks(keys: Seq<Seq<char>>, n: int)
    requires
        0 <= n <= 23,
    ensures
        forall|i: int| 0 <= i < numeral_chord_prefix(keys, n).len() ==> {
            let s = #[trigger] numeral_chord_prefix(keys, n)[i];
            &&& 0 <= numeral_rank_of(s) < n
            &&& has_numeral(numeral_rank_of(s))
            &&& s == numeral_name(numeral_rank_of(s))
            &&& has_key(keys, numeral_rank_of(s))
            &&& rank_of(s) == -1
        },
        forall|i: int, j: int|
            0 <= i < j < numeral_chord_prefix(keys, n).len()
            ==> numeral_rank_of(#[trigger] numeral_chord_prefix(keys, n)[i])
                < numeral_rank_of(#[trigger] numeral_chord_prefix(keys, n)[j]),
    decreases n,
{
    if n > 0 {
        lemma_numeral_prefix_ranks(keys, n - 1);
        let prev = numeral_chord_prefix(keys, n - 1);
        let cur = numeral_chord_prefix(keys, n);
        if has_key(keys, n - 1) && has_numeral(n - 1) {
            lemma_numeral_glyph(n - 1);
            assert(cur =~= prev.push(numeral_name(n - 1)));
        } else {
            assert(cur =~= prev);
        }
    }
}

/// Under the number bar, every canonical key is the numeral substitution
/// of a present input key, listed in rank order, and no key name of the
/// order table — in particular no key without a substitution — reaches the
/// canonical output.
pub proof fn lemma_number_bar_substitution(keys: Seq<Seq<char>>)
    requires
        has_key(keys, 0),
    ensures
        forall|i: int| 0 <= i < canonical_keys(keys).len() ==> {
            let s = #[trigger] canonical_keys(keys)[i];
            &&& has_numeral(numeral_rank_of(s))
            &&& has_key(keys, numeral_rank_of(s))
            &&& s == numeral_name(numeral_rank_of(s))
            &&& rank_of(s) == -1
        },
        forall|i: int, j: int|
            0 <= i < j < canonical_keys(keys).len()
            ==> numeral_rank_of(#[trigger] canonical_keys(keys)[i])
                < numeral_rank_of(#[trigger] canonical_keys(keys)[j]),
{
    lemma_numeral_prefix_ranks(keys, 23);
}

/// Canonicalizing an already canonical letter chord changes nothing:
/// sorting by the rank table is idempotent.
pub proof fn lemma_canonical_idempotent(keys: Seq<Seq<char>>)
    requires
        !has_key(keys, 0),
    ensures
        canonical_keys(canonical_keys(keys)) == canonical_keys(keys),
{
    let out = canonical_keys(keys);
    lemma_letter_prefix_ranks(keys, 23);
    assert forall|r: int| 0 <= r < 23 implies has_key(out, r) == has_key(keys, r) by {
        if has_key(out, r) {
            let i = choose|i: int| 0 <= i < out.len() && out[i] == rank_name(r);
            lemma_rank_of_name(r);
            assert(rank_of(out[i]) == r);
        }
        if has_key(keys, r) {
            lemma_letter_prefix_contains(keys, 23, r);
        }
    }
    assert(!has_key(out, 0));
    lemma_letter_prefix_congruent(out, keys, 23);
}

/// A present rank below the bound appears in the letter chord prefix.
proof fn lemma_letter_prefix_contains(keys: Seq<Seq<char>>, n: int, r: int)
    requires
        0 <= r < n <= 23,
        has_key(keys, r),
    ensures
        has_key(letter_chord_prefix(keys, n), r),
    decreases n,
{
    let prev = letter_chord_prefix(keys, n - 1);
    let cur = letter_chord_prefix(keys, n);
    if r == n - 1 {
        assert(cur =~= prev.push(rank_name(n - 1)));
        assert(cur[prev.len() as int] == rank_name(r));
    } else {
        lemma_letter_prefix_contains(keys, n - 1, r);
        let i = choose|i: int| 0 <= i < prev.len() && prev[i] == rank_name(r);
        assert(cur[i] == rank_name(r));
    }
}

} // verus!
