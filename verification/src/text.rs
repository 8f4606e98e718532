//! Small verified string utilities shared by the chord and dictionary logic.

use vstd::prelude::*;
use vstd::string::*;

verus! {

/// Relies on String::push: appends exactly the one given character.
#[verifier::external_body]
pub fn push_char(s: &mut String, c: char)
    ensures
        final(s)@ == old(s)@.push(c),
{
    s.push(c)
}

/// Character-wise string equality.
pub fn str_eq(a: &str, b: &str) -> (r: bool)
    ensures
        r == (a@ == b@),
{
    let a_len = a.unicode_len();
    let b_len = b.unicode_len();
    if a_len != b_len {
        assert(a@ != b@);
        return false;
    }
    let mut i: usize = 0;
    while i < a_len
        invariant
            a_len == a@.len(),
            b_len == b@.len(),
            a_len == b_len,
            i <= a_len,
            forall|k: int| 0 <= k < i ==> a@[k] == b@[k],
        decreases a_len - i,
    {
        if a.get_char(i) != b.get_char(i) {
            assert(a@ != b@);
            return false;
        }
        i = i + 1;
    }
    assert(a@ =~= b@);
    true
}

/// The characters of `s` with every hyphen removed.
pub open spec fn strip_hyphens(s: Seq<char>) -> Seq<char> {
    s.filter(|c: char| c != '-')
}

/// Removing hyphens distributes over appending one character.
pub proof fn lemma_strip_hyphens_snoc(s: Seq<char>, c: char)
    ensures
        strip_hyphens(s.push(c)) == if c == '-' {
            strip_hyphens(s)
        } else {
            strip_hyphens(s).push(c)
        },
{
    reveal_with_fuel(Seq::<char>::filter, 2);
    assert(s.push(c).drop_last() =~= s);
    assert(s.push(c).last() == c);
    assert(s.push(c).len() == s.len() + 1);
}

/// Copies `s` without its hyphens.
pub fn strip_hyphens_str(s: &str) -> (r: String)
    ensures
        r@ == strip_hyphens(s@),
{
    let n = s.unicode_len();
    let mut out = String::new();
    let mut i: usize = 0;
    while i < n
        invariant
            n == s@.len(),
            i <= n,
            out@ == strip_hyphens(s@.take(i as int)),
        decreases n - i,
    {
        let c = s.get_char(i);
        proof {
            assert(s@.take(i as int + 1) =~= s@.take(i as int).push(s@[i as int]));
            lemma_strip_hyphens_snoc(s@.take(i as int), s@[i as int]);
        }
        if c != '-' {
            push_char(&mut out, c);
        }
        i = i + 1;
    }
    proof {
        assert(s@.take(s@.len() as int) =~= s@);
    }
    out
}

/// Whether `needle` occurs in `hay` starting at offset `off`.
pub open spec fn contains_at(hay: Seq<char>, needle: Seq<char>, off: int) -> bool {
    0 <= off && off + needle.len() <= hay.len()
        && hay.subrange(off, off + needle.len()) == needle
}

/// Whether `needle` occurs anywhere in `hay`.
pub open spec fn contains_frag(hay: Seq<char>, needle: Seq<char>) -> bool {
    exists|off: int| contains_at(hay, needle, off)
}

/// Substring search by characters.
pub fn str_contains(hay: &str, needle: &str) -> (r: bool)
    ensures
        r == contains_frag(hay@, needle@),
{
    let h = hay.unicode_len();
    let n = needle.unicode_len();
    if n > h {
        assert(!contains_frag(hay@, needle@));
        return false;
    }
    if n == 0 {
        assert(hay@.subrange(0, 0) =~= needle@);
        assert(contains_at(hay@, needle@, 0));
        return true;
    }
    let mut off: usize = 0;
    while off <= h - n
        invariant
            h == hay@.len(),
            n == needle@.len(),
            1 <= n <= h,
            off <= h - n + 1,
            forall|o: int| 0 <= o < off ==> !contains_at(hay@, needle@, o),
        decreases h - n + 1 - off,
    {
        let mut k: usize = 0;
        let mut ok = true;
        while k < n && ok
            invariant
                h == hay@.len(),
                n == needle@.len(),
                off + n <= h,
                k <= n,
                ok ==> forall|j: int| 0 <= j < k ==> hay@[off + j] == needle@[j],
                !ok ==> !contains_at(hay@, needle@, off as int),
            decreases n - k,
        {
            if hay.get_char(off + k) != needle.get_char(k) {
                ok = false;
                assert(hay@.subrange(off as int, off + n) != needle@) by {
                    assert(hay@.subrange(off as int, off + n)[k as int] != needle@[k as int]);
                }
            }
            k = k + 1;
        }
        if ok {
            assert(hay@.subrange(off as int, off + n) =~= needle@);
            assert(contains_at(hay@, needle@, off as int));
            return true;
        }
        off = off + 1;
    }
    assert forall|o: int| contains_at(hay@, needle@, o) implies false by {
        assert(o + n <= h);
        assert(o < off);
    }
    false
}

} // verus!
