//! Per-letter classification of a guess against a target word.

use vstd::prelude::*;
use vstd::string::StrSliceExecFns;

verus! {

/// How one letter of a guess relates to the target word.
#[derive(PartialEq, Eq, Structural, Clone, Copy, Debug)]
pub enum LetterMatch {
    /// The letter stands at the same position in the target.
    Belongs,
    /// The letter occurs nowhere in the target.
    NotInWord,
    /// The letter occurs in the target, but at a different position.
    BelongsElsewhere,
}

/// The classification of position `i`, for `i` within both words.
pub open spec fn spec_letter_match(g: Seq<char>, t: Seq<char>, i: int) -> LetterMatch {
    if g[i] == t[i] {
        LetterMatch::Belongs
    } else if !t.contains(g[i]) {
        LetterMatch::NotInWord
    } else {
        LetterMatch::BelongsElsewhere
    }
}

/// Pairwise classification of a guess against a target: one entry per
/// position, up to the shorter of the two words. The check is
/// letter-existence only: duplicate letters in the guess carry no
/// frequency accounting.
pub open spec fn spec_compare(g: Seq<char>, t: Seq<char>) -> Seq<LetterMatch> {
    Seq::new(if g.len() <= t.len() { g.len() } else { t.len() }, |i: int| spec_letter_match(g, t, i))
}

/// Whether every entry of a classification is `Belongs`.
pub open spec fn all_belongs(ms: Seq<LetterMatch>) -> bool {
    forall|i: int| 0 <= i < ms.len() ==> ms[i] == LetterMatch::Belongs
}

/// Whether `v` holds the character `c`.
pub fn contains_char(v: &Vec<char>, c: char) -> (r: bool)
    ensures
        r == v@.contains(c),
{
    let mut i: usize = 0;
    while i < v.len()
        invariant
            i <= v@.len(),
            forall|j: int| 0 <= j < i ==> v@[j] != c,
        decreases v@.len() - i,
    {
        if v[i] == c {
            return true;
        }
        i += 1;
    }
    false
}

/// Classifies each position of the guess `a` against the target `b`,
/// stopping at the shorter word.
pub fn compare_vec(a: &Vec<char>, b: &Vec<char>) -> (r: Vec<LetterMatch>)
    ensures
        r@ == spec_compare(a@, b@),
{
    let n: usize = if a.len() <= b.len() { a.len() } else { b.len() };
    let mut r: Vec<LetterMatch> = Vec::new();
    let mut i: usize = 0;
    while i < n
        invariant
            i <= n,
            n == spec_compare(a@, b@).len(),
            n <= a@.len() && n <= b@.len(),
            r@ == spec_compare(a@, b@).take(i as int),
        decreases n - i,
    {
        let m = if a[i] == b[i] {
            LetterMatch::Belongs
        } else if !contains_char(b, a[i]) {
            LetterMatch::NotInWord
        } else {
            LetterMatch::BelongsElsewhere
        };
        r.push(m);
        proof {
            assert(r@ =~= spec_compare(a@, b@).take(i + 1));
        }
        i += 1;
    }
    proof {
        assert(spec_compare(a@, b@).take(n as int) =~= spec_compare(a@, b@));
    }
    r
}

/// Whether every entry of a classification vector is `Belongs`.
pub(crate) fn is_all_belongs(v: &Vec<LetterMatch>) -> (r: bool)
    ensures
        r == all_belongs(v@),
{
    let mut i: usize = 0;
    while i < v.len()
        invariant
            i <= v@.len(),
            forall|j: int| 0 <= j < i ==> v@[j] == LetterMatch::Belongs,
        decreases v@.len() - i,
    {
        if !matches!(v[i], LetterMatch::Belongs) {
            assert(v@[i as int] != LetterMatch::Belongs);
            return false;
        }
        i += 1;
    }
    true
}

/// ASCII lowercasing of one character: an uppercase ASCII letter moves to
/// its lowercase form, every other character is unchanged.
pub open spec fn spec_lower_char(c: char) -> char {
    if 'A' <= c && c <= 'Z' {
        ((c as u32 + 32) as u8) as char
    } else {
        c
    }
}

/// ASCII lowercasing of a whole character sequence.
pub open spec fn lower_seq(s: Seq<char>) -> Seq<char> {
    s.map_values(|c: char| spec_lower_char(c))
}

/// ASCII lowercasing of one character.
pub fn lower_char(c: char) -> (r: char)
    ensures
        r == spec_lower_char(c),
{
    if 'A' <= c && c <= 'Z' {
        let u: u32 = c as u32;
        ((u + 32) as u8) as char
    } else {
        c
    }
}

/// The characters of a string, as a vector.
pub fn chars_of(s: &str) -> (v: Vec<char>)
    ensures
        v@ == s@,
{
    let n: usize = s.unicode_len();
    let mut v: Vec<char> = Vec::new();
    let mut i: usize = 0;
    while i < n
        invariant
            i <= n,
            n == s@.len(),
            v@ == s@.take(i as int),
        decreases n - i,
    {
        let c = s.get_char(i);
        v.push(c);
        proof {
            assert(v@ =~= s@.take(i + 1));
        }
        i += 1;
    }
    proof {
        assert(s@.take(n as int) =~= s@);
    }
    v
}

/// ASCII lowercasing of a character vector.
pub fn lower_chars(v: &Vec<char>) -> (r: Vec<char>)
    ensures
        r@ == lower_seq(v@),
{
    let mut r: Vec<char> = Vec::new();
    let mut i: usize = 0;
    while i < v.len()
        invariant
            i <= v@.len(),
            r@ == lower_seq(v@).take(i as int),
        decreases v@.len() - i,
    {
        r.push(lower_char(v[i]));
        proof {
            assert(r@ =~= lower_seq(v@).take(i + 1));
        }
        i += 1;
    }
    proof {
        assert(lower_seq(v@).take(v@.len() as int) =~= lower_seq(v@));
    }
    r
}

/// A guess identical to the target is scored `Belongs` at every position.
pub proof fn lemma_equal_guess_all_belongs(g: Seq<char>, t: Seq<char>)
    requires
        g == t,
    ensures
        all_belongs(spec_compare(g, t)),
{
}

/// A guess sharing no character with the target is scored `NotInWord` at
/// every position.
pub proof fn lemma_disjoint_guess_all_not_in_word(g: Seq<char>, t: Seq<char>)
    requires
        forall|c: char| g.contains(c) ==> !t.contains(c),
    ensures
        forall|i: int|
            0 <= i < spec_compare(g, t).len() ==> spec_compare(g, t)[i] == LetterMatch::NotInWord,
{
    assert forall|i: int|
        0 <= i < spec_compare(g, t).len() implies spec_compare(g, t)[i]
        == LetterMatch::NotInWord by {
        assert(g.contains(g[i]));
    }
}

} // verus!
