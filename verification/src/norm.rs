//! Case normalization of names and tokens.
//!
//! Policy: case folding is ASCII-only. Names are stored lower-cased at
//! construction and input tokens are lower-cased before comparison, but only
//! the characters `'A'..='Z'` fold; every other character, non-ASCII
//! capitals included, is kept as typed and matches only itself. This keeps
//! normalization a fully specified function of the string — in particular
//! provably idempotent — where Unicode case folding could only be assumed.

use vstd::prelude::*;

verus! {

/// ASCII lower-casing of a single character; every other character is
/// left unchanged.
pub open spec fn norm_char(c: char) -> char {
    match c {
        'A' => 'a',
        'B' => 'b',
        'C' => 'c',
        'D' => 'd',
        'E' => 'e',
        'F' => 'f',
        'G' => 'g',
        'H' => 'h',
        'I' => 'i',
        'J' => 'j',
        'K' => 'k',
        'L' => 'l',
        'M' => 'm',
        'N' => 'n',
        'O' => 'o',
        'P' => 'p',
        'Q' => 'q',
        'R' => 'r',
        'S' => 's',
        'T' => 't',
        'U' => 'u',
        'V' => 'v',
        'W' => 'w',
        'X' => 'x',
        'Y' => 'y',
        'Z' => 'z',
        _ => c,
    }
}

/// Case-normalized form of a string: each character lower-cased.
pub open spec fn norm(s: Seq<char>) -> Seq<char> {
    s.map_values(|c: char| norm_char(c))
}

/// Lower-casing a single character twice is the same as doing it once.
pub proof fn lemma_norm_char_idempotent(c: char)
    ensures
        norm_char(norm_char(c)) == norm_char(c),
{
}

/// Normalization keeps the length of a string.
pub proof fn lemma_norm_len(s: Seq<char>)
    ensures
        norm(s).len() == s.len(),
{
}

/// Name normalization is idempotent: normalizing an already-normalized
/// string changes nothing.
pub proof fn lemma_norm_idempotent(s: Seq<char>)
    ensures
        norm(norm(s)) == norm(s),
{
    assert forall|i: int| 0 <= i < s.len() implies norm(norm(s))[i] == norm(s)[i] by {
        lemma_norm_char_idempotent(s[i]);
    }
    assert(norm(norm(s)) =~= norm(s));
}

/// Executable ASCII lower-casing of one character.
pub fn lower_char(c: char) -> (r: char)
    ensures
        r == norm_char(c),
{
    match c {
        'A' => 'a',
        'B' => 'b',
        'C' => 'c',
        'D' => 'd',
        'E' => 'e',
        'F' => 'f',
        'G' => 'g',
        'H' => 'h',
        'I' => 'i',
        'J' => 'j',
        'K' => 'k',
        'L' => 'l',
        'M' => 'm',
        'N' => 'n',
        'O' => 'o',
        'P' => 'p',
        'Q' => 'q',
        'R' => 'r',
        'S' => 's',
        'T' => 't',
        'U' => 'u',
        'V' => 'v',
        'W' => 'w',
        'X' => 'x',
        'Y' => 'y',
        'Z' => 'z',
        _ => c,
    }
}

/// Relies on `String::push` from std: appends a single character at the end
/// of the string.
#[verifier::external_body]
pub(crate) fn push_char(s: &mut String, c: char)
    ensures
        final(s)@ == old(s)@.push(c),
{
    s.push(c);
}

/// Builds the case-normalized copy of a string slice.
pub fn normalize(s: &str) -> (r: String)
    ensures
        r@ == norm(s@),
{
    let n = s.unicode_len();
    let mut r = String::new();
    let mut i: usize = 0;
    while i < n
        invariant
            i <= n,
            n == s@.len(),
            r@ == norm(s@.take(i as int)),
        decreases n - i,
    {
        let c = s.get_char(i);
        push_char(&mut r, lower_char(c));
        proof {
            assert(s@.take(i + 1) =~= s@.take(i as int).push(s@[i as int]));
            assert(norm(s@.take(i + 1)) =~= norm(s@.take(i as int)).push(norm_char(s@[i as int])));
        }
        i = i + 1;
    }
    proof {
        assert(s@.take(n as int) =~= s@);
    }
    r
}

/// Is the string already case-normalized?
pub(crate) fn is_normalized(s: &str) -> (r: bool)
    ensures
        r == (norm(s@) == s@),
{
    let n = s.unicode_len();
    let mut i: usize = 0;
    while i < n
        invariant
            i <= n,
            n == s@.len(),
            forall|j: int| 0 <= j < i ==> norm_char(s@[j]) == s@[j],
        decreases n - i,
    {
        let c = s.get_char(i);
        if lower_char(c) != c {
            proof {
                assert(norm(s@)[i as int] != s@[i as int]);
            }
            return false;
        }
        i = i + 1;
    }
    proof {
        assert(norm(s@) =~= s@);
    }
    true
}

/// Compares two string slices for equality up to case normalization.
pub fn eq_norm(a: &str, b: &str) -> (r: bool)
    ensures
        r == (norm(a@) == norm(b@)),
{
    let la = a.unicode_len();
    let lb = b.unicode_len();
    if la != lb {
        proof {
            lemma_norm_len(a@);
            lemma_norm_len(b@);
        }
        return false;
    }
    let mut i: usize = 0;
    while i < la
        invariant
            i <= la,
            la == a@.len(),
            la == b@.len(),
            forall|j: int| 0 <= j < i ==> norm_char(a@[j]) == norm_char(b@[j]),
        decreases la - i,
    {
        let ca = a.get_char(i);
        let cb = b.get_char(i);
        if lower_char(ca) != lower_char(cb) {
            proof {
                assert(norm(a@)[i as int] != norm(b@)[i as int]);
            }
            return false;
        }
        i = i + 1;
    }
    proof {
        assert(norm(a@) =~= norm(b@));
    }
    true
}

} // verus!
