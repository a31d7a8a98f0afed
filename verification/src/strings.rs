//! Small string helpers with exact contracts over the character view.

use vstd::prelude::*;
use vstd::string::*;

verus! {

/// `parts` joined with `sep` between neighbours.
pub open spec fn sep_join(parts: Seq<Seq<char>>, sep: Seq<char>) -> Seq<char>
    decreases parts.len(),
{
    if parts.len() == 0 {
        seq![]
    } else if parts.len() == 1 {
        parts[0]
    } else {
        sep_join(parts.drop_last(), sep) + sep + parts.last()
    }
}


/// Two parts joined by a separator.
pub proof fn lemma_sep_join_pair(a: Seq<char>, b: Seq<char>, sep: Seq<char>)
    ensures
        sep_join(seq![a, b], sep) == a + sep + b,
{
    let ab = seq![a, b];
    assert(ab.drop_last() =~= seq![a]);
    assert(sep_join(seq![a], sep) == a);
    assert(sep_join(ab, sep) == sep_join(ab.drop_last(), sep) + sep + ab.last());
}

/// Whether two strings hold the same characters.
pub fn str_eq(a: &str, b: &str) -> (r: bool)
    ensures
        r == (a@ == b@),
{
    let n = a.unicode_len();
    let m = b.unicode_len();
    if n != m {
        return false;
    }
    let mut i: usize = 0;
    while i < n
        invariant
            n == a@.len(),
            m == b@.len(),
            n == m,
            i <= n,
            forall|j: int| 0 <= j < i ==> a@[j] == b@[j],
        decreases n - i,
    {
        if a.get_char(i) != b.get_char(i) {
            return false;
        }
        i = i + 1;
    }
    assert(a@ =~= b@);
    true
}

/// Owned copy of `s`.
pub fn owned(s: &str) -> (r: String)
    ensures
        r@ == s@,
{
    String::from_str(s)
}

/// Concatenation of two strings.
pub fn concat2(a: &str, b: &str) -> (r: String)
    ensures
        r@ == a@ + b@,
{
    let mut r = String::from_str(a);
    r.append(b);
    r
}

/// Concatenation of three strings.
pub fn concat3(a: &str, b: &str, c: &str) -> (r: String)
    ensures
        r@ == a@ + b@ + c@,
{
    let mut r = String::from_str(a);
    r.append(b);
    r.append(c);
    r
}

} // verus!
