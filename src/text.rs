use vstd::prelude::*;
use vstd::string::StrSliceExecFns;

verus! {

/// The first index at or after `i` where `s` holds `x`, or `s.len()` if none does.
pub open spec fn first_from<A>(s: Seq<A>, i: int, x: A) -> int
    decreases s.len() - i,
{
    if i < 0 || i >= s.len() {
        s.len() as int
    } else if s[i] == x {
        i
    } else {
        first_from(s, i + 1, x)
    }
}

/// `first_from` is `j` when `j` is the first place after `i` that holds `x` (or the end).
pub proof fn lemma_first_from<A>(s: Seq<A>, i: int, j: int, x: A)
    requires
        0 <= i <= j <= s.len(),
        j == s.len() || s[j] == x,
        forall|k: int| i <= k < j ==> s[k] != x,
    ensures
        first_from(s, i, x) == j,
    decreases j - i,
{
    if i < j {
        lemma_first_from(s, i + 1, j, x);
    }
}

/// `first_from` never goes below its start nor past the end, and what it finds holds `x`.
pub proof fn lemma_first_from_bounds<A>(s: Seq<A>, i: int, x: A)
    requires
        0 <= i <= s.len(),
    ensures
        i <= first_from(s, i, x) <= s.len(),
        first_from(s, i, x) < s.len() ==> s[first_from(s, i, x)] == x,
        forall|k: int| i <= k < first_from(s, i, x) ==> s[k] != x,
    decreases s.len() - i,
{
    if i < s.len() && s[i] != x {
        lemma_first_from_bounds(s, i + 1, x);
    }
}

/// Index of the first `x` at or after `from` in the characters of `s`.
pub fn find_char(s: &str, from: usize, x: char) -> (r: usize)
    requires
        from <= s@.len(),
    ensures
        r == first_from(s@, from as int, x),
{
    let n = s.unicode_len();
    let mut i: usize = from;
    while i < n
        invariant
            n == s@.len(),
            from <= i <= n,
            first_from(s@, i as int, x) == first_from(s@, from as int, x),
        decreases n - i,
    {
        if s.get_char(i) == x {
            return i;
        }
        i = i + 1;
    }
    i
}

/// Index of the first `x` at or after `from` in `b`.
pub fn find_byte(b: &[u8], from: usize, x: u8) -> (r: usize)
    requires
        from <= b@.len(),
    ensures
        r == first_from(b@, from as int, x),
{
    let mut i: usize = from;
    while i < b.len()
        invariant
            from <= i <= b@.len(),
            first_from(b@, i as int, x) == first_from(b@, from as int, x),
        decreases b@.len() - i,
    {
        if b[i] == x {
            return i;
        }
        i = i + 1;
    }
    i
}

/// Whether two strings hold the same characters.
pub fn same_text(a: &str, b: &str) -> (r: bool)
    ensures
        r == (a@ == b@),
{
    let n = a.unicode_len();
    if n != b.unicode_len() {
        return false;
    }
    let mut i: usize = 0;
    while i < n
        invariant
            n == a@.len() == b@.len(),
            i <= n,
            forall|k: int| 0 <= k < i ==> a@[k] == b@[k],
        decreases n - i,
    {
        if a.get_char(i) != b.get_char(i) {
            return false;
        }
        i = i + 1;
    }
    assert(a@ =~= b@);
    true
}

/// Whether `b` holds `lit` starting at `at`.
pub fn bytes_at(b: &[u8], at: usize, lit: &[u8]) -> (r: bool)
    ensures
        r == (at + lit@.len() <= b@.len() && b@.subrange(at as int, at + lit@.len()) == lit@),
{
    if at > b.len() || lit.len() > b.len() - at {
        return false;
    }
    let mut i: usize = 0;
    while i < lit.len()
        invariant
            at + lit@.len() <= b@.len(),
            b@.len() <= usize::MAX,
            i <= lit@.len(),
            forall|k: int| 0 <= k < i ==> b@[at + k] == lit@[k],
        decreases lit@.len() - i,
    {
        if b[at + i] != lit[i] {
            assert(b@.subrange(at as int, at + lit@.len())[i as int] != lit@[i as int]);
            return false;
        }
        i = i + 1;
    }
    assert(b@.subrange(at as int, at + lit@.len()) =~= lit@);
    true
}

/// Appends every byte of `src` to `out`.
pub fn push_bytes(out: &mut Vec<u8>, src: &[u8])
    ensures
        final(out)@ == old(out)@ + src@,
{
    let mut i: usize = 0;
    while i < src.len()
        invariant
            i <= src@.len(),
            out@ == old(out)@ + src@.subrange(0, i as int),
        decreases src@.len() - i,
    {
        out.push(src[i]);
        i = i + 1;
        assert(out@ =~= old(out)@ + src@.subrange(0, i as int));
    }
    assert(src@.subrange(0, i as int) =~= src@);
}

} // verus!
