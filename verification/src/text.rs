//! Byte-level text helpers shared by the decoders: newline scanning,
//! whitespace trimming, and carriage-return stripping, each with a spec
//! definition, an executable counterpart, and the lemmas that connect them.

use vstd::prelude::*;
use vstd::slice::{slice_index_get, slice_subrange, slice_to_vec};

verus! {

/// The whitespace bytes that trimming drops: ASCII whitespace plus the
/// next-line and no-break-space bytes, exactly the bytes whose one-byte
/// character reading is Unicode whitespace.
pub open spec fn is_space(b: u8) -> bool {
    b == 32 || b == 9 || b == 10 || b == 11 || b == 12 || b == 13 || b == 133 || b == 160
}

/// A field is blank when every byte of it is whitespace; trimming a blank
/// field leaves nothing.
pub open spec fn blank(s: Seq<u8>) -> bool {
    forall|i: int| 0 <= i < s.len() ==> is_space(s[i])
}

/// The bytes left after dropping trailing whitespace.
pub open spec fn trim_end(s: Seq<u8>) -> Seq<u8>
    decreases s.len(),
{
    if s.len() > 0 && is_space(s.last()) {
        trim_end(s.drop_last())
    } else {
        s
    }
}

/// The bytes left after dropping leading whitespace.
pub open spec fn trim_start(s: Seq<u8>) -> Seq<u8>
    decreases s.len(),
{
    if s.len() > 0 && is_space(s[0]) {
        trim_start(s.drop_first())
    } else {
        s
    }
}

/// The bytes left after dropping every carriage return.
pub open spec fn strip_cr(s: Seq<u8>) -> Seq<u8>
    decreases s.len(),
{
    if s.len() == 0 {
        Seq::empty()
    } else if s.last() == 13 {
        strip_cr(s.drop_last())
    } else {
        strip_cr(s.drop_last()).push(s.last())
    }
}

/// The position of the first line feed at or after `i`, or the length of the
/// stream when no line feed follows.
pub open spec fn find_nl(s: Seq<u8>, i: nat) -> nat
    decreases s.len() - i,
{
    if i >= s.len() {
        s.len()
    } else if s[i as int] == 10 {
        i
    } else {
        find_nl(s, i + 1)
    }
}

/// `find_nl` lands exactly on the first line feed: if nothing in `[i, k)` is
/// a line feed and `k` is one (or the end), the scan from `i` stops at `k`.
pub proof fn lemma_find_nl_at(s: Seq<u8>, i: nat, k: nat)
    requires
        i <= k <= s.len(),
        forall|j: int| i <= j < k ==> s[j] != 10,
        k == s.len() || s[k as int] == 10,
    ensures
        find_nl(s, i) == k,
    decreases k - i,
{
    if i < k {
        assert(s[i as int] != 10);
        lemma_find_nl_at(s, i + 1, k);
    }
}

/// Stripping carriage returns from a field without any leaves it unchanged.
pub proof fn lemma_strip_cr_id(s: Seq<u8>)
    requires
        forall|i: int| 0 <= i < s.len() ==> s[i] != 13,
    ensures
        strip_cr(s) == s,
    decreases s.len(),
{
    if s.len() > 0 {
        lemma_strip_cr_id(s.drop_last());
        assert(strip_cr(s) =~= s);
    } else {
        assert(strip_cr(s) =~= s);
    }
}

/// Trailing-trim keeps exactly the prefix before the trailing whitespace run:
/// if everything from `j` on is whitespace and `j` is not preceded by more of
/// it, `trim_end` keeps the first `j` bytes.
pub proof fn lemma_trim_end_range(s: Seq<u8>, j: int)
    requires
        0 <= j <= s.len(),
        forall|i: int| j <= i < s.len() ==> is_space(s[i]),
        j == 0 || !is_space(s[j - 1]),
    ensures
        trim_end(s) == s.take(j),
    decreases s.len() - j,
{
    if s.len() > j {
        assert(is_space(s.last()));
        assert(forall|i: int| j <= i < s.drop_last().len() ==> is_space(s.drop_last()[i]));
        lemma_trim_end_range(s.drop_last(), j);
        assert(s.drop_last().take(j) =~= s.take(j));
    } else {
        assert(s.take(j) =~= s);
        if j > 0 {
            assert(s.last() == s[j - 1]);
        }
    }
}

/// Leading-trim drops exactly the leading whitespace run: if everything
/// before `k` is whitespace and position `k` is not, `trim_start` drops the
/// first `k` bytes.
pub proof fn lemma_trim_start_range(s: Seq<u8>, k: int)
    requires
        0 <= k <= s.len(),
        forall|i: int| 0 <= i < k ==> is_space(s[i]),
        k == s.len() || !is_space(s[k]),
    ensures
        trim_start(s) == s.skip(k),
    decreases k,
{
    if k > 0 {
        assert(is_space(s[0]));
        assert(forall|i: int| 0 <= i < k - 1 ==> is_space(s.drop_first()[i]));
        lemma_trim_start_range(s.drop_first(), k - 1);
        assert(s.drop_first().skip(k - 1) =~= s.skip(k));
    } else {
        assert(s.skip(0) =~= s);
    }
}

/// Whether one byte is ASCII whitespace.
pub fn byte_is_space(b: u8) -> (r: bool)
    ensures
        r == is_space(b),
{
    b == 32 || b == 9 || b == 10 || b == 11 || b == 12 || b == 13 || b == 133 || b == 160
}

/// Scans for the first line feed, reporting the stream length when there is
/// none.
pub fn find_newline(s: &[u8]) -> (nl: usize)
    ensures
        nl == find_nl(s@, 0),
        nl <= s@.len(),
{
    let n = s.len();
    let mut i: usize = 0;
    while i < n && *slice_index_get(s, i) != 10
        invariant
            0 <= i <= n,
            n == s@.len(),
            forall|j: int| 0 <= j < i ==> s@[j] != 10,
        decreases n - i,
    {
        i = i + 1;
    }
    proof {
        lemma_find_nl_at(s@, 0, i as nat);
    }
    i
}

/// Whether two byte strings hold the same bytes.
pub fn bytes_eq(a: &[u8], b: &[u8]) -> (r: bool)
    ensures
        r == (a@ == b@),
{
    if a.len() != b.len() {
        assert(a@ != b@);
        return false;
    }
    let n = a.len();
    let mut i: usize = 0;
    while i < n
        invariant
            0 <= i <= n,
            n == a@.len() && n == b@.len(),
            forall|j: int| 0 <= j < i ==> a@[j] == b@[j],
        decreases n - i,
    {
        if *slice_index_get(a, i) != *slice_index_get(b, i) {
            assert(a@ != b@);
            return false;
        }
        i = i + 1;
    }
    assert(a@ =~= b@);
    true
}

/// Whether a field is blank, that is, all whitespace.
pub fn is_blank(v: &Vec<u8>) -> (r: bool)
    ensures
        r == blank(v@),
{
    let n = v.len();
    let mut i: usize = 0;
    while i < n
        invariant
            0 <= i <= n,
            n == v@.len(),
            forall|j: int| 0 <= j < i ==> is_space(v@[j]),
        decreases n - i,
    {
        if !byte_is_space(v[i]) {
            return false;
        }
        i = i + 1;
    }
    true
}

/// Finds where the trailing whitespace of `s.take(n)` begins, so that
/// `trim_end(s.take(n))` is `s.take(j)`.
pub fn trim_end_index(s: &[u8], n: usize) -> (j: usize)
    requires
        n <= s@.len(),
    ensures
        j <= n,
        trim_end(s@.take(n as int)) == s@.take(j as int),
{
    let mut j: usize = n;
    while j > 0 && byte_is_space(*slice_index_get(s, j - 1))
        invariant
            0 <= j <= n <= s@.len(),
            forall|i: int| j <= i < n ==> is_space(s@[i]),
        decreases j,
    {
        j = j - 1;
    }
    proof {
        let t = s@.take(n as int);
        assert(forall|i: int| j <= i < t.len() ==> is_space(t[i]));
        if j > 0 {
            assert(t[j - 1] == s@[j - 1]);
        }
        lemma_trim_end_range(t, j as int);
        assert(t.take(j as int) =~= s@.take(j as int));
    }
    j
}

/// Copies a range of a byte string into a fresh vector.
pub fn bytes_of_range(s: &[u8], from: usize, to: usize) -> (r: Vec<u8>)
    requires
        from <= to <= s@.len(),
    ensures
        r@ == s@.subrange(from as int, to as int),
{
    slice_to_vec(slice_subrange(s, from, to))
}

} // verus!
