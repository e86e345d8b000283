//! Byte-string comparisons: exact, and with ASCII letters folded to lower case.
use vstd::prelude::*;

verus! {

/// `b` with an ASCII capital letter turned into its lower-case form.
pub open spec fn fold_case(b: u8) -> u8 {
    if 65 <= b <= 90 {
        (b + 32) as u8
    } else {
        b
    }
}

/// `w` stands in `s` at `i`, letters of `s` compared without regard to case.
pub open spec fn occurs_folded_at(s: Seq<u8>, w: Seq<u8>, i: int) -> bool {
    &&& 0 <= i
    &&& i + w.len() <= s.len()
    &&& forall|k: int| 0 <= k < w.len() ==> fold_case(#[trigger] s[i + k]) == w[k]
}

/// `w` stands somewhere in `s`, letters of `s` compared without regard to case.
pub open spec fn contains_folded(s: Seq<u8>, w: Seq<u8>) -> bool {
    exists|i: int| occurs_folded_at(s, w, i)
}

pub fn same_bytes(a: &[u8], b: &[u8]) -> (r: bool)
    ensures
        r == (a@ == b@),
{
    if a.len() != b.len() {
        return false;
    }
    let mut i: usize = 0;
    while i < a.len()
        invariant
            a@.len() == b@.len(),
            i <= a@.len(),
            forall|k: int| 0 <= k < i ==> a@[k] == b@[k],
        decreases a@.len() - i,
    {
        if a[i] != b[i] {
            return false;
        }
        i += 1;
    }
    assert(a@ =~= b@);
    true
}

pub fn contains_ignoring_case(s: &[u8], w: &[u8]) -> (r: bool)
    ensures
        r == contains_folded(s@, w@),
{
    let n = s.len();
    let m = w.len();
    if m > n {
        assert forall|i: int| !occurs_folded_at(s@, w@, i) by {}
        return false;
    }
    let mut i: usize = 0;
    while i <= n - m
        invariant
            n == s@.len(),
            m == w@.len(),
            m <= n,
            i <= n - m + 1,
            forall|j: int| 0 <= j < i ==> !occurs_folded_at(s@, w@, j),
        decreases n - m + 1 - i,
    {
        let mut k: usize = 0;
        let mut all = true;
        while k < m
            invariant
                n == s@.len(),
                m == w@.len(),
                i + m <= n,
                k <= m,
                all ==> forall|t: int| 0 <= t < k ==> fold_case(#[trigger] s@[i + t]) == w@[t],
                !all ==> !occurs_folded_at(s@, w@, i as int),
            decreases m - k,
        {
            let c = s[i + k];
            let lower = if c >= 65 && c <= 90 {
                c + 32
            } else {
                c
            };
            if lower != w[k] {
                all = false;
                assert(fold_case(s@[i + k as int]) != w@[k as int]);
            }
            k += 1;
        }
        if all {
            assert(occurs_folded_at(s@, w@, i as int));
            return true;
        }
        i += 1;
    }
    assert forall|j: int| !occurs_folded_at(s@, w@, j) by {
        if 0 <= j < i {
        }
    }
    false
}

} // verus!
