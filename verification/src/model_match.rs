//! Matching camera model names, byte by byte.
//!
//! The calibration tables themselves hold floating-point matrices and live
//! outside this library; the lookups that pick an entry by its model name are
//! here, over the names' UTF-8 bytes (a UTF-8 string contains another exactly
//! when its bytes contain the other's bytes).

use vstd::prelude::*;

verus! {

/// `n` occurs in `h` starting at byte `k`.
pub open spec fn occurs_at(h: Seq<u8>, n: Seq<u8>, k: int) -> bool {
    0 <= k && k + n.len() <= h.len() && h.subrange(k, k + n.len()) == n
}

/// `n` occurs somewhere in `h` (the empty sequence occurs everywhere).
pub open spec fn contains_bytes(h: Seq<u8>, n: Seq<u8>) -> bool {
    exists|k: int| occurs_at(h, n, k)
}

/// Whether `h` and `n` agree on the `n.len()` bytes from `k`.
fn matches_at(h: &[u8], n: &[u8], k: usize) -> (r: bool)
    requires
        k + n@.len() <= h@.len(),
    ensures
        r == occurs_at(h@, n@, k as int),
{
    let hl = h.len();
    let mut i: usize = 0;
    while i < n.len()
        invariant
            hl == h@.len(),
            k + n@.len() <= h@.len(),
            i <= n@.len(),
            forall|j: int| 0 <= j < i ==> h@[k + j] == n@[j],
        decreases n@.len() - i,
    {
        if h[k + i] != n[i] {
            assert(h@.subrange(k as int, k + n@.len())[i as int] != n@[i as int]);
            return false;
        }
        i = i + 1;
    }
    assert(h@.subrange(k as int, k + n@.len()) =~= n@);
    true
}

/// Whether `n` occurs in `h`.
pub fn contains(h: &[u8], n: &[u8]) -> (r: bool)
    ensures
        r == contains_bytes(h@, n@),
{
    if n.len() == 0 {
        assert(h@.subrange(0, 0) =~= n@);
        assert(occurs_at(h@, n@, 0));
        return true;
    }
    if n.len() > h.len() {
        return false;
    }
    let hl = h.len();
    let last = hl - n.len();
    let mut k: usize = 0;
    while k <= last
        invariant
            hl == h@.len(),
            1 <= n@.len(),
            last == h@.len() - n@.len(),
            k <= last + 1,
            forall|j: int| 0 <= j < k ==> !occurs_at(h@, n@, j),
        decreases last + 1 - k,
    {
        if matches_at(h, n, k) {
            return true;
        }
        k = k + 1;
    }
    assert forall|j: int| !occurs_at(h@, n@, j) by {
        if 0 <= j < k {
        }
    }
    false
}

/// The index of the first name equal to `model`, if any.
pub fn find_exact(names: &Vec<Vec<u8>>, model: &[u8]) -> (r: Option<usize>)
    ensures
        match r {
            Some(i) => i < names@.len() && names@[i as int]@ == model@ && forall|j: int|
                0 <= j < i ==> names@[j]@ != model@,
            None => forall|j: int| 0 <= j < names@.len() ==> names@[j]@ != model@,
        },
{
    let mut i: usize = 0;
    while i < names.len()
        invariant
            i <= names@.len(),
            forall|j: int| 0 <= j < i ==> names@[j]@ != model@,
        decreases names@.len() - i,
    {
        let name = names[i].as_slice();
        let same = name.len() == model.len() && matches_at(name, model, 0);
        if same {
            assert(name@.subrange(0, model@.len() as int) =~= name@);
            return Some(i);
        }
        proof {
            if name@.len() == model@.len() {
                assert(name@.subrange(0, model@.len() as int) =~= name@);
            }
        }
        i = i + 1;
    }
    None
}

/// Two names match loosely when either contains the other.
pub open spec fn loose_match(name: Seq<u8>, model: Seq<u8>) -> bool {
    contains_bytes(model, name) || contains_bytes(name, model)
}

/// The index of the first name that `model` contains or that contains
/// `model`, if any.
pub fn find_loose(names: &Vec<Vec<u8>>, model: &[u8]) -> (r: Option<usize>)
    ensures
        match r {
            Some(i) => i < names@.len() && loose_match(names@[i as int]@, model@) && forall|j: int|
                0 <= j < i ==> !loose_match(names@[j]@, model@),
            None => forall|j: int| 0 <= j < names@.len() ==> !loose_match(names@[j]@, model@),
        },
{
    let mut i: usize = 0;
    while i < names.len()
        invariant
            i <= names@.len(),
            forall|j: int| 0 <= j < i ==> !loose_match(names@[j]@, model@),
        decreases names@.len() - i,
    {
        let name = names[i].as_slice();
        if contains(model, name) || contains(name, model) {
            return Some(i);
        }
        i = i + 1;
    }
    None
}

} // verus!
