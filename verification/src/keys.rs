//! Public keys as bytes.

use vstd::prelude::*;

verus! {

/// Tells whether two keys are the same.
pub fn same_key(a: &[u8; 32], b: &[u8; 32]) -> (same: bool)
    ensures
        same == (*a == *b),
{
    let mut i: usize = 0;
    while i < 32
        invariant
            i <= 32,
            forall|j: int| 0 <= j < i ==> a@[j] == b@[j],
        decreases 32 - i,
    {
        if a[i] != b[i] {
            assert(a@[i as int] != b@[i as int]);
            return false;
        }
        i = i + 1;
    }
    assert(*a =~= *b);
    true
}

/// Tells whether a key stands in a list.
pub fn contains_key(list: &[[u8; 32]], key: &[u8; 32]) -> (found: bool)
    ensures
        found == list@.contains(*key),
{
    let mut i: usize = 0;
    while i < list.len()
        invariant
            i <= list.len(),
            forall|j: int| 0 <= j < i ==> list@[j] != *key,
        decreases list.len() - i,
    {
        if same_key(&list[i], key) {
            assert(list@[i as int] == *key);
            return true;
        }
        i = i + 1;
    }
    false
}

/// Whether the bytes of `a` spell a smaller number than those of `b`, from the
/// first byte on which they differ.
pub open spec fn key_before(a: [u8; 32], b: [u8; 32]) -> bool {
    exists|i: int|
        0 <= i < 32 && #[trigger] a@[i] < b@[i] && forall|j: int| 0 <= j < i ==> a@[j] == b@[j]
}

/// Tells whether a key comes before another, byte by byte.
pub fn comes_before(a: &[u8; 32], b: &[u8; 32]) -> (before: bool)
    ensures
        before == key_before(*a, *b),
{
    let mut i: usize = 0;
    while i < 32
        invariant
            i <= 32,
            forall|j: int| 0 <= j < i ==> a@[j] == b@[j],
        decreases 32 - i,
    {
        if a[i] != b[i] {
            proof {
                if a@[i as int] < b@[i as int] {
                    assert(key_before(*a, *b));
                } else if key_before(*a, *b) {
                    let k = choose|k: int|
                        0 <= k < 32 && #[trigger] a@[k] < b@[k] && forall|j: int|
                            0 <= j < k ==> a@[j] == b@[j];
                    if k < i {
                        assert(a@[k] == b@[k]);
                    } else if i < k {
                        assert(a@[i as int] == b@[i as int]);
                    }
                }
            }
            return a[i] < b[i];
        }
        i = i + 1;
    }
    false
}

/// Of two different keys exactly one comes before the other.
pub proof fn lemma_key_order(a: [u8; 32], b: [u8; 32])
    ensures
        !(key_before(a, b) && key_before(b, a)),
        a != b ==> key_before(a, b) || key_before(b, a),
        a == b ==> !key_before(a, b),
{
    if key_before(a, b) && key_before(b, a) {
        let i = choose|i: int|
            0 <= i < 32 && #[trigger] a@[i] < b@[i] && forall|j: int|
                0 <= j < i ==> a@[j] == b@[j];
        let k = choose|k: int|
            0 <= k < 32 && #[trigger] b@[k] < a@[k] && forall|j: int|
                0 <= j < k ==> b@[j] == a@[j];
        if i < k {
            assert(b@[i] == a@[i]);
        } else if k < i {
            assert(a@[k] == b@[k]);
        }
    }
    if a != b {
        lemma_first_difference(a, b, 0);
    }
}

proof fn lemma_first_difference(a: [u8; 32], b: [u8; 32], from: int)
    requires
        a != b,
        0 <= from <= 32,
        forall|j: int| 0 <= j < from ==> a@[j] == b@[j],
    ensures
        key_before(a, b) || key_before(b, a),
    decreases 32 - from,
{
    if from == 32 {
        assert(a =~= b);
    } else if a@[from] < b@[from] {
        assert(key_before(a, b));
    } else if b@[from] < a@[from] {
        assert(key_before(b, a));
    } else {
        lemma_first_difference(a, b, from + 1);
    }
}

} // verus!
