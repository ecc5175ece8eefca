//! Helpers on byte strings and lists of byte strings.

use vstd::prelude::*;

verus! {

/// The mathematical value of a list of byte strings.
pub open spec fn keys_view(keys: Seq<Vec<u8>>) -> Seq<Seq<u8>> {
    Seq::new(keys.len(), |i: int| keys[i]@)
}

/// The first `i + 1` keys of a list hold what the first `i` hold, and the
/// key at index `i`.
pub proof fn lemma_take_contains(keys: Seq<Seq<u8>>, i: int, key: Seq<u8>)
    requires
        0 <= i < keys.len(),
    ensures
        keys.take(i + 1).contains(key) <==> (keys.take(i).contains(key) || key == keys[i]),
{
    let longer = keys.take(i + 1);
    let shorter = keys.take(i);
    if longer.contains(key) {
        let j = choose|j: int| 0 <= j < longer.len() && longer[j] == key;
        if j < i {
            assert(shorter[j] == key);
        }
    }
    if shorter.contains(key) {
        let j = choose|j: int| 0 <= j < shorter.len() && shorter[j] == key;
        assert(longer[j] == key);
    }
    if key == keys[i] {
        assert(longer[i] == key);
    }
}

/// Compares two byte strings.
pub fn bytes_eq(a: &Vec<u8>, b: &Vec<u8>) -> (same: bool)
    ensures
        same == (a@ == b@),
{
    if a.len() != b.len() {
        return false;
    }
    let mut i: usize = 0;
    while i < a.len()
        invariant
            a@.len() == b@.len(),
            0 <= i <= a@.len(),
            forall|j: int| 0 <= j < i ==> a@[j] == b@[j],
        decreases a@.len() - i,
    {
        if a[i] != b[i] {
            return false;
        }
        i += 1;
    }
    assert(a@ =~= b@);
    true
}

/// Copies a byte string.
pub fn clone_bytes(a: &Vec<u8>) -> (copy: Vec<u8>)
    ensures
        copy@ == a@,
{
    let mut copy: Vec<u8> = Vec::with_capacity(a.len());
    let mut i: usize = 0;
    while i < a.len()
        invariant
            0 <= i <= a@.len(),
            copy@ == a@.subrange(0, i as int),
        decreases a@.len() - i,
    {
        copy.push(a[i]);
        assert(copy@ =~= a@.subrange(0, i + 1));
        i += 1;
    }
    assert(copy@ =~= a@);
    copy
}

/// Copies the byte strings of `keys` from index `start` up to `end`.
pub fn clone_range(keys: &Vec<Vec<u8>>, start: usize, end: usize) -> (copy: Vec<Vec<u8>>)
    requires
        start <= end <= keys@.len(),
    ensures
        keys_view(copy@) == keys_view(keys@).subrange(start as int, end as int),
{
    let mut copy: Vec<Vec<u8>> = Vec::with_capacity(end - start);
    let mut i: usize = start;
    while i < end
        invariant
            start <= i <= end <= keys@.len(),
            copy@.len() == i - start,
            forall|j: int| 0 <= j < i - start ==> (#[trigger] copy@[j])@ == keys@[start + j]@,
        decreases end - i,
    {
        copy.push(clone_bytes(&keys[i]));
        i += 1;
    }
    assert(keys_view(copy@) =~= keys_view(keys@).subrange(start as int, end as int));
    copy
}

} // verus!
