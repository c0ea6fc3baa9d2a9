//! Trusted boundary to `slab::Slab`, the keyed store that holds the position
//! of every live cursor.
//!
//! The slab is opaque to the verifier; `slab_map` names its contents as a map
//! from occupied key to stored value, and each wrapper states over that name
//! what the slab's source shows of the call it makes.

use vstd::prelude::*;

verus! {

#[verifier::external_type_specification]
#[verifier::external_body]
#[verifier::reject_recursive_types(T)]
pub struct ExSlab<T>(slab::Slab<T>);

/// The contents of a cursor slab: each occupied key mapped to its value.
pub uninterp spec fn slab_map(s: slab::Slab<usize>) -> Map<usize, usize>;

/// Relies on slab::Slab::new: the fresh slab has no occupied slot.
#[verifier::external_body]
pub(crate) fn slab_new() -> (s: slab::Slab<usize>)
    ensures
        slab_map(s).dom() == Set::<usize>::empty(),
{
    slab::Slab::new()
}

/// Relies on slab::Slab::insert: the value is stored under the key of a
/// vacant slot, and that key is returned.
#[verifier::external_body]
pub(crate) fn slab_insert(s: &mut slab::Slab<usize>, val: usize) -> (key: usize)
    ensures
        !slab_map(*old(s)).dom().contains(key),
        slab_map(*final(s)) == slab_map(*old(s)).insert(key, val),
{
    s.insert(val)
}

/// Relies on slab::Slab::remove: the value stored under an occupied key is
/// taken out and returned; the call panics on a vacant key, so one is never
/// handed to it.
#[verifier::external_body]
pub(crate) fn slab_remove(s: &mut slab::Slab<usize>, key: usize) -> (val: usize)
    requires
        slab_map(*old(s)).dom().contains(key),
    ensures
        val == slab_map(*old(s))[key],
        slab_map(*final(s)) == slab_map(*old(s)).remove(key),
{
    s.remove(key)
}

/// Relies on slab::Slab::contains: whether the key is occupied.
#[verifier::external_body]
pub(crate) fn slab_contains(s: &slab::Slab<usize>, key: usize) -> (b: bool)
    ensures
        b == slab_map(*s).dom().contains(key),
{
    s.contains(key)
}

/// Relies on the Index impl of slab::Slab: the value stored under an occupied
/// key; the call panics on a vacant key, so one is never handed to it.
#[verifier::external_body]
pub(crate) fn slab_get(s: &slab::Slab<usize>, key: usize) -> (val: usize)
    requires
        slab_map(*s).dom().contains(key),
    ensures
        val == slab_map(*s)[key],
{
    s[key]
}

/// Relies on the IndexMut impl of slab::Slab: the slot under an occupied key
/// is overwritten; the call panics on a vacant key, so one is never handed to
/// it.
#[verifier::external_body]
pub(crate) fn slab_set(s: &mut slab::Slab<usize>, key: usize, val: usize)
    requires
        slab_map(*old(s)).dom().contains(key),
    ensures
        slab_map(*final(s)) == slab_map(*old(s)).insert(key, val),
{
    s[key] = val;
}

/// Relies on slab::Slab::len: the number of occupied slots.
#[verifier::external_body]
pub(crate) fn slab_len(s: &slab::Slab<usize>) -> (n: usize)
    ensures
        n == slab_map(*s).dom().len(),
{
    s.len()
}

/// Relies on slab::Slab::iter: every occupied slot is yielded exactly once as
/// a pair of its key and its value.
#[verifier::external_body]
pub(crate) fn slab_pairs(s: &slab::Slab<usize>) -> (pairs: Vec<(usize, usize)>)
    ensures
        forall|i: int|
            0 <= i < pairs@.len() ==> slab_map(*s).contains_pair(
                (#[trigger] pairs@[i]).0,
                pairs@[i].1,
            ),
        forall|k: usize|
            slab_map(*s).dom().contains(k) ==> exists|i: int|
                0 <= i < pairs@.len() && (#[trigger] pairs@[i]).0 == k,
        forall|i: int, j: int|
            0 <= i < j < pairs@.len() ==> (#[trigger] pairs@[i]).0 != (#[trigger] pairs@[j]).0,
{
    s.iter().map(|(k, v)| (k, *v)).collect()
}

} // verus!
