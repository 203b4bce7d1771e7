//! Declarations of the outside types that the library carries.

use vstd::prelude::*;

verus! {

/// An entity identifier of the ECS, carried through the library without
/// being inspected.
#[verifier::external_type_specification]
#[verifier::external_body]
pub struct ExEntity(bevy::ecs::entity::Entity);

/// A small vector of the `smallvec` crate holding state keys, the first one
/// inline. Verus sees nothing inside it.
#[verifier::external_body]
pub struct StateKeys {
    inner: smallvec::SmallVec<[u64; 1]>,
}

/// The keys held, in order.
pub uninterp spec fn state_keys_items(v: StateKeys) -> Seq<u64>;

/// Calls `SmallVec::from_buf`, which holds exactly the items of the array.
#[verifier::external_body]
pub(crate) fn state_keys_from_buf(buf: [u64; 1]) -> (r: StateKeys)
    ensures
        state_keys_items(r) == buf@,
{
    StateKeys { inner: smallvec::SmallVec::from_buf(buf) }
}

/// Collects the items of a vector into a small vector through its
/// `FromIterator` impl, which keeps them in order.
#[verifier::external_body]
pub(crate) fn state_keys_collect(items: Vec<u64>) -> (r: StateKeys)
    ensures
        state_keys_items(r) == items@,
{
    StateKeys { inner: items.into_iter().collect() }
}

/// Calls `contains` on the items of a small vector, through its `Deref` to a
/// slice.
#[verifier::external_body]
pub(crate) fn state_keys_contains(v: &StateKeys, x: u64) -> (r: bool)
    ensures
        r == state_keys_items(*v).contains(x),
{
    v.inner.contains(&x)
}

/// Calls `Clone::clone` on a small vector, which copies its items.
#[verifier::external_body]
pub(crate) fn state_keys_clone(v: &StateKeys) -> (r: StateKeys)
    ensures
        state_keys_items(r) == state_keys_items(*v),
{
    StateKeys { inner: v.inner.clone() }
}

} // verus!
