//! Identities: random 128-bit values that name buses and registrations.

use core::marker::PhantomData;
use vstd::prelude::*;
use vstd::std_specs::cmp::PartialEqSpecImpl;

verus! {

/// Whether `value` carries the version and variant marks of a random
/// (version 4, RFC 4122) UUID packed big-endian into 128 bits.
pub open spec fn is_version4(value: u128) -> bool {
    (value >> 76u128) & 0xfu128 == 4u128 && (value >> 62u128) & 0x3u128 == 2u128
}

/// Draws a fresh identity with `uuid::Uuid::new_v4` and packs it with
/// `uuid::Uuid::as_u128` (first byte most significant).
///
/// Trusted: the result carries the version nibble 4 and the RFC 4122 variant
/// bits that `new_v4` sets; every other bit is random, so nothing else is
/// claimed, in particular not that two results differ. `new_v4` aborts the
/// process when the operating system cannot supply random bytes.
#[verifier::external_body]
pub(crate) fn fresh_id() -> (value: u128)
    ensures
        is_version4(value),
{
    uuid::Uuid::new_v4().as_u128()
}

/// The credential for removing one registered handler of event type `T`.
///
/// It is neither `Clone` nor `Copy`: a registration hands out one token, and
/// unregistering consumes it.
pub struct EventHandlerId<T> {
    id: u128,
    _t: PhantomData<T>,
}

impl<T> View for EventHandlerId<T> {
    type V = u128;

    closed spec fn view(&self) -> u128 {
        self.id
    }
}

impl<T> EventHandlerId<T> {
    /// The token whose value is `value`.
    pub closed spec fn of(value: u128) -> Self {
        EventHandlerId { id: value, _t: PhantomData }
    }

    /// A token that stands for `value`.
    pub(crate) fn from_raw(value: u128) -> (token: Self)
        ensures
            token == Self::of(value),
            token@ == value,
    {
        EventHandlerId { id: value, _t: PhantomData }
    }
}

impl<T> PartialEq for EventHandlerId<T> {
    fn eq(&self, other: &Self) -> (equal: bool) {
        self.id == other.id
    }
}

impl<T> PartialEqSpecImpl for EventHandlerId<T> {
    open spec fn obeys_eq_spec() -> bool {
        true
    }

    open spec fn eq_spec(&self, other: &Self) -> bool {
        self@ == other@
    }
}

impl<T> Eq for EventHandlerId<T> {

}

} // verus!
