//! Trusted interface to `indexmap::IndexSet`, which keeps a chunk group's
//! children as a set in insertion order.

use vstd::prelude::*;

verus! {

#[verifier::external_type_specification]
#[verifier::external_body]
#[verifier::reject_recursive_types(T)]
#[verifier::reject_recursive_types(S)]
pub struct ExIndexSet<T, S>(indexmap::IndexSet<T, S>);

/// The members of an `IndexSet` of identifiers, in insertion order.
pub uninterp spec fn ordered_members(s: &indexmap::IndexSet<u32>) -> Seq<u32>;

/// Relies on `indexmap::IndexSet::new`: creates an empty set.
#[verifier::external_body]
pub fn ordered_set_new() -> (r: indexmap::IndexSet<u32>)
    ensures
        ordered_members(&r) == Seq::<u32>::empty(),
{
    indexmap::IndexSet::new()
}

/// Relies on `indexmap::IndexSet::insert`: an equivalent member leaves the
/// set unchanged and yields false; a new member is appended after the
/// existing ones and yields true.
#[verifier::external_body]
pub fn ordered_set_insert(s: &mut indexmap::IndexSet<u32>, x: u32) -> (newly: bool)
    ensures
        newly == !ordered_members(old(s)).contains(x),
        ordered_members(final(s)) == if ordered_members(old(s)).contains(x) {
            ordered_members(old(s))
        } else {
            ordered_members(old(s)).push(x)
        },
{
    s.insert(x)
}

/// Relies on `indexmap::IndexSet::len`: the number of members.
#[verifier::external_body]
pub fn ordered_set_len(s: &indexmap::IndexSet<u32>) -> (n: usize)
    ensures
        n == ordered_members(s).len(),
{
    s.len()
}

/// Relies on `indexmap::IndexSet::contains`: membership.
#[verifier::external_body]
pub fn ordered_set_contains(s: &indexmap::IndexSet<u32>, x: u32) -> (r: bool)
    ensures
        r == ordered_members(s).contains(x),
{
    s.contains(&x)
}

/// Relies on `indexmap::IndexSet::iter`: yields the members in insertion
/// order.
#[verifier::external_body]
pub fn ordered_set_to_vec(s: &indexmap::IndexSet<u32>) -> (r: Vec<u32>)
    ensures
        r@ == ordered_members(s),
{
    s.iter().copied().collect()
}

} // verus!
