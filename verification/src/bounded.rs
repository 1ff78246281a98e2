//! Bounded per-owner collections: fixed-capacity, insertion-ordered sequences
//! with an explicit overflow on push and swap-with-last-then-pop removal.
//!
//! Each operation acts on a single owner's collection inside a keyed table,
//! as one read-modify-write step; a failed operation leaves the table
//! unchanged.

use vstd::prelude::*;

use crate::alist::{
    alist_find, copy_vec, distinct_keys, find_index_u64, lemma_alist_push, lemma_alist_update,
    lemma_find_none_iff, lemma_find_some_at, owner_list, position_digest, position_u64,
};
use crate::hashing::Digest;

verus! {

/// A push onto a collection already at capacity.
pub struct Overflow;

/// A removal from a collection no element of which matches.
pub struct NotFound;

/// `i` indexes the first element of `s` equal to `x`.
pub open spec fn is_first_match<T>(s: Seq<T>, x: T, i: int) -> bool {
    0 <= i < s.len() && s[i] == x && (forall|j: int| 0 <= j < i ==> s[j] != x)
}

/// `i` indexes the first content address in `s` whose view is `x`.
pub open spec fn is_first_match_id(s: Seq<Digest>, x: Seq<u8>, i: int) -> bool {
    0 <= i < s.len() && s[i]@ == x && (forall|j: int| 0 <= j < i ==> (#[trigger] s[j])@ != x)
}

/// The sequence after a swap-with-last-then-pop removal at `i`; the order of
/// the remaining elements is not preserved.
pub open spec fn swap_removed<T>(s: Seq<T>, i: int) -> Seq<T>
    recommends
        0 <= i < s.len(),
{
    s.update(i, s.last()).drop_last()
}

/// Appends `value` to `owner`'s collection if it is below `capacity`; at
/// capacity the push fails and the table is unchanged.
pub fn try_push<E: Copy>(
    table: &mut Vec<(u64, Vec<E>)>,
    owner: u64,
    capacity: u32,
    value: E,
) -> (r: Result<(), Overflow>)
    requires
        distinct_keys(old(table)@),
    ensures
        distinct_keys(final(table)@),
        match r {
            Ok(()) => {
                &&& owner_list(old(table)@, owner).len() < capacity
                &&& owner_list(final(table)@, owner) == owner_list(old(table)@, owner).push(value)
                &&& forall|u: u64|
                    u != owner ==> #[trigger] owner_list(final(table)@, u) == owner_list(
                        old(table)@,
                        u,
                    )
            },
            Err(_) => {
                &&& owner_list(old(table)@, owner).len() >= capacity
                &&& final(table)@ == old(table)@
            },
        },
{
    match find_index_u64(table, owner) {
        Some(i) => {
            proof {
                lemma_find_some_at(table@, owner, i as int);
            }
            if table[i].1.len() >= capacity as usize {
                return Err(Overflow);
            }
            let mut list = copy_vec(&table[i].1);
            list.push(value);
            proof {
                lemma_alist_update(table@, i as int, (owner, list));
            }
            table.set(i, (owner, list));
            Ok(())
        },
        None => {
            proof {
                lemma_find_none_iff(table@, owner);
            }
            if capacity == 0 {
                return Err(Overflow);
            }
            let mut list: Vec<E> = Vec::new();
            list.push(value);
            proof {
                assert(list@ =~= owner_list(table@, owner).push(value));
                lemma_alist_push(table@, (owner, list));
            }
            table.push((owner, list));
            Ok(())
        },
    }
}

/// Appends `value` to the collection of the post addressed by `owner` if it
/// is below `capacity`; at capacity the push fails and the table is
/// unchanged.
pub fn try_push_by_id<E: Copy>(
    table: &mut Vec<(Digest, Vec<E>)>,
    owner: &Digest,
    capacity: u32,
    value: E,
) -> (r: Result<(), Overflow>)
    requires
        distinct_keys(old(table)@),
    ensures
        distinct_keys(final(table)@),
        match r {
            Ok(()) => {
                &&& owner_list(old(table)@, owner@).len() < capacity
                &&& owner_list(final(table)@, owner@) == owner_list(old(table)@, owner@).push(value)
                &&& forall|k: Seq<u8>|
                    k != owner@ ==> #[trigger] owner_list(final(table)@, k) == owner_list(
                        old(table)@,
                        k,
                    )
            },
            Err(_) => {
                &&& owner_list(old(table)@, owner@).len() >= capacity
                &&& final(table)@ == old(table)@
            },
        },
{
    match crate::alist::find_index_digest(table, owner) {
        Some(i) => {
            proof {
                lemma_find_some_at(table@, owner@, i as int);
            }
            if table[i].1.len() >= capacity as usize {
                return Err(Overflow);
            }
            let mut list = copy_vec(&table[i].1);
            list.push(value);
            proof {
                lemma_alist_update(table@, i as int, (*owner, list));
            }
            table.set(i, (*owner, list));
            Ok(())
        },
        None => {
            proof {
                lemma_find_none_iff(table@, owner@);
            }
            if capacity == 0 {
                return Err(Overflow);
            }
            let mut list: Vec<E> = Vec::new();
            list.push(value);
            proof {
                assert(list@ =~= owner_list(table@, owner@).push(value));
                lemma_alist_push(table@, (*owner, list));
            }
            table.push((*owner, list));
            Ok(())
        },
    }
}

/// Removes the first element of `owner`'s collection equal to `x` by
/// swap-with-last-then-pop; with no match the removal fails and the table is
/// unchanged.
pub fn remove_first_equal(table: &mut Vec<(u64, Vec<u64>)>, owner: u64, x: u64) -> (r: Result<
    (),
    NotFound,
>)
    requires
        distinct_keys(old(table)@),
    ensures
        distinct_keys(final(table)@),
        match r {
            Ok(()) => {
                &&& exists|i: int|
                    is_first_match(owner_list(old(table)@, owner), x, i) && owner_list(
                        final(table)@,
                        owner,
                    ) == swap_removed(owner_list(old(table)@, owner), i)
                &&& forall|u: u64|
                    u != owner ==> #[trigger] owner_list(final(table)@, u) == owner_list(
                        old(table)@,
                        u,
                    )
            },
            Err(_) => {
                &&& !owner_list(old(table)@, owner).contains(x)
                &&& final(table)@ == old(table)@
            },
        },
{
    match find_index_u64(table, owner) {
        Some(i) => {
            proof {
                lemma_find_some_at(table@, owner, i as int);
            }
            let mut list = copy_vec(&table[i].1);
            let ghost s0 = owner_list(table@, owner);
            match position_u64(&list, x) {
                Some(j) => {
                    proof {
                        assert(is_first_match(s0, x, j as int));
                    }
                    list.swap_remove(j);
                    let ghost new_list = list@;
                    proof {
                        assert(new_list == swap_removed(s0, j as int));
                        lemma_alist_update(table@, i as int, (owner, list));
                    }
                    table.set(i, (owner, list));
                    proof {
                        assert(owner_list(table@, owner) == new_list);
                        assert(is_first_match(s0, x, j as int) && owner_list(table@, owner)
                            == swap_removed(s0, j as int));
                    }
                    Ok(())
                },
                None => Err(NotFound),
            }
        },
        None => {
            proof {
                lemma_find_none_iff(table@, owner);
            }
            Err(NotFound)
        },
    }
}

/// Removes the first content address of `owner`'s collection whose view is
/// `x@` by swap-with-last-then-pop; with no match the removal fails and the
/// table is unchanged.
pub fn remove_first_id(table: &mut Vec<(u64, Vec<Digest>)>, owner: u64, x: &Digest) -> (r: Result<
    (),
    NotFound,
>)
    requires
        distinct_keys(old(table)@),
    ensures
        distinct_keys(final(table)@),
        match r {
            Ok(()) => {
                &&& exists|i: int|
                    is_first_match_id(owner_list(old(table)@, owner), x@, i) && owner_list(
                        final(table)@,
                        owner,
                    ) == swap_removed(owner_list(old(table)@, owner), i)
                &&& forall|u: u64|
                    u != owner ==> #[trigger] owner_list(final(table)@, u) == owner_list(
                        old(table)@,
                        u,
                    )
            },
            Err(_) => {
                &&& forall|j: int|
                    0 <= j < owner_list(old(table)@, owner).len() ==> (#[trigger] owner_list(
                        old(table)@,
                        owner,
                    )[j])@ != x@
                &&& final(table)@ == old(table)@
            },
        },
{
    match find_index_u64(table, owner) {
        Some(i) => {
            proof {
                lemma_find_some_at(table@, owner, i as int);
            }
            let mut list = copy_vec(&table[i].1);
            let ghost s0 = owner_list(table@, owner);
            match position_digest(&list, x) {
                Some(j) => {
                    proof {
                        assert(is_first_match_id(s0, x@, j as int));
                    }
                    list.swap_remove(j);
                    let ghost new_list = list@;
                    proof {
                        assert(new_list == swap_removed(s0, j as int));
                        lemma_alist_update(table@, i as int, (owner, list));
                    }
                    table.set(i, (owner, list));
                    proof {
                        assert(owner_list(table@, owner) == new_list);
                        assert(is_first_match_id(s0, x@, j as int) && owner_list(table@, owner)
                            == swap_removed(s0, j as int));
                    }
                    Ok(())
                },
                None => Err(NotFound),
            }
        },
        None => {
            proof {
                lemma_find_none_iff(table@, owner);
            }
            Err(NotFound)
        },
    }
}

} // verus!
