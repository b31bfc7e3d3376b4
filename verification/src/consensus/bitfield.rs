//! Bit fields over a window of validators.
//!
//! A bit field stands for at most 128 validators: bit `i` for the validator `i`
//! places after the first of the window, wrapping around at the number of
//! validators. With fewer than 128 validators the higher bits stay zero.

use vstd::prelude::*;
use crate::consensus::types::ValidatorIndex;

verus! {

/// The number of validators that a bit field covers.
pub const WINDOW: u32 = 128;

/// Whether bit `i` of `field` is set.
pub open spec fn has_bit(field: u128, i: int) -> bool {
    0 <= i < 128 && (field >> (i as u128)) & 1 == 1
}

/// The positions at which `map` holds a value.
pub open spec fn present<T>(map: Seq<Option<T>>) -> Set<int> {
    Set::new(|i: int| 0 <= i < map.len() && map[i] is Some)
}

/// The validator that bit `i` stands for in a window that starts at `first`.
pub open spec fn window_member(first: int, count: int, i: int) -> int {
    (first + i) % count
}

/// The bit field of `set` for the window at `first`, as far as its lowest `k` bits.
pub open spec fn bit_field_upto(set: Set<int>, first: int, count: int, k: int) -> u128
    decreases k,
{
    if k <= 0 {
        0
    } else {
        let lower = bit_field_upto(set, first, count, k - 1);
        if k - 1 < count && set.contains(window_member(first, count, k - 1)) {
            lower | (1u128 << ((k - 1) as u128))
        } else {
            lower
        }
    }
}

/// The bit field of `set` for the window at `first`.
pub open spec fn spec_bit_field(set: Set<int>, first: int, count: int) -> u128 {
    bit_field_upto(set, first, count, 128)
}

/// The validators that the lowest `k` bits of `field` stand for, in the order of
/// the bits.
pub open spec fn bit_members_upto(field: u128, first: int, count: int, k: int) -> Seq<
    ValidatorIndex,
>
    decreases k,
{
    if k <= 0 {
        Seq::empty()
    } else {
        let lower = bit_members_upto(field, first, count, k - 1);
        if has_bit(field, k - 1) {
            lower.push(ValidatorIndex(window_member(first, count, k - 1) as u32))
        } else {
            lower
        }
    }
}

/// The validators that the bits of `field` stand for, in the order of the bits.
pub open spec fn spec_bit_members(field: u128, first: int, count: int) -> Seq<ValidatorIndex> {
    bit_members_upto(field, first, count, 128)
}

/// Setting bit `i` changes that bit and no other.
pub proof fn lemma_set_bit(field: u128, i: u128, j: u128)
    by (bit_vector)
    requires
        i < 128,
        j < 128,
    ensures
        ((field | (1u128 << i)) >> j) & 1 == 1 <==> ((field >> j) & 1 == 1 || i == j),
{
}

/// The bits of an intersection with a complement: those set in the one field and
/// not in the other.
pub proof fn lemma_and_not_bit(ours: u128, theirs: u128, j: u128)
    by (bit_vector)
    requires
        j < 128,
    ensures
        ((ours & !theirs) >> j) & 1 == 1 <==> ((ours >> j) & 1 == 1 && !((theirs >> j) & 1 == 1)),
{
}

/// No bit of zero is set.
pub proof fn lemma_zero_bit(j: u128)
    by (bit_vector)
    requires
        j < 128,
    ensures
        !((0u128 >> j) & 1 == 1),
{
}

/// What is missing: bit `i` of `ours & !theirs` is set exactly if it is set in `ours`
/// and not in `theirs`.
pub proof fn lemma_missing_bits(ours: u128, theirs: u128)
    ensures
        forall|i: int|
            #![trigger has_bit(ours & !theirs, i)]
            has_bit(ours & !theirs, i) <==> has_bit(ours, i) && !has_bit(theirs, i),
{
    assert forall|i: int| #![trigger has_bit(ours & !theirs, i)] has_bit(ours & !theirs, i) <==> (
    has_bit(ours, i) && !has_bit(theirs, i)) by {
        if 0 <= i < 128 {
            lemma_and_not_bit(ours, theirs, i as u128);
        }
    }
}

/// The bits of a bit field: bit `i` is set exactly if the window has a validator for
/// it and that validator is in the set.
pub proof fn lemma_bit_field_bits(set: Set<int>, first: int, count: int, k: int)
    requires
        0 <= k <= 128,
    ensures
        forall|i: int|
            #![trigger has_bit(bit_field_upto(set, first, count, k), i)]
            has_bit(bit_field_upto(set, first, count, k), i) <==> (0 <= i < k && i < count
                && set.contains(window_member(first, count, i))),
    decreases k,
{
    let field = bit_field_upto(set, first, count, k);
    if k <= 0 {
        assert forall|i: int| #![trigger has_bit(field, i)] !has_bit(field, i) by {
            if 0 <= i < 128 {
                lemma_zero_bit(i as u128);
            }
        }
    } else {
        lemma_bit_field_bits(set, first, count, k - 1);
        let lower = bit_field_upto(set, first, count, k - 1);
        assert forall|i: int| #![trigger has_bit(field, i)] has_bit(field, i) <==> (0 <= i < k && i
            < count && set.contains(window_member(first, count, i))) by {
            assert(has_bit(lower, i) <==> (0 <= i < k - 1 && i < count && set.contains(
                window_member(first, count, i),
            )));
            if 0 <= i < 128 {
                lemma_set_bit(lower, (k - 1) as u128, i as u128);
            }
        }
    }
}

/// The members of a bit field: a validator is among them exactly if one of the
/// bits that stand for it is set.
pub proof fn lemma_bit_members(field: u128, first: int, count: int, k: int)
    requires
        0 <= k <= 128,
        0 <= first < count <= u32::MAX,
    ensures
        bit_members_upto(field, first, count, k).len() <= k,
        forall|v: ValidatorIndex|
            #![trigger bit_members_upto(field, first, count, k).contains(v)]
            bit_members_upto(field, first, count, k).contains(v) <==> exists|i: int|
                0 <= i < k && #[trigger] has_bit(field, i) && v.0 == window_member(first, count, i),
    decreases k,
{
    let members = bit_members_upto(field, first, count, k);
    if k <= 0 {
        assert forall|v: ValidatorIndex| #![trigger members.contains(v)] !members.contains(v) by {}
    } else {
        lemma_bit_members(field, first, count, k - 1);
        let lower = bit_members_upto(field, first, count, k - 1);
        let last = ValidatorIndex(window_member(first, count, k - 1) as u32);
        assert forall|v: ValidatorIndex| #![trigger members.contains(v)] members.contains(v)
            <==> exists|i: int|
            0 <= i < k && #[trigger] has_bit(field, i) && v.0 == window_member(first, count, i) by {
            if has_bit(field, k - 1) {
                assert(members == lower.push(last));
                if members.contains(v) {
                    let j = choose|j: int| 0 <= j < members.len() && members[j] == v;
                    if j < lower.len() {
                        assert(lower[j] == v);
                        assert(lower.contains(v));
                    } else {
                        assert(v == last);
                        assert(has_bit(field, k - 1) && v.0 == window_member(first, count, k - 1));
                    }
                }
                if exists|i: int|
                    0 <= i < k && #[trigger] has_bit(field, i) && v.0 == window_member(
                        first,
                        count,
                        i,
                    ) {
                    let i = choose|i: int|
                        0 <= i < k && #[trigger] has_bit(field, i) && v.0 == window_member(
                            first,
                            count,
                            i,
                        );
                    if i < k - 1 {
                        assert(lower.contains(v));
                        let j = choose|j: int| 0 <= j < lower.len() && lower[j] == v;
                        assert(members[j] == v);
                    } else {
                        assert(members[lower.len() as int] == v);
                    }
                }
            } else {
                assert(members == lower);
            }
        }
    }
}

/// Returns a bit field in which the bits of the validators are set for which `map`
/// holds a value and which lie in the window that starts at `first`: the least
/// significant bit stands for `first`, the most significant for the validator 127
/// places after it, wrapping around at the number of validators.
pub fn validator_bit_field<T>(first: ValidatorIndex, map: &Vec<Option<T>>) -> (field: u128)
    requires
        first.0 < map.len() <= u32::MAX,
    ensures
        field == spec_bit_field(present(map@), first.0 as int, map.len() as int),
{
    let count = map.len() as u64;
    let mut field: u128 = 0;
    let mut i: u32 = 0;
    while i < WINDOW
        invariant
            i <= WINDOW,
            count == map.len(),
            first.0 < count <= u32::MAX,
            field == bit_field_upto(present(map@), first.0 as int, count as int, i as int),
        decreases WINDOW - i,
    {
        if (i as u64) < count {
            let member = ((first.0 as u64 + i as u64) % count) as usize;
            if map[member].is_some() {
                field = field | (1u128 << (i as u128));
            }
        }
        i += 1;
    }
    field
}

/// Returns the validators whose bits in `field` are `1`, in the order of the bits:
/// the least significant bit stands for `first`, the most significant for the
/// validator 127 places after it, wrapping around at `count` validators.
pub fn iter_validator_bit_field(first: ValidatorIndex, count: u32, field: u128) -> (members: Vec<
    ValidatorIndex,
>)
    requires
        first.0 < count,
    ensures
        members@ == spec_bit_members(field, first.0 as int, count as int),
{
    let mut members: Vec<ValidatorIndex> = Vec::new();
    let mut i: u32 = 0;
    while i < WINDOW
        invariant
            i <= WINDOW,
            first.0 < count,
            members@ == bit_members_upto(field, first.0 as int, count as int, i as int),
        decreases WINDOW - i,
    {
        if (field >> (i as u128)) & 1 == 1 {
            let member = ((first.0 as u64 + i as u64) % (count as u64)) as u32;
            members.push(ValidatorIndex(member));
        }
        i += 1;
    }
    members
}

} // verus!
