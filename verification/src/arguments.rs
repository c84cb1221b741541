//! Alignment of the local argument list with the argument vector that the
//! authority's initialization hands back.
//!
//! Every argument is known by its slot: the position it had when the process
//! started. The authority is shown an identity for each argument and answers
//! with the identities that stay, in the order it wants them. Those are
//! resolved to slots, and the list is reordered by slot: equal strings in
//! different slots are different arguments.

use crate::client::call_succeeded;
use std::collections::HashMap;
use vstd::prelude::*;

verus! {

broadcast use vstd::std_specs::hash::group_hash_axioms;

/// Division that rounds toward zero, for a positive divisor.
pub open spec fn truncating_quotient(n: int, d: int) -> int {
    if n >= 0 {
        n / d
    } else {
        -((-n) / d)
    }
}

/// An address read as a signed number, the way two's complement reads it.
pub open spec fn signed_address(a: usize) -> int {
    if a <= isize::MAX {
        a as int
    } else {
        a - usize::MAX - 1
    }
}

/// The number of whole elements of `elem_size` bytes by which address `a`
/// lies above address `b`, both read as signed numbers; negative where it
/// lies below.
pub open spec fn element_distance(a: usize, b: usize, elem_size: usize) -> int {
    truncating_quotient(signed_address(a) - signed_address(b), elem_size as int)
}

/// Whether the distance between two addresses can be counted: the element
/// has a size that a signed number holds, and so does the distance in bytes.
pub open spec fn distance_is_countable(a: usize, b: usize, elem_size: usize) -> bool {
    &&& 0 < elem_size <= isize::MAX
    &&& isize::MIN <= signed_address(a) - signed_address(b) <= isize::MAX
}

/// Reads an address as a signed number.
fn as_signed(a: usize) -> (signed: isize)
    ensures
        signed == signed_address(a),
{
    if a <= isize::MAX as usize {
        a as isize
    } else {
        -((usize::MAX - a) as isize) - 1
    }
}

/// The quotient of `n` by a positive `d`, rounded toward zero.
fn quotient_toward_zero(n: isize, d: isize) -> (q: isize)
    requires
        d > 0,
    ensures
        q == truncating_quotient(n as int, d as int),
{
    if n >= 0 {
        n / d
    } else {
        let magnitude: usize = if n == isize::MIN {
            isize::MAX as usize + 1
        } else {
            (-n) as usize
        };
        let q: usize = magnitude / (d as usize);
        if q > isize::MAX as usize {
            isize::MIN
        } else {
            -(q as isize)
        }
    }
}

/// The distance from `b` to `a`, counted in elements of `elem_size` bytes.
pub fn pointer_difference(a: usize, b: usize, elem_size: usize) -> (distance: isize)
    requires
        distance_is_countable(a, b, elem_size),
    ensures
        distance == element_distance(a, b, elem_size),
{
    let bytes: isize = as_signed(a) - as_signed(b);
    quotient_toward_zero(bytes, elem_size as isize)
}

/// The distance from `b` to `a`, counted in elements of `elem_size` bytes,
/// or `None` where it cannot be counted.
pub fn checked_pointer_difference(a: usize, b: usize, elem_size: usize) -> (distance: Option<
    isize,
>)
    ensures
        distance_is_countable(a, b, elem_size) ==> distance == Some(
            element_distance(a, b, elem_size) as isize,
        ),
        !distance_is_countable(a, b, elem_size) ==> distance is None,
{
    if elem_size == 0 || elem_size > isize::MAX as usize {
        return None;
    }
    let high = as_signed(a);
    let low = as_signed(b);
    if (low >= 0 && high < isize::MIN + low) || (low < 0 && high > isize::MAX + low) {
        return None;
    }
    Some(pointer_difference(a, b, elem_size))
}

/// `survivors` names slots of a list of `count` arguments, none of them twice.
pub open spec fn is_selection(survivors: Seq<usize>, count: nat) -> bool {
    &&& forall|j: int| 0 <= j < survivors.len() ==> (#[trigger] survivors[j]) < count
    &&& survivors.no_duplicates()
}

/// The arguments that stay, in the order the authority gave them.
pub open spec fn selected<Arg>(args: Seq<Arg>, survivors: Seq<usize>) -> Seq<Arg> {
    Seq::new(survivors.len(), |j: int| args[survivors[j] as int])
}

/// The position that the authority assigned to each surviving slot.
pub open spec fn assigned_positions(survivors: Seq<usize>) -> Map<usize, usize> {
    Map::new(
        |slot: usize| survivors.contains(slot),
        |slot: usize| survivors.index_of(slot) as usize,
    )
}

/// `std`'s `swap` on slices exchanges the elements at the two positions and
/// leaves the others alone; it panics when a position is out of bounds.
pub assume_specification<T>[ <[T]>::swap ](slice: &mut [T], a: usize, b: usize)
    requires
        a < old(slice)@.len(),
        b < old(slice)@.len(),
    ensures
        final(slice)@ == old(slice)@.update(a as int, old(slice)@[b as int]).update(
            b as int,
            old(slice)@[a as int],
        ),
;

/// Builds the table from surviving slot to assigned position.
fn position_table(survivors: &Vec<usize>) -> (table: HashMap<usize, usize>)
    requires
        survivors@.no_duplicates(),
    ensures
        table@ == assigned_positions(survivors@),
{
    let mut table: HashMap<usize, usize> = HashMap::new();
    let mut j: usize = 0;
    while j < survivors.len()
        invariant
            j <= survivors.len(),
            survivors@.no_duplicates(),
            table@ == assigned_positions(survivors@.take(j as int)),
        decreases survivors.len() - j,
    {
        let slot = survivors[j];
        table.insert(slot, j);
        proof {
            let before = survivors@.take(j as int);
            let after = survivors@.take(j + 1);
            assert(after == before.push(slot));
            assert(!before.contains(slot));
            assert forall|s: usize| after.contains(s) <==> (before.contains(s) || s == slot) by {
                if after.contains(s) {
                    let k = choose|k: int| 0 <= k < after.len() && after[k] == s;
                    if k < j {
                        assert(before[k] == s);
                    }
                }
                if before.contains(s) {
                    let k = choose|k: int| 0 <= k < before.len() && before[k] == s;
                    assert(after[k] == s);
                }
                if s == slot {
                    assert(after[j as int] == s);
                }
            }
            assert forall|s: usize| #[trigger] after.contains(s) implies after.index_of(s) == (if s
                == slot {
                j as int
            } else {
                before.index_of(s)
            }) by {
                let k = after.index_of(s);
                assert(0 <= k < after.len() && after[k] == s);
                assert(after.no_duplicates());
                if s == slot {
                    assert(after[j as int] == s);
                } else {
                    let kb = before.index_of(s);
                    assert(0 <= kb < before.len() && before[kb] == s);
                    assert(after[kb] == s);
                }
            }
            assert(table@ =~= assigned_positions(after));
        }
        j += 1;
    }
    assert(survivors@.take(j as int) == survivors@);
    table
}

/// How many of the first `upto` positions do not yet hold the slot assigned to
/// them.
spec fn misplaced(slots: Seq<usize>, survivors: Seq<usize>, upto: int) -> nat
    decreases upto,
{
    if upto <= 0 {
        0
    } else {
        let here: nat = if upto - 1 < slots.len() && slots[upto - 1] == survivors[upto - 1] {
            0
        } else {
            1
        };
        misplaced(slots, survivors, upto - 1) + here
    }
}

/// Putting the right slot at `target`, without displacing any slot that was
/// already in its place, lowers the count of misplaced positions.
proof fn lemma_placing_lowers_misplaced(
    before: Seq<usize>,
    after: Seq<usize>,
    survivors: Seq<usize>,
    target: int,
    upto: int,
)
    requires
        before.len() == after.len(),
        0 <= target < before.len(),
        0 <= upto <= survivors.len(),
        target < survivors.len(),
        before[target] != survivors[target],
        after[target] == survivors[target],
        forall|p: int|
            0 <= p < before.len() && p < survivors.len() && before[p] == survivors[p]
                ==> after[p] == survivors[p],
    ensures
        misplaced(after, survivors, upto) <= misplaced(before, survivors, upto),
        target < upto ==> misplaced(after, survivors, upto) < misplaced(before, survivors, upto),
    decreases upto,
{
    if upto > 0 {
        lemma_placing_lowers_misplaced(before, after, survivors, target, upto - 1);
    }
}

/// Distinct slots that all occur in a list of distinct slots are no more than
/// the list holds.
proof fn lemma_selection_fits(slots: Seq<usize>, survivors: Seq<usize>)
    requires
        slots.no_duplicates(),
        survivors.no_duplicates(),
        forall|j: int| 0 <= j < survivors.len() ==> slots.contains(#[trigger] survivors[j]),
    ensures
        survivors.len() <= slots.len(),
{
    slots.unique_seq_to_set();
    survivors.unique_seq_to_set();
    assert forall|s: usize| survivors.to_set().contains(s) implies slots.to_set().contains(s) by {
        let j = choose|j: int| 0 <= j < survivors.len() && survivors[j] == s;
        assert(slots.contains(survivors[j]));
    }
    vstd::set_lib::lemma_len_subset(survivors.to_set(), slots.to_set());
}

/// The slots `0, 1, .., count - 1`, each at its own position.
fn initial_slots(count: usize) -> (slots: Vec<usize>)
    ensures
        slots@.len() == count,
        forall|p: int| 0 <= p < count ==> slots@[p] == p,
{
    let mut slots: Vec<usize> = Vec::new();
    let mut p: usize = 0;
    while p < count
        invariant
            p <= count,
            slots@.len() == p,
            forall|q: int| 0 <= q < p ==> slots@[q] == q,
        decreases count - p,
    {
        slots.push(p);
        p += 1;
    }
    slots
}

/// Reorders and truncates `args` in place so that it holds exactly the
/// surviving arguments, each at the position the authority assigned to it.
///
/// The list is walked by position. An argument that survives is left where it
/// is when that is its assigned position, and is otherwise exchanged with the
/// argument standing there; one that does not survive is replaced by the last
/// argument, and the list shrinks by one.
pub fn reorder_arguments<Arg>(args: &mut Vec<Arg>, survivors: &Vec<usize>)
    requires
        is_selection(survivors@, old(args)@.len()),
    ensures
        final(args)@ == selected(old(args)@, survivors@),
{
    let ghost initial = args@;
    let table = position_table(survivors);
    let mut slots = initial_slots(args.len());
    let mut i: usize = 0;
    let mut end: usize = args.len();
    assert forall|j: int| 0 <= j < survivors@.len() implies slots@.contains(
        #[trigger] survivors@[j],
    ) by {
        assert(slots@[survivors@[j] as int] == survivors@[j]);
    }
    while i < end
        invariant
            i <= end,
            end == args@.len(),
            end == slots@.len(),
            is_selection(survivors@, initial.len()),
            table@ == assigned_positions(survivors@),
            slots@.no_duplicates(),
            forall|p: int|
                0 <= p < end ==> (#[trigger] slots@[p]) < initial.len() && args@[p]
                    == initial[slots@[p] as int],
            forall|j: int| 0 <= j < survivors@.len() ==> slots@.contains(#[trigger] survivors@[j]),
            i <= survivors@.len(),
            forall|p: int| 0 <= p < i ==> #[trigger] slots@[p] == survivors@[p],
        decreases end - i, misplaced(slots@, survivors@, survivors@.len() as int),
    {
        let slot = slots[i];
        let ghost slots_before = slots@;
        match table.get(&slot) {
            Some(position) => {
                let target = *position;
                proof {
                    assert(survivors@.contains(slot));
                    let k = survivors@.index_of(slot);
                    assert(0 <= k < survivors@.len() && survivors@[k] == slot);
                    assert(survivors@.len() == survivors.len());
                    assert(target == k);
                }
                if i == target {
                    i += 1;
                } else {
                    proof {
                        lemma_selection_fits(slots@, survivors@);
                    }
                    let displaced = slots[target];
                    args.as_mut_slice().swap(i, target);
                    slots.set(i, displaced);
                    slots.set(target, slot);
                    proof {
                        assert forall|j: int| 0 <= j < survivors@.len() implies slots@.contains(
                            #[trigger] survivors@[j],
                        ) by {
                            let q = choose|q: int|
                                0 <= q < slots_before.len() && slots_before[q] == survivors@[j];
                            if q == i {
                                assert(slots@[target as int] == survivors@[j]);
                            } else if q == target {
                                assert(slots@[i as int] == survivors@[j]);
                            } else {
                                assert(slots@[q] == survivors@[j]);
                            }
                        }
                        assert(target > i) by {
                            if target < i {
                                assert(slots_before[target as int] == survivors@[target as int]);
                            }
                        }
                        lemma_placing_lowers_misplaced(
                            slots_before,
                            slots@,
                            survivors@,
                            target as int,
                            survivors@.len() as int,
                        );
                    }
                }
            },
            None => {
                assert(!survivors@.contains(slot));
                args.swap_remove(i);
                slots.swap_remove(i);
                end -= 1;
                proof {
                    assert forall|j: int| 0 <= j < survivors@.len() implies slots@.contains(
                        #[trigger] survivors@[j],
                    ) by {
                        let q = choose|q: int|
                            0 <= q < slots_before.len() && slots_before[q] == survivors@[j];
                        assert(q != i);
                        if q == slots_before.len() - 1 {
                            assert(slots@[i as int] == survivors@[j]);
                        } else {
                            assert(slots@[q] == survivors@[j]);
                        }
                    }
                }
            },
        }
    }
    proof {
        lemma_selection_fits(slots@, survivors@);
        if end > 0 {
            assert(slots@[end - 1] == survivors@[end - 1]);
        }
        assert(end == survivors@.len());
        assert forall|p: int| 0 <= p < end implies args@[p] == initial[survivors@[p] as int] by {
            assert(slots@[p] == survivors@[p]);
        }
        assert(args@ =~= selected(initial, survivors@));
    }
}

/// Tells whether `survivors` is a selection from a list of `count`
/// arguments.
pub fn is_valid_selection(survivors: &Vec<usize>, count: usize) -> (valid: bool)
    ensures
        valid == is_selection(survivors@, count as nat),
{
    let mut taken: Vec<bool> = lowered_flags(count);
    let mut j: usize = 0;
    while j < survivors.len()
        invariant
            j <= survivors@.len(),
            taken@.len() == count,
            forall|i: int| 0 <= i < j ==> (#[trigger] survivors@[i]) < count,
            forall|i1: int, i2: int| 0 <= i1 < i2 < j ==> survivors@[i1] != survivors@[i2],
            forall|t: int|
                0 <= t < count ==> (#[trigger] taken@[t] <==> exists|i: int|
                    0 <= i < j && survivors@[i] == t),
        decreases survivors@.len() - j,
    {
        let slot = survivors[j];
        if slot >= count {
            return false;
        }
        if taken[slot] {
            proof {
                let i = choose|i: int| 0 <= i < j && survivors@[i] == slot;
                assert(survivors@[i] == survivors@[j as int]);
            }
            return false;
        }
        let ghost taken_before = taken@;
        taken.set(slot, true);
        proof {
            assert forall|t: int| 0 <= t < count implies (#[trigger] taken@[t] <==> exists|i: int|
                0 <= i < j + 1 && survivors@[i] == t) by {
                if t == slot {
                    assert(survivors@[j as int] == t);
                } else if taken_before[t] {
                    let i = choose|i: int| 0 <= i < j && survivors@[i] == t;
                    assert(0 <= i < j + 1 && survivors@[i] == t);
                } else if exists|i: int| 0 <= i < j + 1 && survivors@[i] == t {
                    let i = choose|i: int| 0 <= i < j + 1 && survivors@[i] == t;
                    assert(i < j);
                }
            }
            assert forall|i1: int, i2: int| 0 <= i1 < i2 < j + 1 implies survivors@[i1]
                != survivors@[i2] by {
                if i2 == j && survivors@[i1] == survivors@[i2] {
                    assert(taken_before[slot as int]);
                }
            }
        }
        j += 1;
    }
    true
}

/// Whether the authority left a window of `argc` entries, `shifted` entries
/// into a vector of `len`, that lies inside the vector.
pub open spec fn window_in_bounds(len: nat, shifted: isize, argc: i32) -> bool {
    0 <= shifted && 0 <= argc && shifted + argc <= len
}

/// The entries of the returned vector that are still in use.
pub open spec fn window(argv: Seq<usize>, shifted: isize, argc: i32) -> Seq<usize> {
    argv.subrange(shifted as int, shifted + argc)
}

/// Exactly one argument has the identity `address`.
pub open spec fn names_one_slot(identities: Seq<usize>, address: usize) -> bool {
    &&& identities.contains(address)
    &&& forall|s: int, t: int|
        0 <= s < identities.len() && 0 <= t < identities.len() && identities[s] == address
            && identities[t] == address ==> s == t
}

/// Every address names one argument, and none of them comes twice.
pub open spec fn resolvable(identities: Seq<usize>, addresses: Seq<usize>) -> bool {
    &&& addresses.no_duplicates()
    &&& forall|j: int|
        0 <= j < addresses.len() ==> names_one_slot(identities, #[trigger] addresses[j])
}

/// The slot of the argument that each address names.
pub open spec fn resolved(identities: Seq<usize>, addresses: Seq<usize>) -> Seq<usize> {
    Seq::new(addresses.len(), |j: int| identities.index_of(addresses[j]) as usize)
}

/// A vector of `count` flags, all of them down.
fn lowered_flags(count: usize) -> (flags: Vec<bool>)
    ensures
        flags@.len() == count,
        forall|p: int| 0 <= p < count ==> !flags@[p],
{
    let mut flags: Vec<bool> = Vec::new();
    let mut p: usize = 0;
    while p < count
        invariant
            p <= count,
            flags@.len() == p,
            forall|q: int| 0 <= q < p ==> !flags@[q],
        decreases count - p,
    {
        flags.push(false);
        p += 1;
    }
    flags
}

/// Finds, for each entry of the window that the authority left in `argv`,
/// the slot of the argument with that identity.
///
/// `identities` holds the identity of each argument, by slot. The answer is
/// `None` where the window reaches outside `argv`, where an entry is the
/// identity of no argument or of several, or where an entry comes twice.
pub fn surviving_slots(
    identities: &Vec<usize>,
    argv: &Vec<usize>,
    shifted: isize,
    argc: i32,
) -> (slots: Option<Vec<usize>>)
    ensures
        match slots {
            Some(slots) => {
                &&& window_in_bounds(argv@.len(), shifted, argc)
                &&& resolvable(identities@, window(argv@, shifted, argc))
                &&& slots@ == resolved(identities@, window(argv@, shifted, argc))
            },
            None => !(window_in_bounds(argv@.len(), shifted, argc) && resolvable(
                identities@,
                window(argv@, shifted, argc),
            )),
        },
{
    if shifted < 0 || argc < 0 {
        return None;
    }
    let start: usize = shifted as usize;
    let count: usize = argc as usize;
    if start > argv.len() || count > argv.len() - start {
        return None;
    }
    let ghost entries = window(argv@, shifted, argc);
    let total: usize = identities.len();

    // For each identity the last slot that has it, and for each slot whether
    // an earlier one has the same identity.
    let mut table: HashMap<usize, usize> = HashMap::new();
    let mut repeats: Vec<bool> = Vec::new();
    let mut k: usize = 0;
    while k < total
        invariant
            k <= total,
            total == identities@.len(),
            repeats@.len() == k,
            forall|address: usize| #[trigger]
                table@.contains_key(address) <==> exists|s: int|
                    0 <= s < k && identities@[s] == address,
            forall|address: usize| #[trigger]
                table@.contains_key(address) ==> {
                    let t = table@[address];
                    &&& t < k
                    &&& identities@[t as int] == address
                    &&& forall|u: int| t < u < k ==> identities@[u] != address
                },
            forall|t: int|
                0 <= t < k ==> (#[trigger] repeats@[t] <==> exists|s: int|
                    0 <= s < t && identities@[s] == identities@[t]),
        decreases total - k,
    {
        let address = identities[k];
        let ghost before = table@;
        let seen = table.insert(address, k).is_some();
        repeats.push(seen);
        proof {
            assert(seen == before.contains_key(address));
            assert forall|a: usize| #[trigger]
                table@.contains_key(a) <==> exists|s: int|
                    0 <= s < k + 1 && identities@[s] == a by {
                if a == address {
                    assert(identities@[k as int] == a);
                } else if before.contains_key(a) {
                    let s = choose|s: int| 0 <= s < k && identities@[s] == a;
                    assert(0 <= s < k + 1 && identities@[s] == a);
                } else if exists|s: int| 0 <= s < k + 1 && identities@[s] == a {
                    let s = choose|s: int| 0 <= s < k + 1 && identities@[s] == a;
                    assert(s < k);
                }
            }
        }
        k += 1;
    }

    let mut claimed: Vec<bool> = lowered_flags(total);
    let mut slots: Vec<usize> = Vec::new();
    let mut j: usize = 0;
    while j < count
        invariant
            j <= count,
            total == identities@.len(),
            start + count <= argv@.len(),
            start == shifted,
            count == argc,
            entries == window(argv@, shifted, argc),
            entries.len() == count,
            repeats@.len() == total,
            claimed@.len() == total,
            slots@.len() == j,
            forall|address: usize| #[trigger]
                table@.contains_key(address) <==> identities@.contains(address),
            forall|address: usize| #[trigger]
                table@.contains_key(address) ==> {
                    let t = table@[address];
                    &&& t < total
                    &&& identities@[t as int] == address
                    &&& forall|u: int| t < u < total ==> identities@[u] != address
                },
            forall|t: int|
                0 <= t < total ==> (#[trigger] repeats@[t] <==> exists|s: int|
                    0 <= s < t && identities@[s] == identities@[t]),
            forall|t: int|
                0 <= t < total ==> (#[trigger] claimed@[t] <==> exists|i: int|
                    0 <= i < j && slots@[i] == t),
            forall|i: int|
                0 <= i < j ==> {
                    &&& (#[trigger] slots@[i]) < total
                    &&& identities@[slots@[i] as int] == entries[i]
                    &&& names_one_slot(identities@, entries[i])
                },
            forall|i1: int, i2: int| 0 <= i1 < i2 < j ==> entries[i1] != entries[i2],
        decreases count - j,
    {
        let address = argv[start + j];
        assert(address == entries[j as int]);
        let slot = match table.get(&address) {
            Some(slot) => *slot,
            None => {
                assert(!names_one_slot(identities@, entries[j as int]));
                return None;
            },
        };
        if repeats[slot] {
            proof {
                let s = choose|s: int| 0 <= s < slot && identities@[s] == identities@[slot as int];
                assert(identities@[s] == address && identities@[slot as int] == address);
                assert(!names_one_slot(identities@, entries[j as int]));
            }
            return None;
        }
        if claimed[slot] {
            proof {
                let i = choose|i: int| 0 <= i < j && slots@[i] == slot;
                assert(entries[i] == entries[j as int]);
                assert(!entries.no_duplicates());
            }
            return None;
        }
        proof {
            assert(identities@.contains(address));
            assert forall|s: int, t: int|
                0 <= s < total && 0 <= t < total && identities@[s] == address && identities@[t]
                    == address implies s == t by {
                if s < slot {
                    assert(identities@[s] == identities@[slot as int]);
                }
                if t < slot {
                    assert(identities@[t] == identities@[slot as int]);
                }
            }
            assert(names_one_slot(identities@, address));
        }
        let ghost claimed_before = claimed@;
        let ghost slots_before = slots@;
        claimed.set(slot, true);
        slots.push(slot);
        proof {
            assert forall|t: int| 0 <= t < total implies (#[trigger] claimed@[t] <==> exists|i: int|
                0 <= i < j + 1 && slots@[i] == t) by {
                if t == slot {
                    assert(slots@[j as int] == t);
                } else if claimed_before[t] {
                    let i = choose|i: int| 0 <= i < j && slots_before[i] == t;
                    assert(slots@[i] == t);
                } else if exists|i: int| 0 <= i < j + 1 && slots@[i] == t {
                    let i = choose|i: int| 0 <= i < j + 1 && slots@[i] == t;
                    assert(i < j);
                    assert(slots_before[i] == t);
                }
            }
            assert forall|i1: int, i2: int| 0 <= i1 < i2 < j + 1 implies entries[i1]
                != entries[i2] by {
                if i2 == j && entries[i1] == entries[i2] {
                    assert(slots_before[i1] == slot);
                    assert(claimed_before[slot as int]);
                }
            }
        }
        j += 1;
    }
    proof {
        assert(entries.no_duplicates());
        assert forall|i: int| 0 <= i < entries.len() implies names_one_slot(
            identities@,
            #[trigger] entries[i],
        ) by {
            assert(slots@[i] < total);
        }
        assert forall|i: int| 0 <= i < entries.len() implies slots@[i] == identities@.index_of(
            entries[i],
        ) as usize by {
            assert(slots@[i] < total);
            let s = identities@.index_of(entries[i]);
            assert(identities@.contains(entries[i]));
            assert(0 <= s < total && identities@[s] == entries[i]);
        }
        assert(slots@ =~= resolved(identities@, entries));
    }
    Some(slots)
}

/// The slots that a resolvable window names form a selection.
pub proof fn lemma_resolved_is_selection(identities: Seq<usize>, addresses: Seq<usize>)
    requires
        resolvable(identities, addresses),
        identities.len() <= usize::MAX,
    ensures
        is_selection(resolved(identities, addresses), identities.len()),
        forall|j: int|
            0 <= j < addresses.len() ==> identities[(#[trigger] resolved(
                identities,
                addresses,
            )[j]) as int] == addresses[j],
{
    let slots = resolved(identities, addresses);
    assert forall|j: int| 0 <= j < slots.len() implies (#[trigger] slots[j]) < identities.len()
        && identities[slots[j] as int] == addresses[j] by {
        assert(names_one_slot(identities, addresses[j]));
        let s = identities.index_of(addresses[j]);
        assert(0 <= s < identities.len() && identities[s] == addresses[j]);
    }
    assert forall|i: int, j: int| 0 <= i < slots.len() && 0 <= j < slots.len() && i != j implies slots[i]
        != slots[j] by {
        assert(identities[slots[i] as int] == addresses[i]);
        assert(identities[slots[j] as int] == addresses[j]);
    }
}

/// What the authority's initialization handed back: its status, and the
/// argument vector as it left it. `argv` holds the identities in their new
/// order, and the `argc` entries from position `shifted` on are still in use.
#[derive(Clone, Debug, PartialEq, Eq)]
pub struct InitializeReply {
    pub status: i32,
    pub argc: i32,
    pub shifted: isize,
    pub argv: Vec<usize>,
}

impl InitializeReply {
    /// The identities that are still in use, in their new order.
    pub open spec fn survivors(&self) -> Seq<usize> {
        window(self.argv@, self.shifted, self.argc)
    }

    /// Whether the reply can be applied to arguments with these identities.
    pub open spec fn applies_to(&self, identities: Seq<usize>, count: nat) -> bool {
        &&& identities.len() == count
        &&& window_in_bounds(self.argv@.len(), self.shifted, self.argc)
        &&& resolvable(identities, self.survivors())
    }
}

/// Brings `args` in line with the authority's view of them and reports
/// whether the authority's initialization succeeded.
///
/// `identities` holds the identity under which each argument was shown to
/// the authority. Where the reply cannot be applied the answer is `None` and
/// `args` stays as it is. Otherwise `args` ends up holding the arguments
/// that the reply names, in the reply's order, and the answer tells whether
/// the status was other than zero.
pub fn initialize_app<Arg>(
    args: &mut Vec<Arg>,
    identities: &Vec<usize>,
    reply: &InitializeReply,
) -> (outcome: Option<bool>)
    ensures
        match outcome {
            Some(succeeded) => {
                &&& reply.applies_to(identities@, old(args)@.len())
                &&& final(args)@ == selected(
                    old(args)@,
                    resolved(identities@, reply.survivors()),
                )
                &&& succeeded == (reply.status != 0)
            },
            None => {
                &&& !reply.applies_to(identities@, old(args)@.len())
                &&& final(args)@ == old(args)@
            },
        },
{
    if identities.len() != args.len() {
        return None;
    }
    match surviving_slots(identities, &reply.argv, reply.shifted, reply.argc) {
        Some(slots) => {
            proof {
                lemma_resolved_is_selection(identities@, reply.survivors());
            }
            reorder_arguments(args, &slots);
            Some(call_succeeded(reply.status))
        },
        None => None,
    }
}

/// Keeping every slot where it is keeps the argument list as it is.
pub proof fn lemma_identity_selection_keeps_arguments<Arg>(args: Seq<Arg>, survivors: Seq<usize>)
    requires
        survivors.len() == args.len(),
        forall|j: int| 0 <= j < survivors.len() ==> survivors[j] == j,
    ensures
        is_selection(survivors, args.len()),
        selected(args, survivors) == args,
{
    assert(selected(args, survivors) =~= args);
}

/// A reply that hands the argument vector back untouched leaves the
/// argument list unchanged, provided that no two arguments share an
/// identity.
pub proof fn lemma_untouched_reply_keeps_arguments<Arg>(
    args: Seq<Arg>,
    identities: Seq<usize>,
    reply: InitializeReply,
)
    requires
        identities.len() == args.len(),
        identities.no_duplicates(),
        reply.argv@ == identities,
        reply.shifted == 0,
        reply.argc == identities.len(),
    ensures
        reply.applies_to(identities, args.len()),
        selected(args, resolved(identities, reply.survivors())) == args,
{
    assert(reply.survivors() =~= identities);
    assert forall|j: int| 0 <= j < identities.len() implies names_one_slot(
        identities,
        #[trigger] identities[j],
    ) by {}
    let slots = resolved(identities, identities);
    assert forall|j: int| 0 <= j < slots.len() implies slots[j] == j by {
        assert(identities.contains(identities[j]));
        let s = identities.index_of(identities[j]);
        assert(0 <= s < identities.len() && identities[s] == identities[j]);
    }
    assert(selected(args, slots) =~= args);
}

} // verus!
