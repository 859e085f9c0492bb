//! Lists of values, one for each bin.

use vstd::prelude::*;

use crate::single::{single, Single, ZERO};

verus! {

/// The values, cut off or continued with `fill` to the given length.
pub open spec fn resized(values: Seq<Single>, len: nat, fill: Single) -> Seq<Single> {
    Seq::new(
        len,
        |i: int|
            if i < values.len() {
                values[i]
            } else {
                fill
            },
    )
}

/// Cuts off the values or continues them with `fill`.
pub fn resize_values(values: &mut Vec<Single>, len: usize, fill: Single)
    ensures
        final(values)@ == resized(old(values)@, len as nat, fill),
{
    values.resize(len, fill);
    assert(values@ =~= resized(old(values)@, len as nat, fill));
}

/// Zeros.
pub open spec fn zeros(len: nat) -> Seq<Single> {
    Seq::new(len, |i: int| single(ZERO))
}

/// Sets all values to zero.
pub fn clear_values(values: &mut Vec<Single>)
    ensures
        final(values)@ == zeros(old(values)@.len()),
{
    let mut index: usize = 0;
    while index < values.len()
        invariant
            index <= values@.len(),
            values@.len() == old(values)@.len(),
            forall|i: int| 0 <= i < index ==> values@[i] == single(ZERO),
        decreases values.len() - index,
    {
        values[index] = single(ZERO);
        index += 1;
    }
    assert(values@ =~= zeros(old(values)@.len()));
}

/// All lists have the given length.
pub open spec fn all_have_len(lists: Seq<Vec<Single>>, len: nat) -> bool {
    forall|i: int| 0 <= i < lists.len() ==> (#[trigger] lists[i])@.len() == len
}

/// `after` are the lists `before`, each of them resized.
pub open spec fn are_resized(
    before: Seq<Vec<Single>>,
    len: nat,
    fill: Single,
    after: Seq<Vec<Single>>,
) -> bool {
    &&& after.len() == before.len()
    &&& forall|i: int|
        0 <= i < after.len() ==> (#[trigger] after[i])@ == resized(before[i]@, len, fill)
}

/// Resizes each of the lists.
pub fn resize_lists(lists: &mut Vec<Vec<Single>>, len: usize, fill: Single)
    ensures
        are_resized(old(lists)@, len as nat, fill, final(lists)@),
{
    let mut index: usize = 0;
    while index < lists.len()
        invariant
            index <= lists@.len(),
            lists@.len() == old(lists)@.len(),
            forall|i: int|
                0 <= i < index ==> (#[trigger] lists@[i])@ == resized(
                    old(lists)@[i]@,
                    len as nat,
                    fill,
                ),
            forall|i: int| index <= i < lists@.len() ==> #[trigger] lists@[i] == old(lists)@[i],
        decreases lists.len() - index,
    {
        resize_values(&mut lists[index], len, fill);
        index += 1;
    }
}

/// `after` are the lists `before`, with all of their values set to zero.
pub open spec fn are_cleared(before: Seq<Vec<Single>>, after: Seq<Vec<Single>>) -> bool {
    &&& after.len() == before.len()
    &&& forall|i: int| 0 <= i < after.len() ==> (#[trigger] after[i])@ == zeros(before[i]@.len())
}

/// Sets all values of all lists to zero.
pub fn clear_lists(lists: &mut Vec<Vec<Single>>)
    ensures
        are_cleared(old(lists)@, final(lists)@),
{
    let mut index: usize = 0;
    while index < lists.len()
        invariant
            index <= lists@.len(),
            lists@.len() == old(lists)@.len(),
            forall|i: int|
                0 <= i < index ==> (#[trigger] lists@[i])@ == zeros(old(lists)@[i]@.len()),
            forall|i: int| index <= i < lists@.len() ==> #[trigger] lists@[i] == old(lists)@[i],
        decreases lists.len() - index,
    {
        clear_values(&mut lists[index]);
        index += 1;
    }
}

/// `after` are the lists `before`, cut off or continued with empty lists.
pub open spec fn is_recounted(
    before: Seq<Vec<Single>>,
    count: nat,
    after: Seq<Vec<Single>>,
) -> bool {
    &&& after.len() == count
    &&& forall|i: int|
        0 <= i < after.len() ==> (#[trigger] after[i])@ == if i < before.len() {
            before[i]@
        } else {
            Seq::empty()
        }
}

/// Changes how many lists there are, and reserves space in each of them.
pub fn recount_lists(lists: &mut Vec<Vec<Single>>, count: usize, capacity: usize)
    ensures
        is_recounted(old(lists)@, count as nat, final(lists)@),
{
    if lists.len() > count {
        lists.truncate(count);
    }
    while lists.len() < count
        invariant
            lists@.len() <= count,
            lists@.len() == count || old(lists)@.len() <= lists@.len(),
            forall|i: int|
                0 <= i < lists@.len() ==> (#[trigger] lists@[i])@ == if i < old(lists)@.len() {
                    old(lists)@[i]@
                } else {
                    Seq::empty()
                },
        decreases count - lists.len(),
    {
        lists.push(Vec::new());
    }
    let mut index: usize = 0;
    while index < count
        invariant
            lists@.len() == count,
            index <= count,
            forall|i: int|
                0 <= i < lists@.len() ==> (#[trigger] lists@[i])@ == if i < old(lists)@.len() {
                    old(lists)@[i]@
                } else {
                    Seq::empty()
                },
        decreases count - index,
    {
        reserve_values(&mut lists[index], capacity);
        index += 1;
    }
}

/// The list was made with space for the given number of values. How much it then has is up to the
/// allocator.
pub open spec fn is_made_for(capacity: usize, list: Vec<Single>) -> bool {
    call_ensures(Vec::<Single>::with_capacity, (capacity,), list)
}

/// Space for the given number of values beyond the present ones was asked for. How much the list
/// then has is up to the allocator.
#[verifier::inline]
pub open spec fn has_asked_for(list: &mut Vec<Single>, additional: int) -> bool {
    call_ensures(Vec::<Single>::reserve, (list, additional as usize), ())
}

/// Reserves space for as many values as given in all: nothing is asked for where there are as many.
pub fn reserve_values(values: &mut Vec<Single>, capacity: usize)
    ensures
        final(values)@ == old(values)@,
        old(values)@.len() < capacity ==> exists|list: &mut Vec<Single>| #[trigger]
            has_asked_for(list, capacity - old(values)@.len()) && *list == *old(values)
                && *final(list) == *final(values),
        old(values)@.len() >= capacity ==> *final(values) == *old(values),
{
    if values.len() < capacity {
        values.reserve(capacity - values.len());
    }
}

/// Space was reserved in the list with [`reserve_values`].
#[verifier::inline]
pub open spec fn has_reserved(list: &mut Vec<Single>, capacity: usize) -> bool {
    call_ensures(reserve_values, (list, capacity), ())
}

/// Whether all flags are set.
pub fn all_set(flags: &Vec<bool>) -> (r: bool)
    ensures
        r == (forall|i: int| 0 <= i < flags@.len() ==> flags@[i]),
{
    let mut index: usize = 0;
    while index < flags.len()
        invariant
            index <= flags@.len(),
            forall|i: int| 0 <= i < index ==> flags@[i],
        decreases flags.len() - index,
    {
        if !flags[index] {
            return false;
        }
        index += 1;
    }
    true
}

/// Whether any flag is set.
pub fn any_set(flags: &Vec<bool>) -> (r: bool)
    ensures
        r == (exists|i: int| 0 <= i < flags@.len() && flags@[i]),
{
    let mut index: usize = 0;
    while index < flags.len()
        invariant
            index <= flags@.len(),
            forall|i: int| 0 <= i < index ==> !flags@[i],
        decreases flags.len() - index,
    {
        if flags[index] {
            return true;
        }
        index += 1;
    }
    false
}

/// Lowers all flags.
pub fn lower_all(flags: &mut Vec<bool>)
    ensures
        final(flags)@ == Seq::new(old(flags)@.len(), |i: int| false),
{
    let mut index: usize = 0;
    while index < flags.len()
        invariant
            index <= flags@.len(),
            flags@.len() == old(flags)@.len(),
            forall|i: int| 0 <= i < index ==> !flags@[i],
        decreases flags.len() - index,
    {
        flags[index] = false;
        index += 1;
    }
    assert(flags@ =~= Seq::new(old(flags)@.len(), |i: int| false));
}

} // verus!
