//! Putting things in order by a number, without moving them: the order is a
//! list of their places.

use vstd::prelude::*;

verus! {

/// The thing at `a` comes before the thing at `b`: its key is smaller, or
/// the keys are equal and it stood first.
pub open spec fn comes_before(keys: Seq<u128>, a: int, b: int) -> bool {
    keys[a] < keys[b] || (keys[a] == keys[b] && a < b)
}

/// `order` lists every place of `keys` once, smallest key first, equal keys
/// in the order in which they stood.
pub open spec fn is_ascending(keys: Seq<u128>, order: Seq<usize>) -> bool {
    &&& order.len() == keys.len()
    &&& forall|i: int| 0 <= i < order.len() ==> (#[trigger] order[i]) < keys.len()
    &&& forall|i: int, j: int|
        0 <= i < j < order.len() ==> comes_before(keys, order[i] as int, order[j] as int)
}

/// The places below `n` are listed in `order`, smallest key first.
pub open spec fn sorted_upto(keys: Seq<u128>, order: Seq<usize>, n: int) -> bool {
    &&& order.len() == n
    &&& forall|i: int| 0 <= i < order.len() ==> (#[trigger] order[i]) < n
    &&& forall|i: int, j: int|
        0 <= i < j < order.len() ==> comes_before(keys, order[i] as int, order[j] as int)
}

/// The order of the places by their keys, smallest first; places with equal
/// keys keep the order in which they stood.
pub fn ascending(keys: &Vec<u128>) -> (order: Vec<usize>)
    ensures
        is_ascending(keys@, order@),
{
    let mut order: Vec<usize> = Vec::new();
    let mut n: usize = 0;
    while n < keys.len()
        invariant
            n <= keys.len(),
            sorted_upto(keys@, order@, n as int),
        decreases keys.len() - n,
    {
        let mut at: usize = order.len();
        while at > 0 && keys[order[at - 1]] > keys[n]
            invariant
                at <= order.len(),
                n < keys.len(),
                sorted_upto(keys@, order@, n as int),
                forall|k: int| at <= k < order.len() ==> keys@[order@[k] as int] > keys@[n as int],
            decreases at,
        {
            at = at - 1;
        }
        let ghost before = order@;
        order.insert(at, n);
        proof {
            let after = order@;
            assert(after.len() == n + 1);
            assert forall|i: int| 0 <= i < after.len() implies (#[trigger] after[i]) < n + 1 by {
                if i < at {
                    assert(after[i] == before[i]);
                } else if i > at {
                    assert(after[i] == before[i - 1]);
                }
            }
            assert forall|i: int, j: int| 0 <= i < j < after.len() implies comes_before(
                keys@,
                after[i] as int,
                after[j] as int,
            ) by {
                if j < at {
                    assert(after[i] == before[i] && after[j] == before[j]);
                } else if j == at {
                    assert(after[i] == before[i]);
                    assert(before[i] < n);
                    if i == at - 1 {
                    } else {
                        assert(comes_before(keys@, before[i] as int, before[at - 1] as int));
                    }
                } else if i < at {
                    assert(after[i] == before[i] && after[j] == before[j - 1]);
                } else if i == at {
                    assert(after[j] == before[j - 1]);
                } else {
                    assert(after[i] == before[i - 1] && after[j] == before[j - 1]);
                }
            }
        }
        n = n + 1;
    }
    order
}


/// The largest key.
pub const TOP: u128 = 0xFFFF_FFFF_FFFF_FFFF_FFFF_FFFF_FFFF_FFFF;

/// `order` lists every place of `keys` once, largest key first, equal keys
/// in the order in which they stood.
pub open spec fn is_descending(keys: Seq<u128>, order: Seq<usize>) -> bool {
    &&& order.len() == keys.len()
    &&& forall|i: int| 0 <= i < order.len() ==> (#[trigger] order[i]) < keys.len()
    &&& forall|i: int, j: int|
        0 <= i < j < order.len() ==> keys[order[i] as int] > keys[order[j] as int] || (
        keys[order[i] as int] == keys[order[j] as int] && order[i] < order[j])
}

/// The order of the places by their keys, largest first; places with equal
/// keys keep the order in which they stood.
pub fn descending(keys: &Vec<u128>) -> (order: Vec<usize>)
    ensures
        is_descending(keys@, order@),
{
    let mut turned: Vec<u128> = Vec::new();
    let mut i: usize = 0;
    while i < keys.len()
        invariant
            i <= keys.len(),
            turned@.len() == i,
            forall|k: int| 0 <= k < i ==> turned@[k] == TOP - keys@[k],
        decreases keys.len() - i,
    {
        turned.push(TOP - keys[i]);
        i = i + 1;
    }
    let order = ascending(&turned);
    assert forall|a: int, b: int| 0 <= a < b < order@.len() implies keys@[order@[a] as int]
        > keys@[order@[b] as int] || (keys@[order@[a] as int] == keys@[order@[b] as int]
        && order@[a] < order@[b]) by {
        assert(comes_before(turned@, order@[a] as int, order@[b] as int));
    }
    order
}

} // verus!
