//! Priority queues: the ordering of priority classes by their priority level.
//!
//! A class is known here by its priority level (lower number = higher
//! priority); the rates that come with it stay with the caller, who finds
//! them again by the class's index.

use vstd::prelude::*;

verus! {

/// Class `a` is served ahead of class `b`: a strictly smaller priority level,
/// or the same level and an earlier position in the list of classes.
pub open spec fn precedes(priorities: Seq<usize>, a: usize, b: usize) -> bool {
    ||| priorities[a as int] < priorities[b as int]
    ||| (priorities[a as int] == priorities[b as int] && a < b)
}

/// `order` lists every class index `0..n` exactly once.
pub open spec fn is_index_permutation(order: Seq<usize>, n: nat) -> bool {
    &&& order.len() == n
    &&& forall|i: int| 0 <= i < n ==> #[trigger] order[i] < n
    &&& forall|i: int, j: int| 0 <= i < j < n ==> order[i] != order[j]
}

/// The classes in `order` come by ascending priority level, and classes of the
/// same level keep the order in which they were given (a stable sort).
pub open spec fn is_stably_sorted(priorities: Seq<usize>, order: Seq<usize>) -> bool {
    forall|i: int, j: int|
        0 <= i < j < order.len() ==> precedes(priorities, #[trigger] order[i], #[trigger] order[j])
}

/// The stable ordering of the classes by priority level: the indices of
/// `priorities`, highest priority (lowest level) first, ties in their given order.
pub fn priority_order(priorities: &Vec<usize>) -> (order: Vec<usize>)
    ensures
        is_index_permutation(order@, priorities@.len()),
        is_stably_sorted(priorities@, order@),
{
    let n = priorities.len();
    let mut order: Vec<usize> = Vec::new();
    let mut i: usize = 0;
    while i < n
        invariant
            i <= n,
            n == priorities@.len(),
            is_index_permutation(order@, i as nat),
            is_stably_sorted(priorities@, order@),
        decreases n - i,
    {
        let p = priorities[i];
        let mut k: usize = 0;
        while k < order.len() && priorities[order[k]] <= p
            invariant
                k <= order@.len(),
                order@.len() == i,
                i < n,
                n == priorities@.len(),
                p == priorities@[i as int],
                is_index_permutation(order@, i as nat),
                forall|m: int| 0 <= m < k ==> priorities@[#[trigger] order@[m] as int] <= p,
            decreases order@.len() - k,
        {
            k = k + 1;
        }
        let ghost old_order = order@;
        proof {
            // Every class after position k has a level above p.
            assert forall|m: int| k <= m < old_order.len() implies priorities@[
                #[trigger] old_order[m] as int] > p by {
                if m > k {
                    assert(precedes(priorities@, old_order[k as int], old_order[m]));
                }
            }
        }
        order.insert(k, i);
        proof {
            let new_order = order@;
            assert(new_order.len() == i + 1);
            assert forall|a: int| 0 <= a < i + 1 implies #[trigger] new_order[a] < i + 1 by {
                if a < k {
                    assert(new_order[a] == old_order[a]);
                } else if a > k {
                    assert(new_order[a] == old_order[a - 1]);
                }
            }
            assert forall|a: int, b: int| 0 <= a < b < i + 1 implies new_order[a]
                != new_order[b] by {
                if a < k && b < k {
                    assert(new_order[a] == old_order[a] && new_order[b] == old_order[b]);
                } else if a < k && b == k {
                    assert(new_order[a] == old_order[a]);
                } else if a < k && b > k {
                    assert(new_order[a] == old_order[a] && new_order[b] == old_order[b - 1]);
                } else if a == k {
                    assert(new_order[b] == old_order[b - 1]);
                } else {
                    assert(new_order[a] == old_order[a - 1] && new_order[b] == old_order[b - 1]);
                }
            }
            assert forall|a: int, b: int| 0 <= a < b < new_order.len() implies precedes(
                priorities@,
                #[trigger] new_order[a],
                #[trigger] new_order[b],
            ) by {
                if a < k && b < k {
                    assert(new_order[a] == old_order[a] && new_order[b] == old_order[b]);
                    assert(precedes(priorities@, old_order[a], old_order[b]));
                } else if a < k && b == k {
                    assert(new_order[a] == old_order[a]);
                    assert(priorities@[old_order[a] as int] <= p);
                    assert(old_order[a] < i);
                } else if a < k && b > k {
                    assert(new_order[a] == old_order[a] && new_order[b] == old_order[b - 1]);
                    assert(precedes(priorities@, old_order[a], old_order[b - 1]));
                } else if a == k {
                    assert(new_order[b] == old_order[b - 1]);
                    assert(priorities@[old_order[b - 1] as int] > p);
                } else {
                    assert(new_order[a] == old_order[a - 1] && new_order[b] == old_order[b - 1]);
                    assert(precedes(priorities@, old_order[a - 1], old_order[b - 1]));
                }
            }
        }
        i = i + 1;
    }
    order
}

/// The first class of the given priority level, if any class has it.
pub fn find_priority(priorities: &Vec<usize>, level: usize) -> (found: Option<usize>)
    ensures
        match found {
            Some(i) => {
                &&& i < priorities@.len()
                &&& priorities@[i as int] == level
                &&& forall|j: int| 0 <= j < i ==> priorities@[j] != level
            },
            None => forall|j: int| 0 <= j < priorities@.len() ==> priorities@[j] != level,
        },
{
    let mut i: usize = 0;
    while i < priorities.len()
        invariant
            i <= priorities@.len(),
            forall|j: int| 0 <= j < i ==> priorities@[j] != level,
        decreases priorities@.len() - i,
    {
        if priorities[i] == level {
            return Some(i);
        }
        i = i + 1;
    }
    None
}

/// The classes whose priority level is at most `level` (those served at least
/// as urgently as that level), by ascending index.
pub fn classes_up_to(priorities: &Vec<usize>, level: usize) -> (chosen: Vec<usize>)
    ensures
        forall|a: int, b: int| 0 <= a < b < chosen@.len() ==> chosen@[a] < chosen@[b],
        forall|a: int|
            0 <= a < chosen@.len() ==> #[trigger] chosen@[a] < priorities@.len()
                && priorities@[chosen@[a] as int] <= level,
        forall|j: int|
            0 <= j < priorities@.len() && priorities@[j] <= level ==> chosen@.contains(
                j as usize,
            ),
{
    let mut chosen: Vec<usize> = Vec::new();
    let mut i: usize = 0;
    while i < priorities.len()
        invariant
            i <= priorities@.len(),
            forall|a: int, b: int| 0 <= a < b < chosen@.len() ==> chosen@[a] < chosen@[b],
            forall|a: int|
                0 <= a < chosen@.len() ==> #[trigger] chosen@[a] < i && priorities@[chosen@[
                    a
                ] as int] <= level,
            forall|j: int| 0 <= j < i && priorities@[j] <= level ==> chosen@.contains(j as usize),
        decreases priorities@.len() - i,
    {
        if priorities[i] <= level {
            let ghost before = chosen@;
            chosen.push(i);
            proof {
                assert forall|j: int| 0 <= j < i + 1 && priorities@[j] <= level implies chosen@.contains(
                    j as usize,
                ) by {
                    if j < i {
                        let w = choose|w: int| 0 <= w < before.len() && before[w] == j as usize;
                        assert(chosen@[w] == j as usize);
                    } else {
                        assert(chosen@[before.len() as int] == i);
                    }
                }
            }
        }
        i = i + 1;
    }
    chosen
}

/// Every class index below `n` occurs somewhere in an index permutation.
proof fn lemma_permutation_covers(order: Seq<usize>, n: nat, x: usize)
    requires
        is_index_permutation(order, n),
        x < n,
    ensures
        exists|i: int| 0 <= i < n && order[i] == x,
{
    let as_int = order.map_values(|v: usize| v as int);
    assert(as_int.no_duplicates()) by {
        assert forall|i: int, j: int| 0 <= i < as_int.len() && 0 <= j < as_int.len() && i != j
            implies as_int[i] != as_int[j] by {
            if i < j {
                assert(order[i] != order[j]);
            } else {
                assert(order[j] != order[i]);
            }
        }
    }
    as_int.unique_seq_to_set();
    let range = vstd::set_lib::set_int_range(0, n as int);
    vstd::set_lib::lemma_int_range(0, n as int);
    assert(as_int.to_set().subset_of(range)) by {
        assert forall|v: int| as_int.to_set().contains(v) implies range.contains(v) by {
            let i = choose|i: int| 0 <= i < as_int.len() && as_int[i] == v;
            assert(order[i] < n);
        }
    }
    vstd::seq_lib::seq_to_set_is_finite(as_int);
    vstd::set_lib::lemma_subset_equality(as_int.to_set(), range);
    assert(range.contains(x as int));
    assert(as_int.to_set().contains(x as int));
    let i = choose|i: int| 0 <= i < as_int.len() && as_int[i] == x as int;
    assert(order[i] == x);
}

/// Two stable orderings agree on their first `m` positions.
proof fn lemma_stable_orders_agree_below(
    priorities: Seq<usize>,
    o1: Seq<usize>,
    o2: Seq<usize>,
    m: nat,
)
    requires
        is_index_permutation(o1, priorities.len()),
        is_index_permutation(o2, priorities.len()),
        is_stably_sorted(priorities, o1),
        is_stably_sorted(priorities, o2),
        m <= priorities.len(),
    ensures
        forall|j: int| 0 <= j < m ==> o1[j] == o2[j],
    decreases m,
{
    if m > 0 {
        let k = (m - 1) as nat;
        lemma_stable_orders_agree_below(priorities, o1, o2, k);
        let n = priorities.len();
        let x = o1[k as int];
        let y = o2[k as int];
        if x != y {
            // x sits in o2 after position k: before it, o2 agrees with o1, whose
            // entries there differ from x; so y precedes x in o2.
            lemma_permutation_covers(o2, n, x);
            let r = choose|r: int| 0 <= r < n && o2[r] == x;
            if r < k {
                assert(o1[r] == o2[r]);
                assert(o1[r] != o1[k as int]);
            }
            assert(precedes(priorities, o2[k as int], o2[r]));
            // Symmetrically, y sits in o1 after position k, so x precedes y in o1.
            lemma_permutation_covers(o1, n, y);
            let q = choose|q: int| 0 <= q < n && o1[q] == y;
            if q < k {
                assert(o1[q] == o2[q]);
                assert(o2[q] != o2[k as int]);
            }
            assert(precedes(priorities, o1[k as int], o1[q]));
        }
    }
}

/// The stable ordering by priority level is unique: any two orderings that
/// list every class once, by ascending level with ties in their given order,
/// are the same ordering.
pub proof fn lemma_stable_order_unique(priorities: Seq<usize>, o1: Seq<usize>, o2: Seq<usize>)
    requires
        is_index_permutation(o1, priorities.len()),
        is_index_permutation(o2, priorities.len()),
        is_stably_sorted(priorities, o1),
        is_stably_sorted(priorities, o2),
    ensures
        o1 == o2,
{
    lemma_stable_orders_agree_below(priorities, o1, o2, priorities.len());
    assert(o1 =~= o2);
}

/// Classes that are already listed by ascending priority level keep their
/// order: their stable ordering is the identity.
pub proof fn lemma_sorted_levels_keep_order(priorities: Seq<usize>, order: Seq<usize>)
    requires
        priorities.len() <= usize::MAX,
        forall|i: int, j: int| 0 <= i < j < priorities.len() ==> priorities[i] <= priorities[j],
        is_index_permutation(order, priorities.len()),
        is_stably_sorted(priorities, order),
    ensures
        forall|i: int| 0 <= i < order.len() ==> order[i] == i,
{
    let n = priorities.len();
    let identity = Seq::new(n, |i: int| i as usize);
    assert forall|i: int| 0 <= i < n implies #[trigger] identity[i] as int == i by {}
    assert(is_index_permutation(identity, n));
    assert forall|i: int, j: int| 0 <= i < j < identity.len() implies precedes(
        priorities,
        #[trigger] identity[i],
        #[trigger] identity[j],
    ) by {
        assert(identity[i] as int == i && identity[j] as int == j);
        assert(priorities[i] <= priorities[j]);
    }
    lemma_stable_order_unique(priorities, order, identity);
}

} // verus!
