//! Putting things in the order of their keys, equal ones as they came.
use vstd::prelude::*;

verus! {

/// Whether the thing at `a` goes before the one at `b`: its key is smaller, or
/// the keys are equal and it came first.
pub open spec fn goes_before(keys: Seq<i128>, a: int, b: int) -> bool {
    keys[a] < keys[b] || (keys[a] == keys[b] && a < b)
}

/// Whether `order` lists every position once, each before those that it goes
/// before.
pub open spec fn stable_order(keys: Seq<i128>, order: Seq<usize>) -> bool {
    &&& order.len() == keys.len()
    &&& forall|i: int| 0 <= i < order.len() ==> 0 <= #[trigger] order[i] < keys.len()
    &&& forall|i: int, j: int|
        0 <= i < j < order.len() ==> goes_before(
            keys,
            #[trigger] order[i] as int,
            #[trigger] order[j] as int,
        )
    &&& forall|k: usize| 0 <= k < keys.len() ==> #[trigger] order.contains(k)
}

/// There is only one such order.
pub proof fn law_stable_order_is_unique(keys: Seq<i128>, a: Seq<usize>, b: Seq<usize>)
    requires
        stable_order(keys, a),
        stable_order(keys, b),
    ensures
        a == b,
{
    assert forall|i: int| 0 <= i < a.len() implies a[i] == b[i] by {
        lemma_same_up_to(keys, a, b, i + 1);
    }
    assert(a =~= b);
}

proof fn lemma_same_up_to(keys: Seq<i128>, a: Seq<usize>, b: Seq<usize>, n: int)
    requires
        stable_order(keys, a),
        stable_order(keys, b),
        0 <= n <= keys.len(),
    ensures
        forall|i: int| 0 <= i < n ==> a[i] == b[i],
    decreases n,
{
    if n > 0 {
        lemma_same_up_to(keys, a, b, n - 1);
        let x = a[n - 1];
        let y = b[n - 1];
        if x != y {
            assert(b.contains(x));
            let j = choose|j: int| 0 <= j < b.len() && b[j] == x;
            if j < n - 1 {
                assert(a[j] == b[j]);
                assert(goes_before(keys, a[j] as int, a[n - 1] as int));
            }
            assert(goes_before(keys, b[n - 1] as int, b[j] as int));
            assert(a.contains(y));
            let k = choose|k: int| 0 <= k < a.len() && a[k] == y;
            if k < n - 1 {
                assert(a[k] == b[k]);
                assert(goes_before(keys, b[k] as int, b[n - 1] as int));
            }
            assert(goes_before(keys, a[n - 1] as int, a[k] as int));
        }
    }
}

/// The positions of things in the order of their keys, equal ones as they came.
pub open spec fn sorted_positions(keys: Seq<i128>) -> Seq<usize> {
    choose|order: Seq<usize>| stable_order(keys, order)
}

/// There is such an order of any things that can be counted.
pub proof fn law_sorted_positions(keys: Seq<i128>)
    requires
        keys.len() <= usize::MAX,
    ensures
        stable_order(keys, sorted_positions(keys)),
{
    let order = lemma_some_order(keys, keys.len() as int);
    assert(keys.take(keys.len() as int) =~= keys);
}

proof fn lemma_some_order(keys: Seq<i128>, n: int) -> (order: Seq<usize>)
    requires
        0 <= n <= keys.len() <= usize::MAX,
    ensures
        stable_order(keys.take(n), order),
    decreases n,
{
    if n == 0 {
        Seq::empty()
    } else {
        let before = lemma_some_order(keys, n - 1);
        let p = lemma_slot(keys, before, n - 1, before.len() as int);
        lemma_insert(keys, before, n - 1, p);
        before.insert(p, (n - 1) as usize)
    }
}

/// Where the next thing goes among those before it.
proof fn lemma_slot(keys: Seq<i128>, before: Seq<usize>, i: int, p: int) -> (q: int)
    requires
        0 <= i < keys.len(),
        stable_order(keys.take(i), before),
        0 <= p <= before.len(),
        forall|j: int| p <= j < before.len() ==> keys[(#[trigger] before[j]) as int] > keys[i],
    ensures
        0 <= q <= p,
        forall|j: int| q <= j < before.len() ==> keys[(#[trigger] before[j]) as int] > keys[i],
        q > 0 ==> keys[before[q - 1] as int] <= keys[i],
    decreases p,
{
    if p > 0 && keys[before[p - 1] as int] > keys[i] {
        lemma_slot(keys, before, i, p - 1)
    } else {
        p
    }
}

proof fn lemma_insert(keys: Seq<i128>, before: Seq<usize>, i: int, p: int)
    requires
        0 <= i < keys.len() <= usize::MAX,
        stable_order(keys.take(i), before),
        0 <= p <= before.len(),
        forall|j: int| p <= j < before.len() ==> keys[(#[trigger] before[j]) as int] > keys[i],
        p > 0 ==> keys[before[p - 1] as int] <= keys[i],
    ensures
        stable_order(keys.take(i + 1), before.insert(p, i as usize)),
{
    let old_keys = keys.take(i);
    let new_keys = keys.take(i + 1);
    let after = before.insert(p, i as usize);
    if p > 0 {
        assert forall|j: int| 0 <= j < p implies keys[(#[trigger] before[j]) as int]
            <= keys[i] by {
            if j < p - 1 {
                assert(goes_before(old_keys, before[j] as int, before[p - 1] as int));
            }
        }
    }
    assert forall|a: int, b: int| 0 <= a < b < after.len() implies goes_before(
        new_keys,
        #[trigger] after[a] as int,
        #[trigger] after[b] as int,
    ) by {
        if a != p && b != p {
            let a0 = if a < p {
                a
            } else {
                a - 1
            };
            let b0 = if b < p {
                b
            } else {
                b - 1
            };
            assert(goes_before(old_keys, before[a0] as int, before[b0] as int));
        } else if a == p {
            assert(after[b] == before[b - 1]);
        } else {
            assert(after[a] == before[a]);
        }
    }
    assert forall|k: usize| 0 <= k < new_keys.len() implies #[trigger] after.contains(k) by {
        if k == i {
            assert(after[p] == k);
        } else {
            assert(before.contains(k));
            let j = choose|j: int| 0 <= j < before.len() && before[j] == k;
            if j < p {
                assert(after[j] == k);
            } else {
                assert(after[j + 1] == k);
            }
        }
    }
    assert forall|a: int| 0 <= a < after.len() implies 0 <= #[trigger] after[a]
        < new_keys.len() by {
        if a < p {
            assert(after[a] == before[a]);
        } else if a > p {
            assert(after[a] == before[a - 1]);
        }
    }
}

/// Whether `order` lists the positions from `lo` up to `hi` once each, every one
/// before those that it goes before.
pub open spec fn range_order(keys: Seq<i128>, lo: int, hi: int, order: Seq<usize>) -> bool {
    &&& order.len() == hi - lo
    &&& forall|i: int| 0 <= i < order.len() ==> lo <= #[trigger] order[i] < hi
    &&& forall|i: int, j: int|
        0 <= i < j < order.len() ==> goes_before(
            keys,
            #[trigger] order[i] as int,
            #[trigger] order[j] as int,
        )
    &&& forall|k: usize| lo <= k < hi ==> #[trigger] order.contains(k)
}

proof fn lemma_push_contains(s: Seq<usize>, x: usize)
    ensures
        forall|k: usize| s.contains(k) ==> #[trigger] s.push(x).contains(k),
        s.push(x).contains(x),
{
    assert forall|k: usize| s.contains(k) implies #[trigger] s.push(x).contains(k) by {
        let i = choose|i: int| 0 <= i < s.len() && s[i] == k;
        assert(s.push(x)[i] == k);
    }
    assert(s.push(x)[s.len() as int] == x);
}

/// Two neighbouring ranges of positions, each in order, as one.
fn merge(keys: &Vec<i128>, lo: usize, mid: usize, hi: usize, a: &Vec<usize>, b: &Vec<usize>) -> (r:
    Vec<usize>)
    requires
        lo <= mid <= hi <= keys@.len(),
        range_order(keys@, lo as int, mid as int, a@),
        range_order(keys@, mid as int, hi as int, b@),
    ensures
        range_order(keys@, lo as int, hi as int, r@),
{
    let mut r: Vec<usize> = Vec::new();
    let mut i: usize = 0;
    let mut j: usize = 0;
    while i < a.len() || j < b.len()
        invariant
            lo <= mid <= hi <= keys@.len(),
            range_order(keys@, lo as int, mid as int, a@),
            range_order(keys@, mid as int, hi as int, b@),
            i <= a@.len(),
            j <= b@.len(),
            r@.len() == i + j,
            forall|x: int| 0 <= x < r@.len() ==> lo <= #[trigger] r@[x] < hi,
            forall|x: int, y: int|
                0 <= x < y < r@.len() ==> goes_before(
                    keys@,
                    #[trigger] r@[x] as int,
                    #[trigger] r@[y] as int,
                ),
            forall|x: int, y: int|
                0 <= x < r@.len() && i <= y < a@.len() ==> goes_before(
                    keys@,
                    #[trigger] r@[x] as int,
                    #[trigger] a@[y] as int,
                ),
            forall|x: int, y: int|
                0 <= x < r@.len() && j <= y < b@.len() ==> goes_before(
                    keys@,
                    #[trigger] r@[x] as int,
                    #[trigger] b@[y] as int,
                ),
            forall|y: int| 0 <= y < i ==> r@.contains(#[trigger] a@[y]),
            forall|y: int| 0 <= y < j ==> r@.contains(#[trigger] b@[y]),
        decreases a@.len() - i + b@.len() - j,
    {
        let from_a = j == b.len() || (i < a.len() && keys[a[i]] <= keys[b[j]]);
        let next: usize = if from_a {
            a[i]
        } else {
            b[j]
        };
        let ghost before = r@;
        proof {
            lemma_push_contains(before, next);
            if from_a {
                assert forall|y: int| j <= y < b@.len() implies goes_before(
                    keys@,
                    next as int,
                    #[trigger] b@[y] as int,
                ) by {
                    if y > j {
                        assert(goes_before(keys@, b@[j as int] as int, b@[y] as int));
                    }
                }
            } else {
                assert forall|y: int| i <= y < a@.len() implies goes_before(
                    keys@,
                    next as int,
                    #[trigger] a@[y] as int,
                ) by {
                    if y > i {
                        assert(goes_before(keys@, a@[i as int] as int, a@[y] as int));
                    }
                }
            }
        }
        r.push(next);
        if from_a {
            i += 1;
        } else {
            j += 1;
        }
    }
    assert forall|k: usize| lo <= k < hi implies #[trigger] r@.contains(k) by {
        if k < mid {
            assert(a@.contains(k));
        } else {
            assert(b@.contains(k));
        }
    }
    r
}

/// The positions from `lo` up to `hi` in the order of their keys.
fn sort_range(keys: &Vec<i128>, lo: usize, hi: usize) -> (r: Vec<usize>)
    requires
        lo <= hi <= keys@.len(),
    ensures
        range_order(keys@, lo as int, hi as int, r@),
    decreases hi - lo,
{
    if hi - lo <= 1 {
        let mut r: Vec<usize> = Vec::new();
        if lo < hi {
            r.push(lo);
            assert(r@[0] == lo);
        }
        return r;
    }
    let mid: usize = lo + (hi - lo) / 2;
    let a = sort_range(keys, lo, mid);
    let b = sort_range(keys, mid, hi);
    merge(keys, lo, mid, hi, &a, &b)
}

/// The positions of things in the order of their keys, equal ones as they came.
pub fn sort_positions(keys: &Vec<i128>) -> (r: Vec<usize>)
    ensures
        stable_order(keys@, r@),
        r@ == sorted_positions(keys@),
{
    let r = sort_range(keys, 0, keys.len());
    proof {
        assert(stable_order(keys@, r@));
        law_stable_order_is_unique(keys@, r@, sorted_positions(keys@));
    }
    r
}

} // verus!
