//! The order in which files are evicted.
//!
//! A policy scores each file, and the lowest score is evicted first. Here a score is an
//! unsigned key that orders as the scores do.

use crate::types::FileMetadata;
use crate::types::MetaView;
use vstd::prelude::*;

verus! {

/// The entry at `x` is evicted before the one at `y`: it has the lower key, or the
/// same key and comes first.
pub open spec fn before(keys: Seq<u64>, x: int, y: int) -> bool {
    keys[x] < keys[y] || (keys[x] == keys[y] && x < y)
}

/// `order` has every position from `lo` up to `hi` once, and in the order of eviction.
pub open spec fn in_order(order: Seq<int>, keys: Seq<u64>, lo: int, hi: int) -> bool {
    &&& order.len() == hi - lo
    &&& forall|i: int| 0 <= i < order.len() ==> lo <= #[trigger] order[i] < hi
    &&& forall|x: int| lo <= x < hi ==> #[trigger] order.contains(x)
    &&& forall|i: int, j: int|
        0 <= i < j < order.len() ==> before(keys, #[trigger] order[i], #[trigger] order[j])
}

/// The positions of the keys in the order of eviction.
pub open spec fn eviction_order(keys: Seq<u64>) -> Seq<int> {
    choose|order: Seq<int>| in_order(order, keys, 0, keys.len() as int)
}

/// The keys of a list of entries.
pub open spec fn keys_of(s: Seq<(MetaView, u64)>) -> Seq<u64> {
    s.map_values(|p: (MetaView, u64)| p.1)
}

/// The entries in the order of eviction.
pub open spec fn ranked(s: Seq<(MetaView, u64)>) -> Seq<MetaView> {
    eviction_order(keys_of(s)).map_values(|i: int| s[i].0)
}

/// There is only one order of eviction.
pub proof fn lemma_order_is_unique(a: Seq<int>, b: Seq<int>, keys: Seq<u64>, lo: int, hi: int)
    requires
        in_order(a, keys, lo, hi),
        in_order(b, keys, lo, hi),
    ensures
        a == b,
{
    if a != b {
        assert(!(a =~= b));
        let i = first_difference(a, b, 0);
        let j = choose|j: int| 0 <= j < b.len() && b[j] == a[i];
        let k = choose|k: int| 0 <= k < a.len() && a[k] == b[i];
        assert(b.contains(a[i]));
        assert(a.contains(b[i]));
        if j < i {
            assert(a[j] == b[j]);
            assert(before(keys, a[j], a[i]));
        }
        if k < i {
            assert(a[k] == b[k]);
            assert(before(keys, b[k], b[i]));
        }
        assert(before(keys, b[i], b[j]));
        assert(before(keys, a[i], a[k]));
    }
}

proof fn first_difference(a: Seq<int>, b: Seq<int>, from: int) -> (i: int)
    requires
        a.len() == b.len(),
        0 <= from <= a.len(),
        forall|k: int| 0 <= k < from ==> a[k] == b[k],
        !(a =~= b),
    ensures
        0 <= i < a.len(),
        a[i] != b[i],
        forall|k: int| 0 <= k < i ==> a[k] == b[k],
    decreases a.len() - from,
{
    if from < a.len() && a[from] == b[from] {
        first_difference(a, b, from + 1)
    } else {
        assert(from < a.len());
        from
    }
}

/// Positions as integers.
pub open spec fn ints(v: Seq<usize>) -> Seq<int> {
    v.map_values(|i: usize| i as int)
}

/// Merges two orders of neighbouring ranges.
fn merge(
    keys: &Vec<u64>,
    left: &Vec<usize>,
    right: &Vec<usize>,
    Ghost(lo): Ghost<int>,
    Ghost(mid): Ghost<int>,
    Ghost(hi): Ghost<int>,
) -> (out: Vec<usize>)
    requires
        0 <= lo <= mid <= hi <= keys@.len(),
        in_order(ints(left@), keys@, lo, mid),
        in_order(ints(right@), keys@, mid, hi),
    ensures
        in_order(ints(out@), keys@, lo, hi),
{
    let ghost l = ints(left@);
    let ghost r = ints(right@);
    let mut out: Vec<usize> = Vec::new();
    let mut i: usize = 0;
    let mut j: usize = 0;
    while i < left.len() || j < right.len()
        invariant
            0 <= lo <= mid <= hi <= keys@.len(),
            l == ints(left@),
            r == ints(right@),
            in_order(l, keys@, lo, mid),
            in_order(r, keys@, mid, hi),
            i <= left@.len(),
            j <= right@.len(),
            out@.len() == i + j,
            forall|k: int| 0 <= k < out@.len() ==> lo <= #[trigger] ints(out@)[k] < hi,
            forall|k: int| 0 <= k < i ==> ints(out@).contains(#[trigger] l[k]),
            forall|k: int| 0 <= k < j ==> ints(out@).contains(#[trigger] r[k]),
            forall|a: int, b: int|
                0 <= a < b < out@.len() ==> before(keys@, #[trigger] ints(out@)[a], #[trigger] ints(out@)[b]),
            forall|a: int, b: int|
                0 <= a < out@.len() && i <= b < l.len() ==> before(keys@, #[trigger] ints(out@)[a], #[trigger] l[b]),
            forall|a: int, b: int|
                0 <= a < out@.len() && j <= b < r.len() ==> before(keys@, #[trigger] ints(out@)[a], #[trigger] r[b]),
        decreases left.len() + right.len() - i - j,
    {
        let ghost was = ints(out@);
        let from_left = if i >= left.len() {
            false
        } else if j >= right.len() {
            true
        } else {
            assert(l[i as int] == left@[i as int]);
            assert(r[j as int] == right@[j as int]);
            keys[left[i]] <= keys[right[j]]
        };
        if from_left {
            assert(l[i as int] == left@[i as int]);
            proof {
                if j < right@.len() {
                    assert forall|b: int| j <= b < r.len() implies before(keys@, l[i as int], #[trigger] r[b]) by {
                        assert(r[j as int] == right@[j as int]);
                        if b > j {
                            assert(before(keys@, r[j as int], r[b]));
                        }
                    }
                }
            }
            out.push(left[i]);
            i += 1;
        } else {
            assert(r[j as int] == right@[j as int]);
            proof {
                if i < left@.len() {
                    assert forall|b: int| i <= b < l.len() implies before(keys@, r[j as int], #[trigger] l[b]) by {
                        assert(l[i as int] == left@[i as int]);
                        if b > i {
                            assert(before(keys@, l[i as int], l[b]));
                        }
                    }
                }
            }
            out.push(right[j]);
            j += 1;
        }
        proof {
            let now = ints(out@);
            assert(now =~= was.push(out@.last() as int));
            assert forall|x: int| was.contains(x) implies now.contains(x) by {
                let k = choose|k: int| 0 <= k < was.len() && was[k] == x;
                assert(now[k] == x);
            }
            assert(now[now.len() - 1] == out@.last());
            assert(now.contains(out@.last() as int));
        }
    }
    proof {
        let o = ints(out@);
        assert forall|x: int| lo <= x < hi implies #[trigger] o.contains(x) by {
            if x < mid {
                assert(l.contains(x));
                let k = choose|k: int| 0 <= k < l.len() && l[k] == x;
                assert(o.contains(l[k]));
            } else {
                assert(r.contains(x));
                let k = choose|k: int| 0 <= k < r.len() && r[k] == x;
                assert(o.contains(r[k]));
            }
        }
    }
    out
}

/// The positions from `lo` up to `hi` in the order of eviction.
fn sort_range(keys: &Vec<u64>, lo: usize, hi: usize) -> (out: Vec<usize>)
    requires
        lo <= hi <= keys@.len(),
    ensures
        in_order(ints(out@), keys@, lo as int, hi as int),
    decreases hi - lo,
{
    if hi - lo == 0 {
        return Vec::new();
    }
    if hi - lo == 1 {
        let mut one: Vec<usize> = Vec::new();
        one.push(lo);
        assert(ints(one@)[0] == lo);
        assert(ints(one@).contains(lo as int));
        return one;
    }
    let mid: usize = lo + (hi - lo) / 2;
    let left = sort_range(keys, lo, mid);
    let right = sort_range(keys, mid, hi);
    merge(keys, &left, &right, Ghost(lo as int), Ghost(mid as int), Ghost(hi as int))
}

/// The positions of the keys in ascending order of the keys, equal ones in their order.
pub fn sorted_positions(keys: &Vec<u64>) -> (order: Vec<usize>)
    ensures
        ints(order@) == eviction_order(keys@),
        order@.len() == keys@.len(),
        forall|k: int| 0 <= k < order@.len() ==> #[trigger] order@[k] < keys@.len(),
{
    let order = sort_range(keys, 0, keys.len());
    proof {
        lemma_order_is_unique(ints(order@), eviction_order(keys@), keys@, 0, keys@.len() as int);
        assert forall|k: int| 0 <= k < order@.len() implies #[trigger] order@[k] < keys@.len() by {
            assert(ints(order@)[k] < keys@.len());
        }
    }
    order
}

/// Sorts entries in ascending order of their keys: the coldest, to be evicted first,
/// comes first. Entries with equal keys keep their order.
pub fn rank_for_eviction(entries: &Vec<(FileMetadata, u64)>) -> (r: Vec<FileMetadata>)
    ensures
        crate::action::metas(r@) == ranked(crate::action::keyed(entries@)),
{
    let ghost s = crate::action::keyed(entries@);
    let mut keys: Vec<u64> = Vec::new();
    let mut n: usize = 0;
    while n < entries.len()
        invariant
            n <= entries@.len(),
            s == crate::action::keyed(entries@),
            keys@ == keys_of(s).take(n as int),
        decreases entries.len() - n,
    {
        keys.push(entries[n].1);
        n += 1;
        assert(keys@ =~= keys_of(s).take(n as int));
    }
    assert(keys@ =~= keys_of(s));
    let order = sorted_positions(&keys);
    let mut out: Vec<FileMetadata> = Vec::new();
    let mut i: usize = 0;
    while i < order.len()
        invariant
            i <= order@.len(),
            out@.len() == i,
            forall|k: int| 0 <= k < order@.len() ==> #[trigger] order@[k] < entries@.len(),
            forall|k: int| 0 <= k < i ==> #[trigger] out@[k] == entries@[order@[k] as int].0,
        decreases order.len() - i,
    {
        out.push(entries[order[i]].0.clone());
        i += 1;
    }
    proof {
        assert forall|k: int| 0 <= k < out@.len() implies #[trigger] crate::action::metas(out@)[k] == ranked(s)[k] by {
            assert(eviction_order(keys@)[k] == order@[k]);
        }
        assert(crate::action::metas(out@) =~= ranked(s));
    }
    out
}

/// The seconds since a file was last accessed, as the score counts them: at least one.
pub fn seconds_since_access(now: i64, accessed_at: i64) -> (r: i64)
    requires
        i64::MIN <= now - accessed_at <= i64::MAX,
    ensures
        r == (if now - accessed_at >= 1 {
            now - accessed_at
        } else {
            1
        }),
{
    let d: i64 = now - accessed_at;
    if d >= 1 {
        d
    } else {
        1
    }
}

// ---------------------------------------------------------------------------
// Laws of ranking

/// Ranking keeps every entry and puts the keys in ascending order, equal ones in the
/// order in which they came.
pub proof fn law_ranking_sorts(s: Seq<(MetaView, u64)>)
    ensures
        ranked(s).len() == s.len(),
        in_order(eviction_order(keys_of(s)), keys_of(s), 0, s.len() as int),
        forall|i: int|
            0 <= i < s.len() ==> ranked(s)[i] == s[#[trigger] eviction_order(keys_of(s))[i]].0,
        forall|x: int| 0 <= x < s.len() ==> #[trigger] eviction_order(keys_of(s)).contains(x),
        forall|i: int, j: int|
            0 <= i < j < s.len() ==> {
                let x = #[trigger] eviction_order(keys_of(s))[i];
                let y = #[trigger] eviction_order(keys_of(s))[j];
                &&& 0 <= x < s.len() && 0 <= y < s.len() && x != y
                &&& s[x].1 <= s[y].1
                &&& s[x].1 == s[y].1 ==> x < y
            },
{
    lemma_order_exists(keys_of(s), 0, s.len() as int);
    let order = eviction_order(keys_of(s));
    assert forall|i: int, j: int| 0 <= i < j < s.len() implies {
        let x = #[trigger] order[i];
        let y = #[trigger] order[j];
        &&& 0 <= x < s.len() && 0 <= y < s.len() && x != y
        &&& s[x].1 <= s[y].1
        &&& s[x].1 == s[y].1 ==> x < y
    } by {
        assert(before(keys_of(s), order[i], order[j]));
    }
}

proof fn lemma_order_exists(keys: Seq<u64>, lo: int, hi: int) -> (order: Seq<int>)
    requires
        0 <= lo <= hi <= keys.len(),
    ensures
        in_order(order, keys, lo, hi),
    decreases hi - lo,
{
    if lo == hi {
        Seq::empty()
    } else {
        let rest = lemma_order_exists(keys, lo, hi - 1);
        let x = hi - 1;
        let at = lemma_place(rest, keys, x, 0);
        let order = rest.insert(at, x);
        assert forall|y: int| lo <= y < hi implies #[trigger] order.contains(y) by {
            if y == x {
                assert(order[at] == x);
            } else {
                assert(rest.contains(y));
                let k = choose|k: int| 0 <= k < rest.len() && rest[k] == y;
                if k < at {
                    assert(order[k] == y);
                } else {
                    assert(order[k + 1] == y);
                }
            }
        }
        assert forall|i: int, j: int| 0 <= i < j < order.len() implies before(
            keys,
            #[trigger] order[i],
            #[trigger] order[j],
        ) by {
            let a = if i < at {
                i
            } else {
                i - 1
            };
            let b = if j < at {
                j
            } else {
                j - 1
            };
            if i != at {
                assert(order[i] == rest[a]);
            }
            if j != at {
                assert(order[j] == rest[b]);
            }
        }
        assert forall|i: int| 0 <= i < order.len() implies lo <= #[trigger] order[i] < hi by {
            if i < at {
                assert(order[i] == rest[i]);
            } else if i > at {
                assert(order[i] == rest[i - 1]);
            }
        }
        order
    }
}

proof fn lemma_place(rest: Seq<int>, keys: Seq<u64>, x: int, from: int) -> (at: int)
    requires
        0 <= from <= rest.len(),
        0 <= x < keys.len(),
        forall|i: int| 0 <= i < rest.len() ==> 0 <= #[trigger] rest[i] < x,
        forall|i: int, j: int|
            0 <= i < j < rest.len() ==> before(keys, #[trigger] rest[i], #[trigger] rest[j]),
        forall|i: int| 0 <= i < from ==> before(keys, #[trigger] rest[i], x),
    ensures
        0 <= at <= rest.len(),
        forall|i: int| 0 <= i < at ==> before(keys, #[trigger] rest[i], x),
        forall|i: int| at <= i < rest.len() ==> before(keys, x, #[trigger] rest[i]),
    decreases rest.len() - from,
{
    if from < rest.len() && before(keys, rest[from], x) {
        lemma_place(rest, keys, x, from + 1)
    } else {
        assert forall|i: int| from <= i < rest.len() implies before(keys, x, #[trigger] rest[i]) by {
            assert(!before(keys, rest[from], x));
            if i > from {
                assert(before(keys, rest[from], rest[i]));
            }
        }
        from
    }
}

} // verus!
