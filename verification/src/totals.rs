//! What an eviction cycle does to the total size of the files on a tier.

use crate::action::ActionView;
use crate::action::EventView;
use crate::eviction::eviction_order;
use crate::eviction::keys_of;
use crate::eviction::ranked;
use crate::eviction_task::cycle_step;
use crate::eviction_task::excess;
use crate::eviction_task::next_victim;
use crate::eviction_task::CycleStepView;
use crate::eviction_task::CycleView;
use crate::eviction_task::TierWatermarks;
use crate::masks::masks_true;
use crate::recovery::run_cycle;
use crate::recovery::run_cycle_step;
use crate::router::RouterView;
use crate::s3_uploader::sum_capped;
use crate::tier::Tier;
use crate::types::MetaView;
use crate::world::carry_out;
use crate::world::healthy;
use crate::world::is_on;
use crate::world::is_tier_list;
use crate::world::perform;
use crate::world::sum_of;
use crate::world::tier_list;
use crate::world::total_on;
use crate::world::Env;
use crate::world::World;
use vstd::prelude::*;

verus! {

// ---------------------------------------------------------------------------
// Sums

/// Any path can be taken out of a sum first.
proof fn lemma_sum_without(paths: Set<Seq<char>>, value: spec_fn(Seq<char>) -> nat, p: Seq<char>)
    requires
        paths.finite(),
        paths.contains(p),
    ensures
        sum_of(paths, value) == value(p) + sum_of(paths.remove(p), value),
    decreases paths.len(),
{
    let c = paths.choose();
    assert(paths.contains(c));
    if c != p {
        lemma_sum_without(paths.remove(c), value, p);
        lemma_sum_without(paths.remove(p), value, c);
        assert(paths.remove(c).remove(p) =~= paths.remove(p).remove(c));
    }
}

/// A sum depends only on the values of its paths.
proof fn lemma_sum_same(paths: Set<Seq<char>>, f: spec_fn(Seq<char>) -> nat, g: spec_fn(Seq<char>) -> nat)
    requires
        forall|p: Seq<char>| #[trigger] paths.contains(p) ==> f(p) == g(p),
    ensures
        sum_of(paths, f) == sum_of(paths, g),
    decreases paths.len(),
{
    if paths.finite() && paths.len() > 0 {
        let c = paths.choose();
        assert(paths.contains(c));
        lemma_sum_same(paths.remove(c), f, g);
    }
}

/// If one file leaves a tier, the total is less by its size.
proof fn lemma_total_drops(w: World, w2: World, tier: Tier, p: Seq<char>)
    requires
        w.files.dom().finite(),
        w2.files.dom() == w.files.dom(),
        is_on(w, tier, p),
        !is_on(w2, tier, p),
        forall|q: Seq<char>| q != p && #[trigger] w.files.contains_key(q) ==> w2.files[q] == w.files[q],
    ensures
        total_on(w2, tier) + w.files[p].size_bytes == total_on(w, tier),
{
    let before = |q: Seq<char>|
        if is_on(w, tier, q) {
            w.files[q].size_bytes as nat
        } else {
            0
        };
    let after = |q: Seq<char>|
        if is_on(w2, tier, q) {
            w2.files[q].size_bytes as nat
        } else {
            0
        };
    let paths = w.files.dom();
    lemma_sum_without(paths, before, p);
    lemma_sum_without(paths, after, p);
    assert forall|q: Seq<char>| #[trigger] paths.remove(p).contains(q) implies before(q) == after(q) by {
        assert(w.files.contains_key(q));
    }
    lemma_sum_same(paths.remove(p), before, after);
}

// ---------------------------------------------------------------------------
// The cycle

/// The world once the tier has lost the file, and its mask says so.
spec fn without_copy(w: World, tier: Tier, p: Seq<char>) -> World {
    carry_out(
        w.with_store(tier, w.store(tier).remove(p)),
        ActionView::SetTiers { id: w.files[p].id, tiers: w.files[p].tiers.without(tier) },
        0,
    ).0
}

/// What is left to be looked at: files on the tier, each once, and all that can be evicted
/// are among them.
spec fn candidates(w: World, tier: Tier, rest: Seq<MetaView>) -> bool {
    &&& forall|i: int, j: int|
        0 <= i < j < rest.len() ==> (#[trigger] rest[i]).path != (#[trigger] rest[j]).path
    &&& forall|i: int|
        0 <= i < rest.len() ==> is_on(w, tier, (#[trigger] rest[i]).path) && w.files[rest[i].path]
            == rest[i]
    &&& forall|p: Seq<char>|
        #[trigger] is_on(w, tier, p) && w.files[p].tiers.can_lose(tier) ==> exists|i: int|
            0 <= i < rest.len() && (#[trigger] rest[i]).path == p
}

/// The three requests of an eviction.
proof fn lemma_evict_one(env: Env, k: nat, w: World, tier: Tier, target: u64, freed: u64, rest: Seq<MetaView>, fuel: nat)
    requires
        healthy(env),
        w.indexed(),
        rest.len() > 0,
        is_on(w, tier, rest[0].path),
        w.files[rest[0].path] == rest[0],
        w.store(tier).contains_key(rest[0].path),
        rest[0].tiers.can_lose(tier),
        freed < target,
        fuel >= 3,
    ensures
        run_cycle_step(env, k, w, next_victim(tier, target, freed, rest), fuel) == run_cycle_step(
            env,
            k + 3,
            without_copy(w, tier, rest[0].path),
            next_victim(tier, target, sum_capped(freed, rest[0].size_bytes), rest.skip(1)),
            (fuel - 3) as nat,
        ),
{
    let m = rest[0];
    let path = m.path;
    let tail = rest.skip(1);
    let look = ActionView::Lookup { path };
    let asking = CycleView::Evicting {
        tier,
        target,
        freed,
        rest: tail,
        file: m,
        op: RouterView::EvictMeta { path, tier },
    };
    let removing = CycleView::Evicting {
        tier,
        target,
        freed,
        rest: tail,
        file: m,
        op: RouterView::EvictCopy { tier, id: m.id, tiers: m.tiers },
    };
    let marking = CycleView::Evicting {
        tier,
        target,
        freed,
        rest: tail,
        file: m,
        op: RouterView::EvictMark,
    };
    let remove = ActionView::Remove { tier, path };
    let w1 = w.with_store(tier, w.store(tier).remove(path));
    let set = ActionView::SetTiers { id: m.id, tiers: m.tiers.without(tier) };
    assert(run_cycle(env, k, w, asking, look, fuel) == run_cycle(
        env,
        k + 1,
        w,
        removing,
        remove,
        (fuel - 1) as nat,
    )) by {
        assert((env.faults)(k) is None);
    }
    assert(run_cycle(env, k + 1, w, removing, remove, (fuel - 1) as nat) == run_cycle(
        env,
        k + 2,
        w1,
        marking,
        set,
        (fuel - 2) as nat,
    )) by {
        assert((env.faults)(k + 1) is None);
    }
    assert((env.faults)(k + 2) is None);
    assert(carry_out(w1, set, (env.clock)(k + 2)).0 == without_copy(w, tier, path));
}

/// What an eviction does to what the cycle looks at.
proof fn lemma_after_evict(w: World, tier: Tier, rest: Seq<MetaView>)
    requires
        w.indexed(),
        w.files.dom().finite(),
        masks_true(w),
        candidates(w, tier, rest),
        rest.len() > 0,
        rest[0].tiers.can_lose(tier),
    ensures
        ({
            let w2 = without_copy(w, tier, rest[0].path);
            &&& w2.indexed()
            &&& w2.files.dom() == w.files.dom()
            &&& masks_true(w2)
            &&& candidates(w2, tier, rest.skip(1))
            &&& total_on(w2, tier) + rest[0].size_bytes == total_on(w, tier)
            &&& !is_on(w2, tier, rest[0].path)
            &&& forall|p: Seq<char>| #[trigger] is_on(w2, tier, p) ==> is_on(w, tier, p)
            &&& forall|p: Seq<char>|
                p != rest[0].path && #[trigger] w.files.contains_key(p) ==> w2.files[p] == w.files[p]
            &&& w2.files[rest[0].path].size_bytes == rest[0].size_bytes
        }),
{
    let path = rest[0].path;
    let tail = rest.skip(1);
    let w2 = without_copy(w, tier, path);
    assert(is_on(w, tier, path));
    assert(w.store(tier).contains_key(path));
    crate::masks::lemma_unmark(w, path, tier);
    crate::tier::law_clear(w.files[path].tiers, tier);
    assert(w2.files.dom() =~= w.files.dom());
    assert forall|p: Seq<char>| p != path && #[trigger] w.files.contains_key(p) implies w2.files[p] == w.files[p] by {
        assert(w.files[p].id != w.files[path].id);
    }
    assert forall|p: Seq<char>| #[trigger] w2.files.contains_key(p) implies w2.files[p].path == p by {
        assert(w.files.contains_key(p));
    }
    assert forall|p: Seq<char>, q: Seq<char>|
        #[trigger] w2.files.contains_key(p) && #[trigger] w2.files.contains_key(q) && w2.files[p].id
            == w2.files[q].id implies p == q by {
        assert(w.files.contains_key(p) && w.files.contains_key(q));
    }
    assert(!w.files[path].tiers.without(tier).holds(tier));
    lemma_total_drops(w, w2, tier, path);
    assert forall|p: Seq<char>| #[trigger] is_on(w2, tier, p) implies is_on(w, tier, p) by {
        assert(w.files.contains_key(p));
    }
    assert forall|i: int| 0 <= i < tail.len() implies is_on(w2, tier, (#[trigger] tail[i]).path)
        && w2.files[tail[i].path] == tail[i] by {
        assert(tail[i] == rest[i + 1]);
        assert(rest[0].path != rest[i + 1].path);
        assert(w.files.contains_key(rest[i + 1].path));
    }
    assert forall|i: int, j: int| 0 <= i < j < tail.len() implies (#[trigger] tail[i]).path != (
    #[trigger] tail[j]).path by {
        assert(rest[i + 1].path != rest[j + 1].path);
    }
    assert forall|p: Seq<char>| #[trigger] is_on(w2, tier, p) && w2.files[p].tiers.can_lose(tier) implies exists|i: int|
        0 <= i < tail.len() && (#[trigger] tail[i]).path == p by {
        assert(is_on(w, tier, p) && p != path);
        let i = choose|i: int| 0 <= i < rest.len() && (#[trigger] rest[i]).path == p;
        assert(tail[i - 1].path == p);
    }
}

/// Where the cycle is when it ends: the total is not above the low watermark, or no file
/// on the tier can be evicted.
pub open spec fn low_enough(w: World, tier: Tier, low: u64) -> bool {
    total_on(w, tier) <= low || forall|p: Seq<char>|
        #[trigger] is_on(w, tier, p) ==> !w.files[p].tiers.can_lose(tier)
}

/// The files of a list that the tier can lose, in the list's order.
pub open spec fn victims(tier: Tier, files: Seq<MetaView>) -> Seq<MetaView> {
    files.filter(|m: MetaView| m.tiers.can_lose(tier))
}

/// From `w` to `w2` the first `n` of the files left the tier, and no other. With the last
/// of them the total would still be above the low watermark.
pub open spec fn first_left(w: World, w2: World, tier: Tier, files: Seq<MetaView>, n: int, low: u64) -> bool {
    &&& 0 <= n <= files.len()
    &&& forall|p: Seq<char>|
        #[trigger] is_on(w, tier, p) ==> (!is_on(w2, tier, p) <==> exists|i: int|
            0 <= i < n && (#[trigger] files[i]).path == p)
    &&& forall|p: Seq<char>| #[trigger] is_on(w2, tier, p) ==> is_on(w, tier, p)
    &&& n == 0 ==> w2 == w
    &&& n > 0 ==> total_on(w2, tier) + files[n - 1].size_bytes > low
}

proof fn lemma_victims_first(tier: Tier, rest: Seq<MetaView>)
    requires
        rest.len() > 0,
    ensures
        victims(tier, rest) == (if rest[0].tiers.can_lose(tier) {
            seq![rest[0]] + victims(tier, rest.skip(1))
        } else {
            victims(tier, rest.skip(1))
        }),
{
    let keep = |m: MetaView| m.tiers.can_lose(tier);
    let one = seq![rest[0]];
    assert(rest =~= one + rest.skip(1));
    Seq::filter_distributes_over_add(one, rest.skip(1), keep);
    assert(one.drop_last() =~= Seq::empty());
    assert(one.filter(keep) =~= (if keep(rest[0]) {
        one
    } else {
        Seq::empty()
    })) by {
        reveal_with_fuel(Seq::filter, 2);
    }
    assert(victims(tier, rest) =~= (if rest[0].tiers.can_lose(tier) {
        one + victims(tier, rest.skip(1))
    } else {
        victims(tier, rest.skip(1))
    }));
}

/// Once the first file has left, those that leave after it are the next ones.
proof fn lemma_first_left_grows(w: World, w1: World, w2: World, tier: Tier, files: Seq<MetaView>, n: int, low: u64)
    requires
        files.len() > 0,
        is_on(w, tier, files[0].path),
        !is_on(w1, tier, files[0].path),
        forall|p: Seq<char>|
            p != files[0].path ==> #[trigger] is_on(w1, tier, p) == is_on(w, tier, p),
        first_left(w1, w2, tier, files.skip(1), n, low),
        total_on(w1, tier) + files[0].size_bytes > low,
    ensures
        first_left(w, w2, tier, files, n + 1, low),
{
    let tail = files.skip(1);
    assert forall|p: Seq<char>| #[trigger] is_on(w, tier, p) implies (!is_on(w2, tier, p) <==> exists|i: int|
        0 <= i < n + 1 && (#[trigger] files[i]).path == p) by {
        if p == files[0].path {
            assert(!is_on(w2, tier, p));
        } else {
            assert(is_on(w1, tier, p));
            if !is_on(w2, tier, p) {
                let i = choose|i: int| 0 <= i < n && (#[trigger] tail[i]).path == p;
                assert(files[i + 1].path == p);
            }
            if exists|i: int| 0 <= i < n + 1 && (#[trigger] files[i]).path == p {
                let i = choose|i: int| 0 <= i < n + 1 && (#[trigger] files[i]).path == p;
                assert(tail[i - 1].path == p);
            }
        }
    }
    assert forall|p: Seq<char>| #[trigger] is_on(w2, tier, p) implies is_on(w, tier, p) by {
        assert(is_on(w1, tier, p));
    }
    if n > 0 {
        assert(tail[n - 1] == files[n]);
    }
}

proof fn lemma_cycle_evicts(
    env: Env,
    k: nat,
    w: World,
    tier: Tier,
    used: u64,
    low: u64,
    freed: u64,
    rest: Seq<MetaView>,
    fuel: nat,
) -> (n: int)
    requires
        healthy(env),
        w.indexed(),
        w.files.dom().finite(),
        masks_true(w),
        candidates(w, tier, rest),
        freed + total_on(w, tier) == used,
        fuel >= 3 * rest.len(),
    ensures
        run_cycle_step(env, k, w, next_victim(tier, excess(used, low), freed, rest), fuel) matches Some(w2)
            && {
            &&& low_enough(w2, tier, low)
            &&& first_left(w, w2, tier, victims(tier, rest), n, low)
        },
    decreases rest.len(),
{
    let target = excess(used, low);
    if freed >= target {
        0
    } else if rest.len() == 0 {
        assert(low_enough(w, tier, low));
        0
    } else if !rest[0].tiers.can_lose(tier) {
        let tail = rest.skip(1);
        assert forall|i: int| 0 <= i < tail.len() implies is_on(w, tier, (#[trigger] tail[i]).path)
            && w.files[tail[i].path] == tail[i] by {
            assert(tail[i] == rest[i + 1]);
        }
        assert forall|i: int, j: int| 0 <= i < j < tail.len() implies (#[trigger] tail[i]).path != (
        #[trigger] tail[j]).path by {
            assert(rest[i + 1].path != rest[j + 1].path);
        }
        assert forall|p: Seq<char>| #[trigger] is_on(w, tier, p) && w.files[p].tiers.can_lose(tier) implies exists|
            i: int,
        |
            0 <= i < tail.len() && (#[trigger] tail[i]).path == p by {
            let i = choose|i: int| 0 <= i < rest.len() && (#[trigger] rest[i]).path == p;
            assert(w.files[rest[0].path] == rest[0]);
            assert(tail[i - 1].path == p);
        }
        lemma_victims_first(tier, rest);
        lemma_cycle_evicts(env, k, w, tier, used, low, freed, tail, fuel)
    } else {
        let path = rest[0].path;
        let less = (fuel - 3) as nat;
        assert(is_on(w, tier, path));
        lemma_evict_one(env, k, w, tier, target, freed, rest, fuel);
        lemma_after_evict(w, tier, rest);
        let w1 = without_copy(w, tier, path);
        let more = sum_capped(freed, rest[0].size_bytes);
        let n = lemma_cycle_evicts(env, k + 3, w1, tier, used, low, more, rest.skip(1), less);
        let w2 = run_cycle_step(env, k + 3, w1, next_victim(tier, target, more, rest.skip(1)), less)->0;
        lemma_victims_first(tier, rest);
        let all = victims(tier, rest);
        assert(all.skip(1) =~= victims(tier, rest.skip(1)));
        assert(all[0] == rest[0]);
        assert forall|p: Seq<char>| p != path implies #[trigger] is_on(w1, tier, p) == is_on(w, tier, p) by {
            assert(w1.files.dom() == w.files.dom());
            assert(w1.files.contains_key(p) == w.files.contains_key(p));
        }
        lemma_first_left_grows(w, w1, w2, tier, all, n, low);
        n + 1
    }
}

/// The ranking of a list of the files on a tier has what the cycle looks at.
proof fn lemma_ranked_candidates(w: World, tier: Tier, files: Seq<(MetaView, u64)>)
    requires
        is_tier_list(w, tier, files),
    ensures
        candidates(w, tier, ranked(files)),
        ranked(files).len() == files.len(),
{
    crate::eviction::law_ranking_sorts(files);
    let order = eviction_order(keys_of(files));
    let all = ranked(files);
    assert forall|i: int| 0 <= i < all.len() implies is_on(w, tier, (#[trigger] all[i]).path)
        && w.files[all[i].path] == all[i] && 0 <= order[i] < files.len() && all[i] == files[order[i]].0 by {
        assert(all[i] == files[order[i]].0);
    }
    assert forall|i: int, j: int| 0 <= i < j < all.len() implies (#[trigger] all[i]).path != (
    #[trigger] all[j]).path by {
        assert(crate::eviction::before(keys_of(files), order[i], order[j]));
        assert(all[i] == files[order[i]].0 && all[j] == files[order[j]].0);
        assert(order[i] != order[j]);
        if order[i] < order[j] {
            assert(files[order[i]].0.path != files[order[j]].0.path);
        } else {
            assert(files[order[j]].0.path != files[order[i]].0.path);
        }
    }
    assert forall|p: Seq<char>| #[trigger] is_on(w, tier, p) && w.files[p].tiers.can_lose(tier) implies exists|i: int|
        0 <= i < all.len() && (#[trigger] all[i]).path == p by {
        let x = choose|x: int| 0 <= x < files.len() && (#[trigger] files[x]).0.path == p;
        assert(order.contains(x));
        let i = choose|i: int| 0 <= i < order.len() && order[i] == x;
        assert(all[i] == files[order[i]].0);
    }
}

/// In a filtered list the order is that of the list.
proof fn lemma_victims_in_order(tier: Tier, files: Seq<MetaView>, a: int, b: int) -> (r: (int, int))
    requires
        0 <= a < b < files.len(),
        files[a].tiers.can_lose(tier),
        files[b].tiers.can_lose(tier),
    ensures
        0 <= r.0 < r.1 < victims(tier, files).len(),
        victims(tier, files)[r.0] == files[a],
        victims(tier, files)[r.1] == files[b],
{
    let keep = |m: MetaView| m.tiers.can_lose(tier);
    let front = files.take(b);
    let back = files.skip(b);
    assert(files =~= front + back);
    Seq::filter_distributes_over_add(front, back, keep);
    front.lemma_filter_contains(keep, a);
    assert(front[a] == files[a]);
    let i = choose|i: int| 0 <= i < front.filter(keep).len() && front.filter(keep)[i] == files[a];
    lemma_victims_first(tier, back);
    assert(victims(tier, back)[0] == files[b]);
    (i, front.filter(keep).len() as int)
}

/// Files with different paths still have them once filtered.
proof fn lemma_victims_differ(tier: Tier, files: Seq<MetaView>, i: int, j: int)
    requires
        forall|a: int, b: int|
            0 <= a < b < files.len() ==> (#[trigger] files[a]).path != (#[trigger] files[b]).path,
        0 <= i < j < victims(tier, files).len(),
    ensures
        victims(tier, files)[i].path != victims(tier, files)[j].path,
    decreases files.len(),
{
    let tail = files.skip(1);
    if files.len() == 0 {
        reveal(Seq::filter);
    } else {
        lemma_victims_first(tier, files);
        assert forall|a: int, b: int| 0 <= a < b < tail.len() implies (#[trigger] tail[a]).path != (
        #[trigger] tail[b]).path by {
            assert(files[a + 1].path != files[b + 1].path);
        }
        let rest = victims(tier, tail);
        if !files[0].tiers.can_lose(tier) {
            lemma_victims_differ(tier, tail, i, j);
        } else if i > 0 {
            lemma_victims_differ(tier, tail, i - 1, j - 1);
        } else {
            assert(rest.contains(rest[j - 1]));
            tail.lemma_filter_contains_rev(|m: MetaView| m.tiers.can_lose(tier), rest[j - 1]);
            let b = choose|b: int| 0 <= b < tail.len() && tail[b] == rest[j - 1];
            assert(files[0].path != files[b + 1].path);
        }
    }
}

/// No file that has left the tier has a higher key than one that could have left and
/// stayed.
pub open spec fn coldest_left(w2: World, tier: Tier, files: Seq<(MetaView, u64)>) -> bool {
    forall|x: int, y: int|
        0 <= x < files.len() && 0 <= y < files.len() && !is_on(w2, tier, (#[trigger] files[x]).0.path)
            && is_on(w2, tier, (#[trigger] files[y]).0.path) && files[y].0.tiers.can_lose(tier)
            ==> files[x].1 <= files[y].1
}

proof fn lemma_coldest_left(w: World, w2: World, tier: Tier, files: Seq<(MetaView, u64)>, n: int, low: u64)
    requires
        is_tier_list(w, tier, files),
        first_left(w, w2, tier, victims(tier, ranked(files)), n, low),
    ensures
        coldest_left(w2, tier, files),
{
    crate::eviction::law_ranking_sorts(files);
    lemma_ranked_candidates(w, tier, files);
    let keys = keys_of(files);
    let order = eviction_order(keys);
    let all = ranked(files);
    let left = victims(tier, all);
    assert forall|x: int, y: int|
        0 <= x < files.len() && 0 <= y < files.len() && !is_on(w2, tier, (#[trigger] files[x]).0.path)
            && is_on(w2, tier, (#[trigger] files[y]).0.path) && files[y].0.tiers.can_lose(tier) implies files[x].1
        <= files[y].1 by {
        let p = files[x].0.path;
        assert(is_on(w, tier, p));
        let i = choose|i: int| 0 <= i < n && (#[trigger] left[i]).path == p;
        assert(left.contains(left[i]));
        all.lemma_filter_contains_rev(|m: MetaView| m.tiers.can_lose(tier), left[i]);
        all.lemma_filter_pred(|m: MetaView| m.tiers.can_lose(tier), i);
        let c = choose|c: int| 0 <= c < all.len() && all[c] == left[i];
        assert(order.contains(x) && order.contains(y));
        let a = choose|a: int| 0 <= a < order.len() && order[a] == x;
        let b = choose|b: int| 0 <= b < order.len() && order[b] == y;
        assert(all[a] == files[order[a]].0 && all[b] == files[order[b]].0);
        assert(a == c) by {
            if a < c {
                assert(all[a].path != all[c].path);
            } else if c < a {
                assert(all[c].path != all[a].path);
            }
        }
        if files[y].1 < files[x].1 {
            assert(keys[y] < keys[x]);
            if a < b {
                assert(crate::eviction::before(keys, order[a], order[b]));
            }
            assert(b < a);
            let (s, t) = lemma_victims_in_order(tier, all, b, a);
            if t < i {
                lemma_victims_differ(tier, all, t, i);
            } else if i < t {
                lemma_victims_differ(tier, all, i, t);
            }
            assert(left[s].path == files[y].0.path);
            assert(is_on(w, tier, files[y].0.path));
        }
    }
}

/// A cycle that has loaded the files on a tier, whatever list of them it got, evicts those
/// with the lowest keys first: if no request fails, the files that leave the tier are the
/// first so many of those that can be evicted, in the order of eviction. It stops when the
/// total is not above the low watermark or no file is left that can be evicted, and no
/// sooner than it has to: with the last file that left, the total would be above.
pub proof fn law_cycle_evicts_the_coldest(
    env: Env,
    k: nat,
    w: World,
    tier: Tier,
    low: u64,
    files: Seq<(MetaView, u64)>,
    now: i64,
    fuel: nat,
)
    requires
        healthy(env),
        w.indexed(),
        w.files.dom().finite(),
        masks_true(w),
        total_on(w, tier) <= u64::MAX,
        is_tier_list(w, tier, files),
        fuel >= 3 * files.len(),
    ensures
        ({
            let loading = CycleView::Loading { tier, target: excess(total_on(w, tier) as u64, low) };
            let step = cycle_step(loading, EventView::Ranked(Ok(files)), now);
            run_cycle_step(env, k, w, step, fuel) matches Some(w2) && {
                &&& low_enough(w2, tier, low)
                &&& coldest_left(w2, tier, files)
                &&& exists|n: int| first_left(w, w2, tier, victims(tier, ranked(files)), n, low)
            }
        }),
{
    let used = total_on(w, tier) as u64;
    lemma_ranked_candidates(w, tier, files);
    let n = lemma_cycle_evicts(env, k, w, tier, used, low, 0, ranked(files), fuel);
    let step = next_victim(tier, excess(used, low), 0, ranked(files));
    let w2 = run_cycle_step(env, k, w, step, fuel)->0;
    lemma_coldest_left(w, w2, tier, files, n, low);
}

/// A list of the files on a tier among some paths.
proof fn lemma_some_list(w: World, tier: Tier, paths: Set<Seq<char>>) -> (files: Seq<(MetaView, u64)>)
    requires
        w.indexed(),
        paths.finite(),
        forall|p: Seq<char>| #[trigger] paths.contains(p) ==> w.files.contains_key(p),
    ensures
        forall|i: int, j: int|
            0 <= i < j < files.len() ==> (#[trigger] files[i]).0.path != (#[trigger] files[j]).0.path,
        forall|i: int|
            0 <= i < files.len() ==> is_on(w, tier, (#[trigger] files[i]).0.path)
                && w.files[files[i].0.path] == files[i].0 && paths.contains(files[i].0.path),
        forall|p: Seq<char>|
            #[trigger] is_on(w, tier, p) && paths.contains(p) ==> exists|i: int|
                0 <= i < files.len() && (#[trigger] files[i]).0.path == p,
    decreases paths.len(),
{
    if paths.len() == 0 {
        assert forall|p: Seq<char>| #[trigger] is_on(w, tier, p) && paths.contains(p) implies false by {
            assert(paths =~= Set::empty());
        }
        Seq::empty()
    } else {
        let c = paths.choose();
        assert(paths.contains(c));
        let rest = lemma_some_list(w, tier, paths.remove(c));
        let files = if is_on(w, tier, c) {
            rest.push((w.files[c], 0u64))
        } else {
            rest
        };
        assert forall|p: Seq<char>| #[trigger] is_on(w, tier, p) && paths.contains(p) implies exists|i: int|
            0 <= i < files.len() && (#[trigger] files[i]).0.path == p by {
            if p == c {
                assert(files[rest.len() as int].0.path == p);
            } else {
                assert(paths.remove(c).contains(p));
                let i = choose|i: int| 0 <= i < rest.len() && (#[trigger] rest[i]).0.path == p;
                assert(files[i].0.path == p);
            }
        }
        files
    }
}

/// The metadata store can list the files on a tier.
proof fn lemma_tier_list(w: World, tier: Tier)
    requires
        w.indexed(),
        w.files.dom().finite(),
    ensures
        is_tier_list(w, tier, tier_list(w, tier)),
{
    let files = lemma_some_list(w, tier, w.files.dom());
    assert(is_tier_list(w, tier, files));
}

/// An eviction cycle in which no request fails brings a tier above its high watermark down
/// to the low one, the files with the lowest keys first, and no further than it has to. At
/// or below the high watermark nothing is done.
pub proof fn law_cycle_reaches_low_watermark(
    env: Env,
    k: nat,
    w: World,
    tier: Tier,
    wm: TierWatermarks,
    fuel: nat,
)
    requires
        healthy(env),
        w.indexed(),
        w.files.dom().finite(),
        masks_true(w),
        total_on(w, tier) <= u64::MAX,
        fuel >= 3 * tier_list(w, tier).len() + 2,
    ensures
        run_cycle(env, k, w, CycleView::Measuring { tier, wm }, ActionView::BytesOnTier { tier }, fuel) matches Some(
            w2,
        ) && {
            &&& is_tier_list(w, tier, tier_list(w, tier))
            &&& total_on(w, tier) <= wm.high_bytes ==> w2 == w
            &&& total_on(w, tier) > wm.high_bytes ==> {
                &&& low_enough(w2, tier, wm.low_bytes)
                &&& coldest_left(w2, tier, tier_list(w, tier))
                &&& exists|n: int|
                    first_left(
                        w,
                        w2,
                        tier,
                        victims(tier, ranked(tier_list(w, tier))),
                        n,
                        wm.low_bytes,
                    )
            }
        },
{
    let used = total_on(w, tier) as u64;
    let list = tier_list(w, tier);
    lemma_tier_list(w, tier);
    assert((env.faults)(k) is None && (env.faults)(k + 1) is None);
    if used > wm.high_bytes {
        let loading = CycleView::Loading { tier, target: excess(used, wm.low_bytes) };
        let load = ActionView::FilesOnTier { tier };
        let now = (env.clock)(k + 1);
        law_cycle_evicts_the_coldest(
            env,
            k + 2,
            w,
            tier,
            wm.low_bytes,
            list,
            now,
            (fuel - 2) as nat,
        );
        assert(run_cycle(env, k, w, CycleView::Measuring { tier, wm }, ActionView::BytesOnTier { tier }, fuel)
            == run_cycle(env, k + 1, w, loading, load, (fuel - 1) as nat));
        assert(run_cycle(env, k + 1, w, loading, load, (fuel - 1) as nat) == run_cycle_step(
            env,
            k + 2,
            w,
            cycle_step(loading, EventView::Ranked(Ok(list)), now),
            (fuel - 2) as nat,
        ));
    }
}

// ---------------------------------------------------------------------------
// What a cycle reports

/// The world when an eviction cycle that has come to `s`, and makes the request `a` as the
/// `k`-th, is over, and how many bytes it reports to have freed.
pub open spec fn run_cycle_report(env: Env, k: nat, w: World, s: CycleView, a: ActionView, fuel: nat) -> Option<(World, u64)>
    decreases fuel,
{
    if fuel == 0 {
        None
    } else {
        let (w2, e) = perform(env, k, w, a);
        match cycle_step(s, e, (env.clock)(k)) {
            CycleStepView::Done(freed) => Some((w2, freed)),
            CycleStepView::Next(s2, a2) => run_cycle_report(env, k + 1, w2, s2, a2, (fuel - 1) as nat),
        }
    }
}

/// Files that are on the tier with these sizes, each once.
spec fn still_on(w: World, tier: Tier, rest: Seq<MetaView>) -> bool {
    &&& forall|i: int, j: int|
        0 <= i < j < rest.len() ==> (#[trigger] rest[i]).path != (#[trigger] rest[j]).path
    &&& forall|i: int|
        0 <= i < rest.len() ==> is_on(w, tier, (#[trigger] rest[i]).path) && w.files[rest[i].path].size_bytes
            == rest[i].size_bytes
}

/// The cycle is at work on a file that is on the tier, with others behind it, and what was
/// freed is what the total has come down by.
spec fn accounts(w: World, tier: Tier, start: nat, s: CycleView, a: ActionView) -> bool {
    s matches CycleView::Evicting { tier: on, freed, rest, file, op, .. } && {
        let m = w.files[file.path];
        &&& on == tier
        &&& total_on(w, tier) + freed == start
        &&& still_on(w, tier, seq![file] + rest)
        &&& match op {
            RouterView::EvictMeta { path, tier: from } => path == file.path && from == tier && a == (
            ActionView::Lookup { path }),
            RouterView::EvictCopy { tier: from, id, tiers } => from == tier && id == m.id && tiers
                == m.tiers && a == (ActionView::Remove { tier, path: file.path }),
            RouterView::EvictMark => a == (ActionView::SetTiers {
                id: m.id,
                tiers: m.tiers.without(tier),
            }),
            _ => false,
        }
    }
}

/// How many requests the cycle still makes for the file at hand.
spec fn requests_left(s: CycleView) -> nat {
    match s {
        CycleView::Evicting { op: RouterView::EvictMeta { .. }, rest, .. } => 3 * rest.len() + 3,
        CycleView::Evicting { op: RouterView::EvictCopy { .. }, rest, .. } => 3 * rest.len() + 2,
        CycleView::Evicting { rest, .. } => 3 * rest.len() + 1,
        _ => 0,
    }
}

proof fn lemma_next_accounts(w: World, tier: Tier, start: nat, target: u64, freed: u64, rest: Seq<MetaView>)
    requires
        total_on(w, tier) + freed == start,
        still_on(w, tier, rest),
    ensures
        match next_victim(tier, target, freed, rest) {
            CycleStepView::Done(f) => total_on(w, tier) + f == start,
            CycleStepView::Next(s, a) => accounts(w, tier, start, s, a) && requests_left(s) <= 3
                * rest.len(),
        },
    decreases rest.len(),
{
    if freed < target && rest.len() > 0 {
        let tail = rest.skip(1);
        if !rest[0].tiers.can_lose(tier) {
            lemma_still_on_rest(w, tier, rest);
            lemma_next_accounts(w, tier, start, target, freed, tail);
        } else {
            assert(seq![rest[0]] + tail =~= rest);
        }
    }
}

proof fn lemma_still_on_rest(w: World, tier: Tier, rest: Seq<MetaView>)
    requires
        still_on(w, tier, rest),
        rest.len() > 0,
    ensures
        still_on(w, tier, rest.skip(1)),
{
    let tail = rest.skip(1);
    assert forall|i: int, j: int| 0 <= i < j < tail.len() implies (#[trigger] tail[i]).path != (
    #[trigger] tail[j]).path by {
        assert(rest[i + 1].path != rest[j + 1].path);
    }
    assert forall|i: int| 0 <= i < tail.len() implies is_on(w, tier, (#[trigger] tail[i]).path)
        && w.files[tail[i].path].size_bytes == tail[i].size_bytes by {
        assert(rest[i + 1] == tail[i]);
    }
}

/// Taking the tier out of the mask of the file takes its size off the total.
proof fn lemma_marked(env: Env, k: nat, w: World, tier: Tier, file: MetaView, rest: Seq<MetaView>)
    requires
        w.indexed(),
        w.files.dom().finite(),
        still_on(w, tier, seq![file] + rest),
        (env.faults)(k) is None,
    ensures
        ({
            let m = w.files[file.path];
            let set = ActionView::SetTiers { id: m.id, tiers: m.tiers.without(tier) };
            let w2 = perform(env, k, w, set).0;
            &&& w2.indexed()
            &&& w2.files.dom() == w.files.dom()
            &&& total_on(w2, tier) + file.size_bytes == total_on(w, tier)
            &&& still_on(w2, tier, rest)
        }),
{
    let all = seq![file] + rest;
    let path = file.path;
    let m = w.files[path];
    let set = ActionView::SetTiers { id: m.id, tiers: m.tiers.without(tier) };
    let w2 = perform(env, k, w, set).0;
    assert(all[0] == file);
    assert(is_on(w, tier, path));
    crate::tier::law_clear(m.tiers, tier);
    assert(!m.tiers.without(tier).holds(tier));
    assert(w2.files.dom() =~= w.files.dom());
    assert forall|q: Seq<char>| q != path && #[trigger] w.files.contains_key(q) implies w2.files[q] == w.files[q] by {
        assert(w.files[q].id != m.id);
    }
    assert forall|p: Seq<char>| #[trigger] w2.files.contains_key(p) implies w2.files[p].path == p by {
        assert(w.files.contains_key(p));
    }
    assert forall|p: Seq<char>, q: Seq<char>|
        #[trigger] w2.files.contains_key(p) && #[trigger] w2.files.contains_key(q) && w2.files[p].id
            == w2.files[q].id implies p == q by {
        assert(w.files.contains_key(p) && w.files.contains_key(q));
    }
    lemma_total_drops(w, w2, tier, path);
    assert(all.skip(1) =~= rest);
    lemma_still_on_rest(w, tier, all);
    assert forall|i: int| 0 <= i < rest.len() implies is_on(w2, tier, (#[trigger] rest[i]).path)
        && w2.files[rest[i].path].size_bytes == rest[i].size_bytes by {
        assert(all[i + 1] == rest[i]);
        assert(all[0].path != all[i + 1].path);
        assert(w.files.contains_key(rest[i].path));
    }
}

/// What is on a tier by the entries does not depend on what the tiers hold.
proof fn lemma_total_by_entries(w: World, w2: World, tier: Tier)
    requires
        w2.files == w.files,
    ensures
        total_on(w2, tier) == total_on(w, tier),
        forall|rest: Seq<MetaView>| still_on(w, tier, rest) ==> #[trigger] still_on(w2, tier, rest),
{
    let before = |q: Seq<char>|
        if is_on(w, tier, q) {
            w.files[q].size_bytes as nat
        } else {
            0
        };
    let after = |q: Seq<char>|
        if is_on(w2, tier, q) {
            w2.files[q].size_bytes as nat
        } else {
            0
        };
    lemma_sum_same(w.files.dom(), before, after);
    assert forall|rest: Seq<MetaView>| still_on(w, tier, rest) implies #[trigger] still_on(w2, tier, rest) by {
        assert forall|i: int| 0 <= i < rest.len() implies is_on(w2, tier, (#[trigger] rest[i]).path)
            && w2.files[rest[i].path].size_bytes == rest[i].size_bytes by {
            assert(is_on(w, tier, rest[i].path));
        }
    }
}

/// One request of a cycle keeps the account.
proof fn lemma_account_step(env: Env, k: nat, w: World, tier: Tier, start: nat, s: CycleView, a: ActionView)
    requires
        w.indexed(),
        w.files.dom().finite(),
        start <= u64::MAX,
        accounts(w, tier, start, s, a),
    ensures
        ({
            let (w2, e) = perform(env, k, w, a);
            &&& w2.indexed()
            &&& w2.files.dom().finite()
            &&& match cycle_step(s, e, (env.clock)(k)) {
                CycleStepView::Done(f) => total_on(w2, tier) + f == start,
                CycleStepView::Next(s2, a2) => accounts(w2, tier, start, s2, a2) && requests_left(s2)
                    < requests_left(s),
            }
        }),
{
    let (w2, e) = perform(env, k, w, a);
    assert((env.faults)(k) is None || (env.faults)(k) is Some);
    if let CycleView::Evicting { target, freed, rest, file, op, .. } = s {
        let all = seq![file] + rest;
        assert(all[0] == file);
        assert(is_on(w, tier, file.path));
        assert(all.skip(1) =~= rest);
        lemma_still_on_rest(w, tier, all);
        match op {
            RouterView::EvictMark => {
                if (env.faults)(k) is None {
                    lemma_marked(env, k, w, tier, file, rest);
                    assert(freed + file.size_bytes <= start);
                    let more = sum_capped(freed, file.size_bytes);
                    assert(more == freed + file.size_bytes);
                    lemma_next_accounts(w2, tier, start, target, more, rest);
                } else {
                    lemma_next_accounts(w, tier, start, target, freed, rest);
                }
            },
            _ => {
                assert(w2.files == w.files);
                lemma_total_by_entries(w, w2, tier);
                assert(still_on(w2, tier, all));
                assert(still_on(w2, tier, rest));
                lemma_next_accounts(w2, tier, start, target, freed, rest);
                assert(w2.indexed());
            },
        }
    }
}

proof fn lemma_account_run(env: Env, k: nat, w: World, tier: Tier, start: nat, s: CycleView, a: ActionView, fuel: nat)
    requires
        w.indexed(),
        w.files.dom().finite(),
        start <= u64::MAX,
        accounts(w, tier, start, s, a),
        fuel >= requests_left(s),
    ensures
        run_cycle_report(env, k, w, s, a, fuel) matches Some(end) && total_on(end.0, tier) + end.1 == start,
    decreases fuel,
{
    lemma_account_step(env, k, w, tier, start, s, a);
    let (w2, e) = perform(env, k, w, a);
    if let CycleStepView::Next(s2, a2) = cycle_step(s, e, (env.clock)(k)) {
        lemma_account_run(env, k + 1, w2, tier, start, s2, a2, (fuel - 1) as nat);
    }
}

/// A cycle reports what it freed: whatever fails, it ends, and the total size of the files
/// on the tier has come down by the number of bytes that it reports.
pub proof fn law_cycle_reports_what_it_freed(env: Env, k: nat, w: World, tier: Tier, wm: TierWatermarks, fuel: nat)
    requires
        w.indexed(),
        w.files.dom().finite(),
        total_on(w, tier) <= u64::MAX,
        fuel >= 3 * tier_list(w, tier).len() + 2,
    ensures
        run_cycle_report(
            env,
            k,
            w,
            CycleView::Measuring { tier, wm },
            ActionView::BytesOnTier { tier },
            fuel,
        ) matches Some(end) && total_on(end.0, tier) + end.1 == total_on(w, tier),
{
    let list = tier_list(w, tier);
    let start = total_on(w, tier);
    lemma_tier_list(w, tier);
    lemma_ranked_candidates(w, tier, list);
    crate::eviction::law_ranking_sorts(list);
    assert((env.faults)(k) is None || (env.faults)(k) is Some);
    assert((env.faults)(k + 1) is None || (env.faults)(k + 1) is Some);
    let measuring = CycleView::Measuring { tier, wm };
    let first = ActionView::BytesOnTier { tier };
    if (env.faults)(k) is None && start > wm.high_bytes {
        let target = excess(start as u64, wm.low_bytes);
        let loading = CycleView::Loading { tier, target };
        let load = ActionView::FilesOnTier { tier };
        assert(run_cycle_report(env, k, w, measuring, first, fuel) == run_cycle_report(
            env,
            k + 1,
            w,
            loading,
            load,
            (fuel - 1) as nat,
        ));
        if (env.faults)(k + 1) is None {
            let rest = ranked(list);
            assert(still_on(w, tier, rest));
            lemma_next_accounts(w, tier, start, target, 0, rest);
            if let CycleStepView::Next(s, a) = next_victim(tier, target, 0, rest) {
                lemma_account_run(env, k + 2, w, tier, start, s, a, (fuel - 2) as nat);
            }
        }
    }
}

} // verus!
