//! The client's read cache: where a content lies, by its hash, and what is evicted when
//! the cache has grown too large.

use crate::local::joined;
use crate::local::join_text;
use crate::text::chars_of;
use crate::text::string_of;
use vstd::prelude::*;

verus! {

/// A character that UTF-8 writes in one byte.
pub open spec fn one_byte(c: char) -> bool {
    c < '\u{80}'
}

/// A character that UTF-8 writes in two bytes.
pub open spec fn two_bytes(c: char) -> bool {
    '\u{80}' <= c < '\u{800}'
}

/// No character of a hash lies across the end of its second byte.
pub open spec fn splits_at_two(sha256: Seq<char>) -> bool {
    ||| sha256.len() == 0
    ||| two_bytes(sha256[0])
    ||| one_byte(sha256[0]) && (sha256.len() > 1 ==> one_byte(sha256[1]))
}

/// The first two bytes of a hash that has a character boundary there, or all of a
/// shorter one.
pub open spec fn hash_head(sha256: Seq<char>) -> Seq<char> {
    sha256.take(
        if sha256.len() < 2 {
            sha256.len() as int
        } else if two_bytes(sha256[0]) {
            1
        } else {
            2
        },
    )
}

/// What follows the first two bytes of a hash.
pub open spec fn hash_tail(sha256: Seq<char>) -> Seq<char> {
    sha256.skip(hash_head(sha256).len() as int)
}

/// Where the content with a hash lies: in a directory named by the first two bytes,
/// so that no directory has too many files.
pub open spec fn cached_at(root: Seq<char>, sha256: Seq<char>) -> Seq<char> {
    joined(joined(root, hash_head(sha256)), hash_tail(sha256))
}

/// A cache of contents by their hashes.
#[derive(Debug, PartialEq, Eq)]
pub struct LocalCache {
    root: String,
    max_bytes: u64,
}

/// The mathematical value of a [`LocalCache`].
pub struct CacheView {
    pub root: Seq<char>,
    pub max_bytes: u64,
}

impl View for LocalCache {
    type V = CacheView;

    closed spec fn view(&self) -> CacheView {
        CacheView { root: self.root@, max_bytes: self.max_bytes }
    }
}

impl Clone for LocalCache {
    fn clone(&self) -> (r: Self)
        ensures
            r == *self,
    {
        LocalCache { root: self.root.clone(), max_bytes: self.max_bytes }
    }
}

impl LocalCache {
    /// The cache in a directory, with at most this many bytes.
    pub fn new(root: String, max_bytes: u64) -> (r: LocalCache)
        ensures
            r@ == (CacheView { root: root@, max_bytes }),
    {
        LocalCache { root, max_bytes }
    }

    /// The directory of the cache.
    pub fn root(&self) -> (r: &str)
        ensures
            r@ == self@.root,
    {
        self.root.as_str()
    }

    /// Where the content with a hash lies.
    pub fn cache_path(&self, sha256: &str) -> (r: String)
        requires
            splits_at_two(sha256@),
        ensures
            r@ == cached_at(self@.root, sha256@),
    {
        let v = chars_of(sha256);
        let cut: usize = if v.len() < 2 {
            v.len()
        } else if v[0] >= '\u{80}' && '\u{800}' > v[0] {
            1
        } else {
            2
        };
        let head = string_of(&v, 0, cut);
        let tail = string_of(&v, cut, v.len());
        assert(head@ =~= hash_head(sha256@));
        assert(tail@ =~= hash_tail(sha256@));
        let dir = join_text(self.root.as_str(), head.as_str());
        join_text(dir.as_str(), tail.as_str())
    }

    /// The hash under which a content is stored, and where it lies.
    pub fn place(&self, data: &[u8]) -> (r: (String, String))
        requires
            crate::digest::hashable(data@.len()),
        ensures
            r.0@ == crate::digest::content_hash(data@),
            r.1@ == cached_at(self@.root, crate::digest::content_hash(data@)),
    {
        let hash = crate::digest::hash_bytes(data);
        proof {
            crate::digest::law_hash_is_lower_hex(data@);
        }
        let at = self.cache_path(hash.as_str());
        (hash, at)
    }

    /// Starts an eviction of a cache that holds these files, `used` bytes in all: when
    /// that is too much, the oldest are removed first. Each file is given by when it was
    /// modified and its size.
    pub fn evict_if_needed(&self, used: u64, files: Vec<(u64, u64)>) -> (r: EvictStep)
        ensures
            r@ == next_removal(
                used,
                self@.max_bytes,
                0,
                oldest_first(files@),
                sizes_of(files@),
            ),
    {
        if used <= self.max_bytes {
            return EvictStep::Done;
        }
        let mut times: Vec<u64> = Vec::new();
        let mut sizes: Vec<u64> = Vec::new();
        let mut i: usize = 0;
        while i < files.len()
            invariant
                i <= files@.len(),
                times@ == times_of(files@).take(i as int),
                sizes@ == sizes_of(files@).take(i as int),
            decreases files.len() - i,
        {
            times.push(files[i].0);
            sizes.push(files[i].1);
            i += 1;
            assert(times@ =~= times_of(files@).take(i as int));
            assert(sizes@ =~= sizes_of(files@).take(i as int));
        }
        assert(times@ =~= times_of(files@));
        assert(sizes@ =~= sizes_of(files@));
        let order = crate::eviction::sorted_positions(&times);
        assert(crate::eviction::ints(order@).skip(0) =~= crate::eviction::ints(order@));
        removal_from(used, self.max_bytes, 0, order, sizes, 0)
    }
}

// ---------------------------------------------------------------------------
// Eviction

/// When the files were modified.
pub open spec fn times_of(files: Seq<(u64, u64)>) -> Seq<u64> {
    files.map_values(|f: (u64, u64)| f.0)
}

/// The sizes of the files.
pub open spec fn sizes_of(files: Seq<(u64, u64)>) -> Seq<u64> {
    files.map_values(|f: (u64, u64)| f.1)
}

/// The positions of the files, the oldest first.
pub open spec fn oldest_first(files: Seq<(u64, u64)>) -> Seq<int> {
    crate::eviction::eviction_order(times_of(files))
}

/// What is left of `used` bytes once `freed` of them are gone.
pub open spec fn left_of(used: u64, freed: u64) -> u64 {
    if freed <= used {
        (used - freed) as u64
    } else {
        0
    }
}

/// The total of some sizes, or the greatest number where that is smaller.
pub open spec fn total_of(sizes: Seq<u64>) -> u64
    decreases sizes.len(),
{
    if sizes.len() == 0 {
        0
    } else {
        crate::s3_uploader::sum_capped(total_of(sizes.drop_last()), sizes.last())
    }
}

/// The total of some sizes.
pub fn total_bytes(sizes: &Vec<u64>) -> (r: u64)
    ensures
        r == total_of(sizes@),
{
    let mut total: u64 = 0;
    let mut i: usize = 0;
    assert(sizes@.take(0) =~= Seq::empty());
    while i < sizes.len()
        invariant
            i <= sizes@.len(),
            total == total_of(sizes@.take(i as int)),
        decreases sizes.len() - i,
    {
        assert(sizes@.take(i + 1).drop_last() =~= sizes@.take(i as int));
        total = total.saturating_add(sizes[i]);
        i += 1;
    }
    assert(sizes@.take(sizes@.len() as int) =~= sizes@);
    total
}

/// Where an eviction stands: the file whose removal was asked for, and those behind it.
pub struct RemovalView {
    pub used: u64,
    pub limit: u64,
    pub freed: u64,
    pub index: int,
    pub rest: Seq<int>,
    pub sizes: Seq<u64>,
}

/// The outcome of one step of an eviction.
pub enum EvictStepView {
    /// The removal of the file at the index is asked for.
    Next(RemovalView),
    /// The eviction is over.
    Done,
}

/// The step to the next file, unless the cache is small enough.
pub open spec fn next_removal(used: u64, limit: u64, freed: u64, rest: Seq<int>, sizes: Seq<u64>) -> EvictStepView {
    if rest.len() == 0 || left_of(used, freed) <= limit {
        EvictStepView::Done
    } else {
        EvictStepView::Next(
            RemovalView { used, limit, freed, index: rest[0], rest: rest.skip(1), sizes },
        )
    }
}

/// What an eviction does once it is known whether the file was removed.
pub open spec fn removal_step(s: RemovalView, removed: bool) -> EvictStepView {
    next_removal(
        s.used,
        s.limit,
        if removed {
            crate::s3_uploader::sum_capped(s.freed, s.sizes[s.index])
        } else {
            s.freed
        },
        s.rest,
        s.sizes,
    )
}

/// An eviction in progress.
#[derive(Debug, PartialEq, Eq)]
pub struct Removal {
    used: u64,
    limit: u64,
    freed: u64,
    order: Vec<usize>,
    sizes: Vec<u64>,
    at: usize,
}

impl View for Removal {
    type V = RemovalView;

    closed spec fn view(&self) -> RemovalView {
        RemovalView {
            used: self.used,
            limit: self.limit,
            freed: self.freed,
            index: self.order@[self.at as int] as int,
            rest: crate::eviction::ints(self.order@).skip(self.at + 1),
            sizes: self.sizes@,
        }
    }
}

/// The outcome of one step of an eviction.
#[derive(Debug, PartialEq, Eq)]
pub enum EvictStep {
    /// The removal of a file is asked for.
    Next(Removal),
    /// The eviction is over.
    Done,
}

impl View for EvictStep {
    type V = EvictStepView;

    open spec fn view(&self) -> EvictStepView {
        match self {
            EvictStep::Next(s) => EvictStepView::Next(s@),
            EvictStep::Done => EvictStepView::Done,
        }
    }
}

fn removal_from(used: u64, limit: u64, freed: u64, order: Vec<usize>, sizes: Vec<u64>, at: usize) -> (r: EvictStep)
    requires
        at <= order@.len(),
        forall|k: int| 0 <= k < order@.len() ==> #[trigger] order@[k] < sizes@.len(),
    ensures
        r@ == next_removal(
            used,
            limit,
            freed,
            crate::eviction::ints(order@).skip(at as int),
            sizes@,
        ),
{
    if at >= order.len() || used.saturating_sub(freed) <= limit {
        return EvictStep::Done;
    }
    proof {
        let all = crate::eviction::ints(order@);
        assert(all.skip(at as int).skip(1) =~= all.skip(at + 1));
    }
    EvictStep::Next(Removal { used, limit, freed, order, sizes, at })
}

impl Removal {
    /// The file at hand is one of the cache's.
    #[verifier::type_invariant]
    spec fn bounded(self) -> bool {
        &&& self.at < self.order@.len()
        &&& forall|k: int| 0 <= k < self.order@.len() ==> #[trigger] self.order@[k] < self.sizes@.len()
    }

    /// The position of the file whose removal is asked for.
    pub fn index(&self) -> (r: usize)
        ensures
            r == self@.index,
            r < self@.sizes.len(),
    {
        proof {
            use_type_invariant(self);
        }
        self.order[self.at]
    }

    /// Goes on once it is known whether the file was removed.
    pub fn step(self, removed: bool) -> (r: EvictStep)
        ensures
            r@ == removal_step(self@, removed),
    {
        proof {
            use_type_invariant(&self);
        }
        let Removal { used, limit, freed, order, sizes, at } = self;
        assert(at < order.len());
        let freed: u64 = if removed {
            freed.saturating_add(sizes[order[at]])
        } else {
            freed
        };
        removal_from(used, limit, freed, order, sizes, at + 1)
    }
}

// ---------------------------------------------------------------------------
// Laws of the cache

/// Different hashes lie at different places, if they have more than two bytes and no
/// slashes, as content hashes do.
pub proof fn law_cache_places_differ(root: Seq<char>, a: Seq<char>, b: Seq<char>)
    requires
        splits_at_two(a),
        splits_at_two(b),
        hash_tail(a).len() > 0,
        hash_tail(b).len() > 0,
        !a.contains('/'),
        !b.contains('/'),
        cached_at(root, a) == cached_at(root, b),
    ensures
        a == b,
{
    lemma_cached_at(root, a);
    lemma_cached_at(root, b);
    let n = under(root).len() as int;
    let c = cached_at(root, a);
    let i = hash_head(a).len() as int;
    let j = hash_head(b).len() as int;
    assert(c[n + i] == '/' && c[n + j] == '/');
    assert(c[n] == a[0] && c[n] == b[0]);
    assert(i == 2 ==> c[n + 1] == a[1]);
    assert(j == 2 ==> c[n + 1] == b[1]);
    assert(a.take(i) =~= c.subrange(n, n + i));
    assert(b.take(j) =~= c.subrange(n, n + j));
    assert(a.skip(i) =~= c.subrange(n + i + 1, c.len() as int));
    assert(b.skip(j) =~= c.subrange(n + j + 1, c.len() as int));
    assert(a =~= a.take(i) + a.skip(i));
    assert(b =~= b.take(j) + b.skip(j));
}

/// A directory with the slash behind it.
spec fn under(root: Seq<char>) -> Seq<char> {
    if root.len() > 0 && root.last() != '/' {
        root + seq!['/']
    } else {
        root
    }
}

proof fn lemma_cached_at(root: Seq<char>, a: Seq<char>)
    requires
        hash_tail(a).len() > 0,
        !a.contains('/'),
    ensures
        forall|i: int| 0 <= i < a.len() ==> a[i] != '/',
        cached_at(root, a) == under(root) + hash_head(a) + seq!['/'] + hash_tail(a),
{
    assert forall|i: int| 0 <= i < a.len() implies a[i] != '/' by {
        assert(a.contains(a[i]));
    }
    let dir = joined(root, hash_head(a));
    assert(dir.last() == hash_head(a).last());
    assert(hash_tail(a)[0] == a[hash_head(a).len() as int]);
    assert(cached_at(root, a) =~= under(root) + hash_head(a) + seq!['/'] + hash_tail(a));
}

/// How much an eviction has freed in the end, if every removal succeeds.
pub open spec fn freed_in_all(used: u64, limit: u64, freed: u64, rest: Seq<int>, sizes: Seq<u64>) -> u64
    decreases rest.len(),
{
    match next_removal(used, limit, freed, rest, sizes) {
        EvictStepView::Done => freed,
        EvictStepView::Next(s) => if s.rest.len() < rest.len() {
            freed_in_all(
                used,
                limit,
                crate::s3_uploader::sum_capped(freed, sizes[s.index]),
                s.rest,
                sizes,
            )
        } else {
            freed
        },
    }
}

/// What has been freed once all the files are gone.
pub open spec fn freed_by(freed: u64, rest: Seq<int>, sizes: Seq<u64>) -> u64
    decreases rest.len(),
{
    if rest.len() == 0 {
        freed
    } else {
        freed_by(crate::s3_uploader::sum_capped(freed, sizes[rest[0]]), rest.skip(1), sizes)
    }
}

/// A cache is evicted until it is small enough, and no further: a removal is asked for
/// only when more is left than the limit allows, and if every removal succeeds, no more
/// than that is left in the end, unless all the files together are too few.
pub proof fn law_cache_shrinks_to_limit(used: u64, limit: u64, freed: u64, rest: Seq<int>, sizes: Seq<u64>)
    ensures
        next_removal(used, limit, freed, rest, sizes) is Next <==> rest.len() > 0 && left_of(used, freed)
            > limit,
        left_of(used, freed_in_all(used, limit, freed, rest, sizes)) <= limit || freed_in_all(
            used,
            limit,
            freed,
            rest,
            sizes,
        ) == freed_by(freed, rest, sizes),
    decreases rest.len(),
{
    if let EvictStepView::Next(s) = next_removal(used, limit, freed, rest, sizes) {
        law_cache_shrinks_to_limit(
            used,
            limit,
            crate::s3_uploader::sum_capped(freed, sizes[s.index]),
            s.rest,
            sizes,
        );
    }
}

/// The sum of some sizes.
pub open spec fn sum_of_sizes(sizes: Seq<u64>) -> nat
    decreases sizes.len(),
{
    if sizes.len() == 0 {
        0
    } else {
        sum_of_sizes(sizes.drop_last()) + sizes.last() as nat
    }
}

/// The total of some sizes is their sum, if that can be a size, and else the greatest size.
pub proof fn law_total_is_the_sum(sizes: Seq<u64>)
    ensures
        sum_of_sizes(sizes) <= u64::MAX ==> total_of(sizes) == sum_of_sizes(sizes),
        sum_of_sizes(sizes) > u64::MAX ==> total_of(sizes) == u64::MAX,
    decreases sizes.len(),
{
    if sizes.len() > 0 {
        law_total_is_the_sum(sizes.drop_last());
    }
}

/// The files whose removal an eviction asks for, in order, if `ok` says which of the
/// removals succeed.
pub open spec fn asked_for(step: EvictStepView, ok: spec_fn(int) -> bool, fuel: nat) -> Seq<int>
    decreases fuel,
{
    match step {
        EvictStepView::Done => Seq::empty(),
        EvictStepView::Next(s) => if fuel == 0 {
            Seq::empty()
        } else {
            seq![s.index] + asked_for(removal_step(s, ok(s.index)), ok, (fuel - 1) as nat)
        },
    }
}

/// The total size of those of some files whose removal succeeds.
pub open spec fn removed_bytes(files: Seq<(u64, u64)>, at: Seq<int>, ok: spec_fn(int) -> bool) -> nat
    decreases at.len(),
{
    if at.len() == 0 {
        0
    } else {
        removed_bytes(files, at.drop_last(), ok) + if ok(at.last()) {
            files[at.last()].1 as nat
        } else {
            0
        }
    }
}

/// Enough is gone: what is left of the cache is within the limit.
pub open spec fn small_enough(used: u64, limit: u64, gone: nat) -> bool {
    used <= limit + gone
}

proof fn lemma_asked_for(
    files: Seq<(u64, u64)>,
    used: u64,
    limit: u64,
    order: Seq<int>,
    i: int,
    freed: u64,
    ok: spec_fn(int) -> bool,
) -> (n: int)
    requires
        0 <= i <= order.len(),
        forall|j: int| 0 <= j < order.len() ==> 0 <= #[trigger] order[j] < files.len(),
        removed_bytes(files, order.take(i), ok) <= u64::MAX ==> freed == removed_bytes(
            files,
            order.take(i),
            ok,
        ),
        removed_bytes(files, order.take(i), ok) > u64::MAX ==> freed == u64::MAX,
    ensures
        i <= n <= order.len(),
        asked_for(
            next_removal(used, limit, freed, order.skip(i), sizes_of(files)),
            ok,
            (order.len() - i) as nat,
        ) == order.subrange(i, n),
        n < order.len() ==> small_enough(used, limit, removed_bytes(files, order.take(n), ok)),
        i < n ==> !small_enough(used, limit, removed_bytes(files, order.take(n - 1), ok)),
    decreases order.len() - i,
{
    let rest = order.skip(i);
    let gone = removed_bytes(files, order.take(i), ok);
    assert(left_of(used, freed) <= limit <==> small_enough(used, limit, gone));
    if rest.len() == 0 || left_of(used, freed) <= limit {
        assert(order.subrange(i, i) =~= Seq::empty());
        i
    } else {
        let c = order[i];
        assert(rest[0] == c);
        assert(rest.skip(1) =~= order.skip(i + 1));
        assert(order.take(i + 1).drop_last() =~= order.take(i));
        assert(order.take(i + 1).last() == c);
        assert(sizes_of(files)[c] == files[c].1);
        let more = if ok(c) {
            crate::s3_uploader::sum_capped(freed, files[c].1)
        } else {
            freed
        };
        let n = lemma_asked_for(files, used, limit, order, i + 1, more, ok);
        assert(order.subrange(i, n) =~= seq![c] + order.subrange(i + 1, n));
        n
    }
}

/// The oldest leave the cache first: whichever removals succeed, no file whose removal is
/// asked for is newer than one that is left alone, each is asked for once, and one more is
/// asked for just as long as what is left is above the limit and there are files.
pub proof fn law_cache_evicts_the_oldest(files: Seq<(u64, u64)>, used: u64, limit: u64, ok: spec_fn(int) -> bool)
    ensures
        ({
            let asked = asked_for(
                next_removal(used, limit, 0, oldest_first(files), sizes_of(files)),
                ok,
                files.len(),
            );
            &&& asked.no_duplicates()
            &&& forall|a: int| 0 <= a < asked.len() ==> 0 <= #[trigger] asked[a] < files.len()
            &&& forall|a: int, j: int|
                0 <= a < asked.len() && 0 <= j < files.len() && !asked.contains(j) ==> (
                #[trigger] files[asked[a]]).0 <= (#[trigger] files[j]).0
            &&& asked.len() < files.len() ==> small_enough(used, limit, removed_bytes(files, asked, ok))
            &&& asked.len() > 0 ==> !small_enough(
                used,
                limit,
                removed_bytes(files, asked.drop_last(), ok),
            )
        }),
{
    let keys = times_of(files);
    let order = oldest_first(files);
    let pairs = Seq::new(files.len(), |i: int| (arbitrary::<crate::types::MetaView>(), files[i].0));
    crate::eviction::law_ranking_sorts(pairs);
    assert(crate::eviction::keys_of(pairs) =~= keys);
    assert(order.skip(0) =~= order);
    assert(order.take(0) =~= Seq::empty());
    assert forall|j: int| 0 <= j < order.len() implies 0 <= #[trigger] order[j] < files.len() by {}
    let n = lemma_asked_for(files, used, limit, order, 0, 0, ok);
    let asked = order.subrange(0, n);
    assert(asked =~= order.take(n));
    assert forall|a: int, b: int| 0 <= a < b < asked.len() implies asked[a] != asked[b] by {
        assert(crate::eviction::before(keys, order[a], order[b]));
    }
    assert forall|a: int, j: int| 0 <= a < asked.len() && 0 <= j < files.len() && !asked.contains(j) implies (
    #[trigger] files[asked[a]]).0 <= (#[trigger] files[j]).0 by {
        assert(order.contains(j));
        let b = choose|b: int| 0 <= b < order.len() && order[b] == j;
        if b < n {
            assert(asked[b] == j);
        }
        assert(crate::eviction::before(keys, order[a], order[b]));
    }
    if n > 0 {
        assert(asked.drop_last() =~= order.take(n - 1));
    }
}

/// The place of a content is made of its hash: the first two bytes name a directory below
/// the cache's, and the rest the file in it, if the hash has only one-byte characters other
/// than slashes and more than two of them, as content hashes have.
pub proof fn law_cache_place_spells_the_hash(root: Seq<char>, sha256: Seq<char>)
    requires
        sha256.len() > 2,
        forall|i: int| 0 <= i < sha256.len() ==> one_byte(#[trigger] sha256[i]) && sha256[i] != '/',
        root.len() > 0,
        root.last() != '/',
    ensures
        splits_at_two(sha256),
        cached_at(root, sha256) == root + seq!['/', sha256[0], sha256[1], '/'] + sha256.skip(2),
{
    let head = hash_head(sha256);
    assert(one_byte(sha256[0]) && one_byte(sha256[1]));
    assert(head =~= seq![sha256[0], sha256[1]]);
    assert(hash_tail(sha256) =~= sha256.skip(2));
    assert(hash_tail(sha256)[0] == sha256[2]);
    assert(joined(root, head) =~= root + seq!['/'] + head);
    assert(cached_at(root, sha256) =~= root + seq!['/', sha256[0], sha256[1], '/'] + sha256.skip(2));
}

} // verus!
