//! Contents and entries that benchmarks are seeded with.

use crate::path::VfsPath;
use crate::tier::Tier;
use crate::tier::TierBitmask;
use crate::types::FileMetadata;
use crate::types::MetaView;
use vstd::prelude::*;

verus! {

/// 4 KiB of one byte.
pub fn payload_4k(fill: u8) -> (r: Vec<u8>)
    ensures
        r@ == Seq::new(4096, |i: int| fill),
{
    let r = vec![fill; 4096];
    assert(r@ =~= Seq::new(4096, |i: int| fill));
    r
}

/// 64 MiB of one byte.
pub fn payload_64m(fill: u8) -> (r: Vec<u8>)
    ensures
        r@ == Seq::new(67_108_864, |i: int| fill),
{
    let r = vec![fill; 67_108_864];
    assert(r@ =~= Seq::new(67_108_864, |i: int| fill));
    r
}

/// The mask with more tiers in it.
pub open spec fn with_all(mask: TierBitmask, tiers: Seq<Tier>) -> TierBitmask
    decreases tiers.len(),
{
    if tiers.len() == 0 {
        mask
    } else {
        with_all(mask, tiers.drop_last()).with(tiers.last())
    }
}

/// The mask of a seeded file: its own and the extra tiers.
pub fn seeded_mask(mask: TierBitmask, extra_tiers: &Vec<Tier>) -> (r: TierBitmask)
    ensures
        r == with_all(mask, extra_tiers@),
        forall|t: Tier| #[trigger] r.holds(t) <==> mask.holds(t) || extra_tiers@.contains(t),
{
    let mut m = mask;
    let mut i: usize = 0;
    assert(extra_tiers@.take(0) =~= Seq::empty());
    while i < extra_tiers.len()
        invariant
            i <= extra_tiers@.len(),
            m == with_all(mask, extra_tiers@.take(i as int)),
            forall|t: Tier|
                #[trigger] m.holds(t) <==> mask.holds(t) || extra_tiers@.take(i as int).contains(t),
        decreases extra_tiers.len() - i,
    {
        assert(extra_tiers@.take(i + 1).drop_last() =~= extra_tiers@.take(i as int));
        let ghost front = extra_tiers@.take(i as int);
        let ghost more = extra_tiers@.take(i + 1);
        m.set(extra_tiers[i]);
        proof {
            assert(more =~= front.push(extra_tiers@[i as int]));
            assert forall|t: Tier| more.contains(t) <==> front.contains(t) || t == extra_tiers@[i as int] by {
                if front.contains(t) {
                    let j = choose|j: int| 0 <= j < front.len() && front[j] == t;
                    assert(more[j] == t);
                }
                assert(more[i as int] == extra_tiers@[i as int]);
                if more.contains(t) {
                    let j = choose|j: int| 0 <= j < more.len() && more[j] == t;
                    if j < i {
                        assert(front[j] == t);
                    }
                }
            }
        }
        i += 1;
    }
    assert(extra_tiers@.take(extra_tiers@.len() as int) =~= extra_tiers@);
    m
}

/// The entry of a file that the NAS alone holds.
pub open spec fn nas_only(path: Seq<char>, data: Seq<u8>, now: i64) -> MetaView {
    MetaView {
        tiers: TierBitmask(0).with(Tier::Nas),
        ..crate::types::fresh_file(
            path,
            data.len() as u64,
            crate::digest::content_hash(data),
            now,
        )
    }
}

/// The entry of a file that the NAS alone holds.
pub fn nas_only_file(path: &VfsPath, data: &[u8], now: i64) -> (r: FileMetadata)
    requires
        crate::digest::hashable(data@.len()),
    ensures
        r@ == nas_only(path@, data@, now),
        r.path@ == path@,
        r.kind == crate::types::EntryKind::File,
        r.size_bytes == data@.len(),
        r.sha256@ == crate::digest::content_hash(data@),
        forall|t: Tier| #[trigger] r.tier_bitmask.holds(t) <==> t == Tier::Nas,
{
    let sha256 = crate::digest::hash_bytes(data);
    let fresh = FileMetadata::file_at(path.clone(), data.len() as u64, sha256, now);
    let mut tier_bitmask = TierBitmask::none();
    tier_bitmask.set(Tier::Nas);
    proof {
        assert forall|t: Tier| #[trigger] tier_bitmask.holds(t) <==> t == Tier::Nas by {
            crate::tier::law_none_and_all(t);
        }
    }
    FileMetadata { tier_bitmask, ..fresh }
}

} // verus!
