//! Storage tiers and the set of tiers that hold a copy of a file.

use vstd::prelude::*;

verus! {

/// How hot the data is.
#[derive(Debug, Clone, Copy, PartialEq, Eq, Hash, Structural)]
pub enum Tier {
    /// Hot: the local disk.
    Local,
    /// Warm: the NAS on the local network.
    Nas,
    /// Cold, and the source of truth: the object store.
    S3,
}

/// The bit of a tier: 1, 2 and 4 from hot to cold.
pub open spec fn tier_bit(t: Tier) -> u8 {
    match t {
        Tier::Local => 1u8,
        Tier::Nas => 2u8,
        Tier::S3 => 4u8,
    }
}

/// The name of a tier.
pub open spec fn tier_label(t: Tier) -> Seq<char> {
    match t {
        Tier::Local => "local"@,
        Tier::Nas => "nas"@,
        Tier::S3 => "s3"@,
    }
}

impl Tier {
    /// The bit of the tier.
    pub fn bitmask(self) -> (r: u8)
        ensures
            r == tier_bit(self),
    {
        match self {
            Tier::Local => 1,
            Tier::Nas => 2,
            Tier::S3 => 4,
        }
    }

    /// The name of the tier.
    pub fn label(&self) -> (r: &'static str)
        ensures
            r@ == tier_label(*self),
    {
        match self {
            Tier::Local => "local",
            Tier::Nas => "nas",
            Tier::S3 => "s3",
        }
    }
}

/// Which tiers currently hold a copy of a file.
///
/// bit 0 (0x1) = local disk, bit 1 (0x2) = NAS, bit 2 (0x4) = S3
#[derive(Debug, Clone, Copy, PartialEq, Eq, Structural)]
pub struct TierBitmask(pub u8);

impl Default for TierBitmask {
    /// No tier.
    fn default() -> (r: Self)
        ensures
            r == TierBitmask(0),
    {
        TierBitmask(0)
    }
}

impl TierBitmask {
    /// No tier.
    pub fn none() -> (r: TierBitmask)
        ensures
            r == TierBitmask(0),
    {
        TierBitmask(0)
    }

    /// Every tier.
    pub fn all() -> (r: TierBitmask)
        ensures
            r == TierBitmask(7),
    {
        TierBitmask(0x07)
    }

    /// One tier.
    pub fn only(tier: Tier) -> (r: TierBitmask)
        ensures
            r == TierBitmask(0).with(tier),
            forall|t: Tier| #[trigger] r.holds(t) == (t == tier),
    {
        let mut m = TierBitmask::none();
        m.set(tier);
        proof {
            assert forall|t: Tier| #[trigger] m.holds(t) == (t == tier) by {
                law_none_and_all(t);
            }
        }
        m
    }

    /// The tier is one of those in the mask.
    pub open spec fn holds(self, tier: Tier) -> bool {
        self.0 & tier_bit(tier) != 0
    }

    /// The mask with the tier in it, everything else unchanged.
    pub open spec fn with(self, tier: Tier) -> TierBitmask {
        TierBitmask(self.0 | tier_bit(tier))
    }

    /// The mask without the tier, everything else unchanged.
    pub open spec fn without(self, tier: Tier) -> TierBitmask {
        TierBitmask(self.0 & !tier_bit(tier))
    }

    /// A file with this mask can lose its copy on the tier: the object store has one
    /// too, and is not the tier.
    pub open spec fn can_lose(self, tier: Tier) -> bool {
        tier != Tier::S3 && self.holds(Tier::S3)
    }

    /// Adds the tier.
    pub fn set(&mut self, tier: Tier)
        ensures
            *final(self) == old(self).with(tier),
            forall|t: Tier| #[trigger] final(self).holds(t) == (t == tier || old(self).holds(t)),
    {
        self.0 = self.0 | tier.bitmask();
        proof {
            law_set(*old(self), tier);
            assert(*self == old(self).with(tier));
        }
    }

    /// Takes the tier away.
    pub fn clear(&mut self, tier: Tier)
        ensures
            *final(self) == old(self).without(tier),
            forall|t: Tier| #[trigger] final(self).holds(t) == (t != tier && old(self).holds(t)),
    {
        self.0 = self.0 & !tier.bitmask();
        proof {
            law_clear(*old(self), tier);
            assert(*self == old(self).without(tier));
        }
    }

    /// Whether the tier is in the mask.
    pub fn has(&self, tier: Tier) -> (r: bool)
        ensures
            r == self.holds(tier),
    {
        self.0 & tier.bitmask() != 0
    }

    /// The tiers in the mask, each once.
    pub fn tiers(&self) -> (r: Vec<Tier>)
        ensures
            forall|t: Tier| #[trigger] r@.contains(t) == self.holds(t),
            r@.no_duplicates(),
    {
        let mut found: Vec<Tier> = Vec::new();
        if self.has(Tier::Local) {
            found.push(Tier::Local);
        }
        if self.has(Tier::Nas) {
            found.push(Tier::Nas);
        }
        if self.has(Tier::S3) {
            found.push(Tier::S3);
        }
        proof {
            let n = found@.len() as int;
            assert(self.holds(Tier::Local) ==> found@[0] == Tier::Local);
            assert(self.holds(Tier::Nas) ==> found@[0] == Tier::Nas || found@[1] == Tier::Nas);
            assert(self.holds(Tier::S3) ==> found@[n - 1] == Tier::S3);
        }
        found
    }

    /// Whether every tier is in the mask.
    pub fn is_fully_replicated(&self) -> (r: bool)
        ensures
            r == forall|t: Tier| #[trigger] self.holds(t),
    {
        let m: u8 = self.0;
        proof {
            assert(m & 7 == 7 <==> m & 1 != 0 && m & 2 != 0 && m & 4 != 0) by (bit_vector);
            if m & 7 == 7 {
                assert forall|t: Tier| #[trigger] self.holds(t) by {
                    match t {
                        Tier::Local => {},
                        Tier::Nas => {},
                        Tier::S3 => {},
                    }
                }
            } else {
                assert(!self.holds(Tier::Local) || !self.holds(Tier::Nas) || !self.holds(Tier::S3));
            }
        }
        m & 0x07 == 0x07
    }

    /// Whether a file with this mask can lose its copy on the tier. The object store,
    /// the coldest tier, has to have a copy, and never loses its own.
    pub fn safe_to_evict_from(&self, tier: Tier) -> (r: bool)
        ensures
            r == self.can_lose(tier),
    {
        match tier {
            Tier::Local => self.has(Tier::S3),
            Tier::Nas => self.has(Tier::S3),
            Tier::S3 => false,
        }
    }

    /// The mask as a number.
    pub fn as_u8(self) -> (r: u8)
        ensures
            r == self.0,
    {
        self.0
    }
}

impl From<u8> for TierBitmask {
    fn from(v: u8) -> (r: Self) {
        TierBitmask(v)
    }
}

impl vstd::std_specs::convert::FromSpecImpl<u8> for TierBitmask {
    open spec fn obeys_from_spec() -> bool {
        true
    }

    open spec fn from_spec(v: u8) -> Self {
        TierBitmask(v)
    }
}

impl From<i64> for TierBitmask {
    fn from(v: i64) -> (r: Self) {
        TierBitmask(
            #[verifier::truncate]
            (v as u8),
        )
    }
}

impl vstd::std_specs::convert::FromSpecImpl<i64> for TierBitmask {
    open spec fn obeys_from_spec() -> bool {
        true
    }

    open spec fn from_spec(v: i64) -> Self {
        TierBitmask(v as u8)
    }
}

// ---------------------------------------------------------------------------
// Laws of tier masks

/// Adding a tier puts it in and leaves the others as they were.
pub proof fn law_set(m: TierBitmask, tier: Tier)
    ensures
        forall|t: Tier| #[trigger] m.with(tier).holds(t) == (t == tier || m.holds(t)),
{
    let x: u8 = m.0;
    assert((x | 1) & 1 != 0 && (x | 2) & 2 != 0 && (x | 4) & 4 != 0) by (bit_vector);
    assert((x | 1) & 2 == x & 2 && (x | 1) & 4 == x & 4) by (bit_vector);
    assert((x | 2) & 1 == x & 1 && (x | 2) & 4 == x & 4) by (bit_vector);
    assert((x | 4) & 1 == x & 1 && (x | 4) & 2 == x & 2) by (bit_vector);
}

/// Taking a tier away leaves it out and the others as they were.
pub proof fn law_clear(m: TierBitmask, tier: Tier)
    ensures
        forall|t: Tier| #[trigger] m.without(tier).holds(t) == (t != tier && m.holds(t)),
{
    let x: u8 = m.0;
    assert((x & !1u8) & 1 == 0 && (x & !2u8) & 2 == 0 && (x & !4u8) & 4 == 0) by (bit_vector);
    assert((x & !1u8) & 2 == x & 2 && (x & !1u8) & 4 == x & 4) by (bit_vector);
    assert((x & !2u8) & 1 == x & 1 && (x & !2u8) & 4 == x & 4) by (bit_vector);
    assert((x & !4u8) & 1 == x & 1 && (x & !4u8) & 2 == x & 2) by (bit_vector);
}

/// Taking away what was added to a mask without it gives the mask back, and adding
/// what was taken from a mask with it does too.
pub proof fn law_set_and_clear_undo(m: TierBitmask, tier: Tier)
    ensures
        !m.holds(tier) ==> m.with(tier).without(tier) == m,
        m.holds(tier) ==> m.without(tier).with(tier) == m,
{
    let x: u8 = m.0;
    assert(x & 1 == 0 ==> (x | 1) & !1u8 == x) by (bit_vector);
    assert(x & 2 == 0 ==> (x | 2) & !2u8 == x) by (bit_vector);
    assert(x & 4 == 0 ==> (x | 4) & !4u8 == x) by (bit_vector);
    assert(x & 1 != 0 ==> (x & !1u8) | 1 == x) by (bit_vector);
    assert(x & 2 != 0 ==> (x & !2u8) | 2 == x) by (bit_vector);
    assert(x & 4 != 0 ==> (x & !4u8) | 4 == x) by (bit_vector);
}

/// The object store is never given up: no mask allows it, and taking away any tier
/// that can be lost leaves the object store in the mask.
pub proof fn law_s3_is_never_evicted(m: TierBitmask, tier: Tier)
    ensures
        !m.can_lose(Tier::S3),
        m.can_lose(tier) ==> m.without(tier).holds(Tier::S3),
{
    law_clear(m, tier);
}

/// The empty mask has no tier and the full one every tier.
pub proof fn law_none_and_all(t: Tier)
    ensures
        !TierBitmask(0).holds(t),
        TierBitmask(7).holds(t),
{
    assert(0u8 & 1 == 0 && 0u8 & 2 == 0 && 0u8 & 4 == 0) by (bit_vector);
    assert(7u8 & 1 != 0 && 7u8 & 2 != 0 && 7u8 & 4 != 0) by (bit_vector);
}

} // verus!
