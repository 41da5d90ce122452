use vstd::prelude::*;

use crate::bit_string::{bit_of, BitIndexError, BitString};

verus! {

/// Number of features a sign is made of.
pub const FEATURE_COUNT: usize = 9;

/// The bits that hold the features.
pub const FEATURE_MASK: u64 = 0x1ff;

/// A boolean geometric predicate over a hand pose.
#[derive(Debug, Clone, Copy, PartialEq, Eq, Hash, Structural)]
pub enum Feature {
    HandRotated,
    IndexClosed,
    MiddleClosed,
    RingClosed,
    PinkyClosed,
    ThumbIndexSpread,
    IndexMiddleSpread,
    MiddleRingSpread,
    RingPinkySpread,
}

impl Feature {
    /// Position of the feature in a sign's bit strings.
    pub open spec fn spec_index(&self) -> usize {
        match self {
            Feature::HandRotated => 0,
            Feature::IndexClosed => 1,
            Feature::MiddleClosed => 2,
            Feature::RingClosed => 3,
            Feature::PinkyClosed => 4,
            Feature::ThumbIndexSpread => 5,
            Feature::IndexMiddleSpread => 6,
            Feature::MiddleRingSpread => 7,
            Feature::RingPinkySpread => 8,
        }
    }

    pub fn index(&self) -> (r: usize)
        ensures
            r == self.spec_index(),
            r < FEATURE_COUNT,
    {
        match self {
            Feature::HandRotated => 0,
            Feature::IndexClosed => 1,
            Feature::MiddleClosed => 2,
            Feature::RingClosed => 3,
            Feature::PinkyClosed => 4,
            Feature::ThumbIndexSpread => 5,
            Feature::IndexMiddleSpread => 6,
            Feature::MiddleRingSpread => 7,
            Feature::RingPinkySpread => 8,
        }
    }

    /// Every feature, in index order.
    pub fn all() -> (r: Vec<Feature>)
        ensures
            r@.len() == FEATURE_COUNT,
            forall|i: int| 0 <= i < r@.len() ==> (#[trigger] r@[i]).spec_index() == i,
    {
        vec![
            Feature::HandRotated,
            Feature::IndexClosed,
            Feature::MiddleClosed,
            Feature::RingClosed,
            Feature::PinkyClosed,
            Feature::ThumbIndexSpread,
            Feature::IndexMiddleSpread,
            Feature::MiddleRingSpread,
            Feature::RingPinkySpread,
        ]
    }

    /// Short label shown next to the feature in an editor.
    pub open spec fn spec_label(&self) -> Seq<char> {
        match self {
            Feature::HandRotated => "Rotated"@,
            Feature::IndexClosed => "Index"@,
            Feature::MiddleClosed => "Middle"@,
            Feature::RingClosed => "Ring"@,
            Feature::PinkyClosed => "Pinky"@,
            Feature::ThumbIndexSpread => "Thmb Indx"@,
            Feature::IndexMiddleSpread => "Indx Mdl"@,
            Feature::MiddleRingSpread => "Mdl Rng"@,
            Feature::RingPinkySpread => "Rng Pnk"@,
        }
    }

    pub fn label(&self) -> (r: &'static str)
        ensures
            r@ == self.spec_label(),
    {
        match self {
            Feature::HandRotated => "Rotated",
            Feature::IndexClosed => "Index",
            Feature::MiddleClosed => "Middle",
            Feature::RingClosed => "Ring",
            Feature::PinkyClosed => "Pinky",
            Feature::ThumbIndexSpread => "Thmb Indx",
            Feature::IndexMiddleSpread => "Indx Mdl",
            Feature::MiddleRingSpread => "Mdl Rng",
            Feature::RingPinkySpread => "Rng Pnk",
        }
    }
}

/// A gesture fingerprint: the required value of each feature, and a mask of
/// the features that take no part in comparison.
#[derive(Debug, Clone, Copy)]
pub struct Sign {
    required_attributes: BitString,
    irrelevant_attributes: BitString,
}

/// Whether two signs with these masks are equal: on every feature that
/// neither marks irrelevant, they require the same value. Bits beyond the
/// features take no part.
pub open spec fn masks_match(req_a: u64, irr_a: u64, req_b: u64, irr_b: u64) -> bool {
    forall|k: u64|
        k < FEATURE_COUNT ==> #[trigger] bit_of(irr_a | irr_b, k) || bit_of(req_a, k) == bit_of(
            req_b,
            k,
        )
}

/// Whether feature `k` does not tell the two signs apart.
spec fn bit_agrees(irr: u64, a: u64, b: u64, k: u64) -> bool {
    bit_of(irr, k) || bit_of(a, k) == bit_of(b, k)
}

/// The masked comparison `eq` computes decides, feature by feature,
/// whether the signs agree.
proof fn lemma_masked_compare(irr: u64, a: u64, b: u64)
    ensures
        (((irr | a) ^ (irr | b)) & FEATURE_MASK == 0) == (forall|k: u64|
            k < FEATURE_COUNT ==> #[trigger] bit_agrees(irr, a, b, k)),
{
    assert((((irr | a) ^ (irr | b)) & 0x1ffu64 == 0) == (
        ((irr & (1u64 << 0u64) != 0) || ((a & (1u64 << 0u64) != 0) == (b & (1u64 << 0u64) != 0)))
        && ((irr & (1u64 << 1u64) != 0) || ((a & (1u64 << 1u64) != 0) == (b & (1u64 << 1u64) != 0)))
        && ((irr & (1u64 << 2u64) != 0) || ((a & (1u64 << 2u64) != 0) == (b & (1u64 << 2u64) != 0)))
        && ((irr & (1u64 << 3u64) != 0) || ((a & (1u64 << 3u64) != 0) == (b & (1u64 << 3u64) != 0)))
        && ((irr & (1u64 << 4u64) != 0) || ((a & (1u64 << 4u64) != 0) == (b & (1u64 << 4u64) != 0)))
        && ((irr & (1u64 << 5u64) != 0) || ((a & (1u64 << 5u64) != 0) == (b & (1u64 << 5u64) != 0)))
        && ((irr & (1u64 << 6u64) != 0) || ((a & (1u64 << 6u64) != 0) == (b & (1u64 << 6u64) != 0)))
        && ((irr & (1u64 << 7u64) != 0) || ((a & (1u64 << 7u64) != 0) == (b & (1u64 << 7u64) != 0)))
        && ((irr & (1u64 << 8u64) != 0) || ((a & (1u64 << 8u64) != 0) == (b & (1u64 << 8u64) != 0)))
    )) by (bit_vector);
    let all = bit_agrees(irr, a, b, 0) && bit_agrees(irr, a, b, 1) && bit_agrees(irr, a, b, 2)
        && bit_agrees(irr, a, b, 3) && bit_agrees(irr, a, b, 4) && bit_agrees(irr, a, b, 5)
        && bit_agrees(irr, a, b, 6) && bit_agrees(irr, a, b, 7) && bit_agrees(irr, a, b, 8);
    if all {
        assert forall|k: u64| k < FEATURE_COUNT implies #[trigger] bit_agrees(irr, a, b, k) by {
            assert(k == 0 || k == 1 || k == 2 || k == 3 || k == 4 || k == 5 || k == 6 || k == 7
                || k == 8);
        }
    }
}

/// Whether `after` is `before` with feature `i` marked irrelevant, or
/// relevant with the given required value.
pub open spec fn feature_set(before: Sign, after: Sign, i: usize, irrelevant: bool, required: bool) -> bool {
    let bit = 1u64 << (i as u64);
    if irrelevant {
        after.irr() == before.irr() | bit && after.req() == before.req()
    } else {
        &&& after.irr() == before.irr() & !bit
        &&& after.req() == if required {
            before.req() | bit
        } else {
            before.req() & !bit
        }
    }
}

impl Sign {
    pub closed spec fn req(&self) -> u64 {
        self.required_attributes.spec_bits()
    }

    pub closed spec fn irr(&self) -> u64 {
        self.irrelevant_attributes.spec_bits()
    }

    /// Both bit strings are as wide as the feature set.
    pub closed spec fn wf(&self) -> bool {
        &&& self.required_attributes.spec_capacity() == FEATURE_COUNT
        &&& self.irrelevant_attributes.spec_capacity() == FEATURE_COUNT
    }

    pub open spec fn spec_eq(&self, other: &Sign) -> bool {
        masks_match(self.req(), self.irr(), other.req(), other.irr())
    }

    /// Builds a sign from its two masks.
    pub fn from_masks(required: u64, irrelevant: u64) -> (r: Sign)
        ensures
            r.wf(),
            r.req() == required,
            r.irr() == irrelevant,
    {
        Sign {
            required_attributes: BitString::new(required, FEATURE_COUNT),
            irrelevant_attributes: BitString::new(irrelevant, FEATURE_COUNT),
        }
    }

    pub fn required_attributes(&self) -> (r: &BitString)
        ensures
            r.spec_bits() == self.req(),
            self.wf() ==> r.spec_capacity() == FEATURE_COUNT,
    {
        &self.required_attributes
    }

    pub fn irrelevant_attributes(&self) -> (r: &BitString)
        ensures
            r.spec_bits() == self.irr(),
            self.wf() ==> r.spec_capacity() == FEATURE_COUNT,
    {
        &self.irrelevant_attributes
    }

    /// Marks feature `feature_index` irrelevant, or relevant with the given
    /// required value. An index beyond the feature set is an error and
    /// changes nothing.
    pub fn set_feature(&mut self, feature_index: usize, irrelevant: bool, required: bool) -> (r:
        Result<(), BitIndexError>)
        requires
            old(self).wf(),
        ensures
            final(self).wf(),
            feature_index >= FEATURE_COUNT ==> r == Err::<(), BitIndexError>(
                BitIndexError { index: feature_index, capacity: FEATURE_COUNT },
            ) && *final(self) == *old(self),
            feature_index < FEATURE_COUNT ==> r is Ok && feature_set(
                *old(self),
                *final(self),
                feature_index,
                irrelevant,
                required,
            ),
    {
        if irrelevant {
            self.irrelevant_attributes.set(feature_index)
        } else {
            let r = self.irrelevant_attributes.unset(feature_index);
            if r.is_err() {
                return r;
            }
            if required {
                self.required_attributes.set(feature_index)
            } else {
                self.required_attributes.unset(feature_index)
            }
        }
    }

    /// The sign observed on a hand: every feature relevant, each required
    /// to have the observed value.
    pub fn from_observations(observed: &Vec<bool>) -> (r: Sign)
        requires
            observed@.len() == FEATURE_COUNT,
        ensures
            r.wf(),
            forall|i: u64| i < FEATURE_COUNT ==> !bit_of(#[trigger] r.irr(), i),
            forall|i: u64| i < FEATURE_COUNT ==> bit_of(#[trigger] r.req(), i) == observed@[i as int],
    {
        let mut sign = Sign::default();
        let mut i: usize = 0;
        while i < FEATURE_COUNT
            invariant
                i <= FEATURE_COUNT,
                observed@.len() == FEATURE_COUNT,
                sign.wf(),
                forall|j: u64| j < i ==> !bit_of(#[trigger] sign.irr(), j),
                forall|j: u64| j < i ==> bit_of(#[trigger] sign.req(), j) == observed@[j as int],
            decreases FEATURE_COUNT - i,
        {
            let ghost before = sign;
            let _ = sign.set_feature(i, false, observed[i]);
            assert forall|j: u64| j <= i implies !bit_of(#[trigger] sign.irr(), j)
                && bit_of(sign.req(), j) == observed@[j as int] by {
                crate::bit_string::lemma_unset_then_get(before.irr(), i as u64, j);
                crate::bit_string::lemma_set_then_get(before.req(), i as u64, j);
                crate::bit_string::lemma_unset_then_get(before.req(), i as u64, j);
            }
            i = i + 1;
        }
        sign
    }
}

impl Default for Sign {
    /// No feature required, every bit irrelevant: the sign that matches
    /// everything.
    fn default() -> (r: Sign)
        ensures
            r.wf(),
            r.req() == 0,
            r.irr() == u64::MAX,
    {
        Sign::from_masks(0, u64::MAX)
    }
}

impl PartialEq for Sign {
    fn eq(&self, other: &Sign) -> (r: bool)
        ensures
            r == self.spec_eq(other),
    {
        let irrelevant = self.irrelevant_attributes.bits() | other.irrelevant_attributes.bits();
        let a = irrelevant | self.required_attributes.bits();
        let b = irrelevant | other.required_attributes.bits();
        proof {
            lemma_masked_compare(irrelevant, self.req(), other.req());
            assert forall|k: u64| k < FEATURE_COUNT implies #[trigger] bit_of(irrelevant, k) || bit_of(
                self.req(),
                k,
            ) == bit_of(other.req(), k) <==> bit_agrees(irrelevant, self.req(), other.req(), k) by {}
        }
        (a ^ b) & FEATURE_MASK == 0
    }
}

impl vstd::std_specs::cmp::PartialEqSpecImpl for Sign {
    open spec fn obeys_eq_spec() -> bool {
        false
    }

    open spec fn eq_spec(&self, other: &Sign) -> bool {
        self.spec_eq(other)
    }
}

/// Sign equality is reflexive and symmetric.
pub proof fn lemma_sign_eq_reflexive_symmetric(a: Sign, b: Sign)
    ensures
        a.spec_eq(&a),
        a.spec_eq(&b) == b.spec_eq(&a),
{
    let (ra, ia, rb, ib) = (a.req(), a.irr(), b.req(), b.irr());
    assert((ia | ib) == (ib | ia)) by (bit_vector);
    assert forall|k: u64| k < FEATURE_COUNT implies #[trigger] bit_of(ia | ia, k) || bit_of(ra, k)
        == bit_of(ra, k) by {}
    if a.spec_eq(&b) {
        assert forall|k: u64| k < FEATURE_COUNT implies #[trigger] bit_of(ib | ia, k) || bit_of(rb, k)
            == bit_of(ra, k) by {
            assert(bit_of(ia | ib, k) || bit_of(ra, k) == bit_of(rb, k));
        }
    }
    if b.spec_eq(&a) {
        assert forall|k: u64| k < FEATURE_COUNT implies #[trigger] bit_of(ia | ib, k) || bit_of(ra, k)
            == bit_of(rb, k) by {
            assert(bit_of(ib | ia, k) || bit_of(rb, k) == bit_of(ra, k));
        }
    }
}

/// A sign whose every feature is irrelevant equals every sign, whatever
/// either requires and whatever the other marks irrelevant.
pub proof fn lemma_all_features_irrelevant_matches_all(a: Sign, b: Sign)
    requires
        forall|i: u64| i < FEATURE_COUNT ==> bit_of(#[trigger] a.irr(), i),
    ensures
        a.spec_eq(&b),
        b.spec_eq(&a),
{
    let (ia, ib) = (a.irr(), b.irr());
    assert forall|k: u64| k < FEATURE_COUNT implies #[trigger] bit_of(ia | ib, k) by {
        assert(bit_of(ia, k));
        assert(ia & (1u64 << k) != 0 ==> (ia | ib) & (1u64 << k) != 0) by (bit_vector);
    }
    assert forall|k: u64| k < FEATURE_COUNT implies #[trigger] bit_of(ib | ia, k) by {
        assert(bit_of(ia, k));
        assert(ia & (1u64 << k) != 0 ==> (ib | ia) & (1u64 << k) != 0) by (bit_vector);
    }
}

} // verus!
