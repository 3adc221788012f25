//! The three fixed derivative tiers and their encoding settings.
//!
//! Every recognized image yields up to three derivatives, in the fixed order
//! standard, high, thumbnail. Each tier bounds the longest image side, encodes
//! at a fixed quality, and may apply a slight blur; blur radii are carried in
//! hundredths of the transcoder's radius unit, with 0 meaning no blur.

use vstd::prelude::*;
use crate::paths::{spec_with_suffix, with_suffix};

verus! {

/// One of the three fixed derivative sizes.
#[derive(Clone, Copy, Debug, PartialEq, Eq, Structural)]
pub enum Tier {
    Standard,
    High,
    Thumbnail,
}

/// Encoding settings of one tier: the bound on the longest side in pixels,
/// the encode quality in percent, and the blur radius in hundredths of the
/// transcoder's unit (0 = no blur).
#[derive(Clone, Copy, Debug, PartialEq, Eq, Structural)]
pub struct DerivativeSpec {
    pub tier: Tier,
    pub max_dimension: u32,
    pub quality: u32,
    pub blur_centi: u32,
}

/// The filename suffix a tier inserts before the extension.
pub open spec fn spec_suffix(t: Tier) -> Seq<u8> {
    match t {
        Tier::Standard => Seq::empty(),
        Tier::High => seq![95u8, 104u8, 105u8, 103u8, 104u8],  // "_high"
        Tier::Thumbnail => seq![95u8, 116u8, 104u8, 117u8, 109u8, 98u8],  // "_thumb"
    }
}

/// Destination path of one tier: the image's base destination with the
/// tier's suffix inserted before the extension.
pub open spec fn spec_tier_destination(base: Seq<u8>, t: Tier) -> Seq<u8> {
    spec_with_suffix(base, spec_suffix(t))
}

/// The tier suffix as bytes.
pub fn suffix_bytes(t: Tier) -> (r: Vec<u8>)
    ensures
        r@ == spec_suffix(t),
{
    let mut r: Vec<u8> = Vec::new();
    match t {
        Tier::Standard => {
            proof {
                assert(r@ =~= spec_suffix(t));
            }
        },
        Tier::High => {
            r.push(95);
            r.push(104);
            r.push(105);
            r.push(103);
            r.push(104);
            proof {
                assert(r@ =~= spec_suffix(t));
            }
        },
        Tier::Thumbnail => {
            r.push(95);
            r.push(116);
            r.push(104);
            r.push(117);
            r.push(109);
            r.push(98);
            proof {
                assert(r@ =~= spec_suffix(t));
            }
        },
    }
    r
}

/// Destination path of one tier of an image.
pub fn tier_destination(base: &Vec<u8>, t: Tier) -> (r: Vec<u8>)
    ensures
        r@ == spec_tier_destination(base@, t),
{
    let suffix = suffix_bytes(t);
    with_suffix(base, &suffix)
}

/// Settings of one tier: standard is bounded at 1920 pixels with a 0.05
/// blur, high at 3840 pixels with no blur, thumbnail at 640 pixels with a
/// 0.01 blur; all encode at quality 85.
pub fn tier_settings(t: Tier) -> (s: DerivativeSpec)
    ensures
        s.tier == t,
        s.quality == 85,
        t is Standard ==> s.max_dimension == 1920 && s.blur_centi == 5,
        t is High ==> s.max_dimension == 3840 && s.blur_centi == 0,
        t is Thumbnail ==> s.max_dimension == 640 && s.blur_centi == 1,
{
    match t {
        Tier::Standard => DerivativeSpec { tier: t, max_dimension: 1920, quality: 85, blur_centi: 5 },
        Tier::High => DerivativeSpec { tier: t, max_dimension: 3840, quality: 85, blur_centi: 0 },
        Tier::Thumbnail => DerivativeSpec { tier: t, max_dimension: 640, quality: 85, blur_centi: 1 },
    }
}

/// A tier's destination is as long as the base plus its suffix, so the three
/// tiers of one image never collide.
pub proof fn lemma_tier_destinations_distinct(base: Seq<u8>)
    ensures
        spec_tier_destination(base, Tier::Standard) != spec_tier_destination(base, Tier::High),
        spec_tier_destination(base, Tier::Standard) != spec_tier_destination(
            base,
            Tier::Thumbnail,
        ),
        spec_tier_destination(base, Tier::High) != spec_tier_destination(base, Tier::Thumbnail),
{
    crate::paths::lemma_with_suffix_len(base, spec_suffix(Tier::Standard));
    crate::paths::lemma_with_suffix_len(base, spec_suffix(Tier::High));
    crate::paths::lemma_with_suffix_len(base, spec_suffix(Tier::Thumbnail));
}

} // verus!
