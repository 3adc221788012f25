//! The derivative plan executor, the fallback arbiter, and the plain-file
//! copier.
//!
//! For one image the executor walks the three tiers in fixed order. A tier is
//! regenerated when a clean rebuild was requested or its destination does not
//! exist; after every regeneration the fallback arbiter keeps the generated
//! bytes only if they are no larger than the source, and substitutes the
//! source bytes otherwise. Plain files are copied verbatim when they are
//! under the size cutoff and would not overwrite themselves.

use vstd::prelude::*;
use crate::config::RunConfig;
use crate::errors::PipelineError;
use crate::model::FsModel;
use crate::paths::{
    copy_bytes,
    get_destination_path,
    image_base_destination,
    spec_destination_path,
    spec_image_base,
};
use crate::tiers::{
    lemma_tier_destinations_distinct,
    spec_tier_destination,
    tier_destination,
    Tier,
};

verus! {

/// What the fallback arbiter leaves at a derivative's destination: the
/// generated bytes, unless they are strictly larger than the source, in
/// which case the source bytes themselves.
pub open spec fn reconciled(generated: Seq<u8>, source: Seq<u8>) -> Seq<u8> {
    if generated.len() > source.len() {
        source
    } else {
        generated
    }
}

/// Whether a tier must be (re)generated: on a clean rebuild always, else
/// exactly when its destination does not exist.
pub open spec fn spec_needs_regeneration(
    tree: Map<Seq<u8>, Seq<u8>>,
    dest: Seq<u8>,
    clean: bool,
) -> bool {
    clean || !tree.contains_key(dest)
}

/// The tree after one tier is considered: unchanged when the tier is
/// skipped, else the reconciled bytes written at the tier's destination.
pub open spec fn after_tier(
    tree: Map<Seq<u8>, Seq<u8>>,
    dest: Seq<u8>,
    clean: bool,
    generated: Seq<u8>,
    source: Seq<u8>,
) -> Map<Seq<u8>, Seq<u8>> {
    if spec_needs_regeneration(tree, dest, clean) {
        tree.insert(dest, reconciled(generated, source))
    } else {
        tree
    }
}

/// The tree after one image is processed: the three tiers considered in the
/// fixed order standard, high, thumbnail, each against the tree the previous
/// tiers left.
pub open spec fn run_image(
    tree: Map<Seq<u8>, Seq<u8>>,
    base: Seq<u8>,
    clean: bool,
    gen_standard: Seq<u8>,
    gen_high: Seq<u8>,
    gen_thumbnail: Seq<u8>,
    source: Seq<u8>,
) -> Map<Seq<u8>, Seq<u8>> {
    let t1 = after_tier(tree, spec_tier_destination(base, Tier::Standard), clean, gen_standard, source);
    let t2 = after_tier(t1, spec_tier_destination(base, Tier::High), clean, gen_high, source);
    after_tier(t2, spec_tier_destination(base, Tier::Thumbnail), clean, gen_thumbnail, source)
}

/// The transcoder's output for each tier of one image.
pub struct TierOutputs {
    pub standard: Vec<u8>,
    pub high: Vec<u8>,
    pub thumbnail: Vec<u8>,
}

/// Which tiers one pass regenerated.
#[derive(Clone, Copy, Debug, PartialEq, Eq, Structural)]
pub struct TierReport {
    pub standard: bool,
    pub high: bool,
    pub thumbnail: bool,
}

/// Whether a tier must be (re)generated, from the clean flag and whether its
/// destination already exists.
pub fn needs_regeneration(clean: bool, dest_exists: bool) -> (r: bool)
    ensures
        r == (clean || !dest_exists),
{
    clean || !dest_exists
}

/// Whether the fallback arbiter must replace a freshly generated derivative
/// with a verbatim copy of the source: exactly when the derivative came out
/// strictly larger than the source.
pub fn fallback_to_original(derived_size: u64, source_size: u64) -> (r: bool)
    ensures
        r == (derived_size > source_size),
{
    derived_size > source_size
}

/// The bytes the fallback arbiter leaves at a derivative destination.
fn reconcile_bytes(generated: &Vec<u8>, source: &Vec<u8>) -> (r: Vec<u8>)
    ensures
        r@ == reconciled(generated@, source@),
{
    if fallback_to_original(generated.len() as u64, source.len() as u64) {
        copy_bytes(source)
    } else {
        copy_bytes(generated)
    }
}

/// Processes one image: maps it to its base destination, then considers the
/// three tiers in order, regenerating each that the clean flag or a missing
/// destination requires, and reconciling every regenerated tier against the
/// source. `outputs` holds the bytes the transcoder produces for each tier.
/// Reports which tiers were regenerated, or `PathNotUnderRoot` (leaving the
/// tree untouched) when the source does not lie under the source root.
pub fn process_image(
    fs: &mut FsModel,
    source_path: &Vec<u8>,
    source_bytes: &Vec<u8>,
    config: &RunConfig,
    outputs: &TierOutputs,
) -> (r: Result<TierReport, PipelineError>)
    ensures
        match r {
            Ok(rep) => {
                let base = spec_image_base(source_path@, config.source_root@, config.dest_root@);
                &&& base is Some
                &&& final(fs)@ == run_image(
                    old(fs)@,
                    base.unwrap(),
                    config.clean,
                    outputs.standard@,
                    outputs.high@,
                    outputs.thumbnail@,
                    source_bytes@,
                )
                &&& rep.standard == spec_needs_regeneration(
                    old(fs)@,
                    spec_tier_destination(base.unwrap(), Tier::Standard),
                    config.clean,
                )
                &&& rep.high == spec_needs_regeneration(
                    old(fs)@,
                    spec_tier_destination(base.unwrap(), Tier::High),
                    config.clean,
                )
                &&& rep.thumbnail == spec_needs_regeneration(
                    old(fs)@,
                    spec_tier_destination(base.unwrap(), Tier::Thumbnail),
                    config.clean,
                )
            },
            Err(e) => {
                &&& e is PathNotUnderRoot
                &&& spec_image_base(source_path@, config.source_root@, config.dest_root@) is None
                &&& final(fs)@ == old(fs)@
            },
        },
{
    let base = match image_base_destination(source_path, &config.source_root, &config.dest_root) {
        Ok(b) => b,
        Err(e) => {
            return Err(e);
        },
    };
    proof {
        lemma_tier_destinations_distinct(base@);
    }
    let dest_standard = tier_destination(&base, Tier::Standard);
    let dest_high = tier_destination(&base, Tier::High);
    let dest_thumbnail = tier_destination(&base, Tier::Thumbnail);

    let regen_standard = needs_regeneration(config.clean, fs.contains(&dest_standard));
    if regen_standard {
        fs.write(dest_standard, reconcile_bytes(&outputs.standard, source_bytes));
    }
    let regen_high = needs_regeneration(config.clean, fs.contains(&dest_high));
    if regen_high {
        fs.write(dest_high, reconcile_bytes(&outputs.high, source_bytes));
    }
    let regen_thumbnail = needs_regeneration(config.clean, fs.contains(&dest_thumbnail));
    if regen_thumbnail {
        fs.write(dest_thumbnail, reconcile_bytes(&outputs.thumbnail, source_bytes));
    }
    Ok(TierReport { standard: regen_standard, high: regen_high, thumbnail: regen_thumbnail })
}

/// What the plain-file copier decides for one file.
pub enum CopyPlan {
    /// Copy the source bytes to this destination.
    Copy(Vec<u8>),
    /// The file's size reaches the cutoff: leave it out, not an error.
    SkipTooLarge,
}

/// Decides what to do with one plain (non-image) file of the given size:
/// maps it to its destination (no extension rewrite), refuses a copy onto
/// its own source, skips a file at or over the cutoff, and otherwise orders
/// a verbatim copy.
pub fn plan_plain_copy(source_path: &Vec<u8>, size: u64, config: &RunConfig) -> (r: Result<
    CopyPlan,
    PipelineError,
>)
    ensures
        ({
            let dest = spec_destination_path(source_path@, config.source_root@, config.dest_root@);
            match r {
                Ok(CopyPlan::Copy(d)) => {
                    &&& dest == Some(d@)
                    &&& d@ != source_path@
                    &&& size < config.size_cutoff
                },
                Ok(CopyPlan::SkipTooLarge) => {
                    &&& dest is Some
                    &&& dest.unwrap() != source_path@
                    &&& size >= config.size_cutoff
                },
                Err(PipelineError::PathNotUnderRoot) => dest is None,
                Err(PipelineError::SelfCopy) => dest == Some(source_path@),
            }
        }),
{
    let dest = match get_destination_path(source_path, &config.source_root, &config.dest_root) {
        Ok(d) => d,
        Err(e) => {
            return Err(e);
        },
    };
    if crate::paths::bytes_eq(&dest, source_path) {
        return Err(PipelineError::SelfCopy);
    }
    if size >= config.size_cutoff {
        return Ok(CopyPlan::SkipTooLarge);
    }
    Ok(CopyPlan::Copy(dest))
}

/// What one plain-file pass did.
#[derive(Clone, Copy, Debug, PartialEq, Eq, Structural)]
pub enum CopyOutcome {
    Copied,
    SkippedTooLarge,
}

/// Copies one plain file into the model tree under `plan_plain_copy`'s
/// rules: the destination receives exactly the source bytes, a file at or
/// over the cutoff is left out without error, a self-copy is refused, and in
/// every case but a performed copy the tree is untouched.
pub fn copy_plain(
    fs: &mut FsModel,
    source_path: &Vec<u8>,
    source_bytes: &Vec<u8>,
    config: &RunConfig,
) -> (r: Result<CopyOutcome, PipelineError>)
    ensures
        ({
            let dest = spec_destination_path(source_path@, config.source_root@, config.dest_root@);
            match r {
                Ok(CopyOutcome::Copied) => {
                    &&& dest is Some
                    &&& dest.unwrap() != source_path@
                    &&& source_bytes@.len() < config.size_cutoff
                    &&& final(fs)@ == old(fs)@.insert(dest.unwrap(), source_bytes@)
                },
                Ok(CopyOutcome::SkippedTooLarge) => {
                    &&& dest is Some
                    &&& dest.unwrap() != source_path@
                    &&& source_bytes@.len() >= config.size_cutoff
                    &&& final(fs)@ == old(fs)@
                },
                Err(PipelineError::PathNotUnderRoot) => dest is None && final(fs)@ == old(fs)@,
                Err(PipelineError::SelfCopy) => dest == Some(source_path@) && final(fs)@ == old(
                    fs,
                )@,
            }
        }),
{
    match plan_plain_copy(source_path, source_bytes.len() as u64, config) {
        Ok(CopyPlan::Copy(dest)) => {
            fs.write(dest, copy_bytes(source_bytes));
            Ok(CopyOutcome::Copied)
        },
        Ok(CopyPlan::SkipTooLarge) => Ok(CopyOutcome::SkippedTooLarge),
        Err(e) => Err(e),
    }
}

/// Incremental runs are idempotent: after one pass over an image without the
/// clean flag, every tier destination exists, so a second incremental pass
/// regenerates nothing and leaves the tree exactly as the first pass left
/// it — whatever the transcoder would have produced the second time.
pub proof fn lemma_incremental_second_pass_is_noop(
    tree: Map<Seq<u8>, Seq<u8>>,
    base: Seq<u8>,
    gen1_standard: Seq<u8>,
    gen1_high: Seq<u8>,
    gen1_thumbnail: Seq<u8>,
    gen2_standard: Seq<u8>,
    gen2_high: Seq<u8>,
    gen2_thumbnail: Seq<u8>,
    source: Seq<u8>,
)
    ensures
        ({
            let once = run_image(tree, base, false, gen1_standard, gen1_high, gen1_thumbnail, source);
            &&& run_image(once, base, false, gen2_standard, gen2_high, gen2_thumbnail, source)
                == once
            &&& !spec_needs_regeneration(once, spec_tier_destination(base, Tier::Standard), false)
            &&& !spec_needs_regeneration(once, spec_tier_destination(base, Tier::High), false)
            &&& !spec_needs_regeneration(once, spec_tier_destination(base, Tier::Thumbnail), false)
        }),
{
}

/// A clean rebuild regenerates every tier of every image, whatever the tree
/// held before, and leaves each tier's reconciled bytes at its destination.
pub proof fn lemma_clean_regenerates_every_tier(
    tree: Map<Seq<u8>, Seq<u8>>,
    base: Seq<u8>,
    gen_standard: Seq<u8>,
    gen_high: Seq<u8>,
    gen_thumbnail: Seq<u8>,
    source: Seq<u8>,
)
    ensures
        spec_needs_regeneration(tree, spec_tier_destination(base, Tier::Standard), true),
        spec_needs_regeneration(tree, spec_tier_destination(base, Tier::High), true),
        spec_needs_regeneration(tree, spec_tier_destination(base, Tier::Thumbnail), true),
        ({
            let done = run_image(tree, base, true, gen_standard, gen_high, gen_thumbnail, source);
            &&& done[spec_tier_destination(base, Tier::Standard)] == reconciled(gen_standard, source)
            &&& done[spec_tier_destination(base, Tier::High)] == reconciled(gen_high, source)
            &&& done[spec_tier_destination(base, Tier::Thumbnail)] == reconciled(
                gen_thumbnail,
                source,
            )
        }),
{
    lemma_tier_destinations_distinct(base);
}

/// The fallback property: whenever a tier is regenerated and the transcoder's
/// output is strictly larger than the source, the bytes finally at that
/// tier's destination are exactly the source bytes.
pub proof fn lemma_fallback_preserves_original(
    tree: Map<Seq<u8>, Seq<u8>>,
    base: Seq<u8>,
    clean: bool,
    gen_standard: Seq<u8>,
    gen_high: Seq<u8>,
    gen_thumbnail: Seq<u8>,
    source: Seq<u8>,
)
    ensures
        ({
            let done = run_image(tree, base, clean, gen_standard, gen_high, gen_thumbnail, source);
            &&& (spec_needs_regeneration(tree, spec_tier_destination(base, Tier::Standard), clean)
                && gen_standard.len() > source.len() ==> done[spec_tier_destination(
                base,
                Tier::Standard,
            )] == source)
            &&& (spec_needs_regeneration(tree, spec_tier_destination(base, Tier::High), clean)
                && gen_high.len() > source.len() ==> done[spec_tier_destination(base, Tier::High)]
                == source)
            &&& (spec_needs_regeneration(tree, spec_tier_destination(base, Tier::Thumbnail), clean)
                && gen_thumbnail.len() > source.len() ==> done[spec_tier_destination(
                base,
                Tier::Thumbnail,
            )] == source)
        }),
{
    lemma_tier_destinations_distinct(base);
}

} // verus!
