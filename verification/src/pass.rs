//! One full pass over an enumerated source tree.
//!
//! The tree walker yields entries in order; each is classified by extension
//! and routed: images through the derivative plan executor, other regular
//! files through the plain copier, the rest ignored. A per-entry failure
//! leaves the tree as it was and never stops the pass.

use vstd::prelude::*;
use crate::config::RunConfig;
use crate::model::FsModel;
use crate::paths::{spec_classify, spec_destination_path, spec_image_base, AssetKind, classify};
use crate::pipeline::{copy_plain, process_image, run_image, TierOutputs};
use crate::tiers::{spec_tier_destination, Tier};

verus! {

/// One enumerated source entry, together with what the transcoder would
/// produce for it (consulted only when the entry is an image).
pub struct PassEntry {
    pub path: Vec<u8>,
    pub is_regular_file: bool,
    pub bytes: Vec<u8>,
    pub outputs: TierOutputs,
}

/// The tree after one entry is processed: images run the three-tier plan,
/// plain files are copied under the self-copy and cutoff rules, everything
/// else — including an entry outside the source root — leaves the tree
/// unchanged.
pub open spec fn spec_process_entry(
    tree: Map<Seq<u8>, Seq<u8>>,
    e: PassEntry,
    source_root: Seq<u8>,
    dest_root: Seq<u8>,
    clean: bool,
    cutoff: u64,
) -> Map<Seq<u8>, Seq<u8>> {
    match spec_classify(e.path@, e.is_regular_file) {
        AssetKind::Image => match spec_image_base(e.path@, source_root, dest_root) {
            Some(base) => run_image(
                tree,
                base,
                clean,
                e.outputs.standard@,
                e.outputs.high@,
                e.outputs.thumbnail@,
                e.bytes@,
            ),
            None => tree,
        },
        AssetKind::PlainFile => match spec_destination_path(e.path@, source_root, dest_root) {
            Some(dest) => if dest == e.path@ {
                tree
            } else if e.bytes@.len() >= cutoff {
                tree
            } else {
                tree.insert(dest, e.bytes@)
            },
            None => tree,
        },
        AssetKind::Ignored => tree,
    }
}

/// The tree after the entries are processed in order.
pub open spec fn spec_run_pass(
    tree: Map<Seq<u8>, Seq<u8>>,
    entries: Seq<PassEntry>,
    source_root: Seq<u8>,
    dest_root: Seq<u8>,
    clean: bool,
    cutoff: u64,
) -> Map<Seq<u8>, Seq<u8>>
    decreases entries.len(),
{
    if entries.len() == 0 {
        tree
    } else {
        spec_process_entry(
            spec_run_pass(tree, entries.drop_last(), source_root, dest_root, clean, cutoff),
            entries.last(),
            source_root,
            dest_root,
            clean,
            cutoff,
        )
    }
}

/// Processes every entry in order against the model tree. A per-entry
/// failure (a path outside the source root, a self-copy) leaves the tree
/// untouched and the pass moves on, as the real run reports the error and
/// continues.
#[verifier::loop_isolation(false)]
pub fn run_pass(fs: &mut FsModel, entries: &Vec<PassEntry>, config: &RunConfig)
    ensures
        final(fs)@ == spec_run_pass(
            old(fs)@,
            entries@,
            config.source_root@,
            config.dest_root@,
            config.clean,
            config.size_cutoff,
        ),
{
    let mut i: usize = 0;
    proof {
        assert(entries@.take(0).len() == 0);
    }
    while i < entries.len()
        invariant
            i <= entries@.len(),
            fs@ == spec_run_pass(
                old(fs)@,
                entries@.take(i as int),
                config.source_root@,
                config.dest_root@,
                config.clean,
                config.size_cutoff,
            ),
        decreases entries@.len() - i,
    {
        let e = &entries[i];
        match classify(&e.path, e.is_regular_file) {
            AssetKind::Image => {
                let _ = process_image(fs, &e.path, &e.bytes, config, &e.outputs);
            },
            AssetKind::PlainFile => {
                let _ = copy_plain(fs, &e.path, &e.bytes, config);
            },
            AssetKind::Ignored => {},
        }
        proof {
            assert(entries@.take(i + 1).drop_last() =~= entries@.take(i as int));
            assert(entries@.take(i + 1).last() == entries@[i as int]);
        }
        i = i + 1;
    }
    proof {
        assert(entries@.take(entries@.len() as int) =~= entries@);
    }
}

/// The destination paths one entry may write: an image's three tier
/// destinations, a copyable plain file's one destination, nothing otherwise.
pub open spec fn entry_dests(
    e: PassEntry,
    source_root: Seq<u8>,
    dest_root: Seq<u8>,
    cutoff: u64,
) -> Set<Seq<u8>> {
    match spec_classify(e.path@, e.is_regular_file) {
        AssetKind::Image => match spec_image_base(e.path@, source_root, dest_root) {
            Some(base) => set![
                spec_tier_destination(base, Tier::Standard),
                spec_tier_destination(base, Tier::High),
                spec_tier_destination(base, Tier::Thumbnail),
            ],
            None => Set::empty(),
        },
        AssetKind::PlainFile => match spec_destination_path(e.path@, source_root, dest_root) {
            Some(dest) => if dest == e.path@ || e.bytes@.len() >= cutoff {
                Set::empty()
            } else {
                set![dest]
            },
            None => Set::empty(),
        },
        AssetKind::Ignored => Set::empty(),
    }
}

/// An entry's work is already on disk: an image's three tier destinations
/// exist, and a copyable plain file's destination holds exactly its bytes.
pub open spec fn entry_settled(
    tree: Map<Seq<u8>, Seq<u8>>,
    e: PassEntry,
    source_root: Seq<u8>,
    dest_root: Seq<u8>,
    cutoff: u64,
) -> bool {
    match spec_classify(e.path@, e.is_regular_file) {
        AssetKind::Image => match spec_image_base(e.path@, source_root, dest_root) {
            Some(base) => {
                &&& tree.contains_key(spec_tier_destination(base, Tier::Standard))
                &&& tree.contains_key(spec_tier_destination(base, Tier::High))
                &&& tree.contains_key(spec_tier_destination(base, Tier::Thumbnail))
            },
            None => true,
        },
        AssetKind::PlainFile => match spec_destination_path(e.path@, source_root, dest_root) {
            Some(dest) => dest == e.path@ || e.bytes@.len() >= cutoff || (tree.contains_key(dest)
                && tree[dest] == e.bytes@),
            None => true,
        },
        AssetKind::Ignored => true,
    }
}

/// No pair of entries shares a destination (the path-mapping invariant of a
/// collision-free source tree).
pub open spec fn dests_pairwise_disjoint(
    entries: Seq<PassEntry>,
    source_root: Seq<u8>,
    dest_root: Seq<u8>,
    cutoff: u64,
) -> bool {
    forall|i: int, j: int|
        0 <= i < j < entries.len() ==> entry_dests(entries[i], source_root, dest_root, cutoff)
            .disjoint(entry_dests(entries[j], source_root, dest_root, cutoff))
}

/// Processing an entry touches no path outside its destination set.
pub proof fn lemma_process_entry_frame(
    tree: Map<Seq<u8>, Seq<u8>>,
    e: PassEntry,
    source_root: Seq<u8>,
    dest_root: Seq<u8>,
    clean: bool,
    cutoff: u64,
    k: Seq<u8>,
)
    requires
        !entry_dests(e, source_root, dest_root, cutoff).contains(k),
    ensures
        ({
            let after = spec_process_entry(tree, e, source_root, dest_root, clean, cutoff);
            &&& after.contains_key(k) == tree.contains_key(k)
            &&& tree.contains_key(k) ==> after[k] == tree[k]
        }),
{
}

/// After an entry is processed it is settled, whatever the tree held before.
pub proof fn lemma_process_entry_settles(
    tree: Map<Seq<u8>, Seq<u8>>,
    e: PassEntry,
    source_root: Seq<u8>,
    dest_root: Seq<u8>,
    clean: bool,
    cutoff: u64,
)
    ensures
        entry_settled(
            spec_process_entry(tree, e, source_root, dest_root, clean, cutoff),
            e,
            source_root,
            dest_root,
            cutoff,
        ),
{
}

/// An incremental pass over a settled entry changes nothing: every tier is
/// skipped, and a plain copy rewrites the bytes already there.
pub proof fn lemma_process_entry_noop(
    tree: Map<Seq<u8>, Seq<u8>>,
    e: PassEntry,
    source_root: Seq<u8>,
    dest_root: Seq<u8>,
    cutoff: u64,
)
    requires
        entry_settled(tree, e, source_root, dest_root, cutoff),
    ensures
        spec_process_entry(tree, e, source_root, dest_root, false, cutoff) == tree,
{
    match spec_classify(e.path@, e.is_regular_file) {
        AssetKind::PlainFile => {
            match spec_destination_path(e.path@, source_root, dest_root) {
                Some(dest) => {
                    if dest != e.path@ && e.bytes@.len() < cutoff {
                        assert(tree.insert(dest, e.bytes@) =~= tree);
                    }
                },
                None => {},
            }
        },
        _ => {},
    }
}

/// Settledness survives the processing of any entry with disjoint
/// destinations.
pub proof fn lemma_entry_settled_preserved(
    tree: Map<Seq<u8>, Seq<u8>>,
    writer: PassEntry,
    e: PassEntry,
    source_root: Seq<u8>,
    dest_root: Seq<u8>,
    clean: bool,
    cutoff: u64,
)
    requires
        entry_settled(tree, e, source_root, dest_root, cutoff),
        entry_dests(e, source_root, dest_root, cutoff).disjoint(
            entry_dests(writer, source_root, dest_root, cutoff),
        ),
    ensures
        entry_settled(
            spec_process_entry(tree, writer, source_root, dest_root, clean, cutoff),
            e,
            source_root,
            dest_root,
            cutoff,
        ),
{
    match spec_classify(e.path@, e.is_regular_file) {
        AssetKind::Image => {
            match spec_image_base(e.path@, source_root, dest_root) {
                Some(base) => {
                    let d1 = spec_tier_destination(base, Tier::Standard);
                    let d2 = spec_tier_destination(base, Tier::High);
                    let d3 = spec_tier_destination(base, Tier::Thumbnail);
                    assert(entry_dests(e, source_root, dest_root, cutoff).contains(d1));
                    assert(entry_dests(e, source_root, dest_root, cutoff).contains(d2));
                    assert(entry_dests(e, source_root, dest_root, cutoff).contains(d3));
                    lemma_process_entry_frame(tree, writer, source_root, dest_root, clean, cutoff, d1);
                    lemma_process_entry_frame(tree, writer, source_root, dest_root, clean, cutoff, d2);
                    lemma_process_entry_frame(tree, writer, source_root, dest_root, clean, cutoff, d3);
                },
                None => {},
            }
        },
        AssetKind::PlainFile => {
            match spec_destination_path(e.path@, source_root, dest_root) {
                Some(dest) => {
                    if dest != e.path@ && e.bytes@.len() < cutoff {
                        assert(entry_dests(e, source_root, dest_root, cutoff).contains(dest));
                        lemma_process_entry_frame(
                            tree,
                            writer,
                            source_root,
                            dest_root,
                            clean,
                            cutoff,
                            dest,
                        );
                    }
                },
                None => {},
            }
        },
        AssetKind::Ignored => {},
    }
}

/// After one pass, every entry is settled, provided no two entries share a
/// destination.
pub proof fn lemma_run_pass_settles(
    tree: Map<Seq<u8>, Seq<u8>>,
    entries: Seq<PassEntry>,
    source_root: Seq<u8>,
    dest_root: Seq<u8>,
    clean: bool,
    cutoff: u64,
)
    requires
        dests_pairwise_disjoint(entries, source_root, dest_root, cutoff),
    ensures
        forall|j: int|
            0 <= j < entries.len() ==> entry_settled(
                spec_run_pass(tree, entries, source_root, dest_root, clean, cutoff),
                entries[j],
                source_root,
                dest_root,
                cutoff,
            ),
    decreases entries.len(),
{
    if entries.len() > 0 {
        let init = entries.drop_last();
        let last = entries.last();
        let r_init = spec_run_pass(tree, init, source_root, dest_root, clean, cutoff);
        let after = spec_process_entry(r_init, last, source_root, dest_root, clean, cutoff);
        assert forall|i: int, j: int| 0 <= i < j < init.len() implies entry_dests(
            init[i],
            source_root,
            dest_root,
            cutoff,
        ).disjoint(entry_dests(init[j], source_root, dest_root, cutoff)) by {
            assert(init[i] == entries[i]);
            assert(init[j] == entries[j]);
        }
        lemma_run_pass_settles(tree, init, source_root, dest_root, clean, cutoff);
        lemma_process_entry_settles(r_init, last, source_root, dest_root, clean, cutoff);
        assert forall|j: int| 0 <= j < entries.len() - 1 implies entry_settled(
            after,
            entries[j],
            source_root,
            dest_root,
            cutoff,
        ) by {
            assert(init[j] == entries[j]);
            assert(entry_settled(r_init, entries[j], source_root, dest_root, cutoff));
            lemma_entry_settled_preserved(
                r_init,
                last,
                entries[j],
                source_root,
                dest_root,
                clean,
                cutoff,
            );
        }
        assert(entries[entries.len() - 1] == last);
    }
}

/// An incremental pass over settled entries changes nothing.
pub proof fn lemma_run_pass_noop_when_settled(
    tree: Map<Seq<u8>, Seq<u8>>,
    entries: Seq<PassEntry>,
    source_root: Seq<u8>,
    dest_root: Seq<u8>,
    cutoff: u64,
)
    requires
        forall|j: int|
            0 <= j < entries.len() ==> entry_settled(
                tree,
                entries[j],
                source_root,
                dest_root,
                cutoff,
            ),
    ensures
        spec_run_pass(tree, entries, source_root, dest_root, false, cutoff) == tree,
    decreases entries.len(),
{
    if entries.len() > 0 {
        let init = entries.drop_last();
        assert forall|j: int| 0 <= j < init.len() implies entry_settled(
            tree,
            init[j],
            source_root,
            dest_root,
            cutoff,
        ) by {
            assert(init[j] == entries[j]);
        }
        lemma_run_pass_noop_when_settled(tree, init, source_root, dest_root, cutoff);
        assert(entries[entries.len() - 1] == entries.last());
        lemma_process_entry_noop(tree, entries.last(), source_root, dest_root, cutoff);
    }
}

/// Settledness reads only an entry's path, kind and bytes, so it carries
/// over to a later enumeration of the same file.
pub proof fn lemma_settled_same_file(
    tree: Map<Seq<u8>, Seq<u8>>,
    a: PassEntry,
    b: PassEntry,
    source_root: Seq<u8>,
    dest_root: Seq<u8>,
    cutoff: u64,
)
    requires
        entry_settled(tree, a, source_root, dest_root, cutoff),
        a.path@ == b.path@,
        a.is_regular_file == b.is_regular_file,
        a.bytes@ == b.bytes@,
    ensures
        entry_settled(tree, b, source_root, dest_root, cutoff),
{
}

/// An entry's work is on disk exactly as this pass's transcoding would leave
/// it: every tier of an image holds its freshly reconciled bytes, and a
/// copyable plain file's destination holds exactly its bytes.
pub open spec fn entry_rebuilt(
    tree: Map<Seq<u8>, Seq<u8>>,
    e: PassEntry,
    source_root: Seq<u8>,
    dest_root: Seq<u8>,
    cutoff: u64,
) -> bool {
    match spec_classify(e.path@, e.is_regular_file) {
        AssetKind::Image => match spec_image_base(e.path@, source_root, dest_root) {
            Some(base) => {
                let d1 = spec_tier_destination(base, Tier::Standard);
                let d2 = spec_tier_destination(base, Tier::High);
                let d3 = spec_tier_destination(base, Tier::Thumbnail);
                &&& tree.contains_key(d1) && tree[d1] == crate::pipeline::reconciled(
                    e.outputs.standard@,
                    e.bytes@,
                )
                &&& tree.contains_key(d2) && tree[d2] == crate::pipeline::reconciled(
                    e.outputs.high@,
                    e.bytes@,
                )
                &&& tree.contains_key(d3) && tree[d3] == crate::pipeline::reconciled(
                    e.outputs.thumbnail@,
                    e.bytes@,
                )
            },
            None => true,
        },
        AssetKind::PlainFile => match spec_destination_path(e.path@, source_root, dest_root) {
            Some(dest) => dest == e.path@ || e.bytes@.len() >= cutoff || (tree.contains_key(dest)
                && tree[dest] == e.bytes@),
            None => true,
        },
        AssetKind::Ignored => true,
    }
}

/// A clean pass over one entry rebuilds it, whatever the tree held before.
pub proof fn lemma_process_entry_rebuilds(
    tree: Map<Seq<u8>, Seq<u8>>,
    e: PassEntry,
    source_root: Seq<u8>,
    dest_root: Seq<u8>,
    cutoff: u64,
)
    ensures
        entry_rebuilt(
            spec_process_entry(tree, e, source_root, dest_root, true, cutoff),
            e,
            source_root,
            dest_root,
            cutoff,
        ),
{
    match spec_classify(e.path@, e.is_regular_file) {
        AssetKind::Image => {
            match spec_image_base(e.path@, source_root, dest_root) {
                Some(base) => {
                    crate::pipeline::lemma_clean_regenerates_every_tier(
                        tree,
                        base,
                        e.outputs.standard@,
                        e.outputs.high@,
                        e.outputs.thumbnail@,
                        e.bytes@,
                    );
                },
                None => {},
            }
        },
        _ => {},
    }
}

/// Being rebuilt survives the processing of any entry with disjoint
/// destinations.
pub proof fn lemma_entry_rebuilt_preserved(
    tree: Map<Seq<u8>, Seq<u8>>,
    writer: PassEntry,
    e: PassEntry,
    source_root: Seq<u8>,
    dest_root: Seq<u8>,
    clean: bool,
    cutoff: u64,
)
    requires
        entry_rebuilt(tree, e, source_root, dest_root, cutoff),
        entry_dests(e, source_root, dest_root, cutoff).disjoint(
            entry_dests(writer, source_root, dest_root, cutoff),
        ),
    ensures
        entry_rebuilt(
            spec_process_entry(tree, writer, source_root, dest_root, clean, cutoff),
            e,
            source_root,
            dest_root,
            cutoff,
        ),
{
    match spec_classify(e.path@, e.is_regular_file) {
        AssetKind::Image => {
            match spec_image_base(e.path@, source_root, dest_root) {
                Some(base) => {
                    let d1 = spec_tier_destination(base, Tier::Standard);
                    let d2 = spec_tier_destination(base, Tier::High);
                    let d3 = spec_tier_destination(base, Tier::Thumbnail);
                    assert(entry_dests(e, source_root, dest_root, cutoff).contains(d1));
                    assert(entry_dests(e, source_root, dest_root, cutoff).contains(d2));
                    assert(entry_dests(e, source_root, dest_root, cutoff).contains(d3));
                    lemma_process_entry_frame(tree, writer, source_root, dest_root, clean, cutoff, d1);
                    lemma_process_entry_frame(tree, writer, source_root, dest_root, clean, cutoff, d2);
                    lemma_process_entry_frame(tree, writer, source_root, dest_root, clean, cutoff, d3);
                },
                None => {},
            }
        },
        AssetKind::PlainFile => {
            match spec_destination_path(e.path@, source_root, dest_root) {
                Some(dest) => {
                    if dest != e.path@ && e.bytes@.len() < cutoff {
                        assert(entry_dests(e, source_root, dest_root, cutoff).contains(dest));
                        lemma_process_entry_frame(
                            tree,
                            writer,
                            source_root,
                            dest_root,
                            clean,
                            cutoff,
                            dest,
                        );
                    }
                },
                None => {},
            }
        },
        AssetKind::Ignored => {},
    }
}

/// The clean-rebuild property, over a whole pass: a pass with the clean flag
/// regenerates every tier of every image, whatever the destination tree held
/// before, and leaves each tier's freshly reconciled bytes at its
/// destination. Holds whenever no two entries share a destination (the
/// path-mapping invariant; a source tree whose paths collide is out of
/// scope).
pub proof fn lemma_clean_pass_rebuilds_everything(
    tree: Map<Seq<u8>, Seq<u8>>,
    entries: Seq<PassEntry>,
    source_root: Seq<u8>,
    dest_root: Seq<u8>,
    cutoff: u64,
)
    requires
        dests_pairwise_disjoint(entries, source_root, dest_root, cutoff),
    ensures
        forall|j: int|
            0 <= j < entries.len() ==> entry_rebuilt(
                spec_run_pass(tree, entries, source_root, dest_root, true, cutoff),
                entries[j],
                source_root,
                dest_root,
                cutoff,
            ),
    decreases entries.len(),
{
    if entries.len() > 0 {
        let init = entries.drop_last();
        let last = entries.last();
        let r_init = spec_run_pass(tree, init, source_root, dest_root, true, cutoff);
        let after = spec_process_entry(r_init, last, source_root, dest_root, true, cutoff);
        assert forall|i: int, j: int| 0 <= i < j < init.len() implies entry_dests(
            init[i],
            source_root,
            dest_root,
            cutoff,
        ).disjoint(entry_dests(init[j], source_root, dest_root, cutoff)) by {
            assert(init[i] == entries[i]);
            assert(init[j] == entries[j]);
        }
        lemma_clean_pass_rebuilds_everything(tree, init, source_root, dest_root, cutoff);
        lemma_process_entry_rebuilds(r_init, last, source_root, dest_root, cutoff);
        assert forall|j: int| 0 <= j < entries.len() - 1 implies entry_rebuilt(
            after,
            entries[j],
            source_root,
            dest_root,
            cutoff,
        ) by {
            assert(init[j] == entries[j]);
            assert(entry_rebuilt(r_init, entries[j], source_root, dest_root, cutoff));
            lemma_entry_rebuilt_preserved(
                r_init,
                last,
                entries[j],
                source_root,
                dest_root,
                true,
                cutoff,
            );
        }
        assert(entries[entries.len() - 1] == last);
    }
}

/// Idempotence of incremental runs, over a whole pass: after one pass
/// without the clean flag, a second pass over the same files — however the
/// transcoder would encode them this time — regenerates nothing and leaves
/// the destination tree exactly as the first pass left it. Holds whenever no
/// two entries share a destination (the path-mapping invariant; a source
/// tree whose paths collide is out of scope).
pub proof fn lemma_incremental_pass_idempotent(
    tree: Map<Seq<u8>, Seq<u8>>,
    first: Seq<PassEntry>,
    second: Seq<PassEntry>,
    source_root: Seq<u8>,
    dest_root: Seq<u8>,
    cutoff: u64,
)
    requires
        dests_pairwise_disjoint(first, source_root, dest_root, cutoff),
        second.len() == first.len(),
        forall|j: int|
            0 <= j < first.len() ==> #[trigger] second[j].path@ == first[j].path@
                && second[j].is_regular_file == first[j].is_regular_file && second[j].bytes@
                == first[j].bytes@,
    ensures
        ({
            let once = spec_run_pass(tree, first, source_root, dest_root, false, cutoff);
            // Nothing to regenerate or copy: every entry is already settled...
            &&& forall|j: int|
                0 <= j < second.len() ==> entry_settled(
                    once,
                    second[j],
                    source_root,
                    dest_root,
                    cutoff,
                )
            // ... so the second pass leaves the tree exactly as it found it.
            &&& spec_run_pass(once, second, source_root, dest_root, false, cutoff) == once
        }),
{
    let once = spec_run_pass(tree, first, source_root, dest_root, false, cutoff);
    lemma_run_pass_settles(tree, first, source_root, dest_root, false, cutoff);
    assert forall|j: int| 0 <= j < second.len() implies entry_settled(
        once,
        second[j],
        source_root,
        dest_root,
        cutoff,
    ) by {
        assert(second[j].path@ == first[j].path@);
        lemma_settled_same_file(once, first[j], second[j], source_root, dest_root, cutoff);
    }
    lemma_run_pass_noop_when_settled(once, second, source_root, dest_root, cutoff);
}

} // verus!
