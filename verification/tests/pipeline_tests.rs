use asset_pipeline::config::RunConfig;
use asset_pipeline::errors::PipelineError;
use asset_pipeline::model::FsModel;
use asset_pipeline::pipeline::{
    copy_plain, fallback_to_original, needs_regeneration, plan_plain_copy, process_image,
    CopyOutcome, CopyPlan, TierOutputs,
};

fn v(s: &str) -> Vec<u8> {
    s.as_bytes().to_vec()
}

fn config(clean: bool) -> RunConfig {
    RunConfig::new(v("assets"), v("dist"), 20, clean)
}

fn outputs(standard: usize, high: usize, thumbnail: usize) -> TierOutputs {
    TierOutputs {
        standard: vec![1u8; standard],
        high: vec![2u8; high],
        thumbnail: vec![3u8; thumbnail],
    }
}

#[test]
fn regeneration_is_needed_on_clean_or_missing_destination() {
    assert!(needs_regeneration(true, true));
    assert!(needs_regeneration(true, false));
    assert!(needs_regeneration(false, false));
    assert!(!needs_regeneration(false, true));
}

#[test]
fn fallback_triggers_only_when_strictly_larger() {
    assert!(fallback_to_original(501, 500));
    assert!(!fallback_to_original(500, 500));
    assert!(!fallback_to_original(499, 500));
}

#[test]
fn cutoff_is_counted_in_mib() {
    assert_eq!(config(false).size_cutoff, 20 * 1048576);
    assert_eq!(RunConfig::new(v("a"), v("b"), 1, true).size_cutoff, 1048576);
}

#[test]
fn png_source_yields_three_jpg_tiers() {
    // A 500 KB PNG whose thumbnail comes out larger than the source: the
    // destination gains the three tiers, and the oversized thumbnail is
    // replaced by the original bytes.
    let mut fs = FsModel::empty();
    let source = vec![9u8; 500 * 1024];
    let outs = outputs(120 * 1024, 400 * 1024, 520 * 1024);
    let report = process_image(&mut fs, &v("assets/photo.PNG"), &source, &config(false), &outs)
        .unwrap();
    assert!(report.standard && report.high && report.thumbnail);
    assert_eq!(fs.read(&v("dist/photo.jpg")).unwrap(), &outs.standard);
    assert_eq!(fs.read(&v("dist/photo_high.jpg")).unwrap(), &outs.high);
    assert_eq!(fs.read(&v("dist/photo_thumb.jpg")).unwrap(), &source);
    assert!(fs.read(&v("dist/photo.png")).is_none());
}

#[test]
fn incremental_second_pass_regenerates_nothing() {
    let mut fs = FsModel::empty();
    let source = vec![9u8; 1000];
    let first = outputs(100, 200, 50);
    let report1 = process_image(&mut fs, &v("assets/a.jpg"), &source, &config(false), &first)
        .unwrap();
    assert!(report1.standard && report1.high && report1.thumbnail);

    // The second pass would transcode differently, but must not touch a tree
    // whose tiers all exist.
    let second = outputs(7, 8, 9);
    let report2 = process_image(&mut fs, &v("assets/a.jpg"), &source, &config(false), &second)
        .unwrap();
    assert!(!report2.standard && !report2.high && !report2.thumbnail);
    assert_eq!(fs.read(&v("dist/a.jpg")).unwrap(), &first.standard);
    assert_eq!(fs.read(&v("dist/a_high.jpg")).unwrap(), &first.high);
    assert_eq!(fs.read(&v("dist/a_thumb.jpg")).unwrap(), &first.thumbnail);
}

#[test]
fn clean_pass_regenerates_every_tier() {
    let mut fs = FsModel::empty();
    let source = vec![9u8; 1000];
    let first = outputs(100, 200, 50);
    process_image(&mut fs, &v("assets/a.jpg"), &source, &config(false), &first).unwrap();

    let second = outputs(7, 8, 9);
    let report = process_image(&mut fs, &v("assets/a.jpg"), &source, &config(true), &second)
        .unwrap();
    assert!(report.standard && report.high && report.thumbnail);
    assert_eq!(fs.read(&v("dist/a.jpg")).unwrap(), &second.standard);
    assert_eq!(fs.read(&v("dist/a_high.jpg")).unwrap(), &second.high);
    assert_eq!(fs.read(&v("dist/a_thumb.jpg")).unwrap(), &second.thumbnail);
}

#[test]
fn missing_tiers_are_filled_in_without_touching_the_rest() {
    let mut fs = FsModel::empty();
    // Only the standard tier pre-exists.
    fs.write(v("dist/a.jpg"), vec![5u8; 10]);
    let source = vec![9u8; 1000];
    let outs = outputs(100, 200, 50);
    let report = process_image(&mut fs, &v("assets/a.jpg"), &source, &config(false), &outs)
        .unwrap();
    assert!(!report.standard && report.high && report.thumbnail);
    assert_eq!(fs.read(&v("dist/a.jpg")).unwrap(), &vec![5u8; 10]);
    assert_eq!(fs.read(&v("dist/a_high.jpg")).unwrap(), &outs.high);
    assert_eq!(fs.read(&v("dist/a_thumb.jpg")).unwrap(), &outs.thumbnail);
}

#[test]
fn image_outside_the_root_is_a_path_error() {
    let mut fs = FsModel::empty();
    let source = vec![9u8; 10];
    let outs = outputs(1, 2, 3);
    let r = process_image(&mut fs, &v("other/a.jpg"), &source, &config(false), &outs);
    assert_eq!(r.unwrap_err(), PipelineError::PathNotUnderRoot);
    assert!(fs.read(&v("dist/a.jpg")).is_none());
}

#[test]
fn small_plain_file_is_copied_byte_for_byte() {
    // A 1 KB text file under the default 20 MiB cutoff.
    let mut fs = FsModel::empty();
    let bytes = vec![7u8; 1024];
    let outcome = copy_plain(&mut fs, &v("assets/readme.txt"), &bytes, &config(false)).unwrap();
    assert_eq!(outcome, CopyOutcome::Copied);
    assert_eq!(fs.read(&v("dist/readme.txt")).unwrap(), &bytes);
}

#[test]
fn plain_file_at_or_over_the_cutoff_is_skipped_without_error() {
    // A 25 MiB file against the default 20 MiB cutoff: skipped, nothing
    // written, no error.
    let mut fs = FsModel::empty();
    let bytes = vec![7u8; 25 * 1048576];
    let outcome = copy_plain(&mut fs, &v("assets/huge.bin"), &bytes, &config(false)).unwrap();
    assert_eq!(outcome, CopyOutcome::SkippedTooLarge);
    assert!(fs.read(&v("dist/huge.bin")).is_none());

    // The boundary itself is already out.
    let plan = plan_plain_copy(&v("assets/huge.bin"), 20 * 1048576, &config(false)).unwrap();
    assert!(matches!(plan, CopyPlan::SkipTooLarge));
    let plan = plan_plain_copy(&v("assets/huge.bin"), 20 * 1048576 - 1, &config(false)).unwrap();
    assert!(matches!(plan, CopyPlan::Copy(d) if d == v("dist/huge.bin")));
}

#[test]
fn self_copy_is_refused_and_modifies_nothing() {
    let mut fs = FsModel::empty();
    fs.write(v("same/file.txt"), vec![1u8, 2, 3]);
    let same_root = RunConfig::new(v("same"), v("same"), 20, false);
    let bytes = vec![1u8, 2, 3];
    let r = copy_plain(&mut fs, &v("same/file.txt"), &bytes, &same_root);
    assert_eq!(r.unwrap_err(), PipelineError::SelfCopy);
    assert_eq!(fs.read(&v("same/file.txt")).unwrap(), &vec![1u8, 2, 3]);
}

#[test]
fn plain_file_outside_the_root_is_a_path_error() {
    let mut fs = FsModel::empty();
    let r = copy_plain(&mut fs, &v("other/readme.txt"), &vec![1u8], &config(false));
    assert_eq!(r.unwrap_err(), PipelineError::PathNotUnderRoot);
}
