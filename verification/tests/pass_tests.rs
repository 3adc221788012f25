use asset_pipeline::config::RunConfig;
use asset_pipeline::model::FsModel;
use asset_pipeline::pass::{run_pass, PassEntry};
use asset_pipeline::pipeline::TierOutputs;

fn v(s: &str) -> Vec<u8> {
    s.as_bytes().to_vec()
}

fn config(clean: bool) -> RunConfig {
    RunConfig::new(v("assets"), v("dist"), 20, clean)
}

fn entry(path: &str, is_regular_file: bool, bytes: Vec<u8>, outs: (usize, usize, usize)) -> PassEntry {
    PassEntry {
        path: v(path),
        is_regular_file,
        bytes,
        outputs: TierOutputs {
            standard: vec![1u8; outs.0],
            high: vec![2u8; outs.1],
            thumbnail: vec![3u8; outs.2],
        },
    }
}

fn sample_entries(outs: (usize, usize, usize)) -> Vec<PassEntry> {
    vec![
        entry("assets/photo.PNG", true, vec![9u8; 500 * 1024], outs),
        entry("assets/readme.txt", true, vec![7u8; 1024], (0, 0, 0)),
        entry("assets/huge.bin", true, vec![8u8; 25 * 1048576], (0, 0, 0)),
        entry("assets/subdir", false, Vec::new(), (0, 0, 0)),
    ]
}

#[test]
fn one_pass_mirrors_the_tree() {
    let mut fs = FsModel::empty();
    run_pass(&mut fs, &sample_entries((100, 200, 50)), &config(false));
    // The image gains its three tiers, PNG normalized to jpg.
    assert_eq!(fs.read(&v("dist/photo.jpg")).unwrap(), &vec![1u8; 100]);
    assert_eq!(fs.read(&v("dist/photo_high.jpg")).unwrap(), &vec![2u8; 200]);
    assert_eq!(fs.read(&v("dist/photo_thumb.jpg")).unwrap(), &vec![3u8; 50]);
    // The small plain file is copied byte-for-byte.
    assert_eq!(fs.read(&v("dist/readme.txt")).unwrap(), &vec![7u8; 1024]);
    // The file over the cutoff and the directory leave nothing behind.
    assert!(fs.read(&v("dist/huge.bin")).is_none());
    assert!(fs.read(&v("dist/subdir")).is_none());
}

#[test]
fn second_incremental_pass_changes_nothing() {
    let mut fs = FsModel::empty();
    run_pass(&mut fs, &sample_entries((100, 200, 50)), &config(false));
    // The second pass would transcode differently; it must not matter.
    run_pass(&mut fs, &sample_entries((11, 12, 13)), &config(false));
    assert_eq!(fs.read(&v("dist/photo.jpg")).unwrap(), &vec![1u8; 100]);
    assert_eq!(fs.read(&v("dist/photo_high.jpg")).unwrap(), &vec![2u8; 200]);
    assert_eq!(fs.read(&v("dist/photo_thumb.jpg")).unwrap(), &vec![3u8; 50]);
    assert_eq!(fs.read(&v("dist/readme.txt")).unwrap(), &vec![7u8; 1024]);
}

#[test]
fn clean_pass_regenerates_what_an_incremental_pass_keeps() {
    let mut fs = FsModel::empty();
    run_pass(&mut fs, &sample_entries((100, 200, 50)), &config(false));
    run_pass(&mut fs, &sample_entries((11, 12, 13)), &config(true));
    assert_eq!(fs.read(&v("dist/photo.jpg")).unwrap(), &vec![1u8; 11]);
    assert_eq!(fs.read(&v("dist/photo_high.jpg")).unwrap(), &vec![2u8; 12]);
    assert_eq!(fs.read(&v("dist/photo_thumb.jpg")).unwrap(), &vec![3u8; 13]);
}

#[test]
fn oversized_derivatives_fall_back_to_the_source_in_a_pass() {
    // The source is 100 bytes; the high tier comes out larger and must end
    // as an exact copy of the source.
    let mut fs = FsModel::empty();
    let entries = vec![entry("assets/a.jpg", true, vec![9u8; 100], (60, 150, 40))];
    run_pass(&mut fs, &entries, &config(false));
    assert_eq!(fs.read(&v("dist/a.jpg")).unwrap(), &vec![1u8; 60]);
    assert_eq!(fs.read(&v("dist/a_high.jpg")).unwrap(), &vec![9u8; 100]);
    assert_eq!(fs.read(&v("dist/a_thumb.jpg")).unwrap(), &vec![3u8; 40]);
}

#[test]
fn a_failing_entry_does_not_stop_the_pass() {
    let mut fs = FsModel::empty();
    let entries = vec![
        entry("elsewhere/a.jpg", true, vec![9u8; 100], (10, 20, 5)),
        entry("assets/b.txt", true, vec![4u8; 10], (0, 0, 0)),
    ];
    run_pass(&mut fs, &entries, &config(false));
    assert!(fs.read(&v("dist/a.jpg")).is_none());
    assert_eq!(fs.read(&v("dist/b.txt")).unwrap(), &vec![4u8; 10]);
}
