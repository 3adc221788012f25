use asset_pipeline::errors::PipelineError;
use asset_pipeline::paths::{
    classify, get_destination_path, image_base_destination, normalize_image_ext, with_suffix,
    AssetKind,
};
use asset_pipeline::tiers::{tier_destination, tier_settings, Tier};

fn v(s: &str) -> Vec<u8> {
    s.as_bytes().to_vec()
}

#[test]
fn classify_recognizes_the_three_image_extensions() {
    assert_eq!(classify(&v("a/photo.jpg"), true), AssetKind::Image);
    assert_eq!(classify(&v("a/photo.jpeg"), true), AssetKind::Image);
    assert_eq!(classify(&v("a/photo.png"), true), AssetKind::Image);
}

#[test]
fn classify_is_case_insensitive() {
    assert_eq!(classify(&v("a/photo.JPG"), true), AssetKind::Image);
    assert_eq!(classify(&v("a/photo.PNG"), true), AssetKind::Image);
    assert_eq!(classify(&v("a/photo.JpEg"), true), AssetKind::Image);
}

#[test]
fn classify_routes_other_files_to_the_plain_copier() {
    assert_eq!(classify(&v("a/readme.txt"), true), AssetKind::PlainFile);
    assert_eq!(classify(&v("a/archive.jpg.gz"), true), AssetKind::PlainFile);
    assert_eq!(classify(&v("a/noextension"), true), AssetKind::PlainFile);
    assert_eq!(classify(&v("a/.hidden"), true), AssetKind::PlainFile);
}

#[test]
fn classify_ignores_non_regular_files() {
    assert_eq!(classify(&v("a/photo.jpg"), false), AssetKind::Ignored);
    assert_eq!(classify(&v("a/subdir"), false), AssetKind::Ignored);
}

#[test]
fn destination_path_replaces_the_source_root() {
    let d = get_destination_path(&v("assets/sub/readme.txt"), &v("assets"), &v("dist")).unwrap();
    assert_eq!(d, v("dist/sub/readme.txt"));
}

#[test]
fn destination_path_accepts_roots_with_trailing_slash() {
    let d = get_destination_path(&v("assets/readme.txt"), &v("assets/"), &v("dist/")).unwrap();
    assert_eq!(d, v("dist/readme.txt"));
}

#[test]
fn destination_path_rejects_a_source_outside_the_root() {
    let r = get_destination_path(&v("elsewhere/readme.txt"), &v("assets"), &v("dist"));
    assert_eq!(r.unwrap_err(), PipelineError::PathNotUnderRoot);
    let r = get_destination_path(&v("assetsx/readme.txt"), &v("assets"), &v("dist"));
    assert_eq!(r.unwrap_err(), PipelineError::PathNotUnderRoot);
    let r = get_destination_path(&v("assets"), &v("assets"), &v("dist"));
    assert_eq!(r.unwrap_err(), PipelineError::PathNotUnderRoot);
}

#[test]
fn destination_depends_only_on_the_relative_path() {
    // The same root-relative path under two different source roots maps to
    // the same destination.
    let a = get_destination_path(&v("assets/sub/a.txt"), &v("assets"), &v("dist")).unwrap();
    let b = get_destination_path(&v("other/tree/sub/a.txt"), &v("other/tree"), &v("dist")).unwrap();
    assert_eq!(a, b);
}

#[test]
fn distinct_relative_paths_get_distinct_destinations() {
    let a = get_destination_path(&v("assets/a.txt"), &v("assets"), &v("dist")).unwrap();
    let b = get_destination_path(&v("assets/b.txt"), &v("assets"), &v("dist")).unwrap();
    assert_ne!(a, b);
}

#[test]
fn normalize_rewrites_png_to_jpg_case_insensitively() {
    assert_eq!(normalize_image_ext(&v("dist/photo.png")), v("dist/photo.jpg"));
    assert_eq!(normalize_image_ext(&v("dist/photo.PNG")), v("dist/photo.jpg"));
    assert_eq!(normalize_image_ext(&v("dist/photo.PnG")), v("dist/photo.jpg"));
}

#[test]
fn normalize_leaves_other_extensions_alone() {
    assert_eq!(normalize_image_ext(&v("dist/photo.jpg")), v("dist/photo.jpg"));
    assert_eq!(normalize_image_ext(&v("dist/photo.jpeg")), v("dist/photo.jpeg"));
    assert_eq!(normalize_image_ext(&v("dist/noext")), v("dist/noext"));
}

#[test]
fn image_base_maps_and_normalizes_in_one_step() {
    let b = image_base_destination(&v("assets/photo.PNG"), &v("assets"), &v("dist")).unwrap();
    assert_eq!(b, v("dist/photo.jpg"));
    let b = image_base_destination(&v("assets/photo.jpeg"), &v("assets"), &v("dist")).unwrap();
    assert_eq!(b, v("dist/photo.jpeg"));
}

#[test]
fn suffix_is_inserted_before_the_extension() {
    assert_eq!(with_suffix(&v("dist/photo.jpg"), &v("_high")), v("dist/photo_high.jpg"));
    assert_eq!(with_suffix(&v("dist/noext"), &v("_high")), v("dist/noext_high"));
}

#[test]
fn tier_destinations_follow_the_fixed_suffixes() {
    let base = v("dist/photo.jpg");
    assert_eq!(tier_destination(&base, Tier::Standard), v("dist/photo.jpg"));
    assert_eq!(tier_destination(&base, Tier::High), v("dist/photo_high.jpg"));
    assert_eq!(tier_destination(&base, Tier::Thumbnail), v("dist/photo_thumb.jpg"));
}

#[test]
fn tier_settings_hold_the_fixed_bounds_quality_and_blur() {
    let s = tier_settings(Tier::Standard);
    assert_eq!(s.max_dimension, 1920);
    assert_eq!(s.quality, 85);
    assert_eq!(s.blur_centi, 5);
    let h = tier_settings(Tier::High);
    assert_eq!(h.max_dimension, 3840);
    assert_eq!(h.quality, 85);
    assert_eq!(h.blur_centi, 0);
    let t = tier_settings(Tier::Thumbnail);
    assert_eq!(t.max_dimension, 640);
    assert_eq!(t.quality, 85);
    assert_eq!(t.blur_centi, 1);
}
