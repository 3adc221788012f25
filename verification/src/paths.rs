//! Path model and the path mapper.
//!
//! Paths are byte strings with `/` as the separator. The extension of a path
//! is everything after the last `.` of its final component, provided that `.`
//! is not the component's first byte (so `.hidden` has no extension). The
//! mapper strips the source root from a source path, appends the remainder to
//! the destination root, and, for images, rewrites a PNG extension to the
//! lossy `jpg` container.

use vstd::prelude::*;
use crate::errors::PipelineError;

verus! {

pub const SLASH: u8 = 47;

pub const DOT: u8 = 46;

/// How the tree walk routes an entry: images are transcoded into derivative
/// tiers, plain files are copied verbatim (subject to the size cutoff), and
/// anything that is not a regular file is ignored.
#[derive(Clone, Copy, Debug, PartialEq, Eq, Structural)]
pub enum AssetKind {
    Image,
    PlainFile,
    Ignored,
}

/// ASCII lowercase of one byte.
pub open spec fn lower_byte(b: u8) -> u8 {
    if 65 <= b <= 90 {
        (b + 32) as u8
    } else {
        b
    }
}

/// ASCII lowercase of a byte string.
pub open spec fn lower_seq(s: Seq<u8>) -> Seq<u8> {
    s.map_values(|b: u8| lower_byte(b))
}

/// The `jpg` extension, lowercased.
pub open spec fn jpg_ext() -> Seq<u8> {
    seq![106u8, 112u8, 103u8]
}

/// The `jpeg` extension, lowercased.
pub open spec fn jpeg_ext() -> Seq<u8> {
    seq![106u8, 112u8, 101u8, 103u8]
}

/// The `png` extension, lowercased.
pub open spec fn png_ext() -> Seq<u8> {
    seq![112u8, 110u8, 103u8]
}

/// Index of the `.` that starts the extension, scanning the final path
/// component from the end; `None` when the final component has no extension.
pub open spec fn ext_dot_index(s: Seq<u8>) -> Option<int>
    decreases s.len(),
{
    if s.len() == 0 {
        None
    } else if s.last() == SLASH {
        None
    } else if s.last() == DOT {
        if s.len() >= 2 && s[s.len() - 2] != SLASH {
            Some(s.len() - 1)
        } else {
            None
        }
    } else {
        ext_dot_index(s.drop_last())
    }
}

/// The extension (bytes after the dot), when the path has one.
pub open spec fn ext_of(s: Seq<u8>) -> Option<Seq<u8>> {
    match ext_dot_index(s) {
        Some(i) => Some(s.subrange(i + 1, s.len() as int)),
        None => None,
    }
}

/// The extension, ASCII-lowercased.
pub open spec fn lower_ext(s: Seq<u8>) -> Option<Seq<u8>> {
    match ext_of(s) {
        Some(e) => Some(lower_seq(e)),
        None => None,
    }
}

/// Whether the path's extension names the PNG container.
pub open spec fn path_is_png(s: Seq<u8>) -> bool {
    lower_ext(s) == Some(png_ext())
}

/// Whether the path's extension names one of the recognized raster image
/// containers.
pub open spec fn path_is_image(s: Seq<u8>) -> bool {
    ||| lower_ext(s) == Some(jpg_ext())
    ||| lower_ext(s) == Some(jpeg_ext())
    ||| lower_ext(s) == Some(png_ext())
}

/// How an entry is routed: regular files by extension, everything else is
/// ignored.
pub open spec fn spec_classify(s: Seq<u8>, is_regular_file: bool) -> AssetKind {
    if !is_regular_file {
        AssetKind::Ignored
    } else if path_is_image(s) {
        AssetKind::Image
    } else {
        AssetKind::PlainFile
    }
}

/// The path relative to `root`, when `path` lies strictly under `root`.
pub open spec fn spec_strip_prefix(path: Seq<u8>, root: Seq<u8>) -> Option<Seq<u8>> {
    if root.len() == 0 {
        if path.len() > 0 {
            Some(path)
        } else {
            None
        }
    } else if path.len() > root.len() && path.subrange(0, root.len() as int) == root {
        if root.last() == SLASH {
            Some(path.subrange(root.len() as int, path.len() as int))
        } else if path[root.len() as int] == SLASH {
            if path.len() > root.len() + 1 {
                Some(path.subrange(root.len() as int + 1, path.len() as int))
            } else {
                None
            }
        } else {
            None
        }
    } else {
        None
    }
}

/// `root` and `rel` joined with exactly one separator between them.
pub open spec fn spec_join(root: Seq<u8>, rel: Seq<u8>) -> Seq<u8> {
    if root.len() == 0 {
        rel
    } else if root.last() == SLASH {
        root + rel
    } else {
        root + seq![SLASH] + rel
    }
}

/// Destination path of an asset, before any extension rewriting: the source
/// path with the source root replaced by the destination root.
pub open spec fn spec_destination_path(
    source: Seq<u8>,
    source_root: Seq<u8>,
    dest_root: Seq<u8>,
) -> Option<Seq<u8>> {
    match spec_strip_prefix(source, source_root) {
        Some(rel) => Some(spec_join(dest_root, rel)),
        None => None,
    }
}

/// A PNG extension rewritten to `jpg`; any other path is unchanged.
pub open spec fn spec_normalize_image_ext(p: Seq<u8>) -> Seq<u8> {
    match ext_dot_index(p) {
        Some(i) => if lower_seq(p.subrange(i + 1, p.len() as int)) == png_ext() {
            p.take(i + 1) + jpg_ext()
        } else {
            p
        },
        None => p,
    }
}

/// `suffix` inserted immediately before the extension dot; appended at the
/// end when the path has no extension.
pub open spec fn spec_with_suffix(p: Seq<u8>, suffix: Seq<u8>) -> Seq<u8> {
    match ext_dot_index(p) {
        Some(i) => p.take(i) + suffix + p.skip(i),
        None => p + suffix,
    }
}

/// Inserting a suffix lengthens a path by exactly the suffix's length.
pub proof fn lemma_with_suffix_len(p: Seq<u8>, suffix: Seq<u8>)
    ensures
        spec_with_suffix(p, suffix).len() == p.len() + suffix.len(),
{
    lemma_ext_dot_index_bounds(p);
}

/// Base destination path of an image: mapped into the destination tree, with
/// the container normalized. Every derivative tier's path derives from this.
pub open spec fn spec_image_base(
    source: Seq<u8>,
    source_root: Seq<u8>,
    dest_root: Seq<u8>,
) -> Option<Seq<u8>> {
    match spec_destination_path(source, source_root, dest_root) {
        Some(d) => Some(spec_normalize_image_ext(d)),
        None => None,
    }
}

/// A found extension dot lies inside the path, after the first byte, and is a
/// dot.
pub proof fn lemma_ext_dot_index_bounds(s: Seq<u8>)
    ensures
        ext_dot_index(s) matches Some(i) ==> 1 <= i < s.len() && s[i] == DOT,
    decreases s.len(),
{
    if s.len() > 0 && s.last() != SLASH && s.last() != DOT {
        lemma_ext_dot_index_bounds(s.drop_last());
    }
}

/// The destination of an asset depends only on its root-relative path and the
/// destination root: two sources with the same relative path map to the same
/// destination, both before and after image-extension normalization.
pub proof fn lemma_destination_depends_on_relative_path(
    source1: Seq<u8>,
    root1: Seq<u8>,
    source2: Seq<u8>,
    root2: Seq<u8>,
    dest_root: Seq<u8>,
)
    requires
        spec_strip_prefix(source1, root1) == spec_strip_prefix(source2, root2),
    ensures
        spec_destination_path(source1, root1, dest_root) == spec_destination_path(
            source2,
            root2,
            dest_root,
        ),
        spec_image_base(source1, root1, dest_root) == spec_image_base(source2, root2, dest_root),
{
}

/// Joining is injective in the relative path: under one destination root,
/// two distinct relative paths map to two distinct destinations. Only the
/// image-extension rewrite can make two distinct sources collide (a `.png`
/// beside its `.jpg` namesake), which mirrors the source tree's own
/// collision.
pub proof fn lemma_join_injective(root: Seq<u8>, rel1: Seq<u8>, rel2: Seq<u8>)
    requires
        rel1 != rel2,
    ensures
        spec_join(root, rel1) != spec_join(root, rel2),
{
    if root.len() == 0 {
    } else if root.last() == SLASH {
        if root + rel1 == root + rel2 {
            assert((root + rel1).len() == root.len() + rel1.len());
            assert((root + rel2).len() == root.len() + rel2.len());
            assert(rel1.len() == rel2.len());
            assert forall|i: int| 0 <= i < rel1.len() implies rel1[i] == rel2[i] by {
                assert((root + rel1)[root.len() + i] == rel1[i]);
                assert((root + rel2)[root.len() + i] == rel2[i]);
            }
            assert(rel1 =~= rel2);
        }
    } else {
        let pre = root + seq![SLASH];
        if pre + rel1 == pre + rel2 {
            assert((pre + rel1).len() == pre.len() + rel1.len());
            assert((pre + rel2).len() == pre.len() + rel2.len());
            assert(rel1.len() == rel2.len());
            assert forall|i: int| 0 <= i < rel1.len() implies rel1[i] == rel2[i] by {
                assert((pre + rel1)[pre.len() + i] == rel1[i]);
                assert((pre + rel2)[pre.len() + i] == rel2[i]);
            }
            assert(rel1 =~= rel2);
        }
    }
}

/// Two assets with distinct root-relative paths never share a plain-copy
/// destination.
pub proof fn lemma_plain_destinations_distinct(
    source1: Seq<u8>,
    source2: Seq<u8>,
    source_root: Seq<u8>,
    dest_root: Seq<u8>,
)
    requires
        spec_strip_prefix(source1, source_root) is Some,
        spec_strip_prefix(source2, source_root) is Some,
        spec_strip_prefix(source1, source_root) != spec_strip_prefix(source2, source_root),
    ensures
        spec_destination_path(source1, source_root, dest_root) != spec_destination_path(
            source2,
            source_root,
            dest_root,
        ),
{
    lemma_join_injective(
        dest_root,
        spec_strip_prefix(source1, source_root).unwrap(),
        spec_strip_prefix(source2, source_root).unwrap(),
    );
}

/// An exact copy of a byte string.
pub fn copy_bytes(v: &Vec<u8>) -> (r: Vec<u8>)
    ensures
        r@ == v@,
{
    let mut r: Vec<u8> = Vec::new();
    let mut i: usize = 0;
    while i < v.len()
        invariant
            i <= v.len(),
            r@ == v@.subrange(0, i as int),
        decreases v.len() - i,
    {
        r.push(v[i]);
        proof {
            assert(v@.subrange(0, i + 1) =~= v@.subrange(0, i as int).push(v@[i as int]));
        }
        i = i + 1;
    }
    proof {
        assert(v@.subrange(0, v@.len() as int) =~= v@);
    }
    r
}

/// The bytes of `v` from `from` (inclusive) to `to` (exclusive).
pub fn subrange_bytes(v: &Vec<u8>, from: usize, to: usize) -> (r: Vec<u8>)
    requires
        from <= to <= v@.len(),
    ensures
        r@ == v@.subrange(from as int, to as int),
{
    let mut r: Vec<u8> = Vec::new();
    let mut i: usize = from;
    while i < to
        invariant
            from <= i <= to <= v@.len(),
            r@ == v@.subrange(from as int, i as int),
        decreases to - i,
    {
        r.push(v[i]);
        proof {
            assert(v@.subrange(from as int, i + 1) =~= v@.subrange(from as int, i as int).push(
                v@[i as int],
            ));
        }
        i = i + 1;
    }
    r
}

/// Appends `src` to `dst`.
pub fn append_bytes(dst: &mut Vec<u8>, src: &Vec<u8>)
    ensures
        final(dst)@ == old(dst)@ + src@,
{
    let ghost dst0 = dst@;
    let mut i: usize = 0;
    while i < src.len()
        invariant
            i <= src.len(),
            dst@ == dst0 + src@.subrange(0, i as int),
        decreases src.len() - i,
    {
        dst.push(src[i]);
        proof {
            assert(dst0 + src@.subrange(0, i + 1) =~= (dst0 + src@.subrange(0, i as int)).push(
                src@[i as int],
            ));
        }
        i = i + 1;
    }
    proof {
        assert(dst0 + src@.subrange(0, src@.len() as int) =~= dst0 + src@);
    }
}

/// Whether two byte strings hold the same bytes.
pub fn bytes_eq(a: &Vec<u8>, b: &Vec<u8>) -> (r: bool)
    ensures
        r == (a@ == b@),
{
    if a.len() != b.len() {
        return false;
    }
    let mut i: usize = 0;
    while i < a.len()
        invariant
            i <= a.len(),
            a@.len() == b@.len(),
            forall|j: int| 0 <= j < i ==> a@[j] == b@[j],
        decreases a.len() - i,
    {
        if a[i] != b[i] {
            return false;
        }
        i = i + 1;
    }
    proof {
        assert(a@ =~= b@);
    }
    true
}

/// Whether `prefix` is a byte prefix of `path`.
fn starts_with(path: &Vec<u8>, prefix: &Vec<u8>) -> (r: bool)
    requires
        prefix@.len() <= path@.len(),
    ensures
        r == (path@.subrange(0, prefix@.len() as int) == prefix@),
{
    let mut i: usize = 0;
    while i < prefix.len()
        invariant
            i <= prefix@.len() <= path@.len(),
            forall|j: int| 0 <= j < i ==> path@[j] == prefix@[j],
        decreases prefix.len() - i,
    {
        if path[i] != prefix[i] {
            proof {
                assert(path@.subrange(0, prefix@.len() as int)[i as int] == path@[i as int]);
            }
            return false;
        }
        i = i + 1;
    }
    proof {
        assert(path@.subrange(0, prefix@.len() as int) =~= prefix@);
    }
    true
}

/// ASCII lowercase of one byte.
pub fn to_lower(b: u8) -> (r: u8)
    ensures
        r == lower_byte(b),
{
    if 65 <= b && b <= 90 {
        b + 32
    } else {
        b
    }
}

/// Index of the dot that starts the extension, or `None`.
pub fn find_ext_dot(path: &Vec<u8>) -> (r: Option<usize>)
    ensures
        match r {
            Some(i) => ext_dot_index(path@) == Some(i as int) && i < path@.len(),
            None => ext_dot_index(path@) is None,
        },
{
    let mut i: usize = path.len();
    proof {
        assert(path@.take(path@.len() as int) =~= path@);
    }
    loop
        invariant
            i <= path@.len(),
            ext_dot_index(path@) == ext_dot_index(path@.take(i as int)),
        decreases i,
    {
        if i == 0 {
            return None;
        }
        let b = path[i - 1];
        proof {
            assert(path@.take(i as int).last() == path@[i - 1]);
        }
        if b == SLASH {
            return None;
        }
        if b == DOT {
            if i >= 2 && path[i - 2] != SLASH {
                return Some(i - 1);
            } else {
                proof {
                    assert(i >= 2 ==> path@.take(i as int)[i - 2] == path@[i - 2]);
                }
                return None;
            }
        }
        proof {
            assert(path@.take(i as int).drop_last() =~= path@.take(i - 1));
        }
        i = i - 1;
    }
}

/// The bytes of `v` from `start` on, ASCII-lowercased.
fn lower_from(v: &Vec<u8>, start: usize) -> (r: Vec<u8>)
    requires
        start <= v@.len(),
    ensures
        r@ == lower_seq(v@.subrange(start as int, v@.len() as int)),
{
    let mut r: Vec<u8> = Vec::new();
    let mut i: usize = start;
    while i < v.len()
        invariant
            start <= i <= v@.len(),
            r@ == lower_seq(v@.subrange(start as int, i as int)),
        decreases v.len() - i,
    {
        r.push(to_lower(v[i]));
        proof {
            assert(v@.subrange(start as int, i + 1) =~= v@.subrange(start as int, i as int).push(
                v@[i as int],
            ));
            assert(lower_seq(v@.subrange(start as int, i + 1)) =~= lower_seq(
                v@.subrange(start as int, i as int),
            ).push(lower_byte(v@[i as int])));
        }
        i = i + 1;
    }
    r
}

/// Whether `e` is exactly the lowercased `jpg` extension.
fn is_jpg_bytes(e: &Vec<u8>) -> (r: bool)
    ensures
        r == (e@ == jpg_ext()),
{
    if e.len() == 3 && *e.get(0).unwrap() == 106 && *e.get(1).unwrap() == 112 && *e.get(2).unwrap()
        == 103 {
        proof {
            assert(e@ =~= jpg_ext());
        }
        true
    } else {
        proof {
            if e@ == jpg_ext() {
                assert(e@.len() == 3 && e@[0] == 106 && e@[1] == 112 && e@[2] == 103);
            }
        }
        false
    }
}

/// Whether `e` is exactly the lowercased `jpeg` extension.
fn is_jpeg_bytes(e: &Vec<u8>) -> (r: bool)
    ensures
        r == (e@ == jpeg_ext()),
{
    if e.len() == 4 && *e.get(0).unwrap() == 106 && *e.get(1).unwrap() == 112 && *e.get(2).unwrap()
        == 101 && *e.get(3).unwrap() == 103 {
        proof {
            assert(e@ =~= jpeg_ext());
        }
        true
    } else {
        proof {
            if e@ == jpeg_ext() {
                assert(e@.len() == 4 && e@[0] == 106 && e@[1] == 112 && e@[2] == 101 && e@[3]
                    == 103);
            }
        }
        false
    }
}

/// Whether `e` is exactly the lowercased `png` extension.
fn is_png_bytes(e: &Vec<u8>) -> (r: bool)
    ensures
        r == (e@ == png_ext()),
{
    if e.len() == 3 && *e.get(0).unwrap() == 112 && *e.get(1).unwrap() == 110 && *e.get(2).unwrap()
        == 103 {
        proof {
            assert(e@ =~= png_ext());
        }
        true
    } else {
        proof {
            if e@ == png_ext() {
                assert(e@.len() == 3 && e@[0] == 112 && e@[1] == 110 && e@[2] == 103);
            }
        }
        false
    }
}

/// The path's extension, ASCII-lowercased, when it has one.
pub fn lower_ext_bytes(path: &Vec<u8>) -> (r: Option<Vec<u8>>)
    ensures
        match r {
            Some(e) => lower_ext(path@) == Some(e@),
            None => lower_ext(path@) is None,
        },
{
    match find_ext_dot(path) {
        None => None,
        Some(i) => {
            let n = path.len();
            proof {
                assert(i < n);
            }
            Some(lower_from(path, i + 1))
        },
    }
}

/// Routes one directory entry: images by recognized extension, other regular
/// files to the plain copier, non-files ignored.
pub fn classify(path: &Vec<u8>, is_regular_file: bool) -> (k: AssetKind)
    ensures
        k == spec_classify(path@, is_regular_file),
{
    if !is_regular_file {
        return AssetKind::Ignored;
    }
    match lower_ext_bytes(path) {
        None => AssetKind::PlainFile,
        Some(e) => {
            if is_jpg_bytes(&e) || is_jpeg_bytes(&e) || is_png_bytes(&e) {
                AssetKind::Image
            } else {
                AssetKind::PlainFile
            }
        },
    }
}

/// The path relative to `root`, or `PathNotUnderRoot` when `path` does not
/// lie strictly under `root`.
pub fn strip_prefix(path: &Vec<u8>, root: &Vec<u8>) -> (r: Result<Vec<u8>, PipelineError>)
    ensures
        match r {
            Ok(rel) => spec_strip_prefix(path@, root@) == Some(rel@),
            Err(e) => e is PathNotUnderRoot && spec_strip_prefix(path@, root@) is None,
        },
{
    if root.len() == 0 {
        if path.len() > 0 {
            Ok(copy_bytes(path))
        } else {
            Err(PipelineError::PathNotUnderRoot)
        }
    } else if path.len() > root.len() && starts_with(path, root) {
        if *root.get(root.len() - 1).unwrap() == SLASH {
            Ok(subrange_bytes(path, root.len(), path.len()))
        } else if *path.get(root.len()).unwrap() == SLASH {
            if path.len() > root.len() + 1 {
                Ok(subrange_bytes(path, root.len() + 1, path.len()))
            } else {
                Err(PipelineError::PathNotUnderRoot)
            }
        } else {
            Err(PipelineError::PathNotUnderRoot)
        }
    } else {
        Err(PipelineError::PathNotUnderRoot)
    }
}

/// `root` and `rel` joined with exactly one separator.
pub fn join_under(root: &Vec<u8>, rel: &Vec<u8>) -> (r: Vec<u8>)
    ensures
        r@ == spec_join(root@, rel@),
{
    let mut r = copy_bytes(root);
    if root.len() > 0 && *root.get(root.len() - 1).unwrap() != SLASH {
        r.push(SLASH);
        proof {
            assert(root@.push(SLASH) =~= root@ + seq![SLASH]);
        }
    }
    append_bytes(&mut r, rel);
    proof {
        if root@.len() > 0 && root@.last() != SLASH {
            assert((root@ + seq![SLASH]) + rel@ =~= root@ + seq![SLASH] + rel@);
        }
    }
    r
}

/// Maps a source path into the destination tree, with no extension rewrite.
/// This is the destination of a plain (non-image) file.
pub fn get_destination_path(
    source: &Vec<u8>,
    source_root: &Vec<u8>,
    dest_root: &Vec<u8>,
) -> (r: Result<Vec<u8>, PipelineError>)
    ensures
        match r {
            Ok(d) => spec_destination_path(source@, source_root@, dest_root@) == Some(d@),
            Err(e) => e is PathNotUnderRoot && spec_destination_path(
                source@,
                source_root@,
                dest_root@,
            ) is None,
        },
{
    match strip_prefix(source, source_root) {
        Ok(rel) => Ok(join_under(dest_root, &rel)),
        Err(e) => Err(e),
    }
}

/// Rewrites a PNG extension to `jpg`; leaves any other path unchanged.
pub fn normalize_image_ext(path: &Vec<u8>) -> (r: Vec<u8>)
    ensures
        r@ == spec_normalize_image_ext(path@),
{
    match find_ext_dot(path) {
        None => copy_bytes(path),
        Some(i) => {
            let n = path.len();
            proof {
                assert(i < n);
            }
            let ext = lower_from(path, i + 1);
            if is_png_bytes(&ext) {
                let mut r = subrange_bytes(path, 0, i + 1);
                r.push(106);
                r.push(112);
                r.push(103);
                proof {
                    assert(r@ =~= path@.take(i + 1) + jpg_ext());
                }
                r
            } else {
                copy_bytes(path)
            }
        },
    }
}

/// Inserts `suffix` immediately before the extension dot, or appends it when
/// the path has no extension.
pub fn with_suffix(base: &Vec<u8>, suffix: &Vec<u8>) -> (r: Vec<u8>)
    ensures
        r@ == spec_with_suffix(base@, suffix@),
{
    match find_ext_dot(base) {
        None => {
            let mut r = copy_bytes(base);
            append_bytes(&mut r, suffix);
            r
        },
        Some(i) => {
            let mut r = subrange_bytes(base, 0, i);
            append_bytes(&mut r, suffix);
            let tail = subrange_bytes(base, i, base.len());
            append_bytes(&mut r, &tail);
            proof {
                assert(base@.take(i as int) =~= base@.subrange(0, i as int));
                assert(base@.skip(i as int) =~= base@.subrange(i as int, base@.len() as int));
                assert((base@.subrange(0, i as int) + suffix@) + base@.subrange(
                    i as int,
                    base@.len() as int,
                ) =~= base@.take(i as int) + suffix@ + base@.skip(i as int));
            }
            r
        },
    }
}

/// Base destination of an image source: mapped into the destination tree and
/// container-normalized.
pub fn image_base_destination(
    source: &Vec<u8>,
    source_root: &Vec<u8>,
    dest_root: &Vec<u8>,
) -> (r: Result<Vec<u8>, PipelineError>)
    ensures
        match r {
            Ok(b) => spec_image_base(source@, source_root@, dest_root@) == Some(b@),
            Err(e) => e is PathNotUnderRoot && spec_image_base(
                source@,
                source_root@,
                dest_root@,
            ) is None,
        },
{
    match get_destination_path(source, source_root, dest_root) {
        Ok(d) => Ok(normalize_image_ext(&d)),
        Err(e) => Err(e),
    }
}

} // verus!
