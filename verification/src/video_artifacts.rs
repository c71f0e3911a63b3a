//! The artifact producer and its data types.
//!
//! The artifact attached to a cached path is a perceptual hash of a video
//! file together with its statistics, both computed by `vid_dup_finder_lib`.
//! The cache treats them as opaque payloads: nothing here reads their
//! insides, so they are declared as opaque outside types and carried
//! through whole.

use vstd::prelude::*;
use crate::fs_path::FsPath;

verus! {

/// Declares `vid_dup_finder_lib::VideoHash` so it can stand in fields and
/// signatures. Its contents are opaque to the cache.
#[verifier::external_type_specification]
#[verifier::external_body]
pub struct ExVideoHash(vid_dup_finder_lib::VideoHash);

/// Declares `vid_dup_finder_lib::VideoStats`, carried opaquely beside the
/// hash.
#[verifier::external_type_specification]
#[verifier::external_body]
pub struct ExVideoStats(vid_dup_finder_lib::VideoStats);

/// Declares `vid_dup_finder_lib::HashCreationErrorKind`, the classified
/// reason a hash could not be derived from a file. Stored verbatim as a
/// negative cache entry.
#[verifier::external_type_specification]
#[verifier::external_body]
pub struct ExHashCreationErrorKind(vid_dup_finder_lib::HashCreationErrorKind);

/// Relies on the derived `Clone` of `vid_dup_finder_lib::VideoHash`: a
/// field-by-field copy, equal to the original.
pub assume_specification[ <vid_dup_finder_lib::VideoHash as Clone>::clone ](
    v: &vid_dup_finder_lib::VideoHash,
) -> (r: vid_dup_finder_lib::VideoHash)
    ensures
        r == *v,
;

/// Relies on the derived `Clone` of `vid_dup_finder_lib::VideoStats`: a
/// field-by-field copy, equal to the original.
pub assume_specification[ <vid_dup_finder_lib::VideoStats as Clone>::clone ](
    v: &vid_dup_finder_lib::VideoStats,
) -> (r: vid_dup_finder_lib::VideoStats)
    ensures
        r == *v,
;

/// Relies on the derived `Clone` of
/// `vid_dup_finder_lib::HashCreationErrorKind`: a field-by-field copy,
/// equal to the original.
pub assume_specification[ <vid_dup_finder_lib::HashCreationErrorKind as Clone>::clone ](
    v: &vid_dup_finder_lib::HashCreationErrorKind,
) -> (r: vid_dup_finder_lib::HashCreationErrorKind)
    ensures
        r == *v,
;

/// Relies on `vid_dup_finder_lib::VideoHash::from_path_with_stats`: derives
/// the perceptual hash and the statistics of the video file at `p`, or
/// fails with a classified cause. The outcome depends on the file on disk,
/// so nothing is promised of it; the caller states what holds of its own
/// result whatever came back.
#[verifier::external_body]
pub(crate) fn produce(p: &FsPath) -> Result<
    (vid_dup_finder_lib::VideoHash, vid_dup_finder_lib::VideoStats),
    vid_dup_finder_lib::HashCreationErrorKind,
> {
    let pb: std::path::PathBuf = p.segments.iter().collect();
    vid_dup_finder_lib::VideoHash::from_path_with_stats(pb)
}

} // verus!
