//! Trusted access to the filesystem.
//!
//! Everything the library learns from disk arrives through the two
//! functions here. What they return depends on the state of the
//! filesystem at the moment of the call, so their contracts promise
//! nothing of it; the verified code that consumes their results states
//! what holds for every value they could hand back.

use vstd::prelude::*;
use crate::fs_path::FsPath;

verus! {

/// Relies on `walkdir::WalkDir`: a depth-first walk of the tree under
/// `root`, yielding each visited entry as (path, is-regular-file, depth),
/// and each walk failure as a diagnostic string. The regular-file test
/// follows symlinks, so a link to a regular file counts as one.
#[verifier::external_body]
pub(crate) fn walk_raw(root: &FsPath) -> (Vec<(FsPath, bool, usize)>, Vec<String>) {
    let rootp: std::path::PathBuf = root.segments.iter().collect();
    let mut ents: Vec<(FsPath, bool, usize)> = Vec::new();
    let mut errs: Vec<String> = Vec::new();
    for item in walkdir::WalkDir::new(rootp) {
        match item {
            Ok(e) => {
                let segs = e.path().components().map(|c| c.as_os_str().to_string_lossy().into_owned()).collect();
                ents.push((FsPath { segments: segs }, e.path().is_file(), e.depth()));
            }
            Err(er) => errs.push(format!("{}", er)),
        }
    }
    (ents, errs)
}

/// Relies on `walkdir::WalkDir`: reads the metadata of the entry at `p`
/// itself, following a symlink there like the metadata call of std does.
/// Returns the modification time when `p` exists — in full precision, as
/// nanoseconds since the epoch, in one integer — `Ok(None)` when it does
/// not, and a diagnostic for any other I/O failure.
#[verifier::external_body]
pub(crate) fn probe_mtime(p: &FsPath) -> Result<Option<u64>, String> {
    let pb: std::path::PathBuf = p.segments.iter().collect();
    match walkdir::WalkDir::new(pb).max_depth(0).follow_links(true).into_iter().next() {
        None => Ok(None),
        Some(Err(e)) => match e.io_error() {
            Some(io) if io.kind() == std::io::ErrorKind::NotFound => Ok(None),
            _ => Err(format!("{}", e)),
        },
        Some(Ok(ent)) => match ent.metadata().map(|md| md.modified()) {
            Ok(Ok(t)) => Ok(Some(
                t.duration_since(std::time::UNIX_EPOCH).map(|d| d.as_nanos() as u64).unwrap_or(0),
            )),
            _ => Err(String::from("could not read modification time")),
        },
    }
}

/// Whether the entry at `p` exists on disk: its metadata can be read.
pub fn path_exists(p: &FsPath) -> bool {
    match probe_mtime(p) {
        Ok(Some(_)) => true,
        _ => false,
    }
}

} // verus!
