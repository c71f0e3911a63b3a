//! A staleness-aware, disk-backed cache for derived video artifacts, together
//! with a one-shot file-discovery utility.
//!
//! The cache maps filesystem paths to artifacts (perceptual hashes and
//! statistics of video files), avoids recomputation while the underlying file
//! is unchanged, and evicts entries for files that have disappeared.
//! [`FileProjection`] computes, exactly once, the set of files reachable under
//! a group of starting paths while excluding chosen sub-paths and file
//! extensions.

pub mod cache_entry;
pub mod errors;
pub mod file_projection;
pub mod fs_access;
pub mod fs_path;
pub mod video_artifacts;
pub mod video_hash_filesystem_cache;

pub use cache_entry::CacheEntry;
pub use cache_entry::CachedVideoData;
pub use errors::StoreErrorKind;
pub use errors::VdfCacheError;
pub use file_projection::FileProjection;
pub use file_projection::FileProjectionError;
pub use fs_path::FsPath;
pub use video_hash_filesystem_cache::VideoHashFilesystemCache;
