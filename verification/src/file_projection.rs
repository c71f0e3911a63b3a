//! A one-shot enumerator of the files reachable under a group of source
//! paths, excluding chosen sub-paths and file extensions.
//!
//! The filter itself — which paths are logically in scope — is a pure
//! predicate over the source and exclusion lists, independent of how the
//! files are discovered. Discovery happens exactly once, either by
//! walking the filesystem or by filtering a supplied list, and the
//! resulting file set is cached and immutable from then on.

use vstd::prelude::*;
use crate::fs_access::{path_exists, walk_raw};
use crate::fs_path::{eq_ignore_ascii_case, is_prefix_of, path_extension, unique_paths};
use crate::fs_path::{extension_matches_ci, vec_contains_path, FsPath};

verus! {

/// Errors encountered while constructing a projection or enumerating its
/// files.
#[derive(Debug, PartialEq, Eq)]
pub enum FileProjectionError {
    /// A source path could not be read from the filesystem.
    PathNotFound(FsPath),
    /// An exclusion path could not be read from the filesystem.
    ExclPathNotFound(FsPath),
    /// An I/O failure during file enumeration, with a diagnostic.
    Enumeration(String),
    /// A source path is excluded by an exclusion path.
    SrcPathExcluded { src_path: FsPath, excl_path: FsPath },
    /// The two projection methods were mixed on one instance.
    ProjectionMethodMixed,
    /// The projected files were requested before any projection was done.
    NotProjected,
}

/// How the projected file set was, or was not yet, computed.
#[derive(Debug, Clone, Copy, PartialEq, Eq)]
pub enum ProjectionState {
    Unprojected,
    ProjectedUsingFs,
    ProjectedUsingList,
}

/// Some source path is a prefix of `p`.
pub open spec fn spec_raw_includes(srcs: Seq<Seq<Seq<char>>>, p: Seq<Seq<char>>) -> bool {
    exists|i: int| 0 <= i < srcs.len() && is_prefix_of(srcs[i], p)
}

/// Some exclusion path is a prefix of `p`.
pub open spec fn spec_raw_excludes(excls: Seq<Seq<Seq<char>>>, p: Seq<Seq<char>>) -> bool {
    exists|j: int| 0 <= j < excls.len() && is_prefix_of(excls[j], p)
}

/// `p` is in scope: under some source path and under no exclusion path.
pub open spec fn spec_contains(
    srcs: Seq<Seq<Seq<char>>>,
    excls: Seq<Seq<Seq<char>>>,
    p: Seq<Seq<char>>,
) -> bool {
    spec_raw_includes(srcs, p) && !spec_raw_excludes(excls, p)
}

/// The extension of `p` equals one of `exts`, up to ASCII case.
pub open spec fn spec_ignored(exts: Seq<Seq<char>>, p: Seq<Seq<char>>) -> bool {
    exists|k: int| 0 <= k < exts.len() && eq_ignore_ascii_case(path_extension(p), exts[k])
}

/// Some source path lies under (or equals) some exclusion path.
pub open spec fn spec_has_overlap(srcs: Seq<Seq<Seq<char>>>, excls: Seq<Seq<Seq<char>>>) -> bool {
    exists|i: int, j: int|
        0 <= i < srcs.len() && 0 <= j < excls.len() && is_prefix_of(excls[j], srcs[i])
}

/// The position of the first `false` among a list of flags, if any: the
/// first configured path whose existence probe failed.
fn first_false(v: &Vec<bool>) -> (r: Option<usize>)
    ensures
        r matches Some(i) ==> (i < v@.len() && !v@[i as int] && (forall|j: int|
            0 <= j < i ==> v@[j])),
        r is None ==> forall|j: int| 0 <= j < v@.len() ==> v@[j],
{
    let n: usize = v.len();
    let mut i: usize = 0;
    while i < n
        invariant
            n == v.len(),
            0 <= i <= n,
            forall|j: int| 0 <= j < i ==> v@[j],
        decreases n - i,
    {
        if !v[i] {
            return Some(i);
        }
        i = i + 1;
    }
    None
}

/// A set of source paths with exclusion rules, and the set of files found
/// under them, computed exactly once.
pub struct FileProjection {
    pub src_paths: Vec<FsPath>,
    pub excl_paths: Vec<FsPath>,
    pub projected_files: Vec<FsPath>,
    pub state: ProjectionState,
    pub excl_exts: Vec<String>,
}

impl FileProjection {
    /// The source paths, as sequences of components.
    pub open spec fn srcs(&self) -> Seq<Seq<Seq<char>>> {
        self.src_paths.deep_view()
    }

    /// The exclusion paths, as sequences of components.
    pub open spec fn excls(&self) -> Seq<Seq<Seq<char>>> {
        self.excl_paths.deep_view()
    }

    /// The excluded extensions, as character sequences.
    pub open spec fn exts(&self) -> Seq<Seq<char>> {
        self.excl_exts.deep_view()
    }

    /// The projected files, as sequences of components.
    pub open spec fn files(&self) -> Seq<Seq<Seq<char>>> {
        self.projected_files.deep_view()
    }

    /// `p` is in scope of this projection's filter.
    pub open spec fn spec_contains_path(&self, p: Seq<Seq<char>>) -> bool {
        spec_contains(self.srcs(), self.excls(), p)
    }

    /// Whether one of the two projection methods has run.
    pub open spec fn is_projected(&self) -> bool {
        self.state != ProjectionState::Unprojected
    }

    /// A walk entry at `p` is admitted by the filter: in scope, and its
    /// extension is not excluded.
    pub open spec fn spec_admits(&self, p: Seq<Seq<char>>) -> bool {
        self.spec_contains_path(p) && !spec_ignored(self.exts(), p)
    }

    /// The prune state after the first `k` entries of a walk listing:
    /// `Some(d)` while entries deeper than `d` are being skipped because
    /// the entry at depth `d` was rejected, `None` otherwise.
    pub open spec fn spec_prune_state(
        &self,
        entries: Seq<(FsPath, bool, usize)>,
        k: int,
    ) -> Option<usize>
        decreases k,
    {
        if k <= 0 {
            None
        } else if (self.spec_prune_state(entries, k - 1) matches Some(d) && entries[k - 1].2 > d) {
            self.spec_prune_state(entries, k - 1)
        } else if self.spec_admits(entries[k - 1].0@) {
            None
        } else {
            Some(entries[k - 1].2)
        }
    }

    /// Entry `k` of a walk listing lies inside a pruned subtree and is
    /// skipped without being tested.
    pub open spec fn spec_entry_skipped(&self, entries: Seq<(FsPath, bool, usize)>, k: int) -> bool {
        (self.spec_prune_state(entries, k) matches Some(d) && entries[k].2 > d)
    }

    /// Entry `k` of a walk listing is retained by the walk's rule: it is
    /// not inside a pruned subtree — a rejected entry prunes everything
    /// deeper than it, so an excluded directory drops its whole subtree —
    /// it is admitted by the filter, and it is a regular file.
    pub open spec fn spec_entry_retained(
        &self,
        entries: Seq<(FsPath, bool, usize)>,
        k: int,
    ) -> bool {
        !self.spec_entry_skipped(entries, k) && self.spec_admits(entries[k].0@) && entries[k].1
    }

    /// Create a projection from source paths, exclusion paths and excluded
    /// extensions. Rejects lists in which a source path lies under an
    /// exclusion path, naming the offending pair; succeeds exactly
    /// otherwise, with nothing projected yet. Does not touch the
    /// filesystem.
    pub fn new(src_paths: Vec<FsPath>, excl_paths: Vec<FsPath>, excl_exts: Vec<String>) -> (r:
        Result<FileProjection, FileProjectionError>)
        ensures
            r is Err <==> spec_has_overlap(src_paths.deep_view(), excl_paths.deep_view()),
            r matches Err(e) ==> (e matches FileProjectionError::SrcPathExcluded {
                src_path,
                excl_path,
            } && src_paths.deep_view().contains(src_path@) && excl_paths.deep_view().contains(
                excl_path@,
            ) && is_prefix_of(excl_path@, src_path@)),
            r matches Ok(pr) ==> (pr.src_paths == src_paths && pr.excl_paths == excl_paths
                && pr.excl_exts == excl_exts && pr.state == ProjectionState::Unprojected
                && pr.projected_files@.len() == 0),
    {
        let ne: usize = excl_paths.len();
        let ns: usize = src_paths.len();
        let mut j: usize = 0;
        while j < ne
            invariant
                ne == excl_paths.len(),
                ns == src_paths.len(),
                0 <= j <= ne,
                forall|j2: int, i2: int|
                    0 <= j2 < j && 0 <= i2 < ns ==> !is_prefix_of(
                        excl_paths.deep_view()[j2],
                        src_paths.deep_view()[i2],
                    ),
            decreases ne - j,
        {
            let mut i: usize = 0;
            while i < ns
                invariant
                    ne == excl_paths.len(),
                    ns == src_paths.len(),
                    0 <= j < ne,
                    0 <= i <= ns,
                    forall|i2: int|
                        0 <= i2 < i ==> !is_prefix_of(
                            excl_paths.deep_view()[j as int],
                            src_paths.deep_view()[i2],
                        ),
                decreases ns - i,
            {
                if excl_paths[j].is_prefix_of(&src_paths[i]) {
                    proof {
                        assert(src_paths.deep_view()[i as int] == src_paths@[i as int].deep_view());
                        assert(excl_paths.deep_view()[j as int] == excl_paths@[
                            j as int
                        ].deep_view());
                        assert(src_paths.deep_view().contains(src_paths@[i as int]@));
                        assert(excl_paths.deep_view().contains(excl_paths@[j as int]@));
                        assert(spec_has_overlap(src_paths.deep_view(), excl_paths.deep_view()));
                    }
                    return Err(FileProjectionError::SrcPathExcluded {
                        src_path: src_paths[i].clone(),
                        excl_path: excl_paths[j].clone(),
                    });
                }
                i = i + 1;
            }
            j = j + 1;
        }
        Ok(FileProjection {
            src_paths,
            excl_paths,
            projected_files: Vec::new(),
            state: ProjectionState::Unprojected,
            excl_exts,
        })
    }

    /// `p` lies under some source path.
    fn raw_includes(&self, p: &FsPath) -> (r: bool)
        ensures
            r == spec_raw_includes(self.srcs(), p@),
    {
        let n: usize = self.src_paths.len();
        let mut i: usize = 0;
        while i < n
            invariant
                n == self.src_paths.len(),
                0 <= i <= n,
                forall|i2: int| 0 <= i2 < i ==> !is_prefix_of(self.srcs()[i2], p@),
            decreases n - i,
        {
            if self.src_paths[i].is_prefix_of(p) {
                proof {
                    assert(self.srcs()[i as int] == self.src_paths@[i as int].deep_view());
                }
                return true;
            }
            i = i + 1;
        }
        false
    }

    /// `p` lies under some exclusion path.
    fn raw_excludes(&self, p: &FsPath) -> (r: bool)
        ensures
            r == spec_raw_excludes(self.excls(), p@),
    {
        let n: usize = self.excl_paths.len();
        let mut i: usize = 0;
        while i < n
            invariant
                n == self.excl_paths.len(),
                0 <= i <= n,
                forall|i2: int| 0 <= i2 < i ==> !is_prefix_of(self.excls()[i2], p@),
            decreases n - i,
        {
            if self.excl_paths[i].is_prefix_of(p) {
                proof {
                    assert(self.excls()[i as int] == self.excl_paths@[i as int].deep_view());
                }
                return true;
            }
            i = i + 1;
        }
        false
    }

    /// Whether `src_path` is in scope: under some source path and under
    /// no exclusion path. Pure; usable before and after projection, and
    /// independent of the projection state.
    pub fn contains(&self, src_path: &FsPath) -> (r: bool)
        ensures
            r == self.spec_contains_path(src_path@),
    {
        self.raw_includes(src_path) && !self.raw_excludes(src_path)
    }

    /// Whether the extension of `src_path` is one of the excluded
    /// extensions, compared without regard to ASCII case.
    pub fn has_ignore_ext(&self, src_path: &FsPath) -> (r: bool)
        ensures
            r == spec_ignored(self.exts(), src_path@),
    {
        let n: usize = self.excl_exts.len();
        let mut k: usize = 0;
        while k < n
            invariant
                n == self.excl_exts.len(),
                0 <= k <= n,
                forall|k2: int|
                    0 <= k2 < k ==> !eq_ignore_ascii_case(path_extension(src_path@), self.exts()[k2]),
            decreases n - k,
        {
            let hit: bool = if src_path.segments.len() == 0 {
                proof {
                    assert(path_extension(src_path@) =~= Seq::<char>::empty());
                }
                self.excl_exts[k].as_str().unicode_len() == 0
            } else {
                let last: usize = src_path.segments.len() - 1;
                assert(src_path@.last() == src_path@[last as int]);
                extension_matches_ci(src_path.segments[last].as_str(), self.excl_exts[k].as_str())
            };
            if hit {
                assert(eq_ignore_ascii_case(path_extension(src_path@), self.exts()[k as int]));
                return true;
            }
            k = k + 1;
        }
        false
    }
    /// Keep, of one walk listing, exactly the entries the walk's own
    /// rule retains, adding them to `acc` with duplicates dropped.
    fn collect_walk_files(&self, entries: &Vec<(FsPath, bool, usize)>, acc: &mut Vec<FsPath>)
        requires
            unique_paths(old(acc).deep_view()),
        ensures
            unique_paths(final(acc).deep_view()),
            forall|q: Seq<Seq<char>>|
                final(acc).deep_view().contains(q) <==> (old(acc).deep_view().contains(q) || (
                exists|k: int|
                    0 <= k < entries@.len() && #[trigger] self.spec_entry_retained(entries@, k)
                        && entries@[k].0@ == q)),
    {
        let nk: usize = entries.len();
        let mut prune: Option<usize> = None;
        let mut k: usize = 0;
        while k < nk
            invariant
                nk == entries.len(),
                0 <= k <= nk,
                unique_paths(acc.deep_view()),
                prune == self.spec_prune_state(entries@, k as int),
                forall|q: Seq<Seq<char>>|
                    acc.deep_view().contains(q) <==> (old(acc).deep_view().contains(q) || (
                    exists|k2: int|
                        0 <= k2 < k && #[trigger] self.spec_entry_retained(entries@, k2)
                            && entries@[k2].0@ == q)),
            decreases nk - k,
        {
            let ent = &entries[k];
            let skip: bool = match prune {
                Some(d) => ent.2 > d,
                None => false,
            };
            proof {
                assert(skip == self.spec_entry_skipped(entries@, k as int));
            }
            let ghost acc_old = acc.deep_view();
            let ghost prune_at_k = prune;
            let ghost retained = self.spec_entry_retained(entries@, k as int);
            if !skip {
                let admitted: bool = self.contains(&ent.0) && !self.has_ignore_ext(&ent.0);
                if admitted {
                    prune = None;
                    if ent.1 && !vec_contains_path(acc, &ent.0) {
                        acc.push(ent.0.clone());
                        proof {
                            assert(acc.deep_view() =~= acc_old.push(entries@[k as int].0@));
                            assert(acc.deep_view()[acc_old.len() as int] == entries@[
                                k as int
                            ].0@);
                            assert(retained);
                            assert forall|a: int, b: int|
                                0 <= a < b < acc.deep_view().len() implies acc.deep_view()[a]
                                != acc.deep_view()[b] by {
                                if b == acc_old.len() as int {
                                    assert(acc_old[a] == acc.deep_view()[a]);
                                    assert(!acc_old.contains(entries@[k as int].0@));
                                }
                            }
                        }
                    }
                } else {
                    prune = Some(ent.2);
                }
            }
            proof {
                assert(self.spec_prune_state(entries@, k as int) == prune_at_k);
                assert(self.spec_prune_state(entries@, k as int + 1) == prune);
                if retained {
                    assert(acc.deep_view().contains(entries@[k as int].0@));
                }
                assert forall|q: Seq<Seq<char>>|
                    acc.deep_view().contains(q) implies (old(acc).deep_view().contains(q) || (
                    exists|k2: int|
                        0 <= k2 < k + 1 && #[trigger] self.spec_entry_retained(entries@, k2)
                            && entries@[k2].0@ == q)) by {
                    if !acc_old.contains(q) {
                        let w: int = choose|w: int|
                            0 <= w < acc.deep_view().len() && acc.deep_view()[w] == q;
                        if w < acc_old.len() {
                            assert(acc_old[w] == q);
                        } else {
                            assert(q == entries@[k as int].0@);
                            assert(self.spec_entry_retained(entries@, k as int));
                        }
                    } else {
                        let w0: int = choose|w0: int|
                            0 <= w0 < acc_old.len() && acc_old[w0] == q;
                        assert(acc.deep_view()[w0] == q);
                    }
                }
                assert forall|q: Seq<Seq<char>>|
                    (old(acc).deep_view().contains(q) || (exists|k2: int|
                        0 <= k2 < k + 1 && #[trigger] self.spec_entry_retained(entries@, k2)
                            && entries@[k2].0@ == q)) implies acc.deep_view().contains(q) by {
                    if !old(acc).deep_view().contains(q) {
                        let k2: int = choose|k2: int|
                            0 <= k2 < k + 1 && #[trigger] self.spec_entry_retained(entries@, k2)
                                && entries@[k2].0@ == q;
                        if k2 < k as int {
                            assert(acc_old.contains(q));
                            let w0: int = choose|w0: int|
                                0 <= w0 < acc_old.len() && acc_old[w0] == q;
                            assert(acc.deep_view()[w0] == q);
                        }
                    } else {
                        let w0: int = choose|w0: int|
                            0 <= w0 < old(acc).deep_view().len() && old(acc).deep_view()[w0] == q;
                        assert(acc_old.contains(q));
                        let w1: int = choose|w1: int|
                            0 <= w1 < acc_old.len() && acc_old[w1] == q;
                        assert(acc.deep_view()[w1] == q);
                    }
                }
            }
            k = k + 1;
        }
    }

    /// Enumerate files by filtering a supplied list of candidate paths
    /// through the scope predicate. Extension exclusion does not apply in
    /// this mode. Projects exactly once: a repeated call is a no-op, and a
    /// call after a filesystem projection is a usage error.
    pub fn project_using_list(&mut self, list: &Vec<FsPath>) -> (r: Result<
        (),
        FileProjectionError,
    >)
        ensures
            old(self).state == ProjectionState::ProjectedUsingFs ==> (r matches Err(e) && e
                == FileProjectionError::ProjectionMethodMixed && *final(self) == *old(self)),
            old(self).state == ProjectionState::ProjectedUsingList ==> (r is Ok && *final(self)
                == *old(self)),
            old(self).state == ProjectionState::Unprojected ==> (r is Ok && final(self).state
                == ProjectionState::ProjectedUsingList && final(self).src_paths == old(
                self,
            ).src_paths && final(self).excl_paths == old(self).excl_paths && final(self).excl_exts
                == old(self).excl_exts && unique_paths(final(self).files()) && (forall|
                q: Seq<Seq<char>>,
            |
                final(self).files().contains(q) <==> (list.deep_view().contains(q) && old(
                    self,
                ).spec_contains_path(q)))),
    {
        match self.state {
            ProjectionState::ProjectedUsingFs => Err(FileProjectionError::ProjectionMethodMixed),
            ProjectionState::ProjectedUsingList => Ok(()),
            ProjectionState::Unprojected => {
                let n: usize = list.len();
                let mut acc: Vec<FsPath> = Vec::new();
                let mut i: usize = 0;
                while i < n
                    invariant
                        n == list.len(),
                        0 <= i <= n,
                        *self == *old(self),
                        self.state == ProjectionState::Unprojected,
                        unique_paths(acc.deep_view()),
                        forall|q: Seq<Seq<char>>|
                            acc.deep_view().contains(q) ==> (list.deep_view().contains(q)
                                && self.spec_contains_path(q)),
                        forall|j: int|
                            0 <= j < i && self.spec_contains_path(list.deep_view()[j])
                                ==> acc.deep_view().contains(list.deep_view()[j]),
                    decreases n - i,
                {
                    let ghost acc_old = acc.deep_view();
                    if self.contains(&list[i]) && !vec_contains_path(&acc, &list[i]) {
                        acc.push(list[i].clone());
                        proof {
                            assert(list.deep_view()[i as int] == list@[i as int].deep_view());
                            assert(acc.deep_view() =~= acc_old.push(list@[i as int]@));
                            assert(acc.deep_view()[acc_old.len() as int] == list@[i as int]@);
                            assert(acc.deep_view().contains(list@[i as int]@));
                            assert forall|q: Seq<Seq<char>>|
                                acc.deep_view().contains(q) implies (list.deep_view().contains(q)
                                && self.spec_contains_path(q)) by {
                                if q != list@[i as int]@ {
                                    let w: int = choose|w: int|
                                        0 <= w < acc.deep_view().len() && acc.deep_view()[w] == q;
                                    assert(acc_old[w] == q);
                                    assert(acc_old.contains(q));
                                }
                            }
                            assert forall|q: Seq<Seq<char>>| acc_old.contains(q) implies
                                acc.deep_view().contains(q) by {
                                let w: int = choose|w: int|
                                    0 <= w < acc_old.len() && acc_old[w] == q;
                                assert(acc.deep_view()[w] == q);
                            }
                        }
                    }
                    proof {
                        assert(list.deep_view()[i as int] == list@[i as int].deep_view());
                    }
                    i = i + 1;
                }
                proof {
                    assert(list.deep_view().len() == n);
                    assert forall|q: Seq<Seq<char>>|
                        (list.deep_view().contains(q) && self.spec_contains_path(q)) implies
                        acc.deep_view().contains(q) by {
                        let w: int = choose|w: int|
                            0 <= w < list.deep_view().len() && list.deep_view()[w] == q;
                    }
                }
                self.projected_files = acc;
                self.state = ProjectionState::ProjectedUsingList;
                Ok(())
            }
        }
    }

    /// Enumerate files by walking the filesystem under every source path,
    /// keeping the regular files that are in scope and whose extension is
    /// not excluded. Every source and exclusion path must exist on disk;
    /// a missing one aborts the whole projection before anything is
    /// recorded. Non-fatal walk errors are collected and returned.
    /// Projects exactly once: a repeated call is a no-op returning no
    /// errors, and a call after a list projection is a usage error.
    pub fn project_using_fs(&mut self) -> (r: Result<
        Vec<FileProjectionError>,
        FileProjectionError,
    >)
        ensures
            old(self).state == ProjectionState::ProjectedUsingList ==> (r matches Err(e) && e
                == FileProjectionError::ProjectionMethodMixed && *final(self) == *old(self)),
            old(self).state == ProjectionState::ProjectedUsingFs ==> (r matches Ok(v) && v@.len()
                == 0 && *final(self) == *old(self)),
            (old(self).state == ProjectionState::Unprojected && r is Err) ==> (*final(self) == *old(
                self,
            ) && ((r->Err_0 matches FileProjectionError::PathNotFound(p) && old(
                self,
            ).srcs().contains(p@)) || (r->Err_0 matches FileProjectionError::ExclPathNotFound(p)
                && old(self).excls().contains(p@)))),
            (old(self).state == ProjectionState::Unprojected && r is Ok) ==> (final(self).state
                == ProjectionState::ProjectedUsingFs && final(self).src_paths == old(
                self,
            ).src_paths && final(self).excl_paths == old(self).excl_paths && final(self).excl_exts
                == old(self).excl_exts && unique_paths(final(self).files()) && (forall|
                q: Seq<Seq<char>>,
            |
                final(self).files().contains(q) ==> (old(self).spec_contains_path(q)
                    && !spec_ignored(old(self).exts(), q)))),
    {
        match self.state {
            ProjectionState::ProjectedUsingList => Err(FileProjectionError::ProjectionMethodMixed),
            ProjectionState::ProjectedUsingFs => Ok(Vec::new()),
            ProjectionState::Unprojected => {
                let ns: usize = self.src_paths.len();
                let mut src_found: Vec<bool> = Vec::new();
                let mut i: usize = 0;
                while i < ns
                    invariant
                        ns == self.src_paths.len(),
                        0 <= i <= ns,
                        src_found@.len() == i,
                        *self == *old(self),
                        self.state == ProjectionState::Unprojected,
                    decreases ns - i,
                {
                    src_found.push(path_exists(&self.src_paths[i]));
                    i = i + 1;
                }
                match first_false(&src_found) {
                    Some(ix) => {
                        proof {
                            assert(self.srcs()[ix as int] == self.src_paths@[
                                ix as int
                            ].deep_view());
                            assert(self.srcs().contains(self.src_paths@[ix as int]@));
                        }
                        return Err(FileProjectionError::PathNotFound(self.src_paths[ix].clone()));
                    }
                    None => {}
                }
                let ne: usize = self.excl_paths.len();
                let mut excl_found: Vec<bool> = Vec::new();
                let mut j: usize = 0;
                while j < ne
                    invariant
                        ne == self.excl_paths.len(),
                        0 <= j <= ne,
                        excl_found@.len() == j,
                        *self == *old(self),
                        self.state == ProjectionState::Unprojected,
                    decreases ne - j,
                {
                    excl_found.push(path_exists(&self.excl_paths[j]));
                    j = j + 1;
                }
                match first_false(&excl_found) {
                    Some(jx) => {
                        proof {
                            assert(self.excls()[jx as int] == self.excl_paths@[
                                jx as int
                            ].deep_view());
                            assert(self.excls().contains(self.excl_paths@[jx as int]@));
                        }
                        return Err(
                            FileProjectionError::ExclPathNotFound(self.excl_paths[jx].clone()),
                        );
                    }
                    None => {}
                }
                let mut files: Vec<FsPath> = Vec::new();
                let mut errs: Vec<FileProjectionError> = Vec::new();
                let mut s: usize = 0;
                while s < ns
                    invariant
                        ns == self.src_paths.len(),
                        0 <= s <= ns,
                        *self == *old(self),
                        self.state == ProjectionState::Unprojected,
                        unique_paths(files.deep_view()),
                        forall|q: Seq<Seq<char>>|
                            files.deep_view().contains(q) ==> (self.spec_contains_path(q)
                                && !spec_ignored(self.exts(), q)),
                    decreases ns - s,
                {
                    let (ents, werrs): (Vec<(FsPath, bool, usize)>, Vec<String>) = walk_raw(
                        &self.src_paths[s],
                    );
                    let ghost files_before = files.deep_view();
                    self.collect_walk_files(&ents, &mut files);
                    proof {
                        assert forall|q: Seq<Seq<char>>|
                            files.deep_view().contains(q) implies (self.spec_contains_path(q)
                            && !spec_ignored(self.exts(), q)) by {
                            if !files_before.contains(q) {
                                let k: int = choose|k: int|
                                    0 <= k < ents@.len() && #[trigger] self.spec_entry_retained(
                                        ents@,
                                        k,
                                    ) && ents@[k].0@ == q;
                                assert(self.spec_admits(q));
                            }
                        }
                    }
                    let nw: usize = werrs.len();
                    let mut w: usize = 0;
                    while w < nw
                        invariant
                            nw == werrs.len(),
                            0 <= w <= nw,
                        decreases nw - w,
                    {
                        errs.push(FileProjectionError::Enumeration(werrs[w].clone()));
                        w = w + 1;
                    }
                    s = s + 1;
                }
                self.projected_files = files;
                self.state = ProjectionState::ProjectedUsingFs;
                Ok(errs)
            }
        }
    }

    /// The set of projected files. A usage error before any projection
    /// has happened.
    pub fn projected_files(&self) -> (r: Result<&Vec<FsPath>, FileProjectionError>)
        ensures
            self.is_projected() ==> (r matches Ok(v) && *v == self.projected_files),
            !self.is_projected() ==> (r matches Err(e) && e == FileProjectionError::NotProjected),
    {
        match self.state {
            ProjectionState::Unprojected => Err(FileProjectionError::NotProjected),
            ProjectionState::ProjectedUsingFs | ProjectionState::ProjectedUsingList => Ok(
                &self.projected_files,
            ),
        }
    }
}

/// The scope predicate is a function of the filter rules alone: two
/// projections with the same source and exclusion lists classify every
/// path alike, whatever their projection state or projected files.
pub proof fn lemma_contains_independent_of_state(
    a: &FileProjection,
    b: &FileProjection,
    p: Seq<Seq<char>>,
)
    requires
        a.srcs() == b.srcs(),
        a.excls() == b.excls(),
    ensures
        a.spec_contains_path(p) == b.spec_contains_path(p),
{
}

/// Whether a pair of source and exclusion lists overlaps depends only on
/// which paths the lists hold, not on the order they are given in.
pub proof fn lemma_overlap_independent_of_order(
    s1: Seq<Seq<Seq<char>>>,
    e1: Seq<Seq<Seq<char>>>,
    s2: Seq<Seq<Seq<char>>>,
    e2: Seq<Seq<Seq<char>>>,
)
    requires
        forall|q: Seq<Seq<char>>| s1.contains(q) <==> s2.contains(q),
        forall|q: Seq<Seq<char>>| e1.contains(q) <==> e2.contains(q),
    ensures
        spec_has_overlap(s1, e1) == spec_has_overlap(s2, e2),
{
    if spec_has_overlap(s1, e1) {
        let (i, j): (int, int) = choose|i: int, j: int|
            0 <= i < s1.len() && 0 <= j < e1.len() && is_prefix_of(e1[j], s1[i]);
        assert(s1.contains(s1[i]));
        assert(e1.contains(e1[j]));
        let i2: int = choose|i2: int| 0 <= i2 < s2.len() && s2[i2] == s1[i];
        let j2: int = choose|j2: int| 0 <= j2 < e2.len() && e2[j2] == e1[j];
        assert(is_prefix_of(e2[j2], s2[i2]));
        assert(spec_has_overlap(s2, e2));
    }
    if spec_has_overlap(s2, e2) {
        let (i, j): (int, int) = choose|i: int, j: int|
            0 <= i < s2.len() && 0 <= j < e2.len() && is_prefix_of(e2[j], s2[i]);
        assert(s2.contains(s2[i]));
        assert(e2.contains(e2[j]));
        let i1: int = choose|i1: int| 0 <= i1 < s1.len() && s1[i1] == s2[i];
        let j1: int = choose|j1: int| 0 <= j1 < e1.len() && e1[j1] == e2[j];
        assert(is_prefix_of(e1[j1], s1[i1]));
        assert(spec_has_overlap(s1, e1));
    }
}

} // verus!
