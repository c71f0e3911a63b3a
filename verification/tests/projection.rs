use video_hash_filesystem_cache::file_projection::{FileProjection, FileProjectionError};
use video_hash_filesystem_cache::fs_path::FsPath;

fn fsp(parts: &[&str]) -> FsPath {
    FsPath::from_segments(parts.iter().map(|s| s.to_string()).collect())
}

fn videos_projection(exts: &[&str]) -> FileProjection {
    FileProjection::new(
        vec![fsp(&["/", "videos"])],
        vec![],
        exts.iter().map(|s| s.to_string()).collect(),
    )
    .unwrap()
}

#[test]
fn new_rejects_src_nested_under_excl() {
    let r = FileProjection::new(
        vec![fsp(&["/", "videos", "sub"])],
        vec![fsp(&["/", "videos"])],
        vec![],
    );
    match r {
        Err(FileProjectionError::SrcPathExcluded { src_path, excl_path }) => {
            assert_eq!(src_path, fsp(&["/", "videos", "sub"]));
            assert_eq!(excl_path, fsp(&["/", "videos"]));
        }
        _ => panic!("expected SrcPathExcluded"),
    }
}

#[test]
fn new_rejects_equal_src_and_excl() {
    let r = FileProjection::new(vec![fsp(&["/", "videos"])], vec![fsp(&["/", "videos"])], vec![]);
    assert!(matches!(r, Err(FileProjectionError::SrcPathExcluded { .. })));
}

#[test]
fn new_rejects_overlap_regardless_of_list_order() {
    // The nested source sits at different positions of longer lists; the
    // overlap is found and identified either way.
    let r1 = FileProjection::new(
        vec![fsp(&["/", "a"]), fsp(&["/", "videos", "sub"])],
        vec![fsp(&["/", "b"]), fsp(&["/", "videos"])],
        vec![],
    );
    let r2 = FileProjection::new(
        vec![fsp(&["/", "videos", "sub"]), fsp(&["/", "a"])],
        vec![fsp(&["/", "videos"]), fsp(&["/", "b"])],
        vec![],
    );
    for r in [r1, r2] {
        match r {
            Err(FileProjectionError::SrcPathExcluded { src_path, excl_path }) => {
                assert_eq!(src_path, fsp(&["/", "videos", "sub"]));
                assert_eq!(excl_path, fsp(&["/", "videos"]));
            }
            _ => panic!("expected SrcPathExcluded"),
        }
    }
}

#[test]
fn new_accepts_disjoint_lists() {
    let r = FileProjection::new(
        vec![fsp(&["/", "videos"])],
        vec![fsp(&["/", "videos2"]), fsp(&["/", "other"])],
        vec![],
    );
    assert!(r.is_ok());
}

#[test]
fn contains_descendant_of_src_not_under_excl() {
    let p = FileProjection::new(
        vec![fsp(&["/", "videos"])],
        vec![fsp(&["/", "videos", "skip"])],
        vec![],
    )
    .unwrap();
    assert!(p.contains(&fsp(&["/", "videos", "a.mp4"])));
    assert!(p.contains(&fsp(&["/", "videos"])));
    assert!(!p.contains(&fsp(&["/", "other", "a.mp4"])));
    assert!(!p.contains(&fsp(&["/", "videos", "skip", "a.mp4"])));
    // Component-wise prefixing: "/videos-x" is not under "/videos".
    assert!(!p.contains(&fsp(&["/", "videos-x", "a.mp4"])));
}

#[test]
fn contains_is_independent_of_projection_state() {
    let mut p = videos_projection(&[]);
    let inside = fsp(&["/", "videos", "a.mp4"]);
    let outside = fsp(&["/", "other", "a.mp4"]);
    let before = (p.contains(&inside), p.contains(&outside));
    p.project_using_list(&vec![inside.clone()]).unwrap();
    let after = (p.contains(&inside), p.contains(&outside));
    assert_eq!(before, after);
    assert_eq!(before, (true, false));
}

#[test]
fn project_using_list_filters_and_dedups() {
    let mut p = videos_projection(&[]);
    let a = fsp(&["/", "videos", "a.mp4"]);
    let b = fsp(&["/", "other", "b.mp4"]);
    p.project_using_list(&vec![a.clone(), b.clone(), a.clone()]).unwrap();
    let files = p.projected_files().unwrap();
    assert_eq!(files.len(), 1);
    assert_eq!(files[0], a);
}

#[test]
fn project_using_list_ignores_extension_exclusions() {
    // Extension exclusion is an attribute of the filesystem walk only.
    let mut p = videos_projection(&["txt"]);
    let notes = fsp(&["/", "videos", "notes.txt"]);
    p.project_using_list(&vec![notes.clone()]).unwrap();
    assert_eq!(p.projected_files().unwrap().len(), 1);
}

#[test]
fn project_using_list_is_idempotent() {
    let mut p = videos_projection(&[]);
    let a = fsp(&["/", "videos", "a.mp4"]);
    let b = fsp(&["/", "videos", "b.mp4"]);
    p.project_using_list(&vec![a.clone()]).unwrap();
    // A second list projection is a no-op: the file set stays as it was.
    p.project_using_list(&vec![b.clone()]).unwrap();
    let files = p.projected_files().unwrap();
    assert_eq!(files.len(), 1);
    assert_eq!(files[0], a);
}

#[test]
fn mixing_projection_methods_is_a_usage_error() {
    let mut p = videos_projection(&[]);
    p.project_using_list(&vec![]).unwrap();
    assert_eq!(p.project_using_fs(), Err(FileProjectionError::ProjectionMethodMixed));
}

#[test]
fn projected_files_before_projection_is_a_usage_error() {
    let p = videos_projection(&[]);
    assert_eq!(p.projected_files(), Err(FileProjectionError::NotProjected));
}

#[test]
fn project_using_fs_missing_src_path_is_fatal() {
    let mut p = FileProjection::new(
        vec![fsp(&["/", "surely_not_an_existing_dir_0b1c2d"])],
        vec![],
        vec![],
    )
    .unwrap();
    assert_eq!(
        p.project_using_fs(),
        Err(FileProjectionError::PathNotFound(fsp(&["/", "surely_not_an_existing_dir_0b1c2d"])))
    );
    // The fatal failure left the projection unprojected.
    assert_eq!(p.projected_files(), Err(FileProjectionError::NotProjected));
}

#[test]
fn project_using_fs_missing_excl_path_is_fatal() {
    let mut p = FileProjection::new(
        vec![fsp(&["/", "etc", "hostname"])],
        vec![fsp(&["/", "surely_not_an_existing_dir_0b1c2d"])],
        vec![],
    )
    .unwrap();
    assert_eq!(
        p.project_using_fs(),
        Err(FileProjectionError::ExclPathNotFound(fsp(&[
            "/",
            "surely_not_an_existing_dir_0b1c2d"
        ])))
    );
}

#[test]
fn project_using_fs_finds_a_file_and_is_idempotent() {
    // A file that surely exists where the tests run.
    let mut p =
        FileProjection::new(vec![fsp(&["/", "etc", "hostname"])], vec![], vec![]).unwrap();
    let errs = p.project_using_fs().unwrap();
    assert!(errs.is_empty());
    let first = p.projected_files().unwrap().clone();
    assert_eq!(first.len(), 1);
    assert_eq!(first[0], fsp(&["/", "etc", "hostname"]));
    // A second filesystem projection is a no-op with no errors.
    let errs2 = p.project_using_fs().unwrap();
    assert!(errs2.is_empty());
    assert_eq!(*p.projected_files().unwrap(), first);
}

#[test]
fn project_using_fs_applies_extension_exclusion() {
    // "hostname" has no extension, and an empty excluded extension
    // matches exactly the extension-less names.
    let mut p = FileProjection::new(
        vec![fsp(&["/", "etc", "hostname"])],
        vec![],
        vec!["".to_string()],
    )
    .unwrap();
    let errs = p.project_using_fs().unwrap();
    assert!(errs.is_empty());
    assert_eq!(p.projected_files().unwrap().len(), 0);
}

#[test]
fn walk_admission_rule_on_scenario_names() {
    // Source dirs ["/videos"], no exclusion dirs, extension excluded
    // "txt": of a.mp4, b.mp4 and notes.txt, exactly the two mp4 files are
    // admitted by the walk's per-entry rule.
    let p = videos_projection(&["txt"]);
    let a = fsp(&["/", "videos", "a.mp4"]);
    let b = fsp(&["/", "videos", "b.mp4"]);
    let notes = fsp(&["/", "videos", "notes.txt"]);
    assert!(p.contains(&a) && !p.has_ignore_ext(&a));
    assert!(p.contains(&b) && !p.has_ignore_ext(&b));
    assert!(p.contains(&notes) && p.has_ignore_ext(&notes));
}

#[test]
fn extension_matching_details() {
    let p = videos_projection(&["mp4"]);
    assert!(p.has_ignore_ext(&fsp(&["/", "videos", "a.MP4"])));
    assert!(p.has_ignore_ext(&fsp(&["/", "videos", "a.tar.mp4"])));
    assert!(!p.has_ignore_ext(&fsp(&["/", "videos", "mp4"])));
    assert!(!p.has_ignore_ext(&fsp(&["/", "videos", ".mp4"])));
    // A name with no extension matches only an empty exclusion.
    let q = videos_projection(&[""]);
    assert!(q.has_ignore_ext(&fsp(&["/", "videos", "noext"])));
    assert!(!q.has_ignore_ext(&fsp(&["/", "videos", "a.mp4"])));
}
