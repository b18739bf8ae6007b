use deskspace::order::Ranked;
use deskspace::workspace::{
    decode_text, listed_before, sort_entries, DirEntry, FailureKind, Workspace, WorkspaceError,
};

fn entry(name: &str, is_dir: bool, size: u64) -> DirEntry {
    DirEntry { name: name.to_string(), is_dir, size }
}

fn names(entries: &[DirEntry]) -> Vec<&str> {
    entries.iter().map(|e| e.name.as_str()).collect()
}

fn make_dir(parent: &std::path::Path, name: &str) -> std::path::PathBuf {
    tempfile::Builder::new().prefix(name).rand_bytes(0).tempdir_in(parent).unwrap().keep()
}

fn make_file(parent: &std::path::Path, name: &str) {
    let file = tempfile::Builder::new().prefix(name).rand_bytes(0).tempfile_in(parent).unwrap();
    file.keep().unwrap();
}

#[test]
fn resolve_normal_path() {
    let dir = tempfile::tempdir().unwrap();
    make_file(dir.path(), "hello.txt");
    let ws = Workspace::new(dir.path().to_str().unwrap()).unwrap();
    let resolved = ws.resolve("hello.txt").unwrap();
    assert!(std::path::Path::new(&resolved).starts_with(ws.root()));
    assert!(std::path::Path::new(&resolved).ends_with("hello.txt"));
}

#[test]
fn reject_path_traversal() {
    let dir = tempfile::tempdir().unwrap();
    let ws = Workspace::new(dir.path().to_str().unwrap()).unwrap();
    let result = ws.resolve("../../../etc/passwd");
    assert!(result.is_err());
}

#[test]
fn resolve_absolute_path_stripped() {
    let dir = tempfile::tempdir().unwrap();
    let sub = make_dir(dir.path(), "sub");
    make_file(&sub, "file.txt");
    let ws = Workspace::new(dir.path().to_str().unwrap()).unwrap();
    let resolved = ws.resolve("/sub/file.txt").unwrap();
    assert!(std::path::Path::new(&resolved).starts_with(ws.root()));
}

#[test]
fn read_dir_sorts_dirs_first() {
    let entries = sort_entries(vec![entry("b.txt", false, 0), entry("a_dir", true, 0), entry("a.txt", false, 0)]);
    assert!(entries[0].is_dir);
    assert_eq!(entries[0].name, "a_dir");
    assert_eq!(names(&entries), vec!["a_dir", "a.txt", "b.txt"]);
}

#[test]
fn traversal_is_reported_as_such_with_the_requested_path() {
    let dir = tempfile::tempdir().unwrap();
    let ws = Workspace::new(dir.path().to_str().unwrap()).unwrap();
    match ws.resolve("../") {
        Err(WorkspaceError::PathTraversal(p)) => assert_eq!(p, "../"),
        other => panic!("unexpected result: {:?}", other),
    }
    match ws.resolve("..") {
        Err(WorkspaceError::PathTraversal(p)) => assert_eq!(p, ".."),
        other => panic!("unexpected result: {:?}", other),
    }
    match ws.resolve("sub/../../outside") {
        Err(WorkspaceError::NotFound(_)) | Err(WorkspaceError::PathTraversal(_)) => {}
        other => panic!("unexpected result: {:?}", other),
    }
}

#[test]
fn resolve_absolute_and_relative_agree() {
    let dir = tempfile::tempdir().unwrap();
    make_file(dir.path(), "x");
    let ws = Workspace::new(dir.path().to_str().unwrap()).unwrap();
    let relative = ws.resolve("x").unwrap();
    assert_eq!(ws.resolve("/x").unwrap(), relative);
    assert_eq!(ws.resolve("//x").unwrap(), relative);
    assert_eq!(relative, format!("{}/x", ws.root()));
    assert_eq!(ws.target("/x"), ws.target("x"));
}

#[test]
fn resolve_of_empty_path_is_the_root() {
    let dir = tempfile::tempdir().unwrap();
    let ws = Workspace::new(dir.path().to_str().unwrap()).unwrap();
    assert_eq!(ws.resolve("").unwrap(), ws.root());
    assert_eq!(ws.resolve("/").unwrap(), ws.root());
    assert_eq!(ws.resolve(".").unwrap(), ws.root());
}

#[test]
fn resolve_of_a_new_file_goes_by_its_parent() {
    let dir = tempfile::tempdir().unwrap();
    make_dir(dir.path(), "sub");
    let ws = Workspace::new(dir.path().to_str().unwrap()).unwrap();
    assert_eq!(ws.resolve("new.txt").unwrap(), format!("{}/new.txt", ws.root()));
    assert_eq!(ws.resolve("sub/new.txt").unwrap(), format!("{}/sub/new.txt", ws.root()));
    assert_eq!(ws.resolve("sub/../new.txt").unwrap(), format!("{}/new.txt", ws.root()));
    assert_eq!(ws.resolve("sub/./new.txt/").unwrap(), format!("{}/sub/new.txt", ws.root()));
}

#[test]
fn resolve_of_a_new_file_below_a_missing_directory_is_not_found() {
    let dir = tempfile::tempdir().unwrap();
    let ws = Workspace::new(dir.path().to_str().unwrap()).unwrap();
    match ws.resolve("missing/new.txt") {
        Err(WorkspaceError::NotFound(detail)) => assert!(!detail.is_empty()),
        other => panic!("unexpected result: {:?}", other),
    }
}

#[test]
fn resolve_folds_parent_steps_that_stay_inside() {
    let dir = tempfile::tempdir().unwrap();
    let sub = make_dir(dir.path(), "sub");
    make_file(&sub, "file.txt");
    let ws = Workspace::new(dir.path().to_str().unwrap()).unwrap();
    assert_eq!(ws.resolve("sub/../sub/./file.txt").unwrap(), format!("{}/sub/file.txt", ws.root()));
    assert!(matches!(ws.resolve("sub/../../file.txt"), Err(WorkspaceError::PathTraversal(_))));
}

#[test]
fn new_canonicalizes_the_root() {
    let dir = tempfile::tempdir().unwrap();
    make_dir(dir.path(), "sub");
    let given = format!("{}/sub/../sub/.", dir.path().to_str().unwrap());
    let ws = Workspace::new(&given).unwrap();
    assert!(ws.root().ends_with("/sub"));
    assert!(ws.root().starts_with('/'));
    assert!(!ws.root().contains(".."));
}

#[test]
fn new_fails_for_a_missing_root() {
    let dir = tempfile::tempdir().unwrap();
    let missing = format!("{}/nothing-here", dir.path().to_str().unwrap());
    match Workspace::new(&missing) {
        Err(WorkspaceError::NotFound(detail)) => assert!(!detail.is_empty()),
        other => panic!("unexpected result: {:?}", other.map(|ws| ws.root().to_string())),
    }
}

#[test]
fn contain_compares_whole_components() {
    let ws = Workspace::rooted_at("/srv/root".to_string());
    assert_eq!(ws.root(), "/srv/root");
    assert_eq!(ws.contain("/srv/root".to_string(), "").unwrap(), "/srv/root");
    assert_eq!(ws.contain("/srv/root/a/b".to_string(), "a/b").unwrap(), "/srv/root/a/b");
    match ws.contain("/srv/root-evil/a".to_string(), "x") {
        Err(WorkspaceError::PathTraversal(p)) => assert_eq!(p, "x"),
        other => panic!("unexpected result: {:?}", other),
    }
    assert!(matches!(ws.contain("/srv".to_string(), "y"), Err(WorkspaceError::PathTraversal(_))));
    assert!(matches!(ws.contain("/srv/roo".to_string(), "y"), Err(WorkspaceError::PathTraversal(_))));
    assert!(matches!(ws.contain("/etc/passwd".to_string(), "y"), Err(WorkspaceError::PathTraversal(_))));
    assert!(matches!(ws.contain("/srv/root/../x".to_string(), "y"), Err(WorkspaceError::PathTraversal(_))));
    assert!(matches!(ws.contain("srv/root/a".to_string(), "y"), Err(WorkspaceError::PathTraversal(_))));
}

#[test]
fn target_joins_below_the_root() {
    let ws = Workspace::rooted_at("/srv/root".to_string());
    assert_eq!(ws.target("a/b.txt"), "/srv/root/a/b.txt");
    assert_eq!(ws.target("/a/b.txt"), "/srv/root/a/b.txt");
    assert_eq!(ws.target("///a"), "/srv/root/a");
    assert_eq!(ws.target(""), "/srv/root/");
    assert_eq!(ws.target("../x"), "/srv/root/../x");
    assert_eq!(Workspace::rooted_at("/".to_string()).target("/a"), "/a");
}

#[test]
fn sort_entries_is_case_insensitive_within_a_kind() {
    let sorted = sort_entries(vec![
        entry("beta.txt", false, 1),
        entry("Alpha.txt", false, 2),
        entry("zeta", true, 3),
        entry("Eta", true, 4),
        entry("alpha.TXT", false, 5),
        entry("ALPHA.txt", false, 6),
    ]);
    assert_eq!(names(&sorted), vec!["Eta", "zeta", "ALPHA.txt", "Alpha.txt", "alpha.TXT", "beta.txt"]);
    let sizes: Vec<u64> = sorted.iter().map(|e| e.size).collect();
    assert_eq!(sizes, vec![4, 3, 6, 2, 5, 1]);
}

#[test]
fn sort_entries_keeps_every_entry() {
    assert!(sort_entries(Vec::new()).is_empty());
    let sorted = sort_entries(vec![entry("a", false, 1), entry("a", false, 2), entry("a", true, 3)]);
    assert_eq!(sorted.len(), 3);
    assert!(sorted[0].is_dir);
    let mut sizes: Vec<u64> = sorted.iter().map(|e| e.size).collect();
    sizes.sort();
    assert_eq!(sizes, vec![1, 2, 3]);
}

#[test]
fn listed_before_reads_kind_then_folded_name_then_name() {
    assert!(listed_before(true, "z", "z", false, "a", "a"));
    assert!(!listed_before(false, "a", "a", true, "z", "z"));
    assert!(listed_before(false, "a", "A", false, "b", "b"));
    assert!(!listed_before(false, "b", "b", false, "a", "A"));
    assert!(listed_before(false, "a", "A", false, "a", "a"));
    assert!(!listed_before(false, "a", "a", false, "a", "A"));
    assert!(listed_before(false, "a", "a", false, "a", "a"));
    assert!(listed_before(false, "a", "x", false, "ab", "x"));
}

#[test]
fn entries_go_before_by_lowercase_name() {
    let upper = entry("B", false, 0);
    let lower = entry("a", false, 0);
    assert!(lower.goes_before(&upper));
    assert!(!upper.goes_before(&lower));
}

#[test]
fn decode_text_accepts_utf8_only() {
    assert_eq!(decode_text("héllo\n".as_bytes().to_vec()).unwrap(), "héllo\n");
    assert_eq!(decode_text(Vec::new()).unwrap(), "");
    assert!(matches!(decode_text(vec![0xff, 0xfe]), Err(WorkspaceError::Decode(_))));
    assert!(matches!(decode_text(vec![b'a', 0xc3]), Err(WorkspaceError::Decode(_))));
}

#[test]
fn failures_map_to_errors_by_kind() {
    assert!(matches!(
        WorkspaceError::from_failure(FailureKind::NotFound, "gone".to_string()),
        WorkspaceError::NotFound(d) if d == "gone"
    ));
    assert!(matches!(
        WorkspaceError::from_failure(FailureKind::InvalidData, "bad".to_string()),
        WorkspaceError::Decode(d) if d == "bad"
    ));
    assert!(matches!(
        WorkspaceError::from_failure(FailureKind::Other, "denied".to_string()),
        WorkspaceError::Io(d) if d == "denied"
    ));
}

#[test]
fn io_errors_map_by_their_kind() {
    let gone = std::io::Error::new(std::io::ErrorKind::NotFound, "gone");
    assert!(matches!(WorkspaceError::from_io(&gone), WorkspaceError::NotFound(d) if d == "gone"));
    let bad = std::io::Error::new(std::io::ErrorKind::InvalidData, "bad");
    assert!(matches!(WorkspaceError::from_io(&bad), WorkspaceError::Decode(d) if d == "bad"));
    let denied = std::io::Error::new(std::io::ErrorKind::PermissionDenied, "denied");
    assert!(matches!(WorkspaceError::from_io(&denied), WorkspaceError::Io(d) if d == "denied"));
}

#[test]
fn workspace_error_messages() {
    assert_eq!(
        WorkspaceError::PathTraversal("../x".to_string()).message(),
        "path escapes workspace root: ../x"
    );
    assert_eq!(WorkspaceError::NotFound("gone".to_string()).message(), "io error: gone");
    assert_eq!(WorkspaceError::Decode("bad".to_string()).message(), "io error: bad");
    assert_eq!(WorkspaceError::Io("denied".to_string()).message(), "io error: denied");
}

#[test]
fn split_missing_gives_directory_and_name() {
    assert_eq!(
        Workspace::split_missing("/srv/root/sub/new.txt", "sub/new.txt").unwrap(),
        ("/srv/root/sub".to_string(), "new.txt".to_string())
    );
    assert_eq!(
        Workspace::split_missing("/srv/root/a/../b/./c/", "x").unwrap(),
        ("/srv/root/a/../b".to_string(), "c".to_string())
    );
    assert_eq!(Workspace::split_missing("/new", "new").unwrap(), ("/".to_string(), "new".to_string()));
}

#[test]
fn split_missing_refuses_targets_without_a_name() {
    match Workspace::split_missing("/srv/root/gone/..", "gone/..") {
        Err(WorkspaceError::PathTraversal(p)) => assert_eq!(p, "gone/.."),
        other => panic!("unexpected result: {:?}", other),
    }
    assert!(matches!(Workspace::split_missing("/", ""), Err(WorkspaceError::PathTraversal(_))));
    assert!(matches!(Workspace::split_missing("", ""), Err(WorkspaceError::PathTraversal(_))));
}

#[test]
fn contain_new_places_the_name_below_the_directory() {
    let ws = Workspace::rooted_at("/srv/root".to_string());
    assert_eq!(ws.contain_new("/srv/root", "new.txt", "new.txt").unwrap(), "/srv/root/new.txt");
    assert_eq!(ws.contain_new("/srv/root/sub", "n", "sub/n").unwrap(), "/srv/root/sub/n");
    match ws.contain_new("/srv", "root-evil", "../root-evil") {
        Err(WorkspaceError::PathTraversal(p)) => assert_eq!(p, "../root-evil"),
        other => panic!("unexpected result: {:?}", other),
    }
    assert!(matches!(ws.contain_new("/tmp", "x", "../../tmp/x"), Err(WorkspaceError::PathTraversal(_))));
}
