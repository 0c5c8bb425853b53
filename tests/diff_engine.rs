use rust_vcs::error::VCSError;
use rust_vcs::tree::{VCSDirectory, VCSFile, VCSKind, VCSTree};

fn file(name: &str, sha: &[u8]) -> VCSTree {
    VCSTree::File(VCSFile { name: name.to_string(), sha: sha.to_vec() }, VCSKind::New)
}

fn dir(name: &str, children: Vec<VCSTree>) -> VCSTree {
    VCSTree::Directory(VCSDirectory { name: name.to_string(), children })
}

fn root(children: Vec<VCSTree>) -> VCSTree {
    VCSTree::Root(VCSDirectory { name: ".".to_string(), children })
}

fn paths(t: &VCSTree) -> Vec<(String, VCSKind)> {
    t.paths_with_prefix(None)
}

fn p(s: &str, k: VCSKind) -> (String, VCSKind) {
    (s.to_string(), k)
}

#[test]
fn diff_of_a_tree_with_itself_is_none() {
    let t = root(vec![file("a", &[1]), dir("d", vec![file("b", &[2]), dir("e", vec![])])]);
    let r = t.diff_tree(t.duplicate());
    assert!(matches!(r, Ok(None)));
}

#[test]
fn changed_content_is_modified() {
    let cur = root(vec![file("a", &[1]), file("b", &[2])]);
    let prev = root(vec![file("a", &[1]), file("b", &[3])]);
    let d = cur.diff_tree(prev).unwrap().unwrap();
    assert_eq!(paths(&d), vec![p("./b", VCSKind::Modified)]);
}

#[test]
fn new_and_deleted_entries_are_tagged() {
    let cur = root(vec![file("keep", &[1]), file("added", &[2]), dir("nd", vec![file("x", &[5])])]);
    let prev = root(vec![file("keep", &[1]), file("gone", &[3]), dir("od", vec![file("y", &[6])])]);
    let d = cur.diff_tree(prev).unwrap().unwrap();
    assert_eq!(
        paths(&d),
        vec![
            p("./added", VCSKind::New),
            p("./nd/x", VCSKind::New),
            p("./gone", VCSKind::Deleted),
            p("./od/y", VCSKind::Deleted),
        ]
    );
}

#[test]
fn modified_entries_come_before_new_and_deleted() {
    let cur = root(vec![file("n", &[1]), file("m", &[2])]);
    let prev = root(vec![file("m", &[3]), file("g", &[4])]);
    let d = cur.diff_tree(prev).unwrap().unwrap();
    assert_eq!(
        paths(&d),
        vec![p("./m", VCSKind::Modified), p("./n", VCSKind::New), p("./g", VCSKind::Deleted)]
    );
}

#[test]
fn pairing_is_by_name_not_position() {
    let cur = root(vec![file("a", &[1]), file("b", &[2]), file("c", &[3])]);
    let prev = root(vec![file("c", &[3]), file("a", &[1]), file("b", &[2])]);
    assert!(matches!(cur.diff_tree(prev), Ok(None)));
}

#[test]
fn reordered_with_one_change_reports_that_file() {
    let cur = root(vec![file("a", &[1]), file("b", &[2])]);
    let prev = root(vec![file("b", &[9]), file("a", &[1])]);
    let d = cur.diff_tree(prev).unwrap().unwrap();
    assert_eq!(paths(&d), vec![p("./b", VCSKind::Modified)]);
}

#[test]
fn nested_change_keeps_only_changed_branch() {
    let cur = root(vec![dir("d", vec![file("x", &[1]), file("y", &[2])]), file("z", &[3])]);
    let prev = root(vec![dir("d", vec![file("x", &[1]), file("y", &[7])]), file("z", &[3])]);
    let d = cur.diff_tree(prev).unwrap().unwrap();
    assert_eq!(paths(&d), vec![p("./d/y", VCSKind::Modified)]);
    match d {
        VCSTree::Root(r) => assert_eq!(r.children.len(), 1),
        _ => panic!("root expected"),
    }
}

#[test]
fn file_replaced_by_directory_is_type_changed() {
    let cur = root(vec![dir("a", vec![file("x", &[1])])]);
    let prev = root(vec![file("a", &[1])]);
    match cur.diff_tree(prev) {
        Err(VCSError::TypeChanged(name)) => assert_eq!(name, "a"),
        _ => panic!("type change expected"),
    }
}

#[test]
fn root_against_directory_is_type_changed() {
    let cur = root(vec![]);
    let prev = dir("other", vec![]);
    assert!(matches!(cur.diff_tree(prev), Err(VCSError::TypeChanged(_))));
}

#[test]
fn file_against_file_same_hash_is_none() {
    assert!(matches!(file("a", &[1, 2]).diff_tree(file("a", &[1, 2])), Ok(None)));
}

#[test]
fn file_against_file_other_hash_is_modified_current_side() {
    let d = file("a", &[1]).diff_tree(file("a", &[2])).unwrap().unwrap();
    match d {
        VCSTree::File(f, k) => {
            assert_eq!(f.sha, vec![1]);
            assert_eq!(k, VCSKind::Modified);
        }
        _ => panic!("file expected"),
    }
}

#[test]
fn new_files_have_no_counterpart_in_previous() {
    let cur = root(vec![dir("d", vec![file("n", &[1]), file("k", &[2])])]);
    let prev = root(vec![dir("d", vec![file("k", &[2]), file("o", &[3])])]);
    let d = cur.diff_tree(prev).unwrap().unwrap();
    assert_eq!(paths(&d), vec![p("./d/n", VCSKind::New), p("./d/o", VCSKind::Deleted)]);
}

#[test]
fn tagged_files_keep_their_source_digest() {
    let cur = root(vec![file("n", &[1, 1]), file("m", &[2, 2])]);
    let prev = root(vec![file("m", &[3, 3]), file("g", &[4, 4])]);
    let d = cur.diff_tree(prev).unwrap().unwrap();
    let shas: Vec<(String, Vec<u8>, VCSKind)> = match d {
        VCSTree::Root(r) => r
            .children
            .into_iter()
            .map(|c| match c {
                VCSTree::File(f, k) => (f.name, f.sha, k),
                _ => panic!("file expected"),
            })
            .collect(),
        _ => panic!("root expected"),
    };
    assert_eq!(
        shas,
        vec![
            ("m".to_string(), vec![2, 2], VCSKind::Modified),
            ("n".to_string(), vec![1, 1], VCSKind::New),
            ("g".to_string(), vec![4, 4], VCSKind::Deleted),
        ]
    );
}
