use rust_vcs::builder::{get_tree_structure, is_ignored, ScanEntry, Settings};
use rust_vcs::error::VCSError;
use rust_vcs::tree::{VCSKind, VCSTree};

fn f(name: &str, contents: &str) -> ScanEntry {
    ScanEntry::File { name: Some(name.to_string()), contents: contents.as_bytes().to_vec() }
}

fn d(name: &str, entries: Vec<ScanEntry>) -> ScanEntry {
    ScanEntry::Dir { name: Some(name.to_string()), entries }
}

fn settings(names: &[&str]) -> Settings {
    Settings { ignore: names.iter().map(|s| s.to_string()).collect() }
}

fn hex(bytes: &[u8]) -> String {
    bytes.iter().map(|b| format!("{:02x}", b)).collect()
}

#[test]
fn builds_root_with_directories_and_new_files() {
    let entries = vec![f("a.txt", "x"), d("sub", vec![f("b.txt", "y")])];
    let t = get_tree_structure(".".to_string(), &entries, &settings(&[])).unwrap();
    assert_eq!(
        t.paths_with_prefix(None),
        vec![("./a.txt".to_string(), VCSKind::New), ("./sub/b.txt".to_string(), VCSKind::New)]
    );
    match t {
        VCSTree::Root(r) => {
            assert_eq!(r.name, ".");
            assert!(matches!(r.children[1], VCSTree::Directory(_)));
        }
        _ => panic!("root expected"),
    }
}

#[test]
fn file_hash_is_sha256_of_contents() {
    let t = get_tree_structure(".".to_string(), &vec![f("a.txt", "x")], &settings(&[])).unwrap();
    match t {
        VCSTree::Root(r) => match &r.children[0] {
            VCSTree::File(file, _) => {
                assert_eq!(file.sha.len(), 32);
                assert_eq!(
                    hex(&file.sha),
                    "2d711642b726b04401627ca9fbac32f5c8530fb1903cc4db02258717921a4881"
                );
            }
            _ => panic!("file expected"),
        },
        _ => panic!("root expected"),
    }
}

#[test]
fn ignored_names_never_appear() {
    let entries = vec![
        f("a.txt", "x"),
        d(".rust-vcs", vec![f("index", "")]),
        d("src", vec![f("target", "t"), f("lib.rs", "l")]),
        d("target", vec![f("big", "b")]),
    ];
    let t = get_tree_structure(".".to_string(), &entries, &settings(&[".rust-vcs", "target"])).unwrap();
    assert_eq!(
        t.paths_with_prefix(None),
        vec![("./a.txt".to_string(), VCSKind::New), ("./src/lib.rs".to_string(), VCSKind::New)]
    );
}

#[test]
fn ignored_entry_with_unreadable_name_inside_is_skipped() {
    let entries = vec![d("target", vec![ScanEntry::File { name: None, contents: vec![] }])];
    let t = get_tree_structure(".".to_string(), &entries, &settings(&["target"])).unwrap();
    assert_eq!(t.to_string(), "None");
}

#[test]
fn unrepresentable_name_is_an_identity_error() {
    let entries = vec![f("a", "x"), d("sub", vec![ScanEntry::File { name: None, contents: vec![1] }])];
    let r = get_tree_structure(".".to_string(), &entries, &settings(&[]));
    assert!(matches!(r, Err(VCSError::InvalidIdentity)));
}

#[test]
fn binary_contents_are_hashed() {
    let entries = vec![ScanEntry::File { name: Some("bin".to_string()), contents: vec![0xff, 0xfe, 0] }];
    assert!(get_tree_structure(".".to_string(), &entries, &settings(&[])).is_ok());
}

#[test]
fn is_ignored_checks_membership() {
    let ig = vec!["a".to_string(), "b".to_string()];
    assert!(is_ignored(&"b".to_string(), &ig));
    assert!(!is_ignored(&"c".to_string(), &ig));
    assert!(!is_ignored(&"a".to_string(), &vec![]));
}

#[test]
fn control_dir_is_always_ignored() {
    let s = settings(&["target"]).with_control_dir(&".rust-vcs".to_string());
    assert_eq!(s.ignore, vec!["target".to_string(), ".rust-vcs".to_string()]);
    let entries = vec![d(".rust-vcs", vec![f("index", "")]), f("a", "x")];
    let t = get_tree_structure(".".to_string(), &entries, &s).unwrap();
    assert_eq!(t.to_string(), "./a");
}
