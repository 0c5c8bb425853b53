use rust_vcs::tree::{VCSDirectory, VCSFile, VCSKind, VCSTree};

fn file(name: &str, sha: &[u8], kind: VCSKind) -> VCSTree {
    VCSTree::File(VCSFile { name: name.to_string(), sha: sha.to_vec() }, kind)
}

fn dir(name: &str, children: Vec<VCSTree>) -> VCSTree {
    VCSTree::Directory(VCSDirectory { name: name.to_string(), children })
}

fn root(name: &str, children: Vec<VCSTree>) -> VCSTree {
    VCSTree::Root(VCSDirectory { name: name.to_string(), children })
}

fn sample() -> VCSTree {
    root(
        ".",
        vec![
            file("a.txt", &[1], VCSKind::New),
            dir("src", vec![file("lib.rs", &[2], VCSKind::New), dir("empty", vec![])]),
            file("b.txt", &[3], VCSKind::New),
        ],
    )
}

#[test]
fn listing_is_depth_first_with_joined_paths() {
    let paths = sample().paths_with_prefix(None);
    assert_eq!(
        paths,
        vec![
            ("./a.txt".to_string(), VCSKind::New),
            ("./src/lib.rs".to_string(), VCSKind::New),
            ("./b.txt".to_string(), VCSKind::New),
        ]
    );
}

#[test]
fn listing_starts_with_given_prefix() {
    let paths = sample().paths_with_prefix(Some("repo:".to_string()));
    assert_eq!(paths[0].0, "repo:./a.txt");
    assert_eq!(paths[1].0, "repo:./src/lib.rs");
}

#[test]
fn to_string_joins_lines() {
    assert_eq!(sample().to_string(), "./a.txt\n./src/lib.rs\n./b.txt");
}

#[test]
fn to_string_of_tree_without_files_is_none() {
    assert_eq!(root(".", vec![dir("empty", vec![])]).to_string(), "None");
}

#[test]
fn set_file_kind_tags_every_file() {
    let stamped = sample().set_file_kind(VCSKind::Deleted);
    let paths = stamped.paths_with_prefix(None);
    assert_eq!(paths.len(), 3);
    assert!(paths.iter().all(|(_, k)| *k == VCSKind::Deleted));
    match stamped {
        VCSTree::Root(d) => {
            assert_eq!(d.name, ".");
            assert_eq!(d.children.len(), 3);
        }
        _ => panic!("root expected"),
    }
}

#[test]
fn form_tree_makes_a_root() {
    let t = sample().form_tree("dest".to_string(), vec![file("x", &[9], VCSKind::New)]);
    match t {
        VCSTree::Root(d) => {
            assert_eq!(d.name, "dest");
            assert_eq!(d.children.len(), 1);
        }
        _ => panic!("root expected"),
    }
}

#[test]
fn get_root_dir_gives_the_directory() {
    let t = sample();
    let d = t.get_root_dir();
    assert_eq!(d.name, ".");
    assert_eq!(d.children.len(), 3);
}

#[test]
fn identity_is_by_name_only() {
    let a = VCSFile { name: "a".to_string(), sha: vec![1] };
    let b = VCSFile { name: "a".to_string(), sha: vec![2] };
    let c = VCSFile { name: "c".to_string(), sha: vec![1] };
    assert!(a == b);
    assert!(a != c);
    let d1 = VCSDirectory { name: "d".to_string(), children: vec![] };
    let d2 = VCSDirectory { name: "d".to_string(), children: vec![file("x", &[1], VCSKind::New)] };
    assert!(d1 == d2);
}

#[test]
fn duplicate_keeps_everything() {
    let t = sample();
    let c = t.duplicate();
    assert_eq!(c.to_string(), t.to_string());
    assert_eq!(c.name(), ".");
}
