use rust_vcs::store::{join_path, CopyOp};
use rust_vcs::tree::{VCSDirectory, VCSFile, VCSKind, VCSTree};

fn file(name: &str, sha: &[u8]) -> VCSTree {
    VCSTree::File(VCSFile { name: name.to_string(), sha: sha.to_vec() }, VCSKind::New)
}

fn sample() -> VCSTree {
    VCSTree::Root(VCSDirectory {
        name: ".".to_string(),
        children: vec![
            file("a.txt", &[1]),
            VCSTree::Directory(VCSDirectory { name: "d".to_string(), children: vec![file("b", &[2])] }),
        ],
    })
}

fn describe(ops: &[CopyOp]) -> Vec<String> {
    ops.iter()
        .map(|o| match o {
            CopyOp::CreateDir(d) => format!("mkdir {}", d),
            CopyOp::CopyFile(a, b) => format!("cp {} {}", a, b),
        })
        .collect()
}

#[test]
fn copy_to_plans_every_file_and_reroots() {
    let (ops, t) = sample().copy_to("store/data".to_string());
    assert_eq!(
        describe(&ops),
        vec![
            "mkdir store/data",
            "cp ./a.txt store/data/a.txt",
            "mkdir store/data/d",
            "cp ./d/b store/data/d/b",
        ]
    );
    match t {
        VCSTree::Root(r) => {
            assert_eq!(r.name, "store/data");
            assert_eq!(r.children.len(), 2);
        }
        _ => panic!("root expected"),
    }
}

#[test]
fn persisted_tree_restores_from_where_it_was_written() {
    let original = sample();
    let (written, stored) = original.copy_to("store/data".to_string());
    let (read, restored) = stored.copy_to(".".to_string());
    assert_eq!(written.len(), read.len());
    for (w, r) in written.iter().zip(read.iter()) {
        match (w, r) {
            (CopyOp::CreateDir(_), CopyOp::CreateDir(_)) => {}
            (CopyOp::CopyFile(_, to), CopyOp::CopyFile(from, _)) => assert_eq!(to, from),
            _ => panic!("steps differ"),
        }
    }
    assert_eq!(restored.to_string(), original.to_string());
    assert_eq!(describe(&read)[1], "cp store/data/a.txt ./a.txt");
}

#[test]
fn persisted_after_move_restores_from_new_place() {
    let (written, _) = sample().copy_to("stage/x/data".to_string());
    let stored = sample().form_tree("commits/x/data".to_string(), match sample() {
        VCSTree::Root(d) => d.children,
        _ => panic!("root expected"),
    });
    let (read, _) = stored.copy_to(".".to_string());
    assert_eq!(describe(&written)[1], "cp ./a.txt stage/x/data/a.txt");
    assert_eq!(describe(&read)[1], "cp commits/x/data/a.txt ./a.txt");
    assert_eq!(describe(&read)[3], "cp commits/x/data/d/b ./d/b");
}

#[test]
fn join_path_puts_a_slash_between() {
    assert_eq!(join_path(&"a/b".to_string(), &"c".to_string()), "a/b/c");
}
