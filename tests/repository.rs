use rust_vcs::builder::{get_tree_structure, ScanEntry, Settings};
use rust_vcs::error::VCSError;
use rust_vcs::repo::{
    check_vcs_initialized, checkout, commit, get_current_diff_tree, init, status, tree_file_path,
    CommitPlan,
};
use rust_vcs::store::CopyOp;
use rust_vcs::tree::{VCSKind, VCSTree};

const REPO: &str = ".rust-vcs";

fn settings() -> Settings {
    Settings { ignore: vec![REPO.to_string(), "target".to_string()] }
}

fn live(files: &[(&str, &str)]) -> VCSTree {
    let entries: Vec<ScanEntry> = files
        .iter()
        .map(|(n, c)| ScanEntry::File { name: Some(n.to_string()), contents: c.as_bytes().to_vec() })
        .collect();
    get_tree_structure(".".to_string(), &entries, &settings()).unwrap()
}

fn make_commit(message: &str, tree: &VCSTree, previous: Option<VCSTree>, secs: i64) -> CommitPlan {
    commit(message.to_string(), &REPO.to_string(), tree, previous, secs, 0).unwrap()
}

#[test]
fn scenario_init_then_status_reports_all_files_new() {
    assert!(init(false).is_ok());
    let t = live(&[("a.txt", "x"), ("b.txt", "y")]);
    let report = status(&String::new(), &t, None).unwrap();
    assert!(report.untracked);
    assert_eq!(
        report.changes.unwrap(),
        vec![("./a.txt".to_string(), VCSKind::New), ("./b.txt".to_string(), VCSKind::New)]
    );
}

#[test]
fn scenario_first_commit_moves_pointer_and_logs() {
    let t = live(&[("a.txt", "x")]);
    let plan = make_commit("first", &t, None, 1_700_000_000);
    let id = plan.commit.id.clone();
    assert!(!id.is_empty());
    assert_eq!(plan.staging_root, format!(".rust-vcs/staging/{}", id));
    assert_eq!(plan.commit_root, format!(".rust-vcs/commits/{}", id));
    assert_eq!(plan.data_dir, format!(".rust-vcs/staging/{}/data", id));
    assert_eq!(plan.meta_dir, format!(".rust-vcs/staging/{}/meta", id));
    assert_eq!(plan.tree_file, format!(".rust-vcs/staging/{}/meta/tree.json", id));
    assert_eq!(
        tree_file_path(&REPO.to_string(), &id),
        format!(".rust-vcs/commits/{}/meta/tree.json", id)
    );
    assert_eq!(plan.tree.name(), &format!(".rust-vcs/commits/{}/data", id));
    assert_eq!(plan.log_line.lines().count(), 1);
    assert!(plan.log_line.starts_with(&format!("{}\t", id)));
    assert!(plan.log_line.ends_with("\tfirst"));
    match &plan.copies[1] {
        CopyOp::CopyFile(from, to) => {
            assert_eq!(from, "./a.txt");
            assert_eq!(to, &format!(".rust-vcs/staging/{}/data/a.txt", id));
        }
        _ => panic!("copy expected"),
    }
}

#[test]
fn scenario_modify_commit_and_checkout_first() {
    let first_tree = live(&[("a.txt", "x")]);
    let first = make_commit("first", &first_tree, None, 1_700_000_000);

    let edited = live(&[("a.txt", "y")]);
    let report = status(&first.commit.id, &edited, Some(first.tree.duplicate())).unwrap();
    assert!(!report.untracked);
    assert_eq!(report.changes.unwrap(), vec![("./a.txt".to_string(), VCSKind::Modified)]);

    let second = make_commit("second", &edited, Some(first.tree.duplicate()), 1_700_000_100);
    assert_ne!(second.commit.id, first.commit.id);

    let plan = checkout(
        first.commit.id.clone(),
        &edited,
        Some(second.tree.duplicate()),
        Ok(first.tree.duplicate()),
        &".".to_string(),
    )
    .unwrap();
    assert_eq!(plan.pointer, first.commit.id);
    match &plan.copies[1] {
        CopyOp::CopyFile(from, to) => {
            assert_eq!(from, &format!("{}/data/a.txt", first.commit_root));
            assert_eq!(to, "./a.txt");
        }
        _ => panic!("copy expected"),
    }
}

#[test]
fn scenario_checkout_refused_with_pending_edit() {
    let x_tree = live(&[("a.txt", "x")]);
    let first = make_commit("first", &x_tree, None, 1_700_000_000);
    let y_tree = live(&[("a.txt", "y")]);
    let second = make_commit("second", &y_tree, Some(first.tree.duplicate()), 1_700_000_100);
    let clean = checkout(
        first.commit.id.clone(),
        &y_tree,
        Some(second.tree.duplicate()),
        Ok(first.tree.duplicate()),
        &".".to_string(),
    );
    assert!(clean.is_ok());
    let edited = live(&[("a.txt", "z")]);
    let r = checkout(
        first.commit.id.clone(),
        &edited,
        Some(first.tree.duplicate()),
        Ok(first.tree.duplicate()),
        &".".to_string(),
    );
    assert!(matches!(r, Err(VCSError::UncommittedChanges)));
}

#[test]
fn commit_without_changes_is_refused() {
    let t = live(&[("a.txt", "x")]);
    let first = make_commit("first", &t, None, 1_700_000_000);
    let r = commit("again".to_string(), &REPO.to_string(), &t, Some(first.tree.duplicate()), 1_700_000_050, 0);
    assert!(matches!(r, Err(VCSError::NothingToCommit)));
}

#[test]
fn checkout_without_any_commit_is_refused() {
    let t = live(&[("a.txt", "x")]);
    let r = checkout("abc".to_string(), &t, None, Ok(t.duplicate()), &".".to_string());
    assert!(matches!(r, Err(VCSError::UncommittedChanges)));
}

#[test]
fn checkout_passes_on_load_failure() {
    let t = live(&[("a.txt", "x")]);
    let first = make_commit("first", &t, None, 1_700_000_000);
    let r = checkout(
        "missing".to_string(),
        &t,
        Some(first.tree.duplicate()),
        Err(VCSError::SerializationError("bad".to_string())),
        &".".to_string(),
    );
    match r {
        Err(VCSError::SerializationError(m)) => assert_eq!(m, "bad"),
        _ => panic!("load error expected"),
    }
}

#[test]
fn current_diff_without_pointer_is_whole_tree() {
    let t = live(&[("a.txt", "x")]);
    let d = get_current_diff_tree(&t, None).unwrap().unwrap();
    assert_eq!(d.to_string(), "./a.txt");
}

#[test]
fn status_with_no_changes_reports_none() {
    let t = live(&[("a.txt", "x")]);
    let first = make_commit("first", &t, None, 1_700_000_000);
    let report = status(&first.commit.id, &t, Some(first.tree.duplicate())).unwrap();
    assert!(report.changes.is_none());
    assert!(!report.untracked);
}

#[test]
fn ignored_paths_stay_out_of_commits() {
    let entries = vec![
        ScanEntry::File { name: Some("a.txt".to_string()), contents: b"x".to_vec() },
        ScanEntry::Dir {
            name: Some(REPO.to_string()),
            entries: vec![ScanEntry::File { name: Some("index".to_string()), contents: vec![] }],
        },
    ];
    let t = get_tree_structure(".".to_string(), &entries, &settings()).unwrap();
    let plan = make_commit("first", &t, None, 1_700_000_000);
    assert_eq!(plan.copies.len(), 2);
    let stored = plan.tree.paths_with_prefix(None);
    assert_eq!(stored.len(), 1);
    assert_eq!(stored[0].0, format!("{}/data/a.txt", plan.commit_root));
}

#[test]
fn uninitialized_repository_is_reported() {
    assert!(matches!(check_vcs_initialized(false), Err(VCSError::Uninitialized)));
    assert!(check_vcs_initialized(true).is_ok());
}

#[test]
fn second_init_is_refused() {
    match init(true) {
        Err(VCSError::Other(m)) => assert_eq!(m, "VCS already initialized"),
        _ => panic!("refusal expected"),
    }
}

#[test]
fn type_change_surfaces_from_commit() {
    let prev_entries = vec![ScanEntry::File { name: Some("a".to_string()), contents: b"x".to_vec() }];
    let prev = get_tree_structure(".".to_string(), &prev_entries, &settings()).unwrap();
    let cur_entries = vec![ScanEntry::Dir { name: Some("a".to_string()), entries: vec![] }];
    let cur = get_tree_structure(".".to_string(), &cur_entries, &settings()).unwrap();
    let r = commit("m".to_string(), &REPO.to_string(), &cur, Some(prev), 1_700_000_000, 0);
    assert!(matches!(r, Err(VCSError::TypeChanged(_))));
}

#[test]
fn error_messages() {
    assert_eq!(VCSError::Uninitialized.to_string(), "VCS Uninitialized!: run rust-vcs init");
    assert_eq!(VCSError::IOError("disk".to_string()).to_string(), "IO Error: disk");
    assert_eq!(VCSError::SerializationError("eof".to_string()).to_string(), "Serialization Error: eof");
    assert_eq!(VCSError::Other("x".to_string()).to_string(), "x");
    assert_eq!(VCSError::NothingToCommit.to_string(), "No changes to commit");
    assert_eq!(VCSError::UncommittedChanges.to_string(), "Uncommitted changes");
    assert_eq!(
        VCSError::InvalidIdentity.to_string(),
        "Invalid entry name: not representable as text"
    );
    assert_eq!(
        VCSError::TypeChanged("a".to_string()).to_string(),
        "Entry changed between file and directory: a"
    );
}

#[test]
fn checkout_refuses_a_target_that_is_not_a_snapshot() {
    let t = live(&[("a.txt", "x")]);
    let first = make_commit("first", &t, None, 1_700_000_000);
    let sub = VCSTree::Directory(rust_vcs::tree::VCSDirectory { name: "d".to_string(), children: vec![] });
    let r = checkout(first.commit.id.clone(), &t, Some(first.tree.duplicate()), Ok(sub), &".".to_string());
    assert!(matches!(r, Err(VCSError::Other(_))));
}

#[test]
fn same_instant_gives_same_commit_id() {
    let t = live(&[("a.txt", "x")]);
    let a = make_commit("one", &t, None, 1_700_000_000);
    let b = make_commit("two", &t, None, 1_700_000_000);
    assert_eq!(a.commit.id, b.commit.id);
    assert_eq!(a.commit.id, rust_vcs::commit::calculate_hash(1_700_000_000, 0));
}
