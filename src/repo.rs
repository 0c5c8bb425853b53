use vstd::prelude::*;
use crate::builder::free_of;
use crate::commit::{instant_hash, log_line, lower_hex, utc_time_text, Commit, LAST_SECOND_OF_9999};
use crate::diff::{diff, diff_agrees};
use crate::error::VCSError;
use crate::store::{copy_plan, join, join_path, ops_view, CopyOp};
use crate::tree::{children_of, entry_view, listing, Node, VCSKind, VCSTree};

verus! {

/// The directory that holds everything stored for commit `id`.
pub open spec fn commit_root(repo: Seq<char>, id: Seq<char>) -> Seq<char> {
    join(join(repo, "commits"@), id)
}

/// Where the snapshot record of commit `id` is stored.
pub open spec fn tree_file(repo: Seq<char>, id: Seq<char>) -> Seq<char> {
    join(join(commit_root(repo, id), "meta"@), "tree.json"@)
}

/// Where commit `id` is assembled before it is moved to `commit_root`.
pub open spec fn staging_root(repo: Seq<char>, id: Seq<char>) -> Seq<char> {
    join(join(repo, "staging"@), id)
}

/// Where the copies of the files of commit `id` are stored.
pub open spec fn data_dir(repo: Seq<char>, id: Seq<char>) -> Seq<char> {
    join(commit_root(repo, id), "data"@)
}

pub open spec fn opt_view(o: Option<VCSTree>) -> Option<Node> {
    match o {
        Some(t) => Some(t@),
        None => None,
    }
}

/// The pending changes of the working tree `live` against the snapshot of
/// the current pointer; with no current snapshot, all of `live` is pending.
pub open spec fn current_diff(live: Node, previous: Option<Node>) -> Result<Option<Node>, Seq<char>> {
    match previous {
        None => Ok(Some(live)),
        Some(p) => diff(live, p),
    }
}

/// The repository's control files are present (`index_exists`), or the
/// operation fails with `Uninitialized`.
pub fn check_vcs_initialized(index_exists: bool) -> (r: Result<(), VCSError>)
    ensures
        index_exists ==> r is Ok,
        !index_exists ==> r matches Err(VCSError::Uninitialized),
{
    if index_exists {
        Ok(())
    } else {
        Err(VCSError::Uninitialized)
    }
}

/// A repository is created only where none exists yet.
pub fn init(index_exists: bool) -> (r: Result<(), VCSError>)
    ensures
        !index_exists ==> r is Ok,
        index_exists ==> (r matches Err(VCSError::Other(m)) && m@ == "VCS already initialized"@),
{
    if index_exists {
        Err(VCSError::Other(String::from_str("VCS already initialized")))
    } else {
        Ok(())
    }
}

/// Where the snapshot record of commit `id` is stored in the control directory `repo`.
pub fn tree_file_path(repo: &String, id: &String) -> (r: String)
    ensures
        r@ == tree_file(repo@, id@),
{
    let root = commit_root_path(repo, id);
    let meta = join_path(&root, &String::from_str("meta"));
    join_path(&meta, &String::from_str("tree.json"))
}

fn commit_root_path(repo: &String, id: &String) -> (r: String)
    ensures
        r@ == commit_root(repo@, id@),
{
    let commits = join_path(repo, &String::from_str("commits"));
    join_path(&commits, id)
}

/// The pending changes of the working tree `live` against `previous`, the
/// snapshot of the current pointer (absent when there is none).
pub fn get_current_diff_tree(live: &VCSTree, previous: Option<VCSTree>) -> (r: Result<
    Option<VCSTree>,
    VCSError,
>)
    ensures
        diff_agrees(r, current_diff(live@, opt_view(previous))),
{
    match previous {
        None => Ok(Some(live.duplicate())),
        Some(p) => live.diff_tree(p),
    }
}

/// What making a commit writes. The directories, the file copies and the
/// snapshot record are written under `staging_root`, which is then renamed
/// to `commit_root` in one step; the snapshot to store already names its
/// final data directory. Then the log gains `log_line` and the current
/// pointer holds `commit.id`.
pub struct CommitPlan {
    pub commit: Commit,
    pub staging_root: String,
    pub commit_root: String,
    pub meta_dir: String,
    pub data_dir: String,
    pub tree_file: String,
    pub copies: Vec<CopyOp>,
    pub tree: VCSTree,
    pub log_line: String,
}

/// `p` is the plan for committing the snapshot `live` with `message` at the
/// given instant, in the control directory `repo`.
pub open spec fn commit_plan_of(
    p: CommitPlan,
    message: Seq<char>,
    repo: Seq<char>,
    live: Node,
    secs: int,
    nanos: int,
) -> bool {
    let id = p.commit.id@;
    &&& id == lower_hex(instant_hash(secs, nanos) as nat)
    &&& p.commit.message@ == message
    &&& p.commit.time@ == utc_time_text(secs, nanos, "%Y/%m/%d %T"@)
    &&& p.staging_root@ == staging_root(repo, id)
    &&& p.commit_root@ == commit_root(repo, id)
    &&& p.meta_dir@ == join(staging_root(repo, id), "meta"@)
    &&& p.data_dir@ == join(staging_root(repo, id), "data"@)
    &&& p.tree_file@ == join(join(staging_root(repo, id), "meta"@), "tree.json"@)
    &&& ops_view(p.copies@) == copy_plan(live, join(staging_root(repo, id), "data"@))
    &&& p.tree@ == Node::Root(data_dir(repo, id), children_of(live))
    &&& p.log_line@ == log_line(id, p.commit.time@, message)
}

/// Plans a commit of the working tree `live` with `message`, made at the
/// given instant, in the control directory `repo`; `previous` is the
/// snapshot of the current pointer. Fails with `NothingToCommit` when
/// nothing is pending.
pub fn commit(
    message: String,
    repo: &String,
    live: &VCSTree,
    previous: Option<VCSTree>,
    secs: i64,
    nanos: u32,
) -> (r: Result<CommitPlan, VCSError>)
    ensures
        current_diff(live@, opt_view(previous)) == Ok::<Option<Node>, Seq<char>>(None) ==> r matches Err(
            VCSError::NothingToCommit,
        ),
        current_diff(live@, opt_view(previous)) matches Err(nm) ==> (r matches Err(
            VCSError::TypeChanged(s),
        ) && s@ == nm),
        current_diff(live@, opt_view(previous)) matches Ok(Some(_)) && !(live is Root) ==> r matches Err(
            VCSError::Other(_),
        ),
        current_diff(live@, opt_view(previous)) matches Ok(Some(_)) && live is Root && 0 <= secs
            <= LAST_SECOND_OF_9999 && nanos < 1_000_000_000 ==> r is Ok,
        current_diff(live@, opt_view(previous)) matches Ok(Some(_)) ==> (r is Err ==> r->Err_0 is Other),
        r matches Ok(p) ==> commit_plan_of(p, message@, repo@, live@, secs as int, nanos as int),
{
    match get_current_diff_tree(live, previous) {
        Err(e) => {
            return Err(e);
        },
        Ok(None) => {
            return Err(VCSError::NothingToCommit);
        },
        Ok(Some(_)) => {},
    }
    if !matches!(live, VCSTree::Root(_)) {
        return Err(VCSError::Other(String::from_str("Unable to parse root directory")));
    }
    let ghost msg = message@;
    let commit = Commit::new(message, secs, nanos)?;
    let commit_root = commit_root_path(repo, &commit.id);
    let staging = join_path(repo, &String::from_str("staging"));
    let staging_root = join_path(&staging, &commit.id);
    let meta_dir = join_path(&staging_root, &String::from_str("meta"));
    let data_dir = join_path(&staging_root, &String::from_str("data"));
    let tree_file = join_path(&meta_dir, &String::from_str("tree.json"));
    let final_data = join_path(&commit_root, &String::from_str("data"));
    let (copies, _) = live.copy_to(data_dir.clone());
    let (_, tree) = live.copy_to(final_data);
    let log_line = commit.to_log_line();
    Ok(
        CommitPlan {
            commit,
            staging_root,
            commit_root,
            meta_dir,
            data_dir,
            tree_file,
            copies,
            tree,
            log_line,
        },
    )
}

/// What checking out writes: the file copies into the working tree, and the
/// new content of the current pointer.
pub struct CheckoutPlan {
    pub copies: Vec<CopyOp>,
    pub pointer: String,
}

/// Plans checking out commit `id`, whose stored snapshot was loaded as
/// `target`, into `dest`; `live` is the working tree and `previous` the
/// snapshot of the current pointer. Fails with `UncommittedChanges` when
/// anything is pending.
pub fn checkout(
    id: String,
    live: &VCSTree,
    previous: Option<VCSTree>,
    target: Result<VCSTree, VCSError>,
    dest: &String,
) -> (r: Result<CheckoutPlan, VCSError>)
    ensures
        current_diff(live@, opt_view(previous)) matches Ok(Some(_)) ==> r matches Err(
            VCSError::UncommittedChanges,
        ),
        current_diff(live@, opt_view(previous)) matches Err(nm) ==> (r matches Err(
            VCSError::TypeChanged(s),
        ) && s@ == nm),
        current_diff(live@, opt_view(previous)) == Ok::<Option<Node>, Seq<char>>(None) ==> match target {
            Err(e) => r == Err::<CheckoutPlan, VCSError>(e),
            Ok(t) => (t is Root ==> (r matches Ok(p) && ops_view(p.copies@) == copy_plan(t@, dest@)
                && p.pointer@ == id@)) && (!(t is Root) ==> r matches Err(VCSError::Other(_))),
        },
{
    match get_current_diff_tree(live, previous) {
        Err(e) => {
            return Err(e);
        },
        Ok(Some(_)) => {
            return Err(VCSError::UncommittedChanges);
        },
        Ok(None) => {},
    }
    let tree = target?;
    if !matches!(tree, VCSTree::Root(_)) {
        return Err(VCSError::Other(String::from_str("Unable to parse root directory")));
    }
    let (copies, _) = tree.copy_to(dest.clone());
    Ok(CheckoutPlan { copies, pointer: id })
}

/// What `status` reports: whether no commit exists yet, and the changed
/// paths with their kinds (absent when nothing changed).
pub struct StatusReport {
    pub untracked: bool,
    pub changes: Option<Vec<(String, VCSKind)>>,
}

/// The status of the working tree `live` against `previous`, the snapshot
/// of the current pointer `pointer` (empty when no commit exists yet).
pub fn status(pointer: &String, live: &VCSTree, previous: Option<VCSTree>) -> (r: Result<
    StatusReport,
    VCSError,
>)
    ensures
        match current_diff(live@, opt_view(previous)) {
            Err(nm) => r matches Err(VCSError::TypeChanged(s)) && s@ == nm,
            Ok(d) => r matches Ok(rep) && rep.untracked == (pointer@.len() == 0) && (match d {
                None => rep.changes is None,
                Some(n) => rep.changes matches Some(v) && v@.map_values(
                    |e: (String, VCSKind)| entry_view(e),
                ) == listing(n, Seq::empty()),
            }),
        },
{
    let d = get_current_diff_tree(live, previous)?;
    let changes = match d {
        None => None,
        Some(t) => Some(t.paths_with_prefix(None)),
    };
    Ok(StatusReport { untracked: pointer.as_str().is_empty(), changes })
}

/// A commit of a working tree built without ignored names stores none: the
/// stored snapshot holds exactly the working tree's entries.
pub proof fn lemma_commit_free(live: Node, data: Seq<char>, ig: Seq<String>)
    requires
        free_of(live, ig),
    ensures
        free_of(Node::Root(data, children_of(live)), ig),
{
}

} // verus!
