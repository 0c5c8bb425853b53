use vstd::prelude::*;
use crate::diff::{
    changed_children, common_diffs, diff, index_of_name, lemma_changed_children, lemma_common_elem,
    lemma_diff_shape, lemma_only_in_elem, only_in,
};
use crate::error::VCSError;
use crate::tree::{
    children_of, digests_sized, is_snapshot, name_of, no_inner_root, nodes_of, stamp, stamp_all, Node, VCSDirectory, VCSFile, VCSKind, VCSTree,
};

verus! {

/// What the engine reads from its configuration: the names to leave out of
/// every scan.
pub struct Settings {
    pub ignore: Vec<String>,
}

impl Settings {
    /// The settings with `control_dir` added to the ignored names, so that a
    /// scan never reads the repository's own control files.
    pub fn with_control_dir(self, control_dir: &String) -> (r: Settings)
        ensures
            r.ignore@.len() == self.ignore@.len() + 1,
            r.ignore@.drop_last() == self.ignore@,
            r.ignore@.last()@ == control_dir@,
            ignored(r.ignore@, control_dir@),
    {
        let mut ignore = self.ignore;
        let dir = control_dir.clone();
        ignore.push(dir);
        assert(ignore@.drop_last() =~= self.ignore@);
        assert(ignore@[ignore@.len() - 1]@ == control_dir@);
        Settings { ignore }
    }
}

/// One entry of a directory listing, as read from the file system: its name
/// (absent when it is not representable as text) and its contents.
pub enum ScanEntry {
    File { name: Option<String>, contents: Vec<u8> },
    Dir { name: Option<String>, entries: Vec<ScanEntry> },
}

/// The SHA-256 digest of `data`.
pub uninterp spec fn sha256_of(data: Seq<u8>) -> Seq<u8>;

/// Relies on `sha2::Sha256::digest`: the 32-byte SHA-256 digest of the bytes.
#[verifier::external_body]
fn sha256(data: &Vec<u8>) -> (r: Vec<u8>)
    ensures
        r@ == sha256_of(data@),
        r@.len() == 32,
{
    <sha2::Sha256 as sha2::Digest>::digest(data.as_slice()).to_vec()
}

/// `nm` is one of the names in `ig`.
pub open spec fn ignored(ig: Seq<String>, nm: Seq<char>) -> bool {
    exists|i: int| 0 <= i < ig.len() && (#[trigger] ig[i])@ == nm
}

/// The node built from one listed entry: `Ok(None)` when its name is
/// ignored, `Err(())` when a name on the way is not text.
pub open spec fn build_entry(e: ScanEntry, ig: Seq<String>) -> Result<Option<Node>, ()>
    decreases e, 1nat,
{
    match e {
        ScanEntry::File { name, contents } => match name {
            None => Err(()),
            Some(n) => if ignored(ig, n@) {
                Ok(None)
            } else {
                Ok(Some(Node::File(n@, sha256_of(contents@), VCSKind::New)))
            },
        },
        ScanEntry::Dir { name, entries } => match name {
            None => Err(()),
            Some(n) => if ignored(ig, n@) {
                Ok(None)
            } else {
                match build_entries(entries@, ig) {
                    Err(()) => Err(()),
                    Ok(ch) => Ok(Some(Node::Dir(n@, ch))),
                }
            },
        },
    }
}

/// The nodes built from a listing, in listing order, leaving out ignored entries.
pub open spec fn build_entries(s: Seq<ScanEntry>, ig: Seq<String>) -> Result<Seq<Node>, ()>
    decreases s, 0nat,
{
    if s.len() == 0 {
        Ok(Seq::empty())
    } else {
        match build_entries(s.drop_last(), ig) {
            Err(()) => Err(()),
            Ok(p) => match build_entry(s.last(), ig) {
                Err(()) => Err(()),
                Ok(None) => Ok(p),
                Ok(Some(n)) => Ok(p.push(n)),
            },
        }
    }
}

/// No entry below `n` has an ignored name.
pub open spec fn free_of(n: Node, ig: Seq<String>) -> bool
    decreases n,
{
    let ch = children_of(n);
    forall|i: int|
        0 <= i < ch.len() ==> !ignored(ig, name_of(#[trigger] ch[i])) && free_of(ch[i], ig)
}

/// Whether `name` is one of the ignored names.
pub fn is_ignored(name: &String, ignore: &Vec<String>) -> (r: bool)
    ensures
        r == ignored(ignore@, name@),
{
    let mut i: usize = 0;
    while i < ignore.len()
        invariant
            i <= ignore.len(),
            forall|k: int| 0 <= k < i ==> (#[trigger] ignore@[k])@ != name@,
        decreases ignore.len() - i,
    {
        if ignore[i].eq(name) {
            return true;
        }
        i = i + 1;
    }
    false
}

proof fn lemma_build_free(s: Seq<ScanEntry>, ig: Seq<String>)
    requires
        build_entries(s, ig) is Ok,
    ensures
        forall|i: int|
            0 <= i < build_entries(s, ig)->Ok_0.len() ==> !ignored(
                ig,
                name_of(#[trigger] build_entries(s, ig)->Ok_0[i]),
            ) && free_of(build_entries(s, ig)->Ok_0[i], ig) && !(build_entries(s, ig)->Ok_0[i] is Root)
                && no_inner_root(build_entries(s, ig)->Ok_0[i]),
    decreases s,
{
    if s.len() > 0 {
        lemma_build_free(s.drop_last(), ig);
        let e = s.last();
        match e {
            ScanEntry::Dir { name, entries } => {
                if build_entry(e, ig) is Ok && build_entry(e, ig)->Ok_0 is Some {
                    let n = build_entry(e, ig)->Ok_0->Some_0;
                    assert(decreases_to!(s => e));
                    lemma_build_free(entries@, ig);
                    assert(children_of(n) == build_entries(entries@, ig)->Ok_0);
                }
            },
            _ => {},
        }
    }
}

/// Builds the snapshot of a directory named `root_name` from its listing,
/// leaving out every entry whose name is in `config.ignore`.
pub fn get_tree_structure(root_name: String, entries: &Vec<ScanEntry>, config: &Settings) -> (r:
    Result<VCSTree, VCSError>)
    ensures
        match build_entries(entries@, config.ignore@) {
            Ok(ch) => r matches Ok(t) && t@ == Node::Root(root_name@, ch),
            Err(()) => r matches Err(VCSError::InvalidIdentity),
        },
        r matches Ok(t) ==> free_of(t@, config.ignore@) && is_snapshot(t@) && digests_sized(t@),
{
    match build_list(entries, &config.ignore) {
        Err(e) => Err(e),
        Ok(children) => {
            proof {
                lemma_build_free(entries@, config.ignore@);
                assert(forall|i: int|
                    0 <= i < children@.len() ==> nodes_of(children@)[i] == children@[i]@);
            }
            Ok(VCSTree::Root(VCSDirectory { name: root_name, children }))
        },
    }
}

fn build_one(e: &ScanEntry, ignore: &Vec<String>) -> (r: Result<Option<VCSTree>, VCSError>)
    ensures
        match build_entry(*e, ignore@) {
            Ok(None) => r matches Ok(None),
            Ok(Some(n)) => r matches Ok(Some(t)) && t@ == n,
            Err(()) => r matches Err(VCSError::InvalidIdentity),
        },
        r matches Ok(Some(t)) ==> digests_sized(t@),
    decreases e, 1nat,
{
    match e {
        ScanEntry::File { name, contents } => match name {
            None => Err(VCSError::InvalidIdentity),
            Some(n) => {
                if is_ignored(n, ignore) {
                    Ok(None)
                } else {
                    let sha = sha256(contents);
                    Ok(Some(VCSTree::File(VCSFile { name: n.clone(), sha }, VCSKind::New)))
                }
            },
        },
        ScanEntry::Dir { name, entries } => match name {
            None => Err(VCSError::InvalidIdentity),
            Some(n) => {
                if is_ignored(n, ignore) {
                    Ok(None)
                } else {
                    match build_list(entries, ignore) {
                        Err(err) => Err(err),
                        Ok(children) => {
                            assert(forall|i: int|
                                0 <= i < children@.len() ==> nodes_of(children@)[i]
                                    == children@[i]@);
                            Ok(Some(VCSTree::Directory(VCSDirectory { name: n.clone(), children })))
                        },
                    }
                }
            },
        },
    }
}

fn build_list(entries: &Vec<ScanEntry>, ignore: &Vec<String>) -> (r: Result<Vec<VCSTree>, VCSError>)
    ensures
        match build_entries(entries@, ignore@) {
            Ok(ch) => r matches Ok(v) && nodes_of(v@) == ch,
            Err(()) => r matches Err(VCSError::InvalidIdentity),
        },
        r matches Ok(v) ==> forall|i: int| 0 <= i < v@.len() ==> digests_sized(#[trigger] v@[i]@),
    decreases entries, 0nat,
{
    let ghost es = entries@;
    let mut out: Vec<VCSTree> = Vec::new();
    let mut i: usize = 0;
    assert(es.subrange(0, 0) =~= Seq::<ScanEntry>::empty());
    assert(nodes_of(out@) =~= Seq::<Node>::empty());
    while i < entries.len()
        invariant
            i <= entries.len(),
            es == entries@,
            build_entries(es.subrange(0, i as int), ignore@) == Ok::<Seq<Node>, ()>(nodes_of(out@)),
            forall|k: int| 0 <= k < out@.len() ==> digests_sized(#[trigger] out@[k]@),
        decreases entries.len() - i,
    {
        let ghost pre = es.subrange(0, i as int);
        assert(es.subrange(0, i + 1).drop_last() =~= pre);
        assert(es.subrange(0, i + 1).last() == es[i as int]);
        assert(decreases_to!(entries => entries@[i as int]));
        match build_one(&entries[i], ignore) {
            Err(err) => {
                proof {
                    lemma_build_error_extends(es, ignore@, i + 1);
                }
                return Err(err);
            },
            Ok(None) => {},
            Ok(Some(t)) => {
                let ghost before = nodes_of(out@);
                out.push(t);
                assert(nodes_of(out@) =~= before.push(t@));
            },
        }
        i = i + 1;
    }
    assert(es.subrange(0, entries.len() as int) =~= es);
    Ok(out)
}

proof fn lemma_build_error_extends(s: Seq<ScanEntry>, ig: Seq<String>, k: int)
    requires
        0 <= k <= s.len(),
        build_entries(s.subrange(0, k), ig) is Err,
    ensures
        build_entries(s, ig) is Err,
    decreases s.len() - k,
{
    if k == s.len() {
        assert(s.subrange(0, k) =~= s);
    } else {
        assert(s.drop_last().subrange(0, k) =~= s.subrange(0, k));
        lemma_build_error_extends(s.drop_last(), ig, k);
    }
}

proof fn lemma_stamp_free(n: Node, k: VCSKind, ig: Seq<String>)
    requires
        free_of(n, ig),
    ensures
        free_of(stamp(n, k), ig),
    decreases n,
{
    let ch = children_of(n);
    let sc = children_of(stamp(n, k));
    assert forall|i: int| 0 <= i < sc.len() implies !ignored(ig, name_of(#[trigger] sc[i])) && free_of(
        sc[i],
        ig,
    ) by {
        assert(sc[i] == stamp(ch[i], k));
        lemma_stamp_free(ch[i], k, ig);
    }
}

/// An ignored name that is absent from both compared trees is absent from
/// their difference too.
pub proof fn lemma_diff_free(a: Node, b: Node, d: Node, ig: Seq<String>)
    requires
        free_of(a, ig),
        free_of(b, ig),
        diff(a, b) == Ok::<Option<Node>, Seq<char>>(Some(d)),
    ensures
        free_of(d, ig),
    decreases a,
{
    lemma_diff_shape(a, b, d);
    if !(a is File) {
        let ac = children_of(a);
        let bc = children_of(b);
        let dc = children_of(d);
        lemma_changed_children(ac, bc);
        let m = common_diffs(ac, bc)->Ok_0;
        let sn = stamp_all(only_in(ac, bc), VCSKind::New);
        let sd = stamp_all(only_in(bc, ac), VCSKind::Deleted);
        assert(dc == m + sn + sd);
        assert forall|x: int| 0 <= x < dc.len() implies !ignored(ig, name_of(#[trigger] dc[x]))
            && free_of(dc[x], ig) by {
            if x < m.len() {
                assert(dc[x] == m[x]);
                let i = lemma_common_elem(ac, bc, m, x);
                let j = index_of_name(bc, name_of(ac[i]));
                lemma_diff_shape(ac[i], bc[j], m[x]);
                assert(decreases_to!(a => ac[i]));
                lemma_diff_free(ac[i], bc[j], m[x], ig);
            } else if x < m.len() + sn.len() {
                let y = x - m.len();
                assert(dc[x] == sn[y]);
                let i = lemma_only_in_elem(ac, bc, y);
                assert(sn[y] == stamp(ac[i], VCSKind::New));
                lemma_stamp_free(ac[i], VCSKind::New, ig);
            } else {
                let y = x - m.len() - sn.len();
                assert(dc[x] == sd[y]);
                let i = lemma_only_in_elem(bc, ac, y);
                assert(sd[y] == stamp(bc[i], VCSKind::Deleted));
                lemma_stamp_free(bc[i], VCSKind::Deleted, ig);
            }
        }
    }
}

proof fn lemma_stamp_shape(n: Node, k: VCSKind)
    requires
        no_inner_root(n),
    ensures
        no_inner_root(stamp(n, k)),
        (stamp(n, k) is Root) == (n is Root),
    decreases n,
{
    let ch = children_of(n);
    let sc = children_of(stamp(n, k));
    assert forall|i: int| 0 <= i < sc.len() implies !(#[trigger] sc[i] is Root) && no_inner_root(
        sc[i],
    ) by {
        assert(sc[i] == stamp(ch[i], k));
        lemma_stamp_shape(ch[i], k);
    }
}

/// Differences keep the shape of snapshots: no root appears below the top.
pub proof fn lemma_diff_shape_kept(a: Node, b: Node, d: Node)
    requires
        no_inner_root(a),
        no_inner_root(b),
        diff(a, b) == Ok::<Option<Node>, Seq<char>>(Some(d)),
    ensures
        no_inner_root(d),
        (d is Root) == (a is Root),
    decreases a,
{
    lemma_diff_shape(a, b, d);
    reveal(diff);
    if !(a is File) {
        let ac = children_of(a);
        let bc = children_of(b);
        let dc = children_of(d);
        lemma_changed_children(ac, bc);
        let m = common_diffs(ac, bc)->Ok_0;
        let sn = stamp_all(only_in(ac, bc), VCSKind::New);
        let sd = stamp_all(only_in(bc, ac), VCSKind::Deleted);
        assert(dc == m + sn + sd);
        assert forall|x: int| 0 <= x < dc.len() implies !(#[trigger] dc[x] is Root) && no_inner_root(
            dc[x],
        ) by {
            if x < m.len() {
                assert(dc[x] == m[x]);
                let i = lemma_common_elem(ac, bc, m, x);
                let j = index_of_name(bc, name_of(ac[i]));
                assert(decreases_to!(a => ac[i]));
                lemma_diff_shape_kept(ac[i], bc[j], m[x]);
            } else if x < m.len() + sn.len() {
                let y = x - m.len();
                assert(dc[x] == sn[y]);
                let i = lemma_only_in_elem(ac, bc, y);
                assert(sn[y] == stamp(ac[i], VCSKind::New));
                lemma_stamp_shape(ac[i], VCSKind::New);
            } else {
                let y = x - m.len() - sn.len();
                assert(dc[x] == sd[y]);
                let i = lemma_only_in_elem(bc, ac, y);
                assert(sd[y] == stamp(bc[i], VCSKind::Deleted));
                lemma_stamp_shape(bc[i], VCSKind::Deleted);
            }
        }
    }
}

} // verus!
