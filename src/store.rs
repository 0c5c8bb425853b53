use vstd::prelude::*;
use crate::tree::{children_of, name_of, nodes_of, Node, VCSDirectory, VCSTree};

verus! {

/// One file system step of copying a snapshot's files.
#[derive(Debug)]
pub enum CopyOp {
    /// Create this directory and its missing parents.
    CreateDir(String),
    /// Copy the file at the first path to the second.
    CopyFile(String, String),
}

/// The model of a `CopyOp`.
pub enum CopyStep {
    CreateDir(Seq<char>),
    CopyFile(Seq<char>, Seq<char>),
}

impl View for CopyOp {
    type V = CopyStep;

    open spec fn view(&self) -> CopyStep {
        match self {
            CopyOp::CreateDir(d) => CopyStep::CreateDir(d@),
            CopyOp::CopyFile(f, t) => CopyStep::CopyFile(f@, t@),
        }
    }
}

pub open spec fn ops_view(v: Seq<CopyOp>) -> Seq<CopyStep> {
    v.map_values(|o: CopyOp| o@)
}

/// `dir/name`.
pub open spec fn join(dir: Seq<char>, name: Seq<char>) -> Seq<char> {
    dir + seq!['/'] + name
}

/// The steps that copy the entry `n`, which stands in `from`, into `to`.
pub open spec fn entry_ops(n: Node, from: Seq<char>, to: Seq<char>) -> Seq<CopyStep>
    decreases n, 1nat,
{
    match n {
        Node::File(nm, _, _) => seq![CopyStep::CopyFile(join(from, nm), join(to, nm))],
        Node::Dir(nm, ch) => seq![CopyStep::CreateDir(join(to, nm))] + entries_ops(
            ch,
            join(from, nm),
            join(to, nm),
        ),
        Node::Root(nm, ch) => seq![CopyStep::CreateDir(join(to, nm))] + entries_ops(
            ch,
            join(from, nm),
            join(to, nm),
        ),
    }
}

/// The steps that copy the entries `s`, which stand in `from`, into `to`, in order.
pub open spec fn entries_ops(s: Seq<Node>, from: Seq<char>, to: Seq<char>) -> Seq<CopyStep>
    decreases s, 0nat,
{
    if s.len() == 0 {
        Seq::empty()
    } else {
        entries_ops(s.drop_last(), from, to) + entry_ops(s.last(), from, to)
    }
}

/// The steps that copy every file of the snapshot `n` from the location it
/// names into `to`, creating directories first.
pub open spec fn copy_plan(n: Node, to: Seq<char>) -> Seq<CopyStep> {
    seq![CopyStep::CreateDir(to)] + entries_ops(children_of(n), name_of(n), to)
}

/// `read` is where the file written at `written`, inside the directory
/// `wbase`, lies once `wbase` has been moved to `rbase`.
pub open spec fn moved_path(
    written: Seq<char>,
    read: Seq<char>,
    wbase: Seq<char>,
    rbase: Seq<char>,
) -> bool {
    &&& wbase.len() <= written.len()
    &&& written.subrange(0, wbase.len() as int) == wbase
    &&& read == rbase + written.subrange(wbase.len() as int, written.len() as int)
}

/// Every file that the steps `r` read is one that the steps `w`, taken in
/// the same order, wrote, once the directory `wbase` has been moved to `rbase`.
pub open spec fn reads_back(
    w: Seq<CopyStep>,
    r: Seq<CopyStep>,
    wbase: Seq<char>,
    rbase: Seq<char>,
) -> bool {
    &&& w.len() == r.len()
    &&& forall|k: int|
        0 <= k < w.len() ==> match (#[trigger] w[k], r[k]) {
            (CopyStep::CreateDir(_), CopyStep::CreateDir(_)) => true,
            (CopyStep::CopyFile(_, written), CopyStep::CopyFile(read, _)) => moved_path(
                written,
                read,
                wbase,
                rbase,
            ),
            _ => false,
        }
}

impl VCSTree {
    fn copy_contents(&self, from: &String, to: &String, out: &mut Vec<CopyOp>)
        ensures
            ops_view(final(out)@) == ops_view(old(out)@) + entry_ops(self@, from@, to@),
        decreases self, 1nat,
    {
        match self {
            VCSTree::File(f, _) => {
                let src = join_path(from, &f.name);
                let dst = join_path(to, &f.name);
                let ghost before = ops_view(out@);
                out.push(CopyOp::CopyFile(src, dst));
                assert(ops_view(out@) =~= before + entry_ops(self@, from@, to@));
            },
            VCSTree::Directory(d) => {
                let src = join_path(from, &d.name);
                let dst = join_path(to, &d.name);
                let ghost before = ops_view(out@);
                out.push(CopyOp::CreateDir(dst.clone()));
                Self::copy_all(&d.children, &src, &dst, out);
                assert(ops_view(out@) =~= before + entry_ops(self@, from@, to@));
            },
            VCSTree::Root(d) => {
                let src = join_path(from, &d.name);
                let dst = join_path(to, &d.name);
                let ghost before = ops_view(out@);
                out.push(CopyOp::CreateDir(dst.clone()));
                Self::copy_all(&d.children, &src, &dst, out);
                assert(ops_view(out@) =~= before + entry_ops(self@, from@, to@));
            },
        }
    }

    fn copy_all(v: &Vec<VCSTree>, from: &String, to: &String, out: &mut Vec<CopyOp>)
        ensures
            ops_view(final(out)@) == ops_view(old(out)@) + entries_ops(nodes_of(v@), from@, to@),
        decreases v, 0nat,
    {
        let ghost ns = nodes_of(v@);
        let ghost start = ops_view(out@);
        let mut i: usize = 0;
        assert(ns.subrange(0, 0) =~= Seq::<Node>::empty());
        assert(start =~= start + entries_ops(ns.subrange(0, 0), from@, to@));
        while i < v.len()
            invariant
                i <= v.len(),
                ns == nodes_of(v@),
                ops_view(out@) == start + entries_ops(ns.subrange(0, i as int), from@, to@),
            decreases v.len() - i,
        {
            assert(decreases_to!(v => v@[i as int]));
            v[i].copy_contents(from, to, out);
            assert(ns.subrange(0, i + 1).drop_last() =~= ns.subrange(0, i as int));
            i = i + 1;
        }
        assert(ns.subrange(0, v.len() as int) =~= ns);
    }

    /// Plans copying every file of this snapshot from the location its root
    /// names into `new_path`, and gives the same snapshot rooted at
    /// `new_path`.
    pub fn copy_to(&self, new_path: String) -> (r: (Vec<CopyOp>, VCSTree))
        requires
            self is Root,
        ensures
            ops_view(r.0@) == copy_plan(self@, new_path@),
            r.1@ == Node::Root(new_path@, children_of(self@)),
    {
        let root_directory = self.get_root_dir();
        let mut ops: Vec<CopyOp> = Vec::new();
        ops.push(CopyOp::CreateDir(new_path.clone()));
        Self::copy_all(&root_directory.children, &root_directory.name, &new_path, &mut ops);
        let contents = self.duplicate();
        let children = match contents {
            VCSTree::Root(d) => d.children,
            VCSTree::File(_, _) => Vec::new(),
            VCSTree::Directory(d) => d.children,
        };
        let new_tree = self.form_tree(new_path, children);
        (ops, new_tree)
    }
}

/// `dir/name` as a path.
pub fn join_path(dir: &String, name: &String) -> (r: String)
    ensures
        r@ == join(dir@, name@),
{
    let mut r = dir.clone();
    r.append("/");
    r.append(name.as_str());
    proof {
        reveal_strlit("/");
    }
    r
}

proof fn lemma_rebase(
    written: Seq<char>,
    read: Seq<char>,
    y: Seq<char>,
    y2: Seq<char>,
    nm: Seq<char>,
)
    requires
        moved_path(written, read, join(y, nm), join(y2, nm)),
    ensures
        moved_path(written, read, y, y2),
{
    let t = seq!['/'] + nm;
    assert(join(y, nm) =~= y + t);
    assert(join(y2, nm) =~= y2 + t);
    let n = (y.len() + t.len()) as int;
    let pre = written.subrange(0, n);
    assert(pre == y + t);
    assert forall|i: int| 0 <= i < y.len() implies written[i] == y[i] by {
        assert(pre[i] == written[i]);
        assert((y + t)[i] == y[i]);
    }
    assert(written.subrange(0, y.len() as int) =~= y);
    let rest = written.subrange(n, written.len() as int);
    assert forall|i: int| 0 <= i < written.len() - y.len() implies #[trigger] written.subrange(
        y.len() as int,
        written.len() as int,
    )[i] == (t + rest)[i] by {
        if i < t.len() {
            assert(pre[y.len() + i] == written[y.len() + i]);
            assert((y + t)[y.len() + i] == t[i]);
        } else {
            assert(rest[i - t.len()] == written[n + i - t.len()]);
        }
    }
    assert(written.subrange(y.len() as int, written.len() as int) =~= t + rest);
    assert(read =~= y2 + written.subrange(y.len() as int, written.len() as int));
}

proof fn lemma_reads_back_rebase(
    w: Seq<CopyStep>,
    r: Seq<CopyStep>,
    y: Seq<char>,
    y2: Seq<char>,
    nm: Seq<char>,
)
    requires
        reads_back(w, r, join(y, nm), join(y2, nm)),
    ensures
        reads_back(w, r, y, y2),
{
    assert forall|k: int| 0 <= k < w.len() implies match (#[trigger] w[k], r[k]) {
        (CopyStep::CreateDir(_), CopyStep::CreateDir(_)) => true,
        (CopyStep::CopyFile(_, written), CopyStep::CopyFile(read, _)) => moved_path(
            written,
            read,
            y,
            y2,
        ),
        _ => false,
    } by {
        if let (CopyStep::CopyFile(_, written), CopyStep::CopyFile(read, _)) = (w[k], r[k]) {
            lemma_rebase(written, read, y, y2, nm);
        }
    }
}

proof fn lemma_entry_reads_back(n: Node, x: Seq<char>, y: Seq<char>, y2: Seq<char>, z: Seq<char>)
    ensures
        reads_back(entry_ops(n, x, y), entry_ops(n, y2, z), y, y2),
    decreases n, 1nat,
{
    let nm = name_of(n);
    match n {
        Node::File(_, _, _) => {
            let written = join(y, nm);
            assert(written.subrange(0, y.len() as int) =~= y);
            assert(join(y2, nm) =~= y2 + written.subrange(y.len() as int, written.len() as int));
        },
        _ => {
            lemma_entries_reads_back(children_of(n), join(x, nm), join(y, nm), join(y2, nm), join(z, nm));
            lemma_reads_back_rebase(
                entries_ops(children_of(n), join(x, nm), join(y, nm)),
                entries_ops(children_of(n), join(y2, nm), join(z, nm)),
                y,
                y2,
                nm,
            );
            lemma_reads_back_concat(
                seq![CopyStep::CreateDir(join(y, nm))],
                entries_ops(children_of(n), join(x, nm), join(y, nm)),
                seq![CopyStep::CreateDir(join(z, nm))],
                entries_ops(children_of(n), join(y2, nm), join(z, nm)),
                y,
                y2,
            );
        },
    }
}

proof fn lemma_entries_reads_back(
    s: Seq<Node>,
    x: Seq<char>,
    y: Seq<char>,
    y2: Seq<char>,
    z: Seq<char>,
)
    ensures
        reads_back(entries_ops(s, x, y), entries_ops(s, y2, z), y, y2),
    decreases s, 0nat,
{
    if s.len() > 0 {
        lemma_entries_reads_back(s.drop_last(), x, y, y2, z);
        lemma_entry_reads_back(s.last(), x, y, y2, z);
        lemma_reads_back_concat(
            entries_ops(s.drop_last(), x, y),
            entry_ops(s.last(), x, y),
            entries_ops(s.drop_last(), y2, z),
            entry_ops(s.last(), y2, z),
            y,
            y2,
        );
    }
}

proof fn lemma_reads_back_concat(
    w1: Seq<CopyStep>,
    w2: Seq<CopyStep>,
    r1: Seq<CopyStep>,
    r2: Seq<CopyStep>,
    y: Seq<char>,
    y2: Seq<char>,
)
    requires
        reads_back(w1, r1, y, y2),
        reads_back(w2, r2, y, y2),
    ensures
        reads_back(w1 + w2, r1 + r2, y, y2),
{
    assert forall|k: int| 0 <= k < (w1 + w2).len() implies match (#[trigger] (w1 + w2)[k], (r1
        + r2)[k]) {
        (CopyStep::CreateDir(_), CopyStep::CreateDir(_)) => true,
        (CopyStep::CopyFile(_, written), CopyStep::CopyFile(read, _)) => moved_path(
            written,
            read,
            y,
            y2,
        ),
        _ => false,
    } by {
        if k < w1.len() {
            assert(w1[k] == (w1 + w2)[k]);
        } else {
            assert(w2[k - w1.len()] == (w1 + w2)[k]);
        }
    }
}

/// Persisting a snapshot and restoring what was persisted round-trip: the
/// stored tree (rooted at `stored_at`, where the data written into `data`
/// ends up) holds the same entries as the snapshot, and restoring it into
/// `dest` reads each file from where persisting wrote it.
pub proof fn lemma_persist_round_trip(t: Node, data: Seq<char>, stored_at: Seq<char>, dest: Seq<char>)
    requires
        t is Root,
    ensures
        ({
            let stored = Node::Root(stored_at, children_of(t));
            &&& children_of(stored) == children_of(t)
            &&& reads_back(copy_plan(t, data), copy_plan(stored, dest), data, stored_at)
        }),
{
    let stored = Node::Root(stored_at, children_of(t));
    lemma_entries_reads_back(children_of(t), name_of(t), data, stored_at, dest);
    lemma_reads_back_concat(
        seq![CopyStep::CreateDir(data)],
        entries_ops(children_of(t), name_of(t), data),
        seq![CopyStep::CreateDir(dest)],
        entries_ops(children_of(stored), name_of(stored), dest),
        data,
        stored_at,
    );
}

} // verus!
