use vstd::prelude::*;

verus! {

/// How a file relates to the snapshot it was compared against. A freshly
/// built tree tags every file `New`.
#[derive(Clone, Copy, Debug, PartialEq, Eq, Structural)]
pub enum VCSKind {
    New,
    Deleted,
    Modified,
}

/// A file entry: its name within its parent and the digest of its contents.
#[derive(Debug)]
pub struct VCSFile {
    pub name: String,
    pub sha: Vec<u8>,
}

/// A directory entry: its name within its parent and its entries in scan order.
#[derive(Debug)]
pub struct VCSDirectory {
    pub name: String,
    pub children: Vec<VCSTree>,
}

/// A snapshot tree. `Root` marks the top of a complete snapshot; below it
/// stand `Directory` and `File` entries.
#[derive(Debug)]
pub enum VCSTree {
    Root(VCSDirectory),
    File(VCSFile, VCSKind),
    Directory(VCSDirectory),
}

/// The mathematical model of a `VCSTree`.
pub enum Node {
    Root(Seq<char>, Seq<Node>),
    Dir(Seq<char>, Seq<Node>),
    File(Seq<char>, Seq<u8>, VCSKind),
}

pub open spec fn node_of(t: VCSTree) -> Node
    decreases t,
{
    match t {
        VCSTree::Root(d) => Node::Root(d.name@, nodes_of(d.children@)),
        VCSTree::Directory(d) => Node::Dir(d.name@, nodes_of(d.children@)),
        VCSTree::File(f, k) => Node::File(f.name@, f.sha@, k),
    }
}

pub open spec fn nodes_of(s: Seq<VCSTree>) -> Seq<Node>
    decreases s,
{
    Seq::new(
        s.len(),
        |i: int|
            if 0 <= i < s.len() {
                node_of(s[i])
            } else {
                Node::File(Seq::empty(), Seq::empty(), VCSKind::New)
            },
    )
}

impl View for VCSTree {
    type V = Node;

    open spec fn view(&self) -> Node {
        node_of(*self)
    }
}

/// The name of a node within its parent (for a root, the location it stands for).
pub open spec fn name_of(n: Node) -> Seq<char> {
    match n {
        Node::Root(nm, _) => nm,
        Node::Dir(nm, _) => nm,
        Node::File(nm, _, _) => nm,
    }
}

/// The entries of a directory or root; a file has none.
pub open spec fn children_of(n: Node) -> Seq<Node> {
    match n {
        Node::Root(_, ch) => ch,
        Node::Dir(_, ch) => ch,
        Node::File(_, _, _) => Seq::empty(),
    }
}

/// The same tree with every contained file tagged `k`.
pub open spec fn stamp(n: Node, k: VCSKind) -> Node
    decreases n,
{
    match n {
        Node::Root(nm, ch) => Node::Root(nm, stamp_all(ch, k)),
        Node::Dir(nm, ch) => Node::Dir(nm, stamp_all(ch, k)),
        Node::File(nm, h, _) => Node::File(nm, h, k),
    }
}

pub open spec fn stamp_all(s: Seq<Node>, k: VCSKind) -> Seq<Node>
    decreases s,
{
    Seq::new(
        s.len(),
        |i: int|
            if 0 <= i < s.len() {
                stamp(s[i], k)
            } else {
                Node::File(Seq::empty(), Seq::empty(), k)
            },
    )
}

/// Whether some entry of `s` is named `nm`.
pub open spec fn has_name(s: Seq<Node>, nm: Seq<char>) -> bool {
    exists|j: int| 0 <= j < s.len() && name_of(#[trigger] s[j]) == nm
}

/// Every file digest in `n` is 32 bytes long.
pub open spec fn digests_sized(n: Node) -> bool
    decreases n,
{
    match n {
        Node::File(_, h, _) => h.len() == 32,
        Node::Root(_, ch) => forall|i: int| 0 <= i < ch.len() ==> digests_sized(#[trigger] ch[i]),
        Node::Dir(_, ch) => forall|i: int| 0 <= i < ch.len() ==> digests_sized(#[trigger] ch[i]),
    }
}

/// No entry below `n` is a `Root`.
pub open spec fn no_inner_root(n: Node) -> bool
    decreases n,
{
    let ch = children_of(n);
    forall|i: int| 0 <= i < ch.len() ==> !(#[trigger] ch[i] is Root) && no_inner_root(ch[i])
}

/// `n` is a complete snapshot: a root, with no other root below it.
pub open spec fn is_snapshot(n: Node) -> bool {
    n is Root && no_inner_root(n)
}

/// No two entries of any directory in the tree share a name, as on a real file system.
pub open spec fn distinct_names(n: Node) -> bool
    decreases n,
{
    let ch = children_of(n);
    &&& forall|i: int, j: int|
        0 <= i < ch.len() && 0 <= j < ch.len() && i != j ==> name_of(#[trigger] ch[i]) != name_of(
            #[trigger] ch[j],
        )
    &&& forall|i: int| 0 <= i < ch.len() ==> distinct_names(#[trigger] ch[i])
}

/// `p` names a path of entries below `n` (the empty path is `n` itself).
pub open spec fn has_entry(n: Node, p: Seq<Seq<char>>) -> bool
    decreases n,
{
    if p.len() == 0 {
        true
    } else {
        let ch = children_of(n);
        exists|i: int|
            0 <= i < ch.len() && name_of(#[trigger] ch[i]) == p[0] && has_entry(ch[i], p.drop_first())
    }
}

/// There is a file tagged `k` at the path `p` below `n`.
pub open spec fn has_file(n: Node, p: Seq<Seq<char>>, k: VCSKind) -> bool
    decreases n,
{
    match n {
        Node::File(_, _, kk) => p.len() == 0 && kk == k,
        _ => {
            let ch = children_of(n);
            p.len() > 0 && exists|i: int|
                0 <= i < ch.len() && name_of(#[trigger] ch[i]) == p[0] && has_file(
                    ch[i],
                    p.drop_first(),
                    k,
                )
        },
    }
}

/// There is a file with digest `h` tagged `k` at the path `p` below `n`.
pub open spec fn tagged_file(n: Node, p: Seq<Seq<char>>, h: Seq<u8>, k: VCSKind) -> bool
    decreases n,
{
    match n {
        Node::File(_, hh, kk) => p.len() == 0 && hh == h && kk == k,
        _ => {
            let ch = children_of(n);
            p.len() > 0 && exists|i: int|
                0 <= i < ch.len() && name_of(#[trigger] ch[i]) == p[0] && tagged_file(
                    ch[i],
                    p.drop_first(),
                    h,
                    k,
                )
        },
    }
}

/// There is a file with digest `h` at the path `p` below `n`, whatever its tag.
#[verifier::opaque]
pub open spec fn file_at(n: Node, p: Seq<Seq<char>>, h: Seq<u8>) -> bool {
    ||| tagged_file(n, p, h, VCSKind::New)
    ||| tagged_file(n, p, h, VCSKind::Deleted)
    ||| tagged_file(n, p, h, VCSKind::Modified)
}

/// The depth-first listing of the files below `n`, each path written as
/// `prefix` followed by the `/`-joined names of its ancestors and its own name.
pub open spec fn listing(n: Node, prefix: Seq<char>) -> Seq<(Seq<char>, VCSKind)>
    decreases n, 1nat,
{
    match n {
        Node::File(nm, _, k) => seq![(prefix + nm, k)],
        Node::Root(nm, ch) => listing_all(ch, prefix + nm + seq!['/']),
        Node::Dir(nm, ch) => listing_all(ch, prefix + nm + seq!['/']),
    }
}

pub open spec fn listing_all(s: Seq<Node>, prefix: Seq<char>) -> Seq<(Seq<char>, VCSKind)>
    decreases s, 0nat,
{
    if s.len() == 0 {
        Seq::empty()
    } else {
        listing_all(s.drop_last(), prefix) + listing(s.last(), prefix)
    }
}

/// The text of a listing: one path per line, or `None` when there is nothing to list.
pub open spec fn listing_text(l: Seq<(Seq<char>, VCSKind)>) -> Seq<char> {
    if l.len() == 0 {
        seq!['N', 'o', 'n', 'e']
    } else {
        joined_lines(l)
    }
}

pub open spec fn joined_lines(l: Seq<(Seq<char>, VCSKind)>) -> Seq<char>
    decreases l.len(),
{
    if l.len() <= 1 {
        if l.len() == 1 { l[0].0 } else { Seq::empty() }
    } else {
        joined_lines(l.drop_last()) + seq!['\n'] + l.last().0
    }
}

pub open spec fn entry_view(e: (String, VCSKind)) -> (Seq<char>, VCSKind) {
    (e.0@, e.1)
}

fn copy_bytes(b: &Vec<u8>) -> (r: Vec<u8>)
    ensures
        r@ == b@,
{
    let mut r: Vec<u8> = Vec::new();
    let mut i: usize = 0;
    while i < b.len()
        invariant
            i <= b.len(),
            r@ == b@.subrange(0, i as int),
        decreases b.len() - i,
    {
        r.push(b[i]);
        i = i + 1;
    }
    r
}

/// Two byte strings hold the same bytes.
pub fn same_bytes(a: &Vec<u8>, b: &Vec<u8>) -> (r: bool)
    ensures
        r == (a@ == b@),
{
    if a.len() != b.len() {
        return false;
    }
    let mut i: usize = 0;
    while i < a.len()
        invariant
            i <= a.len(),
            a.len() == b.len(),
            forall|j: int| 0 <= j < i ==> a@[j] == b@[j],
        decreases a.len() - i,
    {
        if a[i] != b[i] {
            return false;
        }
        i = i + 1;
    }
    assert(a@ =~= b@);
    true
}

impl VCSFile {
    /// A copy that Verus knows to be equal.
    pub fn duplicate(&self) -> (r: VCSFile)
        ensures
            r.name@ == self.name@,
            r.sha@ == self.sha@,
    {
        VCSFile { name: self.name.clone(), sha: copy_bytes(&self.sha) }
    }
}

impl PartialEq for VCSFile {
    /// Files are the same entity when their names match.
    fn eq(&self, other: &VCSFile) -> (r: bool) {
        self.name == other.name
    }
}

impl vstd::std_specs::cmp::PartialEqSpecImpl for VCSFile {
    open spec fn obeys_eq_spec() -> bool {
        true
    }

    open spec fn eq_spec(&self, other: &VCSFile) -> bool {
        self.name@ == other.name@
    }
}

impl PartialEq for VCSDirectory {
    /// Directories are the same entity when their names match.
    fn eq(&self, other: &VCSDirectory) -> (r: bool) {
        self.name == other.name
    }
}

impl vstd::std_specs::cmp::PartialEqSpecImpl for VCSDirectory {
    open spec fn obeys_eq_spec() -> bool {
        true
    }

    open spec fn eq_spec(&self, other: &VCSDirectory) -> bool {
        self.name@ == other.name@
    }
}

impl VCSTree {
    /// The name of this node.
    pub fn name(&self) -> (r: &String)
        ensures
            r@ == name_of(self@),
    {
        match self {
            VCSTree::Root(d) => &d.name,
            VCSTree::Directory(d) => &d.name,
            VCSTree::File(f, _) => &f.name,
        }
    }

    /// A copy that Verus knows to be equal.
    pub fn duplicate(&self) -> (r: VCSTree)
        ensures
            r@ == self@,
        decreases self,
    {
        match self {
            VCSTree::File(f, k) => VCSTree::File(f.duplicate(), *k),
            VCSTree::Root(d) => VCSTree::Root(
                VCSDirectory { name: d.name.clone(), children: Self::duplicate_all(&d.children) },
            ),
            VCSTree::Directory(d) => VCSTree::Directory(
                VCSDirectory { name: d.name.clone(), children: Self::duplicate_all(&d.children) },
            ),
        }
    }

    fn duplicate_all(v: &Vec<VCSTree>) -> (r: Vec<VCSTree>)
        ensures
            nodes_of(r@) == nodes_of(v@),
        decreases v,
    {
        let mut r: Vec<VCSTree> = Vec::new();
        let mut i: usize = 0;
        while i < v.len()
            invariant
                i <= v.len(),
                r@.len() == i,
                forall|j: int| 0 <= j < i ==> (#[trigger] r@[j])@ == v@[j]@,
            decreases v.len() - i,
        {
            assert(decreases_to!(v => v@[i as int]));
            r.push(v[i].duplicate());
            i = i + 1;
        }
        assert(nodes_of(r@) =~= nodes_of(v@));
        r
    }
}


impl VCSTree {
    /// The same tree with every contained file tagged `kind`; used to mark
    /// whole subtrees as new or deleted.
    pub fn set_file_kind(&self, kind: VCSKind) -> (r: VCSTree)
        ensures
            r@ == stamp(self@, kind),
        decreases self,
    {
        match self {
            VCSTree::File(f, _) => VCSTree::File(f.duplicate(), kind),
            VCSTree::Directory(d) => VCSTree::Directory(
                VCSDirectory { name: d.name.clone(), children: Self::set_kind_all(&d.children, kind) },
            ),
            VCSTree::Root(d) => VCSTree::Root(
                VCSDirectory { name: d.name.clone(), children: Self::set_kind_all(&d.children, kind) },
            ),
        }
    }

    fn set_kind_all(v: &Vec<VCSTree>, kind: VCSKind) -> (r: Vec<VCSTree>)
        ensures
            nodes_of(r@) == stamp_all(nodes_of(v@), kind),
        decreases v,
    {
        let mut r: Vec<VCSTree> = Vec::new();
        let mut i: usize = 0;
        while i < v.len()
            invariant
                i <= v.len(),
                r@.len() == i,
                forall|j: int| 0 <= j < i ==> (#[trigger] r@[j])@ == stamp(v@[j]@, kind),
            decreases v.len() - i,
        {
            assert(decreases_to!(v => v@[i as int]));
            r.push(v[i].set_file_kind(kind));
            i = i + 1;
        }
        assert(nodes_of(r@) =~= stamp_all(nodes_of(v@), kind));
        r
    }

    /// A complete snapshot named `path` holding `contents`.
    pub fn form_tree(&self, path: String, contents: Vec<VCSTree>) -> (r: VCSTree)
        ensures
            r@ == Node::Root(path@, nodes_of(contents@)),
    {
        VCSTree::Root(VCSDirectory { name: path, children: contents })
    }

    /// The directory of a complete snapshot.
    pub fn get_root_dir(&self) -> (r: &VCSDirectory)
        requires
            self is Root,
        ensures
            VCSTree::Root(*r) == *self,
    {
        match self {
            VCSTree::Root(d) => d,
            VCSTree::File(_, _) => {
                proof {
                    assert(false);
                }
                unreached()
            },
            VCSTree::Directory(_) => {
                proof {
                    assert(false);
                }
                unreached()
            },
        }
    }

    /// The depth-first listing of every file with its kind; each path is
    /// `path` (empty when absent) followed by the `/`-joined names from this
    /// node down.
    pub fn paths_with_prefix(&self, path: Option<String>) -> (r: Vec<(String, VCSKind)>)
        ensures
            r@.map_values(|e: (String, VCSKind)| entry_view(e)) == listing(
                self@,
                match path {
                    Some(p) => p@,
                    None => Seq::<char>::empty(),
                },
            ),
    {
        let root = match path {
            Some(p) => p,
            None => String::new(),
        };
        let mut out: Vec<(String, VCSKind)> = Vec::new();
        self.collect_paths(&root, &mut out);
        assert(out@.map_values(|e: (String, VCSKind)| entry_view(e)) =~= Seq::<
            (Seq<char>, VCSKind),
        >::empty() + listing(self@, root@));
        out
    }

    fn collect_paths(&self, prefix: &String, out: &mut Vec<(String, VCSKind)>)
        ensures
            final(out)@.map_values(|e: (String, VCSKind)| entry_view(e)) == old(out)@.map_values(
                |e: (String, VCSKind)| entry_view(e),
            ) + listing(self@, prefix@),
        decreases self,
    {
        match self {
            VCSTree::File(f, k) => {
                let mut p = prefix.clone();
                p.append(f.name.as_str());
                let ghost before = out@;
                out.push((p, *k));
                assert(out@.map_values(|e: (String, VCSKind)| entry_view(e)) =~= before.map_values(
                    |e: (String, VCSKind)| entry_view(e),
                ) + listing(self@, prefix@));
            },
            VCSTree::Root(d) => {
                Self::collect_paths_all(&d.children, &d.name, prefix, out);
            },
            VCSTree::Directory(d) => {
                Self::collect_paths_all(&d.children, &d.name, prefix, out);
            },
        }
    }

    fn collect_paths_all(
        v: &Vec<VCSTree>,
        name: &String,
        prefix: &String,
        out: &mut Vec<(String, VCSKind)>,
    )
        ensures
            final(out)@.map_values(|e: (String, VCSKind)| entry_view(e)) == old(out)@.map_values(
                |e: (String, VCSKind)| entry_view(e),
            ) + listing_all(nodes_of(v@), prefix@ + name@ + seq!['/']),
        decreases v,
    {
        let mut p = prefix.clone();
        p.append(name.as_str());
        p.append("/");
        proof {
            reveal_strlit("/");
        }
        let ghost start = old(out)@.map_values(|e: (String, VCSKind)| entry_view(e));
        let ghost ns = nodes_of(v@);
        let mut i: usize = 0;
        assert(ns.subrange(0, 0) =~= Seq::<Node>::empty());
        assert(start =~= start + listing_all(ns.subrange(0, 0), p@));
        while i < v.len()
            invariant
                i <= v.len(),
                ns == nodes_of(v@),
                p@ == prefix@ + name@ + seq!['/'],
                out@.map_values(|e: (String, VCSKind)| entry_view(e)) == start + listing_all(
                    ns.subrange(0, i as int),
                    p@,
                ),
            decreases v.len() - i,
        {
            assert(decreases_to!(v => v@[i as int]));
            v[i].collect_paths(&p, out);
            assert(ns.subrange(0, i + 1).drop_last() =~= ns.subrange(0, i as int));
            i = i + 1;
        }
        assert(ns.subrange(0, v.len() as int) =~= ns);
    }

    /// The listing as text: one path per line, or `None` when it is empty.
    pub fn to_string(&self) -> (r: String)
        ensures
            r@ == listing_text(listing(self@, Seq::empty())),
    {
        let paths = self.paths_with_prefix(None);
        let ghost l = paths@.map_values(|e: (String, VCSKind)| entry_view(e));
        if paths.len() == 0 {
            let r = String::from_str("None");
            proof {
                reveal_strlit("None");
            }
            assert(r@ =~= seq!['N', 'o', 'n', 'e']);
            return r;
        }
        let mut r = paths[0].0.clone();
        assert(l.subrange(0, 1) =~= seq![l[0]]);
        let mut i: usize = 1;
        while i < paths.len()
            invariant
                1 <= i <= paths.len(),
                l == paths@.map_values(|e: (String, VCSKind)| entry_view(e)),
                r@ == joined_lines(l.subrange(0, i as int)),
            decreases paths.len() - i,
        {
            r.append("\n");
            r.append(paths[i].0.as_str());
            proof {
                reveal_strlit("\n");
                assert(l.subrange(0, i + 1).drop_last() =~= l.subrange(0, i as int));
            }
            i = i + 1;
        }
        assert(l.subrange(0, paths.len() as int) =~= l);
        r
    }
}

} // verus!
