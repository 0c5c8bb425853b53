use vstd::prelude::*;
use crate::error::VCSError;
use crate::tree::{
    children_of, distinct_names, file_at, tagged_file, has_entry, has_file, has_name, name_of, nodes_of, same_bytes, stamp, stamp_all, Node, VCSDirectory, VCSKind, VCSTree,
};

verus! {

/// The position of the first entry of `s` named `nm`, or -1 when there is none.
pub open spec fn index_of_name(s: Seq<Node>, nm: Seq<char>) -> int {
    if has_name(s, nm) {
        choose|j: int|
            0 <= j < s.len() && name_of(s[j]) == nm && forall|k: int|
                0 <= k < j ==> name_of(#[trigger] s[k]) != nm
    } else {
        -1
    }
}

/// The entries of `a` whose names do not occur in `b`, in the order of `a`.
pub open spec fn only_in(a: Seq<Node>, b: Seq<Node>) -> Seq<Node>
    decreases a.len(),
{
    if a.len() == 0 {
        Seq::empty()
    } else if has_name(b, name_of(a.last())) {
        only_in(a.drop_last(), b)
    } else {
        only_in(a.drop_last(), b).push(a.last())
    }
}

/// The structural difference between `cur` and `prev`: `Ok(None)` when they
/// do not differ, `Ok(Some(d))` with `d` holding only what changed, and
/// `Err(name)` when an entry is a file on one side and a directory on the
/// other (or a root is compared with a subtree).
#[verifier::opaque]
pub open spec fn diff(cur: Node, prev: Node) -> Result<Option<Node>, Seq<char>>
    decreases cur, 2nat,
{
    match (cur, prev) {
        (Node::File(nm, h, _), Node::File(_, h2, _)) => {
            if h == h2 {
                Ok(None)
            } else {
                Ok(Some(Node::File(nm, h, VCSKind::Modified)))
            }
        },
        (Node::Dir(nm, a), Node::Dir(_, b)) => match changed_children(a, b) {
            Ok(ch) => if ch.len() == 0 {
                Ok(None)
            } else {
                Ok(Some(Node::Dir(nm, ch)))
            },
            Err(e) => Err(e),
        },
        (Node::Root(nm, a), Node::Root(_, b)) => match changed_children(a, b) {
            Ok(ch) => if ch.len() == 0 {
                Ok(None)
            } else {
                Ok(Some(Node::Root(nm, ch)))
            },
            Err(e) => Err(e),
        },
        _ => Err(name_of(cur)),
    }
}

/// The changed entries of a directory: the differences of the entries present
/// on both sides (paired by name), then the entries only in `a` tagged `New`,
/// then those only in `b` tagged `Deleted`.
pub open spec fn changed_children(a: Seq<Node>, b: Seq<Node>) -> Result<Seq<Node>, Seq<char>>
    decreases a, 1nat,
{
    match common_diffs(a, b) {
        Ok(m) => Ok(
            m + stamp_all(only_in(a, b), VCSKind::New) + stamp_all(
                only_in(b, a),
                VCSKind::Deleted,
            ),
        ),
        Err(e) => Err(e),
    }
}

/// The differences of the entries of `a` that have a namesake in `b`, each
/// compared with the first such namesake, in the order of `a`.
#[verifier::opaque]
pub open spec fn common_diffs(a: Seq<Node>, b: Seq<Node>) -> Result<Seq<Node>, Seq<char>>
    decreases a, 0nat,
{
    if a.len() == 0 {
        Ok(Seq::empty())
    } else {
        match common_diffs(a.drop_last(), b) {
            Err(e) => Err(e),
            Ok(p) => {
                let j = index_of_name(b, name_of(a.last()));
                if 0 <= j < b.len() {
                    match diff(a.last(), b[j]) {
                        Err(e) => Err(e),
                        Ok(None) => Ok(p),
                        Ok(Some(d)) => Ok(p.push(d)),
                    }
                } else {
                    Ok(p)
                }
            },
        }
    }
}

/// `r` is the executable outcome that the model outcome `d` describes.
pub open spec fn diff_agrees(r: Result<Option<VCSTree>, VCSError>, d: Result<Option<Node>, Seq<char>>) -> bool {
    match d {
        Ok(None) => r matches Ok(None),
        Ok(Some(n)) => r matches Ok(Some(t)) && t@ == n,
        Err(nm) => r matches Err(VCSError::TypeChanged(s)) && s@ == nm,
    }
}

/// When `s` has an entry named `nm`, `index_of_name` gives the first one.
pub proof fn lemma_index_of_name(s: Seq<Node>, nm: Seq<char>)
    ensures
        has_name(s, nm) ==> {
            let j = index_of_name(s, nm);
            &&& 0 <= j < s.len()
            &&& name_of(s[j]) == nm
            &&& forall|k: int| 0 <= k < j ==> name_of(#[trigger] s[k]) != nm
        },
    decreases s.len(),
{
    if has_name(s, nm) {
        let t = s.drop_last();
        if has_name(t, nm) {
            lemma_index_of_name(t, nm);
            let j = index_of_name(t, nm);
            assert(forall|k: int| 0 <= k <= j ==> t[k] == s[k]);
            assert(name_of(s[j]) == nm && forall|k: int|
                0 <= k < j ==> name_of(#[trigger] s[k]) != nm);
        } else {
            let j = s.len() - 1;
            assert forall|k: int| 0 <= k < j implies name_of(#[trigger] s[k]) != nm by {
                assert(t[k] == s[k]);
            }
            let w = choose|w: int| 0 <= w < s.len() && name_of(#[trigger] s[w]) == nm;
            if w < j {
                assert(t[w] == s[w]);
            }
            assert(name_of(s[j]) == nm);
        }
    }
}

proof fn lemma_first_index(s: Seq<Node>, nm: Seq<char>, i: int)
    requires
        0 <= i < s.len(),
        name_of(s[i]) == nm,
        forall|k: int| 0 <= k < i ==> name_of(#[trigger] s[k]) != nm,
    ensures
        index_of_name(s, nm) == i,
{
    assert(has_name(s, nm));
    let j = index_of_name(s, nm);
    if j < i {
        assert(name_of(s[j]) != nm);
    }
    if i < j {
        assert(name_of(s[i]) != nm);
    }
}

/// The position of the first entry of `v` named `nm`.
fn find_name(v: &Vec<VCSTree>, nm: &String) -> (r: Option<usize>)
    ensures
        match r {
            Some(j) => j == index_of_name(nodes_of(v@), nm@) && j < v@.len(),
            None => !has_name(nodes_of(v@), nm@) && index_of_name(nodes_of(v@), nm@) == -1,
        },
{
    let ghost ns = nodes_of(v@);
    let mut i: usize = 0;
    while i < v.len()
        invariant
            i <= v.len(),
            ns == nodes_of(v@),
            forall|k: int| 0 <= k < i ==> name_of(#[trigger] ns[k]) != nm@,
        decreases v.len() - i,
    {
        assert(ns[i as int] == v@[i as int]@);
        let n: &String = v[i].name();
        if n.eq(nm) {
            proof {
                lemma_first_index(ns, nm@, i as int);
            }
            return Some(i);
        }
        i = i + 1;
    }
    None
}

proof fn lemma_common_step(a: Seq<Node>, b: Seq<Node>)
    requires
        a.len() > 0,
    ensures
        common_diffs(a, b) == match common_diffs(a.drop_last(), b) {
            Err(e) => Err(e),
            Ok(p) => {
                let j = index_of_name(b, name_of(a.last()));
                if 0 <= j < b.len() {
                    match diff(a.last(), b[j]) {
                        Err(e) => Err(e),
                        Ok(None) => Ok(p),
                        Ok(Some(d)) => Ok(p.push(d)),
                    }
                } else {
                    Ok(p)
                }
            },
        },
{
    reveal(diff);
    reveal(common_diffs);
}

/// One step of unfolding `changed_children`.
pub proof fn lemma_changed_children(a: Seq<Node>, b: Seq<Node>)
    ensures
        changed_children(a, b) == match common_diffs(a, b) {
            Ok(m) => Ok(
                m + stamp_all(only_in(a, b), VCSKind::New) + stamp_all(only_in(b, a), VCSKind::Deleted),
            ),
            Err(e) => Err(e),
        },
{
    reveal(common_diffs);
}

proof fn lemma_common_error_extends(a: Seq<Node>, b: Seq<Node>, k: int, e: Seq<char>)
    requires
        0 <= k <= a.len(),
        common_diffs(a.subrange(0, k), b) == Err::<Seq<Node>, Seq<char>>(e),
    ensures
        common_diffs(a, b) == Err::<Seq<Node>, Seq<char>>(e),
    decreases a.len() - k,
{
    if k == a.len() {
        assert(a.subrange(0, k) =~= a);
    } else {
        assert(a.drop_last().subrange(0, k) =~= a.subrange(0, k));
        lemma_common_error_extends(a.drop_last(), b, k, e);
        lemma_common_step(a, b);
    }
}

/// A tree does not differ from itself: `diff(t, t)` is `Ok(None)`, for any
/// tree whose directories hold no two entries of the same name.
pub proof fn lemma_diff_identity(t: Node)
    requires
        distinct_names(t),
    ensures
        diff(t, t) == Ok::<Option<Node>, Seq<char>>(None),
    decreases t, 0int,
{
    match t {
        Node::File(_, _, _) => {
            reveal(diff);
        },
        _ => {
            let ch = children_of(t);
            lemma_common_identity(ch, ch.len() as int);
            lemma_only_in_self(ch, ch.len() as int);
            assert(ch.subrange(0, ch.len() as int) =~= ch);
            lemma_changed_children(ch, ch);
            assert(stamp_all(Seq::<Node>::empty(), VCSKind::New) =~= Seq::<Node>::empty());
            assert(stamp_all(Seq::<Node>::empty(), VCSKind::Deleted) =~= Seq::<Node>::empty());
            assert(changed_children(ch, ch) == Ok::<Seq<Node>, Seq<char>>(Seq::empty()));
            assert(diff(t, t) == Ok::<Option<Node>, Seq<char>>(None)) by {
                reveal(diff);
            }
        },
    }
}

proof fn lemma_common_identity(ch: Seq<Node>, k: int)
    requires
        0 <= k <= ch.len(),
        forall|i: int, j: int|
            0 <= i < ch.len() && 0 <= j < ch.len() && i != j ==> name_of(#[trigger] ch[i]) != name_of(
                #[trigger] ch[j],
            ),
        forall|i: int| 0 <= i < ch.len() ==> distinct_names(#[trigger] ch[i]),
    ensures
        common_diffs(ch.subrange(0, k), ch) == Ok::<Seq<Node>, Seq<char>>(Seq::empty()),
    decreases ch, k,
{
    let s = ch.subrange(0, k);
    if k == 0 {
        reveal(common_diffs);
    } else {
        lemma_common_identity(ch, k - 1);
        assert(s.drop_last() =~= ch.subrange(0, k - 1));
        lemma_common_step(s, ch);
        assert forall|m: int| 0 <= m < k - 1 implies name_of(#[trigger] ch[m]) != name_of(ch[k - 1]) by {}
        lemma_first_index(ch, name_of(ch[k - 1]), k - 1);
        lemma_diff_identity(ch[k - 1]);
    }
}

proof fn lemma_only_in_self(ch: Seq<Node>, k: int)
    requires
        0 <= k <= ch.len(),
    ensures
        only_in(ch.subrange(0, k), ch) == Seq::<Node>::empty(),
    decreases k,
{
    if k > 0 {
        lemma_only_in_self(ch, k - 1);
        assert(ch.subrange(0, k).drop_last() =~= ch.subrange(0, k - 1));
        assert(name_of(ch[k - 1]) == name_of(ch[k - 1]));
        assert(has_name(ch, name_of(ch.subrange(0, k).last())));
    }
}

/// What a difference looks like: it keeps the current side's name, a file
/// differs only as `Modified`, and a directory holds its changed entries.
pub proof fn lemma_diff_shape(a: Node, b: Node, d: Node)
    requires
        diff(a, b) == Ok::<Option<Node>, Seq<char>>(Some(d)),
    ensures
        name_of(d) == name_of(a),
        a is File ==> b is File && d == Node::File(name_of(a), a->File_1, VCSKind::Modified),
        !(a is File) ==> {
            &&& !(b is File)
            &&& !(d is File)
            &&& changed_children(children_of(a), children_of(b)) == Ok::<Seq<Node>, Seq<char>>(
                children_of(d),
            )
        },
{
    reveal(diff);
}

proof fn lemma_stamp_kind(n: Node, k: VCSKind, p: Seq<Seq<char>>, k2: VCSKind)
    requires
        has_file(stamp(n, k), p, k2),
    ensures
        k2 == k,
    decreases n,
{
    match n {
        Node::File(_, _, _) => {},
        _ => {
            let ch = children_of(n);
            let sc = children_of(stamp(n, k));
            assert(sc == stamp_all(ch, k));
            let x = choose|x: int|
                0 <= x < sc.len() && name_of(#[trigger] sc[x]) == p[0] && has_file(
                    sc[x],
                    p.drop_first(),
                    k2,
                );
            assert(sc[x] == stamp(ch[x], k));
            lemma_stamp_kind(ch[x], k, p.drop_first(), k2);
        },
    }
}

/// Each entry that `only_in` keeps is an entry of `a` without a namesake in `b`.
pub proof fn lemma_only_in_elem(a: Seq<Node>, b: Seq<Node>, k: int) -> (i: int)
    requires
        0 <= k < only_in(a, b).len(),
    ensures
        0 <= i < a.len(),
        only_in(a, b)[k] == a[i],
        !has_name(b, name_of(a[i])),
    decreases a.len(),
{
    let pre = only_in(a.drop_last(), b);
    if k < pre.len() {
        let i = lemma_only_in_elem(a.drop_last(), b, k);
        assert(a.drop_last()[i] == a[i]);
        i
    } else {
        (a.len() - 1) as int
    }
}

/// Each difference that `common_diffs` keeps comes from an entry of `a`
/// compared with its first namesake in `b`.
pub proof fn lemma_common_elem(a: Seq<Node>, b: Seq<Node>, m: Seq<Node>, k: int) -> (i: int)
    requires
        common_diffs(a, b) == Ok::<Seq<Node>, Seq<char>>(m),
        0 <= k < m.len(),
    ensures
        0 <= i < a.len(),
        0 <= index_of_name(b, name_of(a[i])) < b.len(),
        diff(a[i], b[index_of_name(b, name_of(a[i]))]) == Ok::<Option<Node>, Seq<char>>(Some(m[k])),
    decreases a.len(),
{
    if a.len() == 0 {
        reveal(common_diffs);
        0
    } else {
        lemma_common_step(a, b);
        let p = common_diffs(a.drop_last(), b)->Ok_0;
        if k < p.len() {
            let i = lemma_common_elem(a.drop_last(), b, p, k);
            assert(a.drop_last()[i] == a[i]);
            i
        } else {
            (a.len() - 1) as int
        }
    }
}

/// Only one entry of a directory with distinct names can stand at a path that starts with `nm`.
proof fn lemma_entry_through(ch: Seq<Node>, j: int, p: Seq<Seq<char>>)
    requires
        0 <= j < ch.len(),
        p.len() > 0,
        name_of(ch[j]) == p[0],
        forall|i: int, l: int|
            0 <= i < ch.len() && 0 <= l < ch.len() && i != l ==> name_of(#[trigger] ch[i]) != name_of(
                #[trigger] ch[l],
            ),
        !has_entry(ch[j], p.drop_first()),
    ensures
        forall|x: int|
            0 <= x < ch.len() && name_of(#[trigger] ch[x]) == p[0] ==> !has_entry(
                ch[x],
                p.drop_first(),
            ),
{
}

/// In a difference `d` of `a` against `b`, a file tagged `New` has no
/// counterpart at its path in `b`, and a file tagged `Deleted` has none in
/// `a` (for trees whose directories hold no two entries of the same name).
#[verifier::rlimit(40)]
pub proof fn lemma_diff_tags(a: Node, b: Node, d: Node, p: Seq<Seq<char>>)
    requires
        distinct_names(a),
        distinct_names(b),
        diff(a, b) == Ok::<Option<Node>, Seq<char>>(Some(d)),
    ensures
        has_file(d, p, VCSKind::New) ==> !has_entry(b, p),
        has_file(d, p, VCSKind::Deleted) ==> !has_entry(a, p),
    decreases a,
{
    lemma_diff_shape(a, b, d);
    if !(a is File) {
        let ac = children_of(a);
        let bc = children_of(b);
        let dc = children_of(d);
        lemma_changed_children(ac, bc);
        let m = common_diffs(ac, bc)->Ok_0;
        let sn = stamp_all(only_in(ac, bc), VCSKind::New);
        let sd = stamp_all(only_in(bc, ac), VCSKind::Deleted);
        assert(dc == m + sn + sd);
        assert forall|k: VCSKind| #[trigger] has_file(d, p, k) && (k == VCSKind::New || k == VCSKind::Deleted) implies
            (k == VCSKind::New ==> !has_entry(b, p)) && (k == VCSKind::Deleted ==> !has_entry(a, p)) by {
            let q = p.drop_first();
            let x = choose|x: int|
                0 <= x < dc.len() && name_of(#[trigger] dc[x]) == p[0] && has_file(dc[x], q, k);
            if x < m.len() {
                assert(dc[x] == m[x]);
                let i = lemma_common_elem(ac, bc, m, x);
                let j = index_of_name(bc, name_of(ac[i]));
                assert(has_name(bc, name_of(ac[i])));
                lemma_index_of_name(bc, name_of(ac[i]));
                lemma_diff_shape(ac[i], bc[j], m[x]);
                assert(decreases_to!(a => ac[i]));
                lemma_diff_tags(ac[i], bc[j], m[x], q);
                if k == VCSKind::New {
                    lemma_entry_through(bc, j, p);
                } else {
                    lemma_entry_through(ac, i, p);
                }
            } else if x < m.len() + sn.len() {
                let y = x - m.len();
                assert(dc[x] == sn[y]);
                let i = lemma_only_in_elem(ac, bc, y);
                assert(sn[y] == stamp(ac[i], VCSKind::New));
                lemma_stamp_kind(ac[i], VCSKind::New, q, k);
                assert(!has_name(bc, p[0]));
            } else {
                let y = x - m.len() - sn.len();
                assert(dc[x] == sd[y]);
                let i = lemma_only_in_elem(bc, ac, y);
                assert(sd[y] == stamp(bc[i], VCSKind::Deleted));
                lemma_stamp_kind(bc[i], VCSKind::Deleted, q, k);
                assert(!has_name(ac, p[0]));
            }
        }
    }
}

proof fn lemma_stamp_origin(n: Node, k: VCSKind, p: Seq<Seq<char>>, h: Seq<u8>, k2: VCSKind)
    requires
        tagged_file(stamp(n, k), p, h, k2),
    ensures
        k2 == k,
        file_at(n, p, h),
    decreases n,
{
    match n {
        Node::File(_, _, kk) => {
            reveal(file_at);
            assert(tagged_file(n, p, h, kk));
        },
        _ => {
            let ch = children_of(n);
            let sc = children_of(stamp(n, k));
            assert(sc == stamp_all(ch, k));
            let x = choose|x: int|
                0 <= x < sc.len() && name_of(#[trigger] sc[x]) == p[0] && tagged_file(
                    sc[x],
                    p.drop_first(),
                    h,
                    k2,
                );
            assert(sc[x] == stamp(ch[x], k));
            lemma_stamp_origin(ch[x], k, p.drop_first(), h, k2);
            lemma_file_at_lift(n, x, p, h);
        },
    }
}

proof fn lemma_file_at_lift(n: Node, i: int, p: Seq<Seq<char>>, h: Seq<u8>)
    requires
        !(n is File),
        0 <= i < children_of(n).len(),
        p.len() > 0,
        name_of(children_of(n)[i]) == p[0],
        file_at(children_of(n)[i], p.drop_first(), h),
    ensures
        file_at(n, p, h),
{
    reveal(file_at);
    let c = children_of(n)[i];
    if tagged_file(c, p.drop_first(), h, VCSKind::New) {
        assert(tagged_file(n, p, h, VCSKind::New));
    } else if tagged_file(c, p.drop_first(), h, VCSKind::Deleted) {
        assert(tagged_file(n, p, h, VCSKind::Deleted));
    } else {
        assert(tagged_file(n, p, h, VCSKind::Modified));
    }
}

/// Every file of a difference `d` of `a` against `b` comes from one of the
/// compared trees, with its digest: a `New` or `Modified` file is a file of
/// `a` at the same path with the same digest, and a `Deleted` file is a file
/// of `b` at the same path with the same digest.
pub proof fn lemma_diff_origins(a: Node, b: Node, d: Node, p: Seq<Seq<char>>, h: Seq<u8>)
    requires
        diff(a, b) == Ok::<Option<Node>, Seq<char>>(Some(d)),
    ensures
        tagged_file(d, p, h, VCSKind::New) ==> file_at(a, p, h),
        tagged_file(d, p, h, VCSKind::Modified) ==> file_at(a, p, h),
        tagged_file(d, p, h, VCSKind::Deleted) ==> file_at(b, p, h),
    decreases a, 2nat,
{
    lemma_diff_shape(a, b, d);
    if a is File {
        if tagged_file(d, p, h, VCSKind::Modified) {
            reveal(file_at);
            assert(tagged_file(a, p, h, a->File_2));
        }
    } else {
        let dc = children_of(d);
        assert forall|k: VCSKind| #[trigger] tagged_file(d, p, h, k) implies (k != VCSKind::Deleted
            ==> file_at(a, p, h)) && (k == VCSKind::Deleted ==> file_at(b, p, h)) by {
            let x = choose|x: int|
                0 <= x < dc.len() && name_of(#[trigger] dc[x]) == p[0] && tagged_file(
                    dc[x],
                    p.drop_first(),
                    h,
                    k,
                );
            lemma_origin_entry(a, b, d, p, h, k, x);
        }
    }
}

proof fn lemma_origin_entry(
    a: Node,
    b: Node,
    d: Node,
    p: Seq<Seq<char>>,
    h: Seq<u8>,
    k: VCSKind,
    x: int,
)
    requires
        !(a is File),
        diff(a, b) == Ok::<Option<Node>, Seq<char>>(Some(d)),
        p.len() > 0,
        0 <= x < children_of(d).len(),
        name_of(children_of(d)[x]) == p[0],
        tagged_file(children_of(d)[x], p.drop_first(), h, k),
    ensures
        k != VCSKind::Deleted ==> file_at(a, p, h),
        k == VCSKind::Deleted ==> file_at(b, p, h),
    decreases a, 1nat,
{
    lemma_diff_shape(a, b, d);
    let ac = children_of(a);
    let bc = children_of(b);
    let dc = children_of(d);
    lemma_changed_children(ac, bc);
    let m = common_diffs(ac, bc)->Ok_0;
    let sn = stamp_all(only_in(ac, bc), VCSKind::New);
    let sd = stamp_all(only_in(bc, ac), VCSKind::Deleted);
    assert(dc == m + sn + sd);
    if x < m.len() {
        assert(dc[x] == m[x]);
        lemma_origin_common(a, b, m, p, h, k, x);
    } else if x < m.len() + sn.len() {
        let y = x - m.len();
        assert(dc[x] == sn[y]);
        let i = lemma_only_in_elem(ac, bc, y);
        assert(sn[y] == stamp(ac[i], VCSKind::New));
        lemma_stamp_origin(ac[i], VCSKind::New, p.drop_first(), h, k);
        lemma_file_at_lift(a, i, p, h);
    } else {
        let y = x - m.len() - sn.len();
        assert(dc[x] == sd[y]);
        let i = lemma_only_in_elem(bc, ac, y);
        assert(sd[y] == stamp(bc[i], VCSKind::Deleted));
        lemma_stamp_origin(bc[i], VCSKind::Deleted, p.drop_first(), h, k);
        lemma_file_at_lift(b, i, p, h);
    }
}

#[verifier::rlimit(40)]
proof fn lemma_origin_common(
    a: Node,
    b: Node,
    m: Seq<Node>,
    p: Seq<Seq<char>>,
    h: Seq<u8>,
    k: VCSKind,
    x: int,
)
    requires
        !(a is File),
        !(b is File),
        common_diffs(children_of(a), children_of(b)) == Ok::<Seq<Node>, Seq<char>>(m),
        p.len() > 0,
        0 <= x < m.len(),
        name_of(m[x]) == p[0],
        tagged_file(m[x], p.drop_first(), h, k),
    ensures
        k != VCSKind::Deleted ==> file_at(a, p, h),
        k == VCSKind::Deleted ==> file_at(b, p, h),
    decreases a, 0nat,
{
    let ac = children_of(a);
    let bc = children_of(b);
    let i = lemma_common_elem(ac, bc, m, x);
    let j = index_of_name(bc, name_of(ac[i]));
    assert(has_name(bc, name_of(ac[i])));
    lemma_index_of_name(bc, name_of(ac[i]));
    lemma_diff_shape(ac[i], bc[j], m[x]);
    assert(decreases_to!(a => ac[i]));
    lemma_diff_origins(ac[i], bc[j], m[x], p.drop_first(), h);
    if k == VCSKind::Deleted {
        lemma_file_at_lift(b, j, p, h);
    } else {
        lemma_file_at_lift(a, i, p, h);
    }
}

impl VCSTree {
    /// The difference between this tree (the current side) and `old_tree`
    /// (the previous side). Entries are paired by name; an entry that is a
    /// file on one side and a directory on the other gives
    /// `VCSError::TypeChanged` with its name.
    pub fn diff_tree(&self, old_tree: VCSTree) -> (r: Result<Option<VCSTree>, VCSError>)
        ensures
            diff_agrees(r, diff(self@, old_tree@)),
    {
        self.diff_with(&old_tree)
    }

    fn diff_with(&self, old: &VCSTree) -> (r: Result<Option<VCSTree>, VCSError>)
        ensures
            diff_agrees(r, diff(self@, old@)),
        decreases self, 2nat,
    {
        reveal(diff);
        match (self, old) {
            (VCSTree::File(a, _), VCSTree::File(b, _)) => {
                if same_bytes(&a.sha, &b.sha) {
                    Ok(None)
                } else {
                    Ok(Some(VCSTree::File(a.duplicate(), VCSKind::Modified)))
                }
            },
            (VCSTree::Directory(a), VCSTree::Directory(b)) => {
                match Self::changed_entries(&a.children, &b.children) {
                    Err(e) => Err(e),
                    Ok(ch) => if ch.len() == 0 {
                        Ok(None)
                    } else {
                        Ok(Some(VCSTree::Directory(VCSDirectory { name: a.name.clone(), children: ch })))
                    },
                }
            },
            (VCSTree::Root(a), VCSTree::Root(b)) => {
                match Self::changed_entries(&a.children, &b.children) {
                    Err(e) => Err(e),
                    Ok(ch) => if ch.len() == 0 {
                        Ok(None)
                    } else {
                        Ok(Some(VCSTree::Root(VCSDirectory { name: a.name.clone(), children: ch })))
                    },
                }
            },
            _ => Err(VCSError::TypeChanged(self.name().clone())),
        }
    }

    fn changed_entries(a: &Vec<VCSTree>, b: &Vec<VCSTree>) -> (r: Result<Vec<VCSTree>, VCSError>)
        ensures
            match changed_children(nodes_of(a@), nodes_of(b@)) {
                Ok(ch) => r matches Ok(v) && nodes_of(v@) == ch,
                Err(nm) => r matches Err(VCSError::TypeChanged(s)) && s@ == nm,
            },
        decreases a, 1nat,
    {
        let ghost na = nodes_of(a@);
        let ghost nb = nodes_of(b@);
        proof {
            lemma_changed_children(na, nb);
        }
        match Self::common_entries(a, b) {
            Err(e) => Err(e),
            Ok(m) => {
                let mut out = m;
                Self::push_only_in(a, b, VCSKind::New, &mut out);
                Self::push_only_in(b, a, VCSKind::Deleted, &mut out);
                assert(changed_children(na, nb) == Ok::<Seq<Node>, Seq<char>>(
                    nodes_of(m@) + stamp_all(only_in(na, nb), VCSKind::New) + stamp_all(
                        only_in(nb, na),
                        VCSKind::Deleted,
                    ),
                ));
                Ok(out)
            },
        }
    }

    /// The differences of the entries of `a` that have a namesake in `b`.
    fn common_entries(a: &Vec<VCSTree>, b: &Vec<VCSTree>) -> (r: Result<Vec<VCSTree>, VCSError>)
        ensures
            match common_diffs(nodes_of(a@), nodes_of(b@)) {
                Ok(m) => r matches Ok(v) && nodes_of(v@) == m,
                Err(nm) => r matches Err(VCSError::TypeChanged(s)) && s@ == nm,
            },
        decreases a, 0nat,
    {
        let ghost na = nodes_of(a@);
        let ghost nb = nodes_of(b@);
        let mut out: Vec<VCSTree> = Vec::new();
        let mut i: usize = 0;
        assert(na.subrange(0, 0) =~= Seq::<Node>::empty());
        assert(nodes_of(out@) =~= Seq::<Node>::empty());
        assert(common_diffs(Seq::<Node>::empty(), nb) == Ok::<Seq<Node>, Seq<char>>(
            Seq::empty(),
        )) by {
            reveal(common_diffs);
        }
        while i < a.len()
            invariant
                i <= a.len(),
                na == nodes_of(a@),
                nb == nodes_of(b@),
                common_diffs(na.subrange(0, i as int), nb) == Ok::<Seq<Node>, Seq<char>>(
                    nodes_of(out@),
                ),
            decreases a.len() - i,
        {
            let ghost pre = na.subrange(0, i as int);
            assert(na.subrange(0, i + 1).drop_last() =~= pre);
            assert(na.subrange(0, i + 1).last() == na[i as int]);
            assert(na[i as int] == a@[i as int]@);
            proof {
                lemma_common_step(na.subrange(0, i + 1), nb);
            }
            match find_name(b, a[i].name()) {
                Some(j) => {
                    assert(nb[j as int] == b@[j as int]@);
                    assert(decreases_to!(a => a@[i as int]));
                    match a[i].diff_with(&b[j]) {
                        Err(e) => {
                            proof {
                                lemma_common_error_extends(
                                    na,
                                    nb,
                                    i + 1,
                                    diff(na[i as int], nb[j as int])->Err_0,
                                );
                            }
                            return Err(e);
                        },
                        Ok(None) => {
                            assert(diff(na[i as int], nb[j as int]) == Ok::<Option<Node>, Seq<char>>(None));
                            assert(common_diffs(na.subrange(0, i + 1), nb) == Ok::<Seq<Node>, Seq<char>>(nodes_of(out@)));
                        },
                        Ok(Some(t)) => {
                            let ghost before = nodes_of(out@);
                            assert(diff(na[i as int], nb[j as int]) == Ok::<Option<Node>, Seq<char>>(Some(t@)));
                            out.push(t);
                            assert(nodes_of(out@) =~= before.push(t@));
                            assert(common_diffs(na.subrange(0, i + 1), nb) == Ok::<Seq<Node>, Seq<char>>(nodes_of(out@)));
                        },
                    }
                },
                None => {
                    assert(common_diffs(na.subrange(0, i + 1), nb) == Ok::<Seq<Node>, Seq<char>>(nodes_of(out@)));
                },
            }
            i = i + 1;
        }
        assert(na.subrange(0, a.len() as int) =~= na);
        Ok(out)
    }

    /// Appends, tagged `kind`, the entries of `src` whose names do not occur in `other`.
    fn push_only_in(src: &Vec<VCSTree>, other: &Vec<VCSTree>, kind: VCSKind, out: &mut Vec<VCSTree>)
        ensures
            nodes_of(final(out)@) == nodes_of(old(out)@) + stamp_all(
                only_in(nodes_of(src@), nodes_of(other@)),
                kind,
            ),
    {
        let ghost ns = nodes_of(src@);
        let ghost no = nodes_of(other@);
        let ghost start = nodes_of(out@);
        let mut i: usize = 0;
        assert(ns.subrange(0, 0) =~= Seq::<Node>::empty());
        assert(start =~= start + stamp_all(only_in(ns.subrange(0, 0), no), kind));
        while i < src.len()
            invariant
                i <= src.len(),
                ns == nodes_of(src@),
                no == nodes_of(other@),
                nodes_of(out@) == start + stamp_all(only_in(ns.subrange(0, i as int), no), kind),
            decreases src.len() - i,
        {
            let ghost pre = ns.subrange(0, i as int);
            assert(ns.subrange(0, i + 1).drop_last() =~= pre);
            assert(ns.subrange(0, i + 1).last() == ns[i as int]);
            assert(ns[i as int] == src@[i as int]@);
            match find_name(other, src[i].name()) {
                Some(_) => {
                    assert(has_name(no, name_of(ns[i as int])));
                    assert(only_in(ns.subrange(0, i + 1), no) == only_in(pre, no));
                },
                None => {
                    let ghost before = nodes_of(out@);
                    let t = src[i].set_file_kind(kind);
                    out.push(t);
                    assert(only_in(ns.subrange(0, i + 1), no) == only_in(pre, no).push(ns[i as int]));
                    assert(stamp_all(only_in(pre, no).push(ns[i as int]), kind) =~= stamp_all(
                        only_in(pre, no),
                        kind,
                    ).push(stamp(ns[i as int], kind)));
                    assert(nodes_of(out@) =~= before.push(t@));
                    assert(start + stamp_all(only_in(pre, no), kind).push(stamp(ns[i as int], kind))
                        =~= (start + stamp_all(only_in(pre, no), kind)).push(stamp(ns[i as int], kind)));
                },
            }
            i = i + 1;
        }
        assert(ns.subrange(0, src.len() as int) =~= ns);
    }
}

} // verus!
