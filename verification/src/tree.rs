//! Breadth-first collection of a session and its descendants.
//!
//! The walk starts from `[root]` and, for each collected session in turn,
//! appends that session's children. `walk(kids, root, k)` is the
//! (collected, next-index) pair after `k` steps; the walk is finished once
//! the index reaches the end of the collected list.
use vstd::prelude::*;

verus! {

/// One step of the walk: expand the session at the current index.
pub open spec fn walk_step(kids: spec_fn(u64) -> Seq<u64>, st: (Seq<u64>, nat)) -> (Seq<u64>, nat) {
    if st.1 < st.0.len() {
        (st.0 + kids(st.0[st.1 as int]), st.1 + 1)
    } else {
        st
    }
}

/// The walk after `k` steps.
pub open spec fn walk(kids: spec_fn(u64) -> Seq<u64>, root: u64, k: nat) -> (Seq<u64>, nat)
    decreases k,
{
    if k == 0 {
        (seq![root], 0)
    } else {
        walk_step(kids, walk(kids, root, (k - 1) as nat))
    }
}

/// The walk has expanded everything it collected after `k` steps.
pub open spec fn walk_done(kids: spec_fn(u64) -> Seq<u64>, root: u64, k: nat) -> bool {
    walk(kids, root, k).1 == walk(kids, root, k).0.len()
}

/// The walk from `root` finishes: the descendants reachable from it are
/// finitely many (no session is its own descendant).
pub open spec fn walk_finishes(kids: spec_fn(u64) -> Seq<u64>, root: u64) -> bool {
    exists|k: nat| walk_done(kids, root, k)
}

/// The number of steps after which the walk is finished.
pub open spec fn walk_length(kids: spec_fn(u64) -> Seq<u64>, root: u64) -> nat {
    choose|k: nat| walk_done(kids, root, k)
}

/// Everything the finished walk collected, in order.
pub open spec fn collected(kids: spec_fn(u64) -> Seq<u64>, root: u64) -> Seq<u64> {
    walk(kids, root, walk_length(kids, root)).0
}

/// Once finished, the walk stays where it is.
pub proof fn lemma_walk_stays(kids: spec_fn(u64) -> Seq<u64>, root: u64, k: nat, m: nat)
    requires
        walk_done(kids, root, k),
        k <= m,
    ensures
        walk(kids, root, m) == walk(kids, root, k),
    decreases m - k,
{
    if m > k {
        lemma_walk_stays(kids, root, k, (m - 1) as nat);
    }
}

/// The session at `j` is a child of a session collected before it.
pub open spec fn child_of_earlier(kids: spec_fn(u64) -> Seq<u64>, out: Seq<u64>, j: int) -> bool {
    exists|m: int| 0 <= m < j && #[trigger] kids(out[m]).contains(out[j])
}

/// The shape of a walk state: the root comes first, every expanded session
/// (index below `i`) has all its children collected, and every collected
/// session but the root is a child of a session collected before it.
pub open spec fn walk_shape(kids: spec_fn(u64) -> Seq<u64>, root: u64, out: Seq<u64>, i: nat) -> bool {
    &&& out.len() >= 1
    &&& out[0] == root
    &&& i <= out.len()
    &&& forall|j: int, c: int|
        0 <= j < i && 0 <= c < kids(out[j]).len() ==> out.contains(#[trigger] kids(out[j])[c])
    &&& forall|j: int| 0 < j < out.len() ==> #[trigger] child_of_earlier(kids, out, j)
}

/// Every walk state has the shape `walk_shape` describes.
pub proof fn lemma_walk_shape(kids: spec_fn(u64) -> Seq<u64>, root: u64, k: nat)
    ensures
        walk_shape(kids, root, walk(kids, root, k).0, walk(kids, root, k).1),
    decreases k,
{
    if k == 0 {
        let out = seq![root];
        assert(walk(kids, root, 0) == (out, 0nat));
    } else {
        lemma_walk_shape(kids, root, (k - 1) as nat);
        let out = walk(kids, root, (k - 1) as nat).0;
        let i = walk(kids, root, (k - 1) as nat).1;
        if i < out.len() {
            let add = kids(out[i as int]);
            let out2 = out + add;
            assert(walk(kids, root, k) == (out2, i + 1));
            assert forall|j: int, c: int|
                0 <= j < i + 1 && 0 <= c < kids(out2[j]).len() implies out2.contains(
                #[trigger] kids(out2[j])[c],
            ) by {
                assert(out2[j] == out[j]);
                if j < i {
                    let x = kids(out[j])[c];
                    assert(out.contains(x));
                    let p = choose|p: int| 0 <= p < out.len() && out[p] == x;
                    assert(out2[p] == x);
                } else {
                    assert(out2[out.len() + c] == add[c]);
                }
            }
            assert forall|j: int| 0 < j < out2.len() implies #[trigger] child_of_earlier(kids, out2, j) by {
                if j < out.len() {
                    assert(out2[j] == out[j]);
                    assert(child_of_earlier(kids, out, j));
                    let m = choose|m: int| 0 <= m < j && #[trigger] kids(out[m]).contains(out[j]);
                    assert(out2[m] == out[m]);
                    assert(kids(out2[m]).contains(out2[j]));
                } else {
                    let c = j - out.len();
                    assert(out2[j] == add[c]);
                    assert(out2[i as int] == out[i as int]);
                    assert(kids(out2[i as int]).contains(out2[j]));
                }
            }
            assert(walk_shape(kids, root, out2, (i + 1) as nat));
        } else {
            assert(walk(kids, root, k) == walk(kids, root, (k - 1) as nat));
        }
    }
}

/// What a finished walk collected: the root first, every child of every
/// collected session, and nothing but the root and children of sessions
/// collected earlier.
pub proof fn lemma_collected_shape(kids: spec_fn(u64) -> Seq<u64>, root: u64)
    requires
        walk_finishes(kids, root),
    ensures
        walk_shape(kids, root, collected(kids, root), collected(kids, root).len()),
{
    let k = walk_length(kids, root);
    lemma_walk_shape(kids, root, k);
}

/// Below `root` the child links form a tree within the finite, duplicate-free
/// list `desc` of sessions: `desc` holds `root` and every child of its
/// members, `root` is no member's child, each member lists a child at most
/// once, and no session is the child of two members. (So no session is
/// reached twice, and no cycle runs through the sessions reachable from
/// `root`.)
pub open spec fn tree_below(kids: spec_fn(u64) -> Seq<u64>, root: u64, desc: Seq<u64>) -> bool {
    &&& desc.no_duplicates()
    &&& desc.contains(root)
    &&& forall|p: u64, x: u64| desc.contains(p) && #[trigger] kids(p).contains(x) ==> desc.contains(x)
    &&& forall|p: u64| desc.contains(p) ==> !(#[trigger] kids(p)).contains(root)
    &&& forall|p: u64| desc.contains(p) ==> (#[trigger] kids(p)).no_duplicates()
    &&& forall|p: u64, q: u64, x: u64|
        desc.contains(p) && desc.contains(q) && #[trigger] kids(p).contains(x) && #[trigger] kids(q).contains(x)
            ==> p == q
}

/// The session at `q` is a child of a session at an index below `i`.
pub open spec fn child_of_expanded(kids: spec_fn(u64) -> Seq<u64>, out: Seq<u64>, i: nat, q: int) -> bool {
    exists|m: int| 0 <= m < i && #[trigger] kids(out[m]).contains(out[q])
}

/// On a tree the walk collects each session once, all of them in `desc`,
/// and each one after the root as a child of a session the walk has
/// already expanded.
proof fn lemma_walk_distinct(kids: spec_fn(u64) -> Seq<u64>, root: u64, desc: Seq<u64>, k: nat)
    requires
        tree_below(kids, root, desc),
    ensures
        ({
            let (out, i) = walk(kids, root, k);
            &&& out.len() >= 1
            &&& out[0] == root
            &&& i <= out.len()
            &&& out.no_duplicates()
            &&& forall|q: int| 0 <= q < out.len() ==> desc.contains(#[trigger] out[q])
            &&& forall|q: int| 0 < q < out.len() ==> #[trigger] child_of_expanded(kids, out, i, q)
        }),
    decreases k,
{
    if k == 0 {
        let out = seq![root];
        assert(walk(kids, root, 0) == (out, 0nat));
        assert(out.len() == 1);
    } else {
        lemma_walk_distinct(kids, root, desc, (k - 1) as nat);
        let (out, i) = walk(kids, root, (k - 1) as nat);
        if i < out.len() {
            let p = out[i as int];
            let add = kids(p);
            let out2 = out + add;
            assert(walk(kids, root, k) == (out2, i + 1));
            assert(desc.contains(p));
            assert forall|q: int| 0 <= q < out2.len() implies desc.contains(#[trigger] out2[q]) by {
                if q >= out.len() {
                    assert(out2[q] == add[q - out.len()]);
                    assert(add.contains(add[q - out.len()]));
                } else {
                    assert(out2[q] == out[q]);
                }
            }
            assert forall|q: int| 0 < q < out2.len() implies #[trigger] child_of_expanded(
                kids,
                out2,
                (i + 1) as nat,
                q,
            ) by {
                if q < out.len() {
                    assert(child_of_expanded(kids, out, i, q));
                    let m = choose|m: int| 0 <= m < i && #[trigger] kids(out[m]).contains(out[q]);
                    assert(out2[m] == out[m]);
                    assert(out2[q] == out[q]);
                } else {
                    assert(out2[q] == add[q - out.len()]);
                    assert(out2[i as int] == p);
                    assert(add.contains(add[q - out.len()]));
                }
            }
            assert forall|a: int, b: int| 0 <= a < out2.len() && 0 <= b < out2.len() && a != b implies out2[a]
                != out2[b] by {
                if a < out.len() && b < out.len() {
                } else if a >= out.len() && b >= out.len() {
                    assert(add.no_duplicates());
                } else {
                    let (q, c) = if a < out.len() {
                        (a, b - out.len())
                    } else {
                        (b, a - out.len())
                    };
                    assert(out2[q] == out[q]);
                    assert(out2[out.len() + c] == add[c]);
                    if out[q] == add[c] {
                        assert(add.contains(add[c]));
                        if q == 0 {
                            assert(kids(p).contains(root));
                        } else {
                            assert(child_of_expanded(kids, out, i, q));
                            let m = choose|m: int| 0 <= m < i && #[trigger] kids(out[m]).contains(out[q]);
                            assert(desc.contains(out[m]));
                            assert(kids(out[m]).contains(add[c]));
                            assert(out[m] == p);
                        }
                    }
                }
            }
        } else {
            assert(walk(kids, root, k) == walk(kids, root, (k - 1) as nat));
        }
    }
}

proof fn lemma_walk_counts_steps(kids: spec_fn(u64) -> Seq<u64>, root: u64, desc: Seq<u64>, k: nat)
    requires
        forall|j: nat| j <= k ==> !#[trigger] walk_done(kids, root, j),
        tree_below(kids, root, desc),
    ensures
        walk(kids, root, k).1 == k,
    decreases k,
{
    if k > 0 {
        lemma_walk_counts_steps(kids, root, desc, (k - 1) as nat);
        lemma_walk_distinct(kids, root, desc, (k - 1) as nat);
        assert(!walk_done(kids, root, (k - 1) as nat));
    }
}

/// On a tree the walk from its root finishes, having collected each
/// session once.
pub proof fn lemma_tree_walk_finishes(kids: spec_fn(u64) -> Seq<u64>, root: u64, desc: Seq<u64>)
    requires
        tree_below(kids, root, desc),
    ensures
        walk_finishes(kids, root),
        collected(kids, root).no_duplicates(),
{
    let bound: nat = desc.len() + 2;
    if !walk_finishes(kids, root) {
        assert forall|j: nat| j <= bound implies !#[trigger] walk_done(kids, root, j) by {}
        lemma_walk_counts_steps(kids, root, desc, bound);
        lemma_walk_distinct(kids, root, desc, bound);
        let out = walk(kids, root, bound).0;
        assert forall|x: u64| out.contains(x) implies x == root || desc.contains(x) by {
            let q = choose|q: int| 0 <= q < out.len() && out[q] == x;
            assert(desc.contains(out[q]));
        }
        crate::agent::lemma_bounded_by_pool(out, desc, root);
    }
    lemma_walk_distinct(kids, root, desc, walk_length(kids, root));
}

} // verus!