//! Finding the hit box that a ray reaches first.
//!
//! Hit boxes form a tree: a box may hold inner boxes. A ray hits a box at some distance, or
//! misses it. The search keeps the boxes that were hit and not yet looked into, always looks
//! into the nearest of them, and stops at the first box without inner boxes; it looks into
//! the inner boxes of a box only once that box was hit. Distances are given here as keys
//! that order as the distances do.
use vstd::prelude::*;

verus! {

/// A hit box for one ray: the key of the distance at which the ray hits it, if it does, and
/// its inner boxes.
#[derive(Debug)]
pub struct HitNode {
    pub hit: Option<u32>,
    pub inner: Vec<HitNode>,
}

/// The box that `path` leads to from the boxes `nodes`: the box at `path[0]`, then its inner
/// box at `path[1]`, and so on.
pub open spec fn node_at(nodes: Seq<HitNode>, path: Seq<usize>) -> Option<HitNode>
    decreases path.len(),
{
    if path.len() == 0 || path[0] >= nodes.len() {
        None
    } else if path.len() == 1 {
        Some(nodes[path[0] as int])
    } else {
        node_at(nodes[path[0] as int].inner@, path.drop_first())
    }
}

/// Whether there is a box and the ray hits it.
pub open spec fn is_hit(o: Option<HitNode>) -> bool {
    o matches Some(n) && n.hit is Some
}

/// Whether `path` leads to a box, and the ray hits it and every box on the way.
pub open spec fn hit_path(nodes: Seq<HitNode>, path: Seq<usize>) -> bool {
    &&& path.len() > 0
    &&& forall|k: int| 1 <= k <= path.len() ==> is_hit(#[trigger] node_at(nodes, path.take(k)))
}

/// Whether `path` leads, through hit boxes, to a hit box without inner boxes.
pub open spec fn hit_leaf(nodes: Seq<HitNode>, path: Seq<usize>) -> bool {
    &&& hit_path(nodes, path)
    &&& node_at(nodes, path)->0.inner@.len() == 0
}

/// The distance key of the box that `path` leads to.
pub open spec fn key_at(nodes: Seq<HitNode>, path: Seq<usize>) -> int {
    node_at(nodes, path)->0.hit->0 as int
}

/// The largest distance key of the boxes on `path`.
pub open spec fn bottleneck(nodes: Seq<HitNode>, path: Seq<usize>) -> int
    decreases path.len(),
{
    if path.len() <= 1 {
        key_at(nodes, path)
    } else {
        let before = bottleneck(nodes, path.drop_last());
        let here = key_at(nodes, path);
        if before >= here {
            before
        } else {
            here
        }
    }
}

/// Whether `a` is a beginning of `b`.
pub open spec fn is_prefix(a: Seq<usize>, b: Seq<usize>) -> bool {
    a.len() <= b.len() && b.take(a.len() as int) == a
}

/// The number of boxes in the tree of `node`.
pub open spec fn tree_size(node: HitNode) -> nat
    decreases node, 0nat,
{
    1 + inner_size(node.inner@, node.inner@.len())
}

/// The number of boxes in the trees of the first `n` of `nodes`.
pub open spec fn inner_size(nodes: Seq<HitNode>, n: nat) -> nat
    decreases nodes, n,
{
    if n == 0 || n > nodes.len() {
        0
    } else {
        proof {
            assert(decreases_to!(nodes => nodes[n - 1]));
        }
        inner_size(nodes, (n - 1) as nat) + tree_size(nodes[n - 1])
    }
}


/// The number of boxes in the tree that `path` leads to, or 0 where it leads nowhere.
pub open spec fn size_at(nodes: Seq<HitNode>, path: Seq<usize>) -> nat {
    match node_at(nodes, path) {
        Some(n) => tree_size(n),
        None => 0,
    }
}

/// The number of boxes in the trees of the waiting boxes: what bounds the rest of the
/// search.
pub open spec fn frontier_size(nodes: Seq<HitNode>, f: Seq<(u32, Vec<usize>)>) -> nat
    decreases f.len(),
{
    if f.len() == 0 {
        0
    } else {
        frontier_size(nodes, f.drop_last()) + size_at(nodes, f.last().1@)
    }
}

/// The largest distance key of the boxes before the last one on `path`, or -1 where there
/// are none.
pub open spec fn above(nodes: Seq<HitNode>, path: Seq<usize>) -> int {
    if path.len() <= 1 {
        -1
    } else {
        bottleneck(nodes, path.drop_last())
    }
}

proof fn lemma_node_at_push(nodes: Seq<HitNode>, p: Seq<usize>, j: usize)
    requires
        p.len() > 0,
    ensures
        node_at(nodes, p.push(j)) == match node_at(nodes, p) {
            Some(n) => if j < n.inner@.len() {
                Some(n.inner@[j as int])
            } else {
                None
            },
            None => None,
        },
    decreases p.len(),
{
    let q = p.push(j);
    assert(q[0] == p[0]);
    if p[0] < nodes.len() {
        if p.len() == 1 {
            assert(q.drop_first() =~= seq![j]);
            let inner = nodes[p[0] as int].inner@;
            assert(node_at(nodes, q) == node_at(inner, seq![j]));
            assert(seq![j][0] == j);
        } else {
            assert(q.drop_first() =~= p.drop_first().push(j));
            lemma_node_at_push(nodes[p[0] as int].inner@, p.drop_first(), j);
        }
    }
}

proof fn lemma_hit_path_push(nodes: Seq<HitNode>, p: Seq<usize>, j: usize)
    requires
        p.len() > 0,
    ensures
        hit_path(nodes, p.push(j)) <==> hit_path(nodes, p) && is_hit(node_at(nodes, p.push(j))),
{
    let q = p.push(j);
    assert forall|k: int| 1 <= k <= p.len() implies #[trigger] q.take(k) == p.take(k) by {
        assert(q.take(k) =~= p.take(k));
    }
    assert(q.take(q.len() as int) =~= q);
    assert(p.take(p.len() as int) =~= p);
    if hit_path(nodes, q) {
        assert forall|k: int| 1 <= k <= p.len() implies is_hit(
            #[trigger] node_at(nodes, p.take(k)),
        ) by {
            assert(q.take(k) == p.take(k));
            assert(is_hit(node_at(nodes, q.take(k))));
        }
        assert(is_hit(node_at(nodes, q.take(q.len() as int))));
    }
    if hit_path(nodes, p) && is_hit(node_at(nodes, q)) {
        assert forall|k: int| 1 <= k <= q.len() implies is_hit(
            #[trigger] node_at(nodes, q.take(k)),
        ) by {
            if k <= p.len() {
                assert(q.take(k) == p.take(k));
                assert(is_hit(node_at(nodes, p.take(k))));
            }
        }
    }
}

proof fn lemma_hit_path_prefix(nodes: Seq<HitNode>, a: Seq<usize>, q: Seq<usize>)
    requires
        hit_path(nodes, q),
        is_prefix(a, q),
        a.len() > 0,
    ensures
        hit_path(nodes, a),
        key_at(nodes, a) <= bottleneck(nodes, q),
        bottleneck(nodes, a) <= bottleneck(nodes, q),
    decreases q.len() - a.len(),
{
    if a.len() == q.len() {
        assert(q.take(q.len() as int) =~= q);
        assert(a =~= q);
    } else {
        let q2 = q.drop_last();
        assert(q2 =~= q.take(q.len() - 1));
        assert(q2.push(q.last()) =~= q);
        lemma_hit_path_push(nodes, q2, q.last());
        assert(q2.take(a.len() as int) =~= q.take(a.len() as int));
        lemma_hit_path_prefix(nodes, a, q2);
    }
}

proof fn lemma_frontier_remove(nodes: Seq<HitNode>, f: Seq<(u32, Vec<usize>)>, i: int)
    requires
        0 <= i < f.len(),
    ensures
        frontier_size(nodes, f.remove(i)) + size_at(nodes, f[i].1@) == frontier_size(nodes, f),
    decreases f.len(),
{
    if i == f.len() - 1 {
        assert(f.remove(i) =~= f.drop_last());
    } else {
        assert(f.remove(i).drop_last() =~= f.drop_last().remove(i));
        assert(f.remove(i).last() == f.last());
        lemma_frontier_remove(nodes, f.drop_last(), i);
    }
}

proof fn lemma_frontier_push(nodes: Seq<HitNode>, f: Seq<(u32, Vec<usize>)>, e: (u32, Vec<usize>))
    ensures
        frontier_size(nodes, f.push(e)) == frontier_size(nodes, f) + size_at(nodes, e.1@),
{
    assert(f.push(e).drop_last() =~= f);
}

/// The box that `path` leads to.
fn node_of<'a>(roots: &'a Vec<HitNode>, path: &Vec<usize>) -> (r: &'a HitNode)
    requires
        node_at(roots@, path@) is Some,
    ensures
        node_at(roots@, path@) == Some(*r),
{
    let mut cur: &Vec<HitNode> = roots;
    let mut t: usize = 0;
    assert(path@.skip(0) =~= path@);
    while t < path.len() - 1
        invariant
            t < path@.len(),
            node_at(roots@, path@) == node_at(cur@, path@.skip(t as int)),
            node_at(roots@, path@) is Some,
        decreases path@.len() - t,
    {
        let ghost here = path@.skip(t as int);
        assert(here.drop_first() =~= path@.skip(t + 1));
        assert(here[0] == path@[t as int]);
        cur = &cur[path[t]].inner;
        t = t + 1;
    }
    assert(path@.skip(t as int) =~= seq![path@[t as int]]);
    &cur[path[t]]
}

/// `path` with `j` appended.
fn extended_path(path: &Vec<usize>, j: usize) -> (r: Vec<usize>)
    ensures
        r@ == path@.push(j),
{
    let mut r: Vec<usize> = Vec::new();
    let mut t: usize = 0;
    while t < path.len()
        invariant
            t <= path@.len(),
            r@ == path@.take(t as int),
        decreases path@.len() - t,
    {
        r.push(path[t]);
        t = t + 1;
        assert(r@ =~= path@.take(t as int));
    }
    assert(path@.take(path@.len() as int) =~= path@);
    r.push(j);
    r
}

/// The index of a waiting box with the smallest distance key.
fn nearest(frontier: &Vec<(u32, Vec<usize>)>) -> (r: usize)
    requires
        frontier@.len() > 0,
    ensures
        r < frontier@.len(),
        forall|t: int| 0 <= t < frontier@.len() ==> frontier@[r as int].0 <= #[trigger] frontier@[t].0,
{
    let mut best: usize = 0;
    let mut t: usize = 1;
    while t < frontier.len()
        invariant
            1 <= t <= frontier@.len(),
            best < t,
            forall|u: int| 0 <= u < t ==> frontier@[best as int].0 <= #[trigger] frontier@[u].0,
        decreases frontier@.len() - t,
    {
        if frontier[t].0 < frontier[best].0 {
            best = t;
        }
        t = t + 1;
    }
    best
}


/// Whether a waiting entry holds a hit path with the distance key of its last box.
pub open spec fn entry_ok(nodes: Seq<HitNode>, e: (u32, Vec<usize>)) -> bool {
    hit_path(nodes, e.1@) && e.0 as int == key_at(nodes, e.1@)
}

/// Whether some waiting entry leads to a beginning of `q`.
pub open spec fn covered(f: Seq<(u32, Vec<usize>)>, q: Seq<usize>) -> bool {
    exists|t: int| 0 <= t < f.len() && #[trigger] is_prefix(f[t].1@, q)
}

/// Whether the entries of `f` from `base` on are the hit inner boxes of the box at `path`
/// before `j`, in order.
pub open spec fn children_pushed(
    nodes: Seq<HitNode>,
    f: Seq<(u32, Vec<usize>)>,
    base: int,
    path: Seq<usize>,
    inner: Seq<HitNode>,
    j: int,
) -> bool {
    &&& forall|t: int|
        base <= t < f.len() ==> exists|c: usize|
            c < j && (#[trigger] f[t]).1@ == path.push(c)
    &&& forall|c: usize|
        c < j && (#[trigger] inner[c as int]).hit is Some ==> exists|t: int|
            base <= t < f.len() && f[t].1@ == path.push(c)
}

/// The path to the hit box that the ray reaches first among those without inner boxes, as
/// the search finds it: a box without inner boxes that is hit and reached through hit boxes,
/// with the smallest largest distance key on the way. `None` where there is no such box.
pub fn check_hit(roots: &Vec<HitNode>) -> (r: Option<Vec<usize>>)
    ensures
        match r {
            Some(p) => hit_leaf(roots@, p@) && forall|q: Seq<usize>| #[trigger]
                hit_leaf(roots@, q) ==> bottleneck(roots@, p@) <= bottleneck(roots@, q),
            None => forall|q: Seq<usize>| !(#[trigger] hit_leaf(roots@, q)),
        },
{
    let ghost nodes = roots@;
    let mut frontier: Vec<(u32, Vec<usize>)> = Vec::new();
    let mut i: usize = 0;
    while i < roots.len()
        invariant
            i <= roots@.len(),
            nodes == roots@,
            forall|t: int| 0 <= t < frontier@.len() ==> entry_ok(nodes, #[trigger] frontier@[t]),
            forall|t: int|
                0 <= t < frontier@.len() ==> above(nodes, (#[trigger] frontier@[t]).1@) <= -1,
            forall|q: Seq<usize>|
                #[trigger] hit_leaf(nodes, q) && q[0] < i ==> covered(frontier@, q),
        decreases roots@.len() - i,
    {
        if let Some(d) = roots[i].hit {
            let mut p: Vec<usize> = Vec::new();
            p.push(i);
            let ghost before = frontier@;
            proof {
                assert(p@.take(1) =~= p@);
                assert(node_at(nodes, p@) == Some(nodes[i as int]));
            }
            frontier.push((d, p));
            proof {
                assert forall|q: Seq<usize>| #[trigger]
                    hit_leaf(nodes, q) && q[0] < i + 1 implies covered(frontier@, q) by {
                    if q[0] < i {
                        let t = choose|t: int| 0 <= t < before.len() && #[trigger] is_prefix(before[t].1@, q);
                        assert(frontier@[t] == before[t]);
                    } else {
                        assert(q.take(1) =~= p@);
                        assert(is_prefix(frontier@[before.len() as int].1@, q));
                    }
                }
            }
        } else {
            proof {
                assert forall|q: Seq<usize>| #[trigger]
                    hit_leaf(nodes, q) && q[0] < i + 1 implies covered(frontier@, q) by {
                    if q[0] == i {
                        assert(is_hit(node_at(nodes, q.take(1))));
                        assert(q.take(1) =~= seq![i]);
                    }
                }
            }
        }
        i = i + 1;
    }
    proof {
        assert forall|q: Seq<usize>| #[trigger] hit_leaf(nodes, q) implies covered(frontier@, q) by {
            assert(is_hit(node_at(nodes, q.take(1))));
            assert(q.take(1)[0] == q[0]);
        }
    }
    let ghost mut m: int = -1;
    loop
        invariant
            nodes == roots@,
            forall|t: int| 0 <= t < frontier@.len() ==> entry_ok(nodes, #[trigger] frontier@[t]),
            forall|t: int|
                0 <= t < frontier@.len() ==> above(nodes, (#[trigger] frontier@[t]).1@) <= m,
            forall|q: Seq<usize>| #[trigger] hit_leaf(nodes, q) ==> covered(frontier@, q),
            forall|q: Seq<usize>| #[trigger] hit_leaf(nodes, q) ==> bottleneck(nodes, q) >= m,
        decreases frontier_size(nodes, frontier@),
    {
        if frontier.len() == 0 {
            return None;
        }
        let idx = nearest(&frontier);
        let ghost f0 = frontier@;
        let (k, path) = frontier.remove(idx);
        let ghost base = frontier@;
        proof {
            assert(f0[idx as int] == (k, path));
            assert(entry_ok(nodes, f0[idx as int]));
            assert(path@.take(path@.len() as int) =~= path@);
            assert(is_hit(node_at(nodes, path@.take(path@.len() as int))));
            lemma_frontier_remove(nodes, f0, idx as int);
        }
        let node = node_of(roots, &path);
        let ghost m2: int = if m >= k {
            m
        } else {
            k as int
        };
        proof {
            // every box still to be found lies at least as far as `k`
            assert forall|q: Seq<usize>| #[trigger] hit_leaf(nodes, q) implies bottleneck(nodes, q)
                >= m2 by {
                let t = choose|t: int| 0 <= t < f0.len() && #[trigger] is_prefix(f0[t].1@, q);
                assert(entry_ok(nodes, f0[t]));
                lemma_hit_path_prefix(nodes, f0[t].1@, q);
            }
            // the boxes on the way to this one lie no farther than `m2`
            if path@.len() > 1 {
                assert(bottleneck(nodes, path@) <= m2);
            }
        }
        if node.inner.len() == 0 {
            proof {
                assert(hit_leaf(nodes, path@));
            }
            return Some(path);
        }
        let mut j: usize = 0;
        proof {
            assert(frontier@.take(base.len() as int) =~= base);
            assert(inner_size(node.inner@, 0) == 0);
        }
        while j < node.inner.len()
            invariant
                j <= node.inner@.len(),
                nodes == roots@,
                node_at(nodes, path@) == Some(*node),
                entry_ok(nodes, (k, path)),
                frontier@.len() >= base.len(),
                frontier@.take(base.len() as int) == base,
                forall|t: int|
                    base.len() <= t < frontier@.len() ==> entry_ok(nodes, #[trigger] frontier@[t]),
                forall|t: int|
                    base.len() <= t < frontier@.len() ==> above(nodes, (#[trigger] frontier@[t]).1@)
                        == bottleneck(nodes, path@),
                children_pushed(nodes, frontier@, base.len() as int, path@, node.inner@, j as int),
                frontier_size(nodes, frontier@) <= frontier_size(nodes, base) + inner_size(
                    node.inner@,
                    j as nat,
                ),
            decreases node.inner@.len() - j,
        {
            let ghost before = frontier@;
            proof {
                lemma_node_at_push(nodes, path@, j);
            }
            if let Some(d) = node.inner[j].hit {
                let child = extended_path(&path, j);
                proof {
                    lemma_hit_path_push(nodes, path@, j);
                    assert(child@.drop_last() =~= path@);
                }
                frontier.push((d, child));
                proof {
                    lemma_frontier_push(nodes, before, (d, child));
                    assert(frontier@.take(base.len() as int) =~= before.take(base.len() as int));
                    assert forall|t: int|
                        base.len() <= t < frontier@.len() implies exists|c: usize|
                            c < j + 1 && (#[trigger] frontier@[t]).1@ == path@.push(c) by {
                        if t < before.len() {
                            assert(frontier@[t] == before[t]);
                            let c = choose|c: usize| c < j && (#[trigger] before[t]).1@ == path@.push(c);
                        } else {
                            assert(frontier@[t].1@ == path@.push(j));
                        }
                    }
                    assert forall|c: usize|
                        c < j + 1 && (#[trigger] node.inner@[c as int]).hit is Some implies exists|
                            t: int,
                        | base.len() <= t < frontier@.len() && frontier@[t].1@ == path@.push(c) by {
                        if c < j {
                            let t = choose|t: int|
                                base.len() <= t < before.len() && before[t].1@ == path@.push(c);
                            assert(frontier@[t] == before[t]);
                        } else {
                            assert(frontier@[before.len() as int].1@ == path@.push(c));
                        }
                    }
                }
            } else {
                proof {
                    assert forall|c: usize|
                        c < j + 1 && (#[trigger] node.inner@[c as int]).hit is Some implies exists|
                            t: int,
                        | base.len() <= t < frontier@.len() && frontier@[t].1@ == path@.push(c) by {
                        if c < j {
                        }
                    }
                    assert forall|t: int|
                        base.len() <= t < frontier@.len() implies exists|c: usize|
                            c < j + 1 && (#[trigger] frontier@[t]).1@ == path@.push(c) by {
                        let c = choose|c: usize| c < j && (#[trigger] frontier@[t]).1@ == path@.push(c);
                    }
                }
            }
            j = j + 1;
        }
        proof {
            assert(tree_size(*node) == 1 + inner_size(node.inner@, node.inner@.len()));
            // every entry is well formed and below `m2`
            assert forall|t: int| 0 <= t < frontier@.len() implies entry_ok(
                nodes,
                #[trigger] frontier@[t],
            ) && above(nodes, frontier@[t].1@) <= m2 by {
                if t < base.len() {
                    assert(frontier@[t] == frontier@.take(base.len() as int)[t]);
                    if t < idx {
                        assert(base[t] == f0[t]);
                    } else {
                        assert(base[t] == f0[t + 1]);
                    }
                }
            }
            // every box still to be found is reached through a waiting entry
            assert forall|q: Seq<usize>| #[trigger] hit_leaf(nodes, q) implies covered(
                frontier@,
                q,
            ) by {
                let t0 = choose|t: int| 0 <= t < f0.len() && #[trigger] is_prefix(f0[t].1@, q);
                if t0 < idx {
                    assert(base[t0] == f0[t0]);
                    assert(frontier@[t0] == frontier@.take(base.len() as int)[t0]);
                    assert(is_prefix(frontier@[t0].1@, q));
                } else if t0 > idx {
                    assert(base[t0 - 1] == f0[t0]);
                    assert(frontier@[t0 - 1] == frontier@.take(base.len() as int)[t0 - 1]);
                    assert(is_prefix(frontier@[t0 - 1].1@, q));
                } else {
                    let n = path@.len();
                    if q.len() == n {
                        assert(q.take(n as int) =~= q);
                        assert(false);
                    }
                    let c = q[n as int];
                    let cp = path@.push(c);
                    assert(q.take(n as int + 1) =~= cp);
                    assert(is_hit(node_at(nodes, q.take(n as int + 1))));
                    lemma_node_at_push(nodes, path@, c);
                    assert(node.inner@[c as int].hit is Some);
                    let t = choose|t: int|
                        base.len() <= t < frontier@.len() && frontier@[t].1@ == path@.push(c);
                    assert(is_prefix(frontier@[t].1@, q));
                }
            }
            m = m2;
        }
    }
}

} // verus!
