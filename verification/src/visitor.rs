use vstd::prelude::*;

use crate::field::{Field, FieldS, fields_view};
use crate::pool::{Handle, Pool};
use std::collections::HashMap;

verus! {

/// One tree node: a name, an ordered sequence of fields, a parent handle and
/// an ordered sequence of child handles.
#[derive(Clone, Debug)]
pub struct VisitorNode {
    pub name: String,
    pub fields: Vec<Field>,
    pub parent: Handle,
    pub children: Vec<Handle>,
}

impl Default for VisitorNode {
    fn default() -> (n: VisitorNode)
        ensures
            n.name@ == Seq::<char>::empty(),
            n.fields@ == Seq::<Field>::empty(),
            n.parent == Handle::spec_none(),
            n.children@ == Seq::<Handle>::empty(),
    {
        VisitorNode {
            name: String::new(),
            fields: Vec::new(),
            parent: Handle { index: 0, generation: 0 },
            children: Vec::new(),
        }
    }
}

/// Option bits carried by a visitor; none are defined by the wire formats.
#[derive(Clone, Copy, PartialEq, Eq, Debug, Structural)]
pub struct VisitorFlags(pub u32);

impl VisitorFlags {
    pub fn none() -> (f: VisitorFlags)
        ensures
            f.0 == 0,
    {
        VisitorFlags(0)
    }
}

/// The reconstructed tree: a pool of nodes, the root handle, the cursor used
/// during traversal, and identity-keyed maps that deduplicate shared
/// sub-objects across the graph.
#[derive(Debug)]
pub struct Visitor {
    pub nodes: Pool<VisitorNode>,
    pub root: Handle,
    pub current_node: Handle,
    pub reading: bool,
    pub rc_map: HashMap<u64, Handle>,
    pub arc_map: HashMap<u64, Handle>,
    pub flags: VisitorFlags,
}

/// The slot sequence of a node pool.
pub type PoolV = Seq<(u32, Option<VisitorNode>)>;

/// A logical serialized tree: what both wire formats encode.
#[verifier::ext_equal]
pub struct TreeS {
    pub name: Seq<char>,
    pub fields: Seq<FieldS>,
    pub children: Seq<TreeS>,
}

pub open spec fn empty_tree() -> TreeS {
    TreeS { name: Seq::empty(), fields: Seq::empty(), children: Seq::empty() }
}

/// The node stored at slot `i`.
pub open spec fn node_at(p: PoolV, i: int) -> VisitorNode
    recommends
        0 <= i < p.len(),
        p[i].1 is Some,
{
    p[i].1->Some_0
}

/// Every slot of the pool is occupied: nothing was ever freed.
pub open spec fn full_pool(p: PoolV) -> bool {
    forall|k: int| 0 <= k < p.len() ==> (#[trigger] p[k]).1 is Some
}

/// The logical tree rooted at slot `i`, reading child handles downward.
/// Handles that do not point strictly below the current bound yield a
/// placeholder; a well-formed region (see [`forest`]) never contains any.
pub open spec fn tree_of(p: PoolV, i: int) -> TreeS
    decreases i, 1int, 0int,
{
    if 0 <= i < p.len() && p[i].1 is Some {
        let n = node_at(p, i);
        TreeS {
            name: n.name@,
            fields: fields_view(n.fields@),
            children: trees_of(p, n.children@, i),
        }
    } else {
        empty_tree()
    }
}

/// The logical trees rooted at each handle of `hs`, all expected below `b`.
pub open spec fn trees_of(p: PoolV, hs: Seq<Handle>, b: int) -> Seq<TreeS>
    decreases b, 0int, hs.len(),
{
    if hs.len() == 0 {
        Seq::empty()
    } else if 0 <= (hs[0].index as int) < b {
        seq![tree_of(p, hs[0].index as int)] + trees_of(p, hs.drop_first(), b)
    } else {
        seq![empty_tree()] + trees_of(p, hs.drop_first(), b)
    }
}

/// Two slots agree on everything [`tree_of`] reads: occupancy, name, fields
/// and children. The generation and the parent pointer may differ.
pub open spec fn core_eq(a: (u32, Option<VisitorNode>), b: (u32, Option<VisitorNode>)) -> bool {
    match (a.1, b.1) {
        (Some(na), Some(nb)) => na.name@ == nb.name@ && fields_view(na.fields@) == fields_view(
            nb.fields@,
        ) && na.children@ == nb.children@,
        (None, None) => true,
        _ => false,
    }
}

/// The region `[lo, hi)` of the pool holds a forest whose roots, in order,
/// are `roots`:
/// - every slot in the region is occupied, with a generation of at least 1;
/// - every child handle of a region node points strictly below its node,
///   inside the region, at the matching generation, and the child's parent
///   pointer aims back at the node;
/// - every root handle points into the region at the matching generation,
///   and the root's parent is the sentinel;
/// - a region node's parent is the sentinel exactly when it is one of the
///   roots; otherwise its parent resolves inside the region to a node that
///   lists it among its children.
pub open spec fn forest(p: PoolV, lo: int, hi: int, roots: Seq<Handle>) -> bool {
    &&& 0 <= lo <= hi <= p.len()
    &&& forall|k: int|
        lo <= k < hi ==> (#[trigger] p[k]).1 is Some && p[k].0 >= 1
    &&& forall|k: int, ci: int|
        lo <= k < hi && 0 <= ci < node_at(p, k).children@.len() ==> {
            let c = #[trigger] node_at(p, k).children@[ci];
            &&& lo <= (c.index as int) < k
            &&& p[c.index as int].0 == c.generation
            &&& node_at(p, c.index as int).parent == (Handle {
                index: k as u32,
                generation: p[k].0,
            })
        }
    &&& forall|ri: int|
        0 <= ri < roots.len() ==> {
            let r = #[trigger] roots[ri];
            &&& lo <= (r.index as int) < hi
            &&& p[r.index as int].0 == r.generation
            &&& node_at(p, r.index as int).parent == Handle::spec_none()
        }
    &&& forall|k: int|
        lo <= k < hi && (#[trigger] node_at(p, k)).parent == Handle::spec_none() ==> exists|ri: int|
            0 <= ri < roots.len() && roots[ri].index as int == k
    &&& forall|k: int|
        lo <= k < hi && (#[trigger] node_at(p, k)).parent != Handle::spec_none() ==> {
            let pr = node_at(p, k).parent;
            &&& k < (pr.index as int) < hi
            &&& p[pr.index as int].0 == pr.generation
            &&& exists|ci: int|
                0 <= ci < node_at(p, pr.index as int).children@.len() && node_at(
                    p,
                    pr.index as int,
                ).children@[ci] == (Handle { index: k as u32, generation: p[k].0 })
        }
}

/// A fully decoded visitor: the whole pool is one tree rooted at `root`,
/// and the cursor sits at the root.
pub open spec fn visitor_wf(v: Visitor) -> bool {
    &&& v.nodes.wf()
    &&& full_pool(v.nodes@)
    &&& forest(v.nodes@, 0, v.nodes@.len() as int, seq![v.root])
    &&& v.root.index as int == v.nodes@.len() - 1
    &&& v.current_node == v.root
}

/// The logical tree a fully decoded visitor holds.
pub open spec fn visitor_tree(v: Visitor) -> TreeS {
    tree_of(v.nodes@, v.root.index as int)
}

/// `tree_of` reads only slot cores at or below its root: pools that agree
/// there yield the same tree.
pub proof fn lemma_tree_of_frame(p1: PoolV, p2: PoolV, i: int)
    requires
        0 <= i < p1.len(),
        i < p2.len(),
        forall|k: int| 0 <= k <= i ==> core_eq(#[trigger] p1[k], #[trigger] p2[k]),
    ensures
        tree_of(p1, i) == tree_of(p2, i),
    decreases i, 1int, 0int,
{
    if 0 <= i && i < p1.len() && i < p2.len() {
        if p1[i].1 is Some {
            let n1 = node_at(p1, i);
            let n2 = node_at(p2, i);
            assert(core_eq(p1[i], p2[i]));
            lemma_trees_of_frame(p1, p2, n1.children@, i);
            assert(tree_of(p1, i) =~= tree_of(p2, i));
        }
    }
}

/// The list form of [`lemma_tree_of_frame`].
pub proof fn lemma_trees_of_frame(p1: PoolV, p2: PoolV, hs: Seq<Handle>, b: int)
    requires
        b <= p1.len(),
        b <= p2.len(),
        forall|k: int| 0 <= k < b ==> core_eq(#[trigger] p1[k], #[trigger] p2[k]),
    ensures
        trees_of(p1, hs, b) == trees_of(p2, hs, b),
    decreases b, 0int, hs.len(),
{
    if hs.len() > 0 {
        if 0 <= (hs[0].index as int) < b {
            lemma_tree_of_frame(p1, p2, hs[0].index as int);
        }
        lemma_trees_of_frame(p1, p2, hs.drop_first(), b);
        assert(trees_of(p1, hs, b) =~= trees_of(p2, hs, b));
    } else {
        assert(trees_of(p1, hs, b) =~= trees_of(p2, hs, b));
    }
}

/// Appending a root to a handle list appends its tree.
pub proof fn lemma_trees_of_push(p: PoolV, hs: Seq<Handle>, h: Handle, b: int)
    requires
        0 <= (h.index as int) < b,
    ensures
        trees_of(p, hs.push(h), b) == trees_of(p, hs, b).push(tree_of(p, h.index as int)),
    decreases hs.len(),
{
    if hs.len() == 0 {
        assert(hs.push(h)[0] == h);
        assert(hs.push(h).drop_first() =~= Seq::<Handle>::empty());
        assert(trees_of(p, hs.push(h), b) == seq![tree_of(p, h.index as int)] + trees_of(
            p,
            hs.push(h).drop_first(),
            b,
        ));
        assert(trees_of(p, hs.push(h).drop_first(), b) == Seq::<TreeS>::empty());
        assert(trees_of(p, hs, b) == Seq::<TreeS>::empty());
        assert(trees_of(p, hs.push(h), b) =~= trees_of(p, hs, b).push(
            tree_of(p, h.index as int),
        ));
    } else {
        assert(hs.push(h).drop_first() =~= hs.drop_first().push(h));
        assert(hs.push(h)[0] == hs[0]);
        lemma_trees_of_push(p, hs.drop_first(), h, b);
        assert(trees_of(p, hs.push(h), b) =~= trees_of(p, hs, b).push(
            tree_of(p, h.index as int),
        ));
    }
}

/// `n` with its parent pointer replaced.
pub open spec fn reparented(n: VisitorNode, h: Handle) -> VisitorNode {
    VisitorNode { name: n.name, fields: n.fields, parent: h, children: n.children }
}

/// The pool with the parent pointer of every slot named by `kids` aimed at
/// `h`; slots outside `kids` are untouched.
pub open spec fn reparented_all(p: PoolV, kids: Seq<Handle>, h: Handle) -> PoolV
    decreases kids.len(),
{
    if kids.len() == 0 {
        p
    } else {
        let q = reparented_all(p, kids.drop_last(), h);
        let i = kids.last().index as int;
        if 0 <= i < q.len() && q[i].1 is Some {
            q.update(i, (q[i].0, Some(reparented(node_at(q, i), h))))
        } else {
            q
        }
    }
}

/// What reparenting does, slot by slot: lengths, generations, occupancy and
/// cores are kept; named occupied slots end up with parent `h`; slots not
/// named keep their exact old value.
pub proof fn lemma_reparented_all(p: PoolV, kids: Seq<Handle>, h: Handle)
    ensures
        reparented_all(p, kids, h).len() == p.len(),
        forall|k: int|
            0 <= k < p.len() ==> (#[trigger] reparented_all(p, kids, h)[k]).0 == p[k].0 && (
            reparented_all(p, kids, h)[k].1 is Some <==> p[k].1 is Some) && core_eq(
                reparented_all(p, kids, h)[k],
                p[k],
            ),
        forall|j: int|
            0 <= j < kids.len() && ((#[trigger] kids[j]).index as int) < p.len() && p[kids[j].index as int].1
                is Some ==> node_at(reparented_all(p, kids, h), kids[j].index as int).parent == h,
        forall|k: int|
            0 <= k < p.len() && (forall|j: int|
                0 <= j < kids.len() ==> (#[trigger] kids[j]).index as int != k) ==> reparented_all(
                p,
                kids,
                h,
            )[k] == p[k],
    decreases kids.len(),
{
    if kids.len() > 0 {
        lemma_reparented_all(p, kids.drop_last(), h);
        let q = reparented_all(p, kids.drop_last(), h);
        let r = reparented_all(p, kids, h);
        let i = kids.last().index as int;
        assert forall|j: int|
            0 <= j < kids.len() && ((#[trigger] kids[j]).index as int) < p.len() && p[kids[j].index as int].1
                is Some implies node_at(r, kids[j].index as int).parent == h by {
            if j < kids.len() - 1 && kids[j].index as int != i {
                assert(kids.drop_last()[j] == kids[j]);
                assert(node_at(q, kids[j].index as int).parent == h);
            }
        }
        assert forall|k: int|
            0 <= k < p.len() && (forall|j: int|
                0 <= j < kids.len() ==> (#[trigger] kids[j]).index as int != k) implies r[k] == p[k] by {
            assert forall|j: int|
                0 <= j < kids.drop_last().len() implies (#[trigger] kids.drop_last()[j]).index as int != k by {
                assert(kids.drop_last()[j] == kids[j]);
            }
            assert(kids[kids.len() - 1].index as int != k);
        }
    }
}

/// `trees_of` ignores its bound beyond the handles' indices.
pub proof fn lemma_trees_of_bound(p: PoolV, hs: Seq<Handle>, b1: int, b2: int)
    requires
        b1 <= b2,
        forall|j: int| 0 <= j < hs.len() ==> ((#[trigger] hs[j]).index as int) < b1,
    ensures
        trees_of(p, hs, b1) == trees_of(p, hs, b2),
    decreases hs.len(),
{
    if hs.len() > 0 {
        assert(hs[0] == hs[0]);
        assert forall|j: int| 0 <= j < hs.drop_first().len() implies ((#[trigger] hs.drop_first()[j]).index
            as int) < b1 by {
            assert(hs.drop_first()[j] == hs[j + 1]);
        }
        lemma_trees_of_bound(p, hs.drop_first(), b1, b2);
        assert(trees_of(p, hs, b1) =~= trees_of(p, hs, b2));
    }
}

/// A forest only reads its own region: pools equal there agree on it.
pub proof fn lemma_forest_frame(p1: PoolV, p2: PoolV, lo: int, hi: int, roots: Seq<Handle>)
    requires
        forest(p1, lo, hi, roots),
        hi <= p2.len(),
        forall|k: int| lo <= k < hi ==> #[trigger] p2[k] == p1[k],
    ensures
        forest(p2, lo, hi, roots),
{
    assert forall|k: int, ci: int|
        lo <= k < hi && 0 <= ci < node_at(p2, k).children@.len() implies {
            let c = #[trigger] node_at(p2, k).children@[ci];
            &&& lo <= (c.index as int) < k
            &&& p2[c.index as int].0 == c.generation
            &&& node_at(p2, c.index as int).parent == (Handle { index: k as u32, generation: p2[k].0 })
        } by {
        assert(p2[k] == p1[k]);
        let c = node_at(p1, k).children@[ci];
        assert(p2[c.index as int] == p1[c.index as int]);
    }
    assert forall|ri: int| 0 <= ri < roots.len() implies {
        let r = #[trigger] roots[ri];
        &&& lo <= (r.index as int) < hi
        &&& p2[r.index as int].0 == r.generation
        &&& node_at(p2, r.index as int).parent == Handle::spec_none()
    } by {
        assert(p2[roots[ri].index as int] == p1[roots[ri].index as int]);
    }
    assert forall|k: int|
        lo <= k < hi && (#[trigger] node_at(p2, k)).parent == Handle::spec_none() implies exists|ri: int|
            0 <= ri < roots.len() && roots[ri].index as int == k by {
        assert(p2[k] == p1[k]);
        assert(node_at(p1, k).parent == Handle::spec_none());
    }
    assert forall|k: int|
        lo <= k < hi && (#[trigger] node_at(p2, k)).parent != Handle::spec_none() implies {
            let pr = node_at(p2, k).parent;
            &&& k < (pr.index as int) < hi
            &&& p2[pr.index as int].0 == pr.generation
            &&& exists|ci: int|
                0 <= ci < node_at(p2, pr.index as int).children@.len() && node_at(
                    p2,
                    pr.index as int,
                ).children@[ci] == (Handle { index: k as u32, generation: p2[k].0 })
        } by {
        assert(p2[k] == p1[k]);
        let pr = node_at(p1, k).parent;
        assert(p2[pr.index as int] == p1[pr.index as int]);
        let ci0 = choose|ci: int|
            0 <= ci < node_at(p1, pr.index as int).children@.len() && node_at(
                p1,
                pr.index as int,
            ).children@[ci] == (Handle { index: k as u32, generation: p1[k].0 });
        assert(node_at(p2, pr.index as int).children@[ci0] == (Handle {
            index: k as u32,
            generation: p2[k].0,
        }));
    }
}

/// Two adjacent forests are one forest whose roots are both root lists in
/// order.
pub proof fn lemma_forest_union(p: PoolV, lo: int, mid: int, hi: int, r1: Seq<Handle>, r2: Seq<Handle>)
    requires
        forest(p, lo, mid, r1),
        forest(p, mid, hi, r2),
    ensures
        forest(p, lo, hi, r1 + r2),
{
    let rs = r1 + r2;
    assert forall|k: int, ci: int|
        lo <= k < hi && 0 <= ci < node_at(p, k).children@.len() implies {
            let c = #[trigger] node_at(p, k).children@[ci];
            &&& lo <= (c.index as int) < k
            &&& p[c.index as int].0 == c.generation
            &&& node_at(p, c.index as int).parent == (Handle { index: k as u32, generation: p[k].0 })
        } by {
        if k < mid {
            assert(forest(p, lo, mid, r1));
        } else {
            assert(forest(p, mid, hi, r2));
        }
    }
    assert forall|ri: int| 0 <= ri < rs.len() implies {
        let r = #[trigger] rs[ri];
        &&& lo <= (r.index as int) < hi
        &&& p[r.index as int].0 == r.generation
        &&& node_at(p, r.index as int).parent == Handle::spec_none()
    } by {
        if ri < r1.len() {
            assert(rs[ri] == r1[ri]);
        } else {
            assert(rs[ri] == r2[ri - r1.len()]);
        }
    }
    assert forall|k: int|
        lo <= k < hi && (#[trigger] node_at(p, k)).parent == Handle::spec_none() implies exists|ri: int|
            0 <= ri < rs.len() && rs[ri].index as int == k by {
        if k < mid {
            let ri = choose|ri: int| 0 <= ri < r1.len() && r1[ri].index as int == k;
            assert(rs[ri] == r1[ri]);
            assert(rs[ri].index as int == k);
        } else {
            let ri = choose|ri: int| 0 <= ri < r2.len() && r2[ri].index as int == k;
            assert(rs[r1.len() + ri] == r2[ri]);
            assert(rs[r1.len() + ri].index as int == k);
        }
    }
    assert forall|k: int|
        lo <= k < hi && (#[trigger] node_at(p, k)).parent != Handle::spec_none() implies {
            let pr = node_at(p, k).parent;
            &&& k < (pr.index as int) < hi
            &&& p[pr.index as int].0 == pr.generation
            &&& exists|ci: int|
                0 <= ci < node_at(p, pr.index as int).children@.len() && node_at(
                    p,
                    pr.index as int,
                ).children@[ci] == (Handle { index: k as u32, generation: p[k].0 })
        } by {
        if k < mid {
            assert(forest(p, lo, mid, r1));
        } else {
            assert(forest(p, mid, hi, r2));
        }
    }
}

fn copy_handles(v: &Vec<Handle>) -> (r: Vec<Handle>)
    ensures
        r@ == v@,
{
    let mut r: Vec<Handle> = Vec::new();
    let mut i: usize = 0;
    while i < v.len()
        invariant
            0 <= i <= v@.len(),
            r@ == v@.take(i as int),
        decreases v@.len() - i,
    {
        r.push(v[i]);
        proof {
            assert(r@ =~= v@.take(i as int + 1));
        }
        i += 1;
    }
    proof {
        assert(v@.take(v@.len() as int) =~= v@);
    }
    r
}

/// Spawn a freshly decoded node over the forest of its already-decoded
/// children, then aim each child root's parent pointer back at the new node.
/// The children regions together must fill `[lo, len)`; afterwards the whole
/// region `[lo, len + 1)` is one tree whose root is the new handle.
#[verifier::rlimit(80)]
pub(crate) fn attach_node(
    nodes: &mut Pool<VisitorNode>,
    name: String,
    fields: Vec<Field>,
    children: Vec<Handle>,
    Ghost(lo): Ghost<int>,
) -> (h: Handle)
    requires
        old(nodes).wf(),
        full_pool(old(nodes)@),
        old(nodes)@.len() < u32::MAX,
        forest(old(nodes)@, lo, old(nodes)@.len() as int, children@),
    ensures
        final(nodes).wf(),
        full_pool(final(nodes)@),
        final(nodes)@.len() == old(nodes)@.len() + 1,
        h.index as int == old(nodes)@.len(),
        forall|k: int| 0 <= k < lo ==> final(nodes)@[k] == old(nodes)@[k],
        forest(final(nodes)@, lo, final(nodes)@.len() as int, seq![h]),
        final(nodes).spec_valid(h),
        tree_of(final(nodes)@, h.index as int) == (TreeS {
            name: name@,
            fields: fields_view(fields@),
            children: trees_of(old(nodes)@, children@, old(nodes)@.len() as int),
        }),
    {
        let ghost p0 = old(nodes)@;
        let ghost n0 = old(nodes)@.len() as int;
        let kids = copy_handles(&children);
        let h = nodes.spawn(
            VisitorNode { name, fields, parent: Handle { index: 0, generation: 0 }, children },
        );
        proof {
            // A full pool has no vacant slot, so the spawn appended.
            if (h.index as int) < p0.len() {
                assert(p0[h.index as int].1 is Some);
                assert(false);
            }
        }
        let ghost p1 = nodes@;
        let mut ci: usize = 0;
        while ci < kids.len()
            invariant
                nodes.wf(),
                0 <= ci <= kids@.len(),
                forest(p0, lo, n0, kids@),
                p1.len() == n0 + 1,
                h.index as int == n0,
                h.generation >= 1,
                p1 == p0.push((h.generation, Some(node_at(p1, n0)))),
                node_at(p1, n0).parent == Handle::spec_none(),
                node_at(p1, n0).children@ == kids@,
                nodes@ == reparented_all(p1, kids@.take(ci as int), h),
            decreases kids@.len() - ci,
        {
            let c = kids[ci];
            proof {
                lemma_reparented_all(p1, kids@.take(ci as int), h);
                assert(kids@[ci as int] == c);
                assert(lo <= (c.index as int) < n0);
                assert(p0[c.index as int] == p1[c.index as int]);
                assert(nodes@[c.index as int].0 == c.generation);
                assert(nodes@[c.index as int].1 is Some);
            }
            let node = nodes.borrow_mut(c);
            let ghost before = *node;
            node.parent = h;
            proof {
                let ghost taken = kids@.take(ci as int + 1);
                assert(taken.drop_last() =~= kids@.take(ci as int));
                assert(taken.last() == c);
                assert(*node == reparented(before, h));
                assert(nodes@ =~= reparented_all(p1, taken, h));
            }
            ci += 1;
        }
        proof {
            assert(kids@.take(kids@.len() as int) =~= kids@);
            let p2 = nodes@;
            lemma_reparented_all(p1, kids@, h);
            assert(p2.len() == n0 + 1);

            // Slot cores never change, so every old core is intact.
            assert forall|k: int| 0 <= k < n0 implies core_eq(p2[k], p0[k]) by {
                assert(core_eq(p2[k], p1[k]));
                assert(p1[k] == p0[k]);
            }

            // Which slots were patched: exactly the kid indices, which all had
            // the sentinel parent in p0; every other slot is untouched.
            assert forall|k: int|
                0 <= k < n0 && node_at(p0, k).parent != Handle::spec_none() implies p2[k]
                == p0[k] by {
                assert forall|j: int| 0 <= j < kids@.len() implies kids@[j].index as int != k by {
                    assert(node_at(p0, kids@[j].index as int).parent == Handle::spec_none());
                }
                assert(p2[k] == p1[k]);
            }
            assert(p2[n0] == p1[n0]) by {
                assert forall|j: int| 0 <= j < kids@.len() implies kids@[j].index as int != n0 by {
                    assert(lo <= kids@[j].index as int && (kids@[j].index as int) < n0);
                }
            }
            assert forall|j: int| 0 <= j < kids@.len() implies node_at(
                p2,
                kids@[j].index as int,
            ).parent == h by {
                assert(p0[kids@[j].index as int].1 is Some);
            }

            // The new region is one tree rooted at the new handle.
            assert(forest(p2, lo, n0 + 1, seq![h])) by {
                let roots = seq![h];
                assert(roots[0] == h);
                assert forall|k: int| lo <= k < n0 + 1 implies (#[trigger] p2[k]).1 is Some
                    && p2[k].0 >= 1 by {
                    assert(core_eq(p2[k], p1[k]));
                    if k < n0 {
                        assert(p1[k] == p0[k]);
                    }
                }
                assert forall|k: int, ci2: int|
                    lo <= k < n0 + 1 && 0 <= ci2 < node_at(p2, k).children@.len() implies {
                        let c = #[trigger] node_at(p2, k).children@[ci2];
                        &&& lo <= (c.index as int) < k
                        &&& p2[c.index as int].0 == c.generation
                        &&& node_at(p2, c.index as int).parent == (Handle {
                            index: k as u32,
                            generation: p2[k].0,
                        })
                    } by {
                    if k == n0 {
                        let c = node_at(p2, k).children@[ci2];
                        assert(node_at(p2, n0).children@ == kids@);
                        assert(c == kids@[ci2]);
                        assert(lo <= (c.index as int) < n0);
                        assert(p2[c.index as int].0 == p1[c.index as int].0);
                        assert(p1[c.index as int].0 == p0[c.index as int].0);
                        assert(p0[c.index as int].0 == c.generation);
                        assert(node_at(p2, c.index as int).parent == h);
                        assert(h == (Handle { index: k as u32, generation: p2[k].0 }));
                    } else {
                        assert(core_eq(p2[k], p0[k]));
                        let c = node_at(p2, k).children@[ci2];
                        assert(node_at(p2, k).children@ == node_at(p0, k).children@);
                        assert(lo <= (c.index as int) < k);
                        assert(p2[c.index as int].0 == c.generation);
                        assert(node_at(p0, c.index as int).parent == (Handle {
                            index: k as u32,
                            generation: p0[k].0,
                        }));
                        assert(node_at(p0, c.index as int).parent != Handle::spec_none());
                        assert(p2[c.index as int] == p0[c.index as int]);
                    }
                }
                assert forall|k: int|
                    lo <= k < n0 + 1 && (#[trigger] node_at(p2, k)).parent == Handle::spec_none()
                        implies exists|ri: int|
                        0 <= ri < roots.len() && roots[ri].index as int == k by {
                    if k < n0 {
                        if node_at(p0, k).parent == Handle::spec_none() {
                            let ri = choose|ri: int|
                                0 <= ri < kids@.len() && kids@[ri].index as int == k;
                            assert(node_at(p2, k).parent == h);
                            assert(h != Handle::spec_none());
                            assert(false);
                        } else {
                            assert(p2[k] == p0[k]);
                            assert(false);
                        }
                    } else {
                        assert(roots[0].index as int == k);
                    }
                }
                assert forall|k: int|
                    lo <= k < n0 + 1 && (#[trigger] node_at(p2, k)).parent != Handle::spec_none()
                        implies {
                        let pr = node_at(p2, k).parent;
                        &&& k < (pr.index as int) < n0 + 1
                        &&& p2[pr.index as int].0 == pr.generation
                        &&& exists|ci2: int|
                            0 <= ci2 < node_at(p2, pr.index as int).children@.len() && node_at(
                                p2,
                                pr.index as int,
                            ).children@[ci2] == (Handle { index: k as u32, generation: p2[k].0 })
                    } by {
                    assert(k < n0);
                    if node_at(p0, k).parent == Handle::spec_none() {
                        // k is a kid root, now a child of the new node.
                        let ri = choose|ri: int|
                            0 <= ri < kids@.len() && kids@[ri].index as int == k;
                        assert(node_at(p2, k).parent == h);
                        assert(p2[k].0 == p0[k].0 == kids@[ri].generation);
                        assert(node_at(p2, n0).children@[ri] == (Handle {
                            index: k as u32,
                            generation: p2[k].0,
                        }));
                        assert(p2[h.index as int].0 == h.generation);
                    } else {
                        assert(p2[k] == p0[k]);
                        let pr = node_at(p0, k).parent;
                        assert(k < (pr.index as int) < n0);
                        let ci0 = choose|ci2: int|
                            0 <= ci2 < node_at(p0, pr.index as int).children@.len() && node_at(
                                p0,
                                pr.index as int,
                            ).children@[ci2] == (Handle { index: k as u32, generation: p0[k].0 });
                        assert(core_eq(p2[pr.index as int], p0[pr.index as int]));
                        assert(node_at(p2, pr.index as int).children@ == node_at(
                            p0,
                            pr.index as int,
                        ).children@);
                        assert(p2[pr.index as int].0 == p1[pr.index as int].0);
                        assert(p1[pr.index as int] == p0[pr.index as int]);
                        assert(p2[k].0 == p1[k].0);
                        assert(p1[k] == p0[k]);
                        assert(node_at(p2, pr.index as int).children@[ci0] == (Handle {
                            index: k as u32,
                            generation: p2[k].0,
                        }));
                    }
                }
            }

            // The extracted tree is the new node over the kid trees.
            assert(tree_of(p2, n0) == (TreeS {
                name: node_at(p1, n0).name@,
                fields: fields_view(node_at(p1, n0).fields@),
                children: trees_of(p0, kids@, n0),
            })) by {
                assert(node_at(p2, n0).name@ == node_at(p1, n0).name@ && fields_view(
                    node_at(p2, n0).fields@,
                ) == fields_view(node_at(p1, n0).fields@) && node_at(p2, n0).children@ == node_at(
                    p1,
                    n0,
                ).children@) by {
                    assert(core_eq(p2[n0], p1[n0]));
                }
                lemma_trees_of_frame(p2, p0, kids@, n0);
                assert(tree_of(p2, n0) =~= TreeS {
                    name: node_at(p1, n0).name@,
                    fields: fields_view(node_at(p1, n0).fields@),
                    children: trees_of(p0, kids@, n0),
                });
            }
        }
        h
    }

} // verus!
