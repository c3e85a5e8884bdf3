use crate::document::Document;
use crate::error::Failure;
use crate::images::Pixels;
use crate::import_gltf::{
    claim, first_unclaimed, node_built, node_failure, node_id_failure, reached,
    records_buildable, scene_built, scene_failure, skins_failure, visit_all, Walk, NODE_CAPACITY,
};
use crate::scene::{lemma_chain_unfolds, Scene};
use vstd::prelude::*;

verus! {

/// The number of `true` among the flags.
pub open spec fn count_true(flags: Seq<bool>) -> nat
    decreases flags.len(),
{
    if flags.len() == 0 {
        0
    } else {
        count_true(flags.drop_last()) + if flags.last() {
            1nat
        } else {
            0nat
        }
    }
}

/// No more flags are `true` than there are flags.
pub proof fn lemma_count_bound(flags: Seq<bool>)
    ensures
        count_true(flags) <= flags.len(),
    decreases flags.len(),
{
    if flags.len() > 0 {
        lemma_count_bound(flags.drop_last());
    }
}

/// Raising a flag that was down adds one.
pub proof fn lemma_count_update(flags: Seq<bool>, i: int)
    requires
        0 <= i < flags.len(),
        !flags[i],
    ensures
        count_true(flags.update(i, true)) == count_true(flags) + 1,
    decreases flags.len(),
{
    let updated = flags.update(i, true);
    if i == flags.len() - 1 {
        assert(updated.drop_last() =~= flags.drop_last());
    } else {
        lemma_count_update(flags.drop_last(), i);
        assert(updated.drop_last() =~= flags.drop_last().update(i, true));
    }
}

/// Of flags that are all down none is `true`.
pub proof fn lemma_count_none(n: nat)
    ensures
        count_true(Seq::new(n, |i: int| false)) == 0,
    decreases n,
{
    if n > 0 {
        lemma_count_none((n - 1) as nat);
        assert(Seq::new(n, |i: int| false).drop_last() =~= Seq::new(
            (n - 1) as nat,
            |i: int| false,
        ));
    }
}

/// Where the first `k` flags are up, at least `k` flags are up; exactly `k` are up
/// where all others are down.
pub proof fn lemma_count_prefix(flags: Seq<bool>, k: int)
    requires
        0 <= k <= flags.len(),
        forall|i: int| 0 <= i < k ==> #[trigger] flags[i],
    ensures
        count_true(flags) >= k,
        count_true(flags) == k <==> forall|i: int| k <= i < flags.len() ==> !(#[trigger] flags[i]),
    decreases flags.len(),
{
    if flags.len() > 0 {
        let rest = flags.drop_last();
        if k == flags.len() {
            lemma_count_prefix(rest, k - 1);
        } else {
            lemma_count_prefix(rest, k);
            if count_true(flags) == k {
                assert forall|i: int| k <= i < flags.len() implies !(#[trigger] flags[i]) by {
                    if i < rest.len() {
                        assert(!rest[i]);
                    }
                }
            }
        }
    }
}

/// The first flag that is down from a position on stands at or behind that position.
pub proof fn lemma_first_unclaimed_from(claimed: Seq<bool>, from: int)
    requires
        0 <= from <= claimed.len(),
    ensures
        from <= first_unclaimed(claimed, from) <= claimed.len(),
        (forall|i: int| 0 <= i < from ==> #[trigger] claimed[i]) ==> first_unclaimed(claimed, 0)
            == first_unclaimed(claimed, from),
    decreases claimed.len() - from,
{
    if from < claimed.len() && claimed[from] {
        lemma_first_unclaimed_from(claimed, from + 1);
    }
    lemma_first_unclaimed_skips(claimed, 0, from);
}

/// Flags that are up are passed over.
pub proof fn lemma_first_unclaimed_skips(claimed: Seq<bool>, a: int, b: int)
    requires
        0 <= a <= b <= claimed.len(),
    ensures
        (forall|i: int| a <= i < b ==> #[trigger] claimed[i]) ==> first_unclaimed(claimed, a)
            == first_unclaimed(claimed, b),
    decreases b - a,
{
    if a < b {
        lemma_first_unclaimed_skips(claimed, a + 1, b);
    }
}

/// A parent for every node of an asset, and a rank that falls from child to parent.
pub struct Forest {
    pub parent: Seq<Option<int>>,
    pub rank: Seq<nat>,
}

/// The default scene of `doc` is a forest of the first nodes of the asset, as many as
/// `forest` has parents for: the roots of the scene are different nodes among them
/// without a parent, the children of each of them are different nodes among them
/// whose parent it is, each of them stands in the child list of its parent or among
/// the roots, and the asset has no more nodes than there are node ids.
pub open spec fn is_forest(doc: Document, forest: Forest) -> bool {
    let n = forest.parent.len();
    let roots = doc.scene_roots@;
    &&& doc.nodes@.len() <= NODE_CAPACITY
    &&& n <= doc.nodes@.len()
    &&& forest.rank.len() == n
    &&& roots.no_duplicates()
    &&& forall|k: int|
        0 <= k < roots.len() ==> (#[trigger] roots[k]) < n && forest.parent[roots[k] as int] is None
    &&& forall|i: int| 0 <= i < n ==> (#[trigger] doc.nodes@[i]).children@.no_duplicates()
    &&& forall|i: int, k: int|
        0 <= i < n && 0 <= k < doc.nodes@[i].children@.len() ==> (
        #[trigger] doc.nodes@[i].children@[k]) < n && forest.parent[doc.nodes@[i].children@[k] as int]
            == Some(i)
    &&& forall|i: int|
        0 <= i < n ==> match #[trigger] forest.parent[i] {
            Some(p) => 0 <= p < n && forest.rank[p] < forest.rank[i]
                && doc.nodes@[p].children@.contains(i as usize),
            None => roots.contains(i as usize),
        }
}

/// The default scene of the asset can be built: it is a forest of the first nodes of
/// the asset, and the record of each of these nodes can be built.
pub open spec fn importable(doc: Document, image_count: int) -> bool {
    exists|forest: Forest|
        is_forest(doc, forest) && records_buildable(doc, image_count, forest.parent.len() as int)
}

/// Node `q` has had its visit: it is named, does not wait, and is not the node whose
/// children are being named.
spec fn visited(walk: Walk, owner: Option<int>, q: int) -> bool {
    &&& walk.claimed[q]
    &&& !walk.stack.contains(q as usize)
    &&& owner != Some(q)
}

/// What holds of a traversal of a forest while the first `k` nodes of `ids` have
/// been named: `ids` are the children of `owner`, or the roots before any visit
/// (`seeded` is false).
spec fn on_course(
    doc: Document,
    forest: Forest,
    walk: Walk,
    ids: Seq<usize>,
    k: int,
    owner: Option<int>,
    seeded: bool,
) -> bool {
    let n = forest.parent.len();
    &&& walk.claimed.len() == doc.nodes@.len()
    &&& walk.stack.no_duplicates()
    &&& forall|j: int|
        0 <= j < walk.stack.len() ==> (#[trigger] walk.stack[j]) < n
            && walk.claimed[walk.stack[j] as int]
    &&& forall|j: int| 0 <= j < k ==> walk.claimed[(#[trigger] ids[j]) as int]
    &&& forall|c: int| 0 <= c < walk.claimed.len() && #[trigger] walk.claimed[c] ==> c < n
    &&& forall|c: int|
        0 <= c < n && #[trigger] walk.claimed[c] ==> match forest.parent[c] {
            Some(q) => visited(walk, owner, q) || (owner == Some(q) && exists|j: int|
                0 <= j < k && #[trigger] ids[j] == c),
            None => seeded || exists|j: int| 0 <= j < k && #[trigger] ids[j] == c,
        }
    &&& forall|q: int, j: int|
        0 <= q < n && visited(walk, owner, q) && 0 <= j < doc.nodes@[q].children@.len()
            ==> walk.claimed[(#[trigger] doc.nodes@[q].children@[j]) as int]
    &&& seeded ==> forall|j: int|
        0 <= j < doc.scene_roots@.len() ==> walk.claimed[(#[trigger] doc.scene_roots@[j]) as int]
    &&& match owner {
        Some(p) => 0 <= p < n && walk.claimed[p] && !walk.stack.contains(p as usize) && ids
            == doc.nodes@[p].children@ && seeded,
        None => seeded || ids == doc.scene_roots@,
    }
}

/// Naming the rest of a list succeeds in a forest.
proof fn lemma_claim_succeeds(
    doc: Document,
    forest: Forest,
    walk: Walk,
    ids: Seq<usize>,
    k: int,
    owner: Option<int>,
    seeded: bool,
)
    requires
        is_forest(doc, forest),
        0 <= k <= ids.len(),
        on_course(doc, forest, walk, ids, k, owner, seeded),
        owner is None ==> !seeded,
    ensures
        claim(doc.nodes@.len() as int, ids, k, walk) is Ok,
        on_course(
            doc,
            forest,
            claim(doc.nodes@.len() as int, ids, k, walk)->Ok_0,
            ids,
            ids.len() as int,
            owner,
            seeded,
        ),
        claim(doc.nodes@.len() as int, ids, k, walk)->Ok_0.stack.len() == walk.stack.len() + ids.len()
            - k,
        count_true(claim(doc.nodes@.len() as int, ids, k, walk)->Ok_0.claimed) == count_true(
            walk.claimed,
        ) + ids.len() - k,
    decreases ids.len() - k,
{
    let n = forest.parent.len() as int;
    if k < ids.len() {
        let index = ids[k];
        let c = index as int;
        let next = Walk { stack: walk.stack.push(index), claimed: walk.claimed.update(c, true) };
        lemma_count_update(walk.claimed, c);
        assert forall|q: int| visited(next, owner, q) && 0 <= q < n implies visited(walk, owner, q) by {
            if walk.stack.contains(q as usize) {
                let j = choose|j: int| 0 <= j < walk.stack.len() && walk.stack[j] == q as usize;
                assert(next.stack[j] == q as usize);
            }
            assert(next.stack[next.stack.len() - 1] == index);
        }
        lemma_claim_succeeds(doc, forest, next, ids, k + 1, owner, seeded);
    }
}

/// Between two visits of a traversal of a forest.
spec fn idle(doc: Document, forest: Forest, walk: Walk) -> bool {
    on_course(doc, forest, walk, doc.scene_roots@, doc.scene_roots@.len() as int, None, true)
}

/// Once no node waits, every node of a forest has been named.
proof fn lemma_all_named(doc: Document, forest: Forest, walk: Walk, i: int)
    requires
        is_forest(doc, forest),
        idle(doc, forest, walk),
        walk.stack.len() == 0,
        0 <= i < forest.parent.len(),
    ensures
        walk.claimed[i],
    decreases forest.rank[i],
{
    match forest.parent[i] {
        Some(q) => {
            lemma_all_named(doc, forest, walk, q);
        },
        None => {
        },
    }
}

/// The visits of a traversal of a forest succeed and name every node, where the
/// record of every node can be built.
proof fn lemma_visits_succeed(doc: Document, forest: Forest, image_count: int, walk: Walk, fuel: nat)
    requires
        is_forest(doc, forest),
        idle(doc, forest, walk),
        forall|i: int|
            0 <= i < forest.parent.len() ==> (#[trigger] node_failure(doc, image_count, i)) is None,
        fuel == walk.stack.len() + doc.nodes@.len() - count_true(walk.claimed),
    ensures
        visit_all(doc, image_count, walk, fuel) is Ok,
        forall|i: int|
            0 <= i < forest.parent.len() ==> #[trigger] (visit_all(
                doc,
                image_count,
                walk,
                fuel,
            )->Ok_0)[i],
        forall|i: int|
            forest.parent.len() <= i < doc.nodes@.len() ==> !(#[trigger] (visit_all(
                doc,
                image_count,
                walk,
                fuel,
            )->Ok_0)[i]),
        (visit_all(doc, image_count, walk, fuel)->Ok_0).len() == doc.nodes@.len(),
    decreases fuel,
{
    let n = forest.parent.len() as int;
    let size = doc.nodes@.len() as int;
    lemma_count_bound(walk.claimed);
    if walk.stack.len() == 0 {
        assert forall|i: int| 0 <= i < n implies #[trigger] walk.claimed[i] by {
            lemma_all_named(doc, forest, walk, i);
        }
    } else {
        let node = walk.stack.last();
        let p = node as int;
        let rest = Walk { stack: walk.stack.drop_last(), claimed: walk.claimed };
        let kids = doc.nodes@[p].children@;
        assert forall|q: int| 0 <= q < n && visited(rest, Some(p), q) implies visited(walk, None, q) by {
            if walk.stack.contains(q as usize) {
                let j = choose|j: int| 0 <= j < walk.stack.len() && walk.stack[j] == q as usize;
                if j < rest.stack.len() {
                    assert(rest.stack[j] == q as usize);
                }
            }
        }
        lemma_claim_succeeds(doc, forest, rest, kids, 0, Some(p), true);
        let next = claim(size, kids, 0, rest)->Ok_0;
        lemma_visits_succeed(doc, forest, image_count, next, (fuel - 1) as nat);
    }
}

/// The default scene of an asset is built where it is a forest of the first nodes of
/// the asset and the record of each of these nodes can be built; the scene then has
/// these nodes.
pub proof fn lemma_forest_is_imported(doc: Document, forest: Forest, image_count: int)
    requires
        is_forest(doc, forest),
        records_buildable(doc, image_count, forest.parent.len() as int),
    ensures
        scene_failure(doc, image_count) is None,
        reached(doc, image_count) == forest.parent.len(),
{
    let n = forest.parent.len() as int;
    let size = doc.nodes@.len() as int;
    let start = Walk { stack: Seq::empty(), claimed: Seq::new(size as nat, |i: int| false) };
    lemma_count_none(size as nat);
    lemma_claim_succeeds(doc, forest, start, doc.scene_roots@, 0, None, false);
    let seeded = claim(size, doc.scene_roots@, 0, start)->Ok_0;
    lemma_visits_succeed(doc, forest, image_count, seeded, size as nat);
    let claimed = visit_all(doc, image_count, seeded, size as nat)->Ok_0;
    lemma_count_prefix(claimed, n);
    lemma_first_unclaimed_from(claimed, n);
    lemma_skins_named(doc, image_count, n, 0);
}

/// Where the records of the first `k` nodes can be built, their skins name none but
/// these nodes.
proof fn lemma_skins_named(doc: Document, image_count: int, k: int, from: int)
    requires
        records_buildable(doc, image_count, k),
        0 <= from,
    ensures
        skins_failure(doc, k, from) is None,
    decreases k - from,
{
    if from < k {
        assert(node_failure(doc, image_count, from) is None);
        lemma_skins_named(doc, image_count, k, from + 1);
    }
}

/// The parents of the nodes of a scene, and the length of the chain of each as its
/// rank.
pub open spec fn forest_of(scene: Scene) -> Forest {
    Forest {
        parent: Seq::new(
            scene.nodes@.len(),
            |i: int|
                match scene.nodes@[i].parent {
                    Some(p) => Some(p as int),
                    None => None,
                },
        ),
        rank: Seq::new(
            scene.nodes@.len(),
            |i: int|
                match scene.world_chain_of(i) {
                    Some(chain) => chain.len(),
                    None => 0,
                },
        ),
    }
}

/// Only a forest is imported: the default scene of an asset that a scene was built
/// from is a forest of the first nodes of the asset, as many as the scene has, with
/// the parents that the scene records.
pub proof fn lemma_imported_is_forest(doc: Document, images: Seq<Pixels>, scene: Scene)
    requires
        scene.wf(),
        scene_built(doc, images, scene),
        doc.nodes@.len() <= NODE_CAPACITY,
    ensures
        is_forest(doc, forest_of(scene)),
{
    let n = scene.nodes@.len() as int;
    let forest = forest_of(scene);
    let roots = doc.scene_roots@;
    assert forall|a: int, b: int|
        0 <= a < roots.len() && 0 <= b < roots.len() && a != b implies #[trigger] roots[a]
        != #[trigger] roots[b] by {
        assert(scene.roots()[a] != scene.roots()[b]);
    }
    assert forall|k: int| 0 <= k < roots.len() implies (#[trigger] roots[k]) < n
        && forest.parent[roots[k] as int] is None by {
        assert(scene.roots()[k] == roots[k]);
    }
    assert forall|i: int| 0 <= i < n implies (#[trigger] doc.nodes@[i]).children@.no_duplicates() by {
        let kids = doc.nodes@[i].children@;
        assert forall|a: int, b: int|
            0 <= a < kids.len() && 0 <= b < kids.len() && a != b implies #[trigger] kids[a]
            != #[trigger] kids[b] by {
            assert(scene.children(i)[a] != scene.children(i)[b]);
        }
    }
    assert forall|i: int, k: int| 0 <= i < n && 0 <= k < doc.nodes@[i].children@.len() implies (
    #[trigger] doc.nodes@[i].children@[k]) < n && forest.parent[doc.nodes@[i].children@[k] as int]
        == Some(i) by {
        let c = scene.children(i)[k];
    }
    assert forall|i: int| 0 <= i < n implies match #[trigger] forest.parent[i] {
        Some(p) => 0 <= p < n && forest.rank[p] < forest.rank[i] && doc.nodes@[p].children@.contains(
            i as usize,
        ),
        None => roots.contains(i as usize),
    } by {
        lemma_chain_unfolds(scene, i);
    }
}

} // verus!
