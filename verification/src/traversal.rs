use crate::builder::{
    lemma_extends_self, lemma_extends_trans, material_built, mesh_built, mesh_failure,
    texture_built, Importer,
};
use crate::document::Document;
use crate::error::{Failure, ImportGltfError};
use crate::forest::{
    count_true, lemma_count_bound, lemma_count_none, lemma_count_prefix, lemma_count_update,
    lemma_first_unclaimed_from,
};
use crate::ids::{id_list, IdList};
use crate::import_gltf::{
    build_skin, built_by_import, built_by_visits, check_node_id, claim, first_unclaimed, narrowed,
    node_built, node_failure, scene_order, with_node,
    node_ids_failure, reached, records_buildable, skins_failure,
    scene_built, scene_failure, skin_failure, visit_all, Walk, MAX_NODE_INDEX, NODE_CAPACITY,
};
use crate::resources::Mesh;
use crate::scene::{Node, Scene};
use crate::transform::Transform;
use vstd::prelude::*;

verus! {

/// The working state of a traversal.
struct Traversal {
    /// Whether a root list or a child list has named the node.
    claimed: Vec<bool>,
    /// The parent of each named node.
    parents: Vec<Option<u16>>,
    /// The named nodes that wait for their visit.
    stack: Vec<usize>,
    /// The records of the visited nodes.
    slots: Vec<Option<Node>>,
    /// How many nodes have been named.
    claim_count: usize,
    /// For each named node, how many were named before it.
    rank: Ghost<Seq<nat>>,
}

impl Traversal {
    spec fn walk(self) -> Walk {
        Walk { stack: self.stack@, claimed: self.claimed@ }
    }

    spec fn sized(self, n: int) -> bool {
        &&& self.claimed@.len() == n
        &&& self.parents@.len() == n
        &&& self.slots@.len() == n
        &&& self.rank@.len() == n
        &&& self.claim_count == count_true(self.claimed@)
    }

    /// The waiting nodes are named, unvisited and distinct.
    spec fn stack_ok(self, current: Option<int>) -> bool {
        &&& self.stack@.no_duplicates()
        &&& forall|j: int|
            0 <= j < self.stack@.len() ==> {
                &&& (#[trigger] self.stack@[j]) < self.claimed@.len()
                &&& self.claimed@[self.stack@[j] as int]
                &&& self.slots@[self.stack@[j] as int] is None
                &&& current != Some(self.stack@[j] as int)
            }
    }

    /// A named node without a record waits for its visit or is being visited.
    spec fn pending_ok(self, current: Option<int>) -> bool {
        forall|i: int|
            0 <= i < self.claimed@.len() && (#[trigger] self.claimed@[i]) && self.slots@[i] is None
                ==> self.stack@.contains(i as usize) || current == Some(i)
    }

    /// The parent of a named node is the visited node whose child list named it; a
    /// node without a parent was named by the root list.
    spec fn parent_ok(self, doc: Document, current: Option<int>, i: int) -> bool {
        match self.parents@[i] {
            Some(p) => {
                &&& p < self.claimed@.len()
                &&& self.claimed@[p as int]
                &&& self.slots@[p as int] is Some || current == Some(p as int)
                &&& self.rank@[p as int] < self.rank@[i]
                &&& doc.nodes@[p as int].children@.contains(i as usize)
            },
            None => doc.scene_roots@.contains(i as usize),
        }
    }

    spec fn claims_ok(self, doc: Document, current: Option<int>) -> bool {
        forall|i: int|
            0 <= i < self.claimed@.len() && (#[trigger] self.claimed@[i]) ==> {
                &&& i <= MAX_NODE_INDEX
                &&& self.rank@[i] < self.claim_count
                &&& self.parent_ok(doc, current, i)
            }
    }

    /// The record of a visited node says what the asset says, and its children are
    /// named with it as their parent.
    spec fn visited_ok(self, doc: Document, meshes: Seq<Mesh>, i: int) -> bool {
        let node = self.slots@[i].unwrap();
        let children = doc.nodes@[i].children@;
        &&& self.claimed@[i]
        &&& node_built(doc, meshes, i, node)
        &&& skin_failure(doc.nodes@.len() as int, doc.nodes@[i].skin) is None
        &&& node.parent == self.parents@[i]
        &&& children.no_duplicates()
        &&& forall|k: int|
            0 <= k < children.len() ==> {
                &&& (#[trigger] children[k]) < self.claimed@.len()
                &&& self.claimed@[children[k] as int]
                &&& self.parents@[children[k] as int] == Some(i as u16)
            }
    }

    spec fn visits_ok(self, doc: Document, meshes: Seq<Mesh>, current: Option<int>) -> bool {
        forall|i: int|
            0 <= i < self.slots@.len() && (#[trigger] self.slots@[i]) is Some ==> current != Some(i)
                && self.visited_ok(doc, meshes, i)
    }

    spec fn current_ok(self, current: Option<int>) -> bool {
        current matches Some(c) ==> 0 <= c < self.claimed@.len() && self.claimed@[c]
            && self.slots@[c] is None
    }

    /// What holds of a traversal between two steps. `current` is the node whose visit
    /// is under way, if one is.
    spec fn inv(self, doc: Document, meshes: Seq<Mesh>, current: Option<int>) -> bool {
        &&& self.sized(doc.nodes@.len() as int)
        &&& self.stack_ok(current)
        &&& self.pending_ok(current)
        &&& self.claims_ok(doc, current)
        &&& self.visits_ok(doc, meshes, current)
        &&& self.current_ok(current)
    }

    /// What was named stays named, with its parent and rank; no record changes.
    spec fn keeps(self, before: Traversal) -> bool {
        &&& self.slots@ == before.slots@
        &&& self.claimed@.len() == before.claimed@.len()
        &&& forall|i: int|
            0 <= i < before.claimed@.len() && (#[trigger] before.claimed@[i]) ==> {
                &&& self.claimed@[i]
                &&& self.parents@[i] == before.parents@[i]
                &&& self.rank@[i] == before.rank@[i]
            }
    }

    /// Names the nodes of a root list or of the child list of the node under visit,
    /// and hands back their ids.
    fn claim_list(
        &mut self,
        doc: &Document,
        ids: &Vec<usize>,
        parent: Option<u16>,
        Ghost(meshes): Ghost<Seq<Mesh>>,
    ) -> (r: Result<IdList, ImportGltfError>)
        requires
            old(self).inv(
                *doc,
                meshes,
                match parent {
                    Some(p) => Some(p as int),
                    None => None,
                },
            ),
            match parent {
                Some(p) => p < doc.nodes@.len() && ids@ == doc.nodes@[p as int].children@,
                None => ids@ == doc.scene_roots@,
            },
        ensures
            match r {
                Ok(list) => {
                    &&& claim(doc.nodes@.len() as int, ids@, 0, old(self).walk()) == Ok::<
                        Walk,
                        Failure,
                    >(final(self).walk())
                    &&& final(self).inv(
                        *doc,
                        meshes,
                        match parent {
                            Some(p) => Some(p as int),
                            None => None,
                        },
                    )
                    &&& final(self).keeps(*old(self))
                    &&& narrowed(ids@, id_list(list))
                    &&& ids@.no_duplicates()
                    &&& final(self).stack@.len() == old(self).stack@.len() + ids@.len()
                    &&& final(self).claim_count == old(self).claim_count + ids@.len()
                    &&& forall|k: int|
                        0 <= k < ids@.len() ==> {
                            &&& (#[trigger] ids@[k]) < final(self).claimed@.len()
                            &&& final(self).claimed@[ids@[k] as int]
                            &&& final(self).parents@[ids@[k] as int] == parent
                        }
                },
                Err(e) => claim(doc.nodes@.len() as int, ids@, 0, old(self).walk()) == Err::<
                    Walk,
                    Failure,
                >(e@),
            },
    {
        let ghost current: Option<int> = match parent {
            Some(p) => Some(p as int),
            None => None,
        };
        let ghost start = *self;
        let n = self.claimed.len();
        let mut list = IdList::empty();
        let mut k: usize = 0;
        while k < ids.len()
            invariant
                k <= ids@.len(),
                n == doc.nodes@.len(),
                current == match parent {
                    Some(p) => Some(p as int),
                    None => None,
                },
                match parent {
                    Some(p) => p < doc.nodes@.len() && ids@ == doc.nodes@[p as int].children@,
                    None => ids@ == doc.scene_roots@,
                },
                start == *old(self),
                self.inv(*doc, meshes, current),
                self.keeps(start),
                claim(n as int, ids@, 0, start.walk()) == claim(n as int, ids@, k as int, self.walk()),
                narrowed(ids@.take(k as int), id_list(list)),
                ids@.take(k as int).no_duplicates(),
                self.stack@.len() == start.stack@.len() + k,
                self.claim_count == start.claim_count + k,
                forall|j: int|
                    0 <= j < k ==> {
                        &&& (#[trigger] ids@[j]) < self.claimed@.len()
                        &&& self.claimed@[ids@[j] as int]
                        &&& self.parents@[ids@[j] as int] == parent
                    },
            decreases ids@.len() - k,
        {
            let index = ids[k];
            let id = match check_node_id(n, index) {
                Ok(id) => id,
                Err(e) => {
                    return Err(e);
                },
            };
            if self.claimed[index] {
                return Err(ImportGltfError::NodeGraphNotForest(index));
            }
            let ghost before = *self;
            proof {
                lemma_count_update(self.claimed@, index as int);
                lemma_count_bound(self.claimed@.update(index as int, true));
            }
            self.claimed[index] = true;
            self.parents[index] = parent;
            self.stack.push(index);
            proof {
                self.rank@ = self.rank@.update(index as int, self.claim_count as nat);
            }
            self.claim_count = self.claim_count + 1;
            list.append(id);
            proof {
                assert(self.pending_ok(current)) by {
                    assert forall|i: int|
                        0 <= i < self.claimed@.len() && (#[trigger] self.claimed@[i])
                            && self.slots@[i] is None implies self.stack@.contains(i as usize)
                        || current == Some(i) by {
                        if i == index {
                            assert(self.stack@[self.stack@.len() - 1] == index);
                        } else {
                            if current != Some(i) {
                                let j = choose|j: int|
                                    0 <= j < before.stack@.len() && before.stack@[j] == i as usize;
                                assert(self.stack@[j] == i as usize);
                            }
                        }
                    }
                }
            }
            k += 1;
        }
        proof {
            assert(ids@.take(ids@.len() as int) =~= ids@);
        }
        Ok(list)
    }
}

impl Traversal {
    /// A traversal of `n` nodes of which none is named yet.
    fn start(n: usize, Ghost(doc): Ghost<Document>, Ghost(meshes): Ghost<Seq<Mesh>>) -> (t: Traversal)
        requires
            n == doc.nodes@.len(),
        ensures
            t.inv(doc, meshes, None),
            t.walk() == (Walk { stack: Seq::empty(), claimed: Seq::new(n as nat, |i: int| false) }),
            t.claim_count == 0,
    {
        let mut claimed: Vec<bool> = Vec::new();
        let mut parents: Vec<Option<u16>> = Vec::new();
        let mut slots: Vec<Option<Node>> = Vec::new();
        let mut i: usize = 0;
        while i < n
            invariant
                i <= n,
                claimed@.len() == i,
                parents@.len() == i,
                slots@.len() == i,
                forall|k: int| 0 <= k < i ==> !(#[trigger] claimed@[k]),
                forall|k: int| 0 <= k < i ==> (#[trigger] slots@[k]) is None,
            decreases n - i,
        {
            claimed.push(false);
            parents.push(None);
            slots.push(None);
            i += 1;
        }
        proof {
            assert(claimed@ =~= Seq::new(n as nat, |i: int| false));
            lemma_count_none(n as nat);
        }
        Traversal {
            claimed,
            parents,
            stack: Vec::new(),
            slots,
            claim_count: 0,
            rank: Ghost(Seq::new(n as nat, |i: int| 0nat)),
        }
    }
}

/// The records of the first `k` nodes, in the order of their indices.
fn into_nodes(slots: Vec<Option<Node>>, k: usize) -> (nodes: Vec<Node>)
    requires
        k <= slots@.len(),
        forall|i: int| 0 <= i < k ==> (#[trigger] slots@[i]) is Some,
    ensures
        nodes@.len() == k,
        forall|i: int| 0 <= i < k ==> (#[trigger] nodes@[i]) == slots@[i].unwrap(),
{
    let mut rest = slots;
    let mut nodes: Vec<Node> = Vec::new();
    let mut i: usize = 0;
    while i < k
        invariant
            rest@.len() == slots@.len(),
            i <= k <= rest@.len(),
            nodes@.len() == i,
            forall|j: int| i <= j < slots@.len() ==> (#[trigger] rest@[j]) == slots@[j],
            forall|j: int| 0 <= j < k ==> (#[trigger] slots@[j]) is Some,
            forall|j: int| 0 <= j < i ==> (#[trigger] nodes@[j]) == slots@[j].unwrap(),
        decreases k - i,
    {
        let slot = rest[i].take();
        nodes.push(slot.unwrap());
        i += 1;
    }
    nodes
}

/// Indices that pass the check are node ids of the asset.
proof fn lemma_ids_checked(n: int, ids: Seq<usize>, from: int)
    requires
        0 <= from,
        node_ids_failure(n, ids, from) is None,
    ensures
        forall|k: int| from <= k < ids.len() ==> (#[trigger] ids[k]) < n && ids[k] <= MAX_NODE_INDEX,
    decreases ids.len() - from,
{
    if from < ids.len() {
        lemma_ids_checked(n, ids, from + 1);
    }
}

/// Ranks that fall along parent links bound the way to a root.
proof fn lemma_reaches_root(scene: Scene, rank: Seq<nat>, i: int, fuel: nat)
    requires
        rank.len() == scene.nodes@.len(),
        forall|j: int|
            0 <= j < scene.nodes@.len() ==> ((#[trigger] scene.nodes@[j]).parent matches Some(p)
                ==> p < scene.nodes@.len() && rank[p as int] < rank[j]),
        0 <= i < scene.nodes@.len(),
        rank[i] < fuel,
    ensures
        scene.reaches_root(i, fuel),
    decreases fuel,
{
    match scene.nodes@[i].parent {
        None => {},
        Some(p) => {
            lemma_reaches_root(scene, rank, p as int, (fuel - 1) as nat);
        },
    }
}

/// The tables of a finished import are consistent resources of a scene.
proof fn lemma_resources(importer: Importer, scene: Scene)
    requires
        importer.wf(),
        scene.meshes == importer.meshes,
        scene.materials == importer.materials,
        scene.textures == importer.textures,
        forall|i: int|
            0 <= i < scene.nodes@.len() ==> node_built(
                importer.document,
                scene.meshes@,
                i,
                #[trigger] scene.nodes@[i],
            ),
        scene.nodes@.len() <= importer.document.nodes@.len(),
    ensures
        scene.resources_consistent(),
        forall|i: int|
            0 <= i < scene.nodes@.len() ==> ((
            #[trigger] importer.document.nodes@[i]).mesh matches Some(m) ==> mesh_failure(
                importer.document,
                importer.images@.len() as int,
                m as int,
            ) is None),
{
    assert forall|i: int| 0 <= i < scene.nodes@.len() implies ((
    #[trigger] importer.document.nodes@[i]).mesh matches Some(m) ==> mesh_failure(
        importer.document,
        importer.images@.len() as int,
        m as int,
    ) is None) by {
        if let Some(m) = importer.document.nodes@[i].mesh {
            let id = scene.nodes@[i].meshes@[0];
        }
    }
    assert forall|m: int| 0 <= m < scene.materials@.len() implies {
        &&& (#[trigger] scene.materials@[m]).normal matches Some(t) ==> t < scene.textures@.len()
        &&& scene.materials@[m].diffuse matches Some(t) ==> t < scene.textures@.len()
    } by {
    }
    assert forall|a: int, b: int| 0 <= a < b < scene.textures@.len() implies (
    #[trigger] scene.textures@[a]).source != (#[trigger] scene.textures@[b]).source by {
        assert(importer.texture_sources()[a] == scene.textures@[a].source);
        assert(importer.texture_sources()[b] == scene.textures@[b].source);
    }
    assert forall|a: int, b: int| 0 <= a < b < scene.meshes@.len() implies (
    #[trigger] scene.meshes@[a]).source != (#[trigger] scene.meshes@[b]).source by {
        assert(importer.mesh_sources()[a] == scene.meshes@[a].source);
        assert(importer.mesh_sources()[b] == scene.meshes@[b].source);
    }
}

/// A finished traversal has built a forest.
proof fn lemma_forest(t: Traversal, doc: Document, scene: Scene)
    requires
        t.inv(doc, scene.meshes@, None),
        t.stack@.len() == 0,
        scene.nodes@.len() <= doc.nodes@.len(),
        scene.nodes@.len() == t.claim_count,
        forall|i: int| 0 <= i < scene.nodes@.len() ==> #[trigger] t.claimed@[i],
        forall|i: int| scene.nodes@.len() <= i < t.claimed@.len() ==> !(#[trigger] t.claimed@[i]),
        forall|i: int|
            0 <= i < scene.nodes@.len() ==> t.slots@[i] is Some && (#[trigger] scene.nodes@[i])
                == t.slots@[i].unwrap(),
        forall|i: int|
            0 <= i < scene.nodes@.len() ==> skin_failure(
                scene.nodes@.len() as int,
                (#[trigger] doc.nodes@[i]).skin,
            ) is None,
        narrowed(doc.scene_roots@, scene.roots()),
        doc.scene_roots@.no_duplicates(),
        forall|k: int|
            0 <= k < doc.scene_roots@.len() ==> {
                &&& (#[trigger] doc.scene_roots@[k]) < t.claimed@.len()
                &&& t.claimed@[doc.scene_roots@[k] as int]
                &&& t.parents@[doc.scene_roots@[k] as int] is None
            },
    ensures
        scene.ids_in_range(),
        scene.links_consistent(),
        scene.acyclic(),
        forall|i: int|
            0 <= i < scene.nodes@.len() ==> node_built(
                doc,
                scene.meshes@,
                i,
                #[trigger] scene.nodes@[i],
            ),
        forall|i: int|
            0 <= i < scene.nodes@.len() ==> skin_failure(
                doc.nodes@.len() as int,
                (#[trigger] doc.nodes@[i]).skin,
            ) is None,
{
    let n = scene.nodes@.len() as int;
    let meshes = scene.meshes@;
    assert forall|i: int| 0 <= i < n implies skin_failure(
        doc.nodes@.len() as int,
        (#[trigger] doc.nodes@[i]).skin,
    ) is None by {
        assert(t.visited_ok(doc, meshes, i));
    }
    // every id is an index
    assert(n <= 0x1_0000) by {
        if n > 0x1_0000 {
            assert(t.claimed@[0x1_0000]);
        }
    }
    assert forall|i: int| 0 <= i < n implies (#[trigger] scene.nodes@[i]).ids_below(n) by {
        let desc = doc.nodes@[i];
        if let Some(skin_desc) = desc.skin {
            lemma_ids_checked(n, skin_desc.joints@, 0);
        }
    }
    // links
    assert forall|i: int| 0 <= i < n implies ((#[trigger] scene.nodes@[i]).parent matches Some(p)
        ==> scene.children(p as int).contains(i as u16)) by {
        if let Some(p) = scene.nodes@[i].parent {
            let kids = doc.nodes@[p as int].children@;
            let k = choose|k: int| 0 <= k < kids.len() && kids[k] == i as usize;
            assert(scene.children(p as int)[k] == i as u16);
        }
    }
    assert forall|i: int|
        0 <= i < n && (#[trigger] scene.nodes@[i]).parent is None implies scene.roots().contains(
        i as u16,
    ) by {
        if scene.nodes@[i].parent is None {
            let k = choose|k: int| 0 <= k < doc.scene_roots@.len() && doc.scene_roots@[k] == i as usize;
            assert(scene.roots()[k] == i as u16);
        }
    }
    // no cycle
    let ranks = t.rank@.take(n);
    assert forall|i: int| 0 <= i < scene.nodes@.len() implies #[trigger] scene.reaches_root(
        i,
        scene.nodes@.len() as nat,
    ) by {
        assert(t.claimed@[i]);
        lemma_reaches_root(scene, ranks, i, scene.nodes@.len() as nat);
    }
}

impl Importer {
    /// Walks the node graph with a work list that starts with the scene's roots, and
    /// builds the record of every node that it visits.
    pub(crate) fn walk_default_scene(self) -> (r: Result<Scene, ImportGltfError>)
        requires
            self.wf(),
        ensures
            match r {
                Ok(scene) => {
                    &&& scene_failure(self.document, self.images@.len() as int) is None
                    &&& records_buildable(
                        self.document,
                        self.images@.len() as int,
                        scene.nodes@.len() as int,
                    )
                    &&& scene.nodes@.len() == reached(self.document, self.images@.len() as int)
                    &&& scene.wf()
                    &&& scene_built(self.document, self.pixels(), scene)
                    &&& scene_order(scene) == built_by_import(self.document, self.built())
                },
                Err(e) => scene_failure(self.document, self.images@.len() as int) == Some(e@),
            },
    {
        let mut importer = self;
        let n = importer.document.nodes.len();
        let ghost doc = self.document;
        let ghost image_count = self.images@.len() as int;
        let mut t = Traversal::start(n, Ghost(importer.document), Ghost(importer.meshes@));
        let root_nodes = match t.claim_list(
            &importer.document,
            &importer.document.scene_roots,
            None,
            Ghost(importer.meshes@),
        ) {
            Ok(list) => list,
            Err(e) => {
                return Err(e);
            },
        };
        let ghost seeded = t.walk();
        let mut fuel: usize = n;
        proof {
            lemma_extends_self(importer);
        }
        while t.stack.len() > 0
            invariant
                self.wf(),
                importer.wf(),
                importer.extends(self),
                doc == self.document,
                image_count == self.images@.len(),
                n == doc.nodes@.len(),
                fuel <= n,
                (n - fuel) + t.stack@.len() == t.claim_count,
                t.inv(doc, importer.meshes@, None),
                claim(
                    n as int,
                    doc.scene_roots@,
                    0,
                    Walk { stack: Seq::empty(), claimed: Seq::new(n as nat, |i: int| false) },
                ) == Ok::<Walk, Failure>(seeded),
                visit_all(doc, image_count, seeded, n as nat) == visit_all(
                    doc,
                    image_count,
                    t.walk(),
                    fuel as nat,
                ),
                built_by_visits(doc, seeded, n as nat, self.built()) == built_by_visits(
                    doc,
                    t.walk(),
                    fuel as nat,
                    importer.built(),
                ),
                forall|k: int|
                    0 <= k < doc.scene_roots@.len() ==> {
                        &&& (#[trigger] doc.scene_roots@[k]) < t.claimed@.len()
                        &&& t.claimed@[doc.scene_roots@[k] as int]
                        &&& t.parents@[doc.scene_roots@[k] as int] is None
                    },
            decreases fuel,
        {
            proof {
                lemma_count_bound(t.claimed@);
            }
            let ghost at_head = t;
            let node = t.stack.pop().unwrap();
            proof {
                assert(t.pending_ok(Some(node as int))) by {
                    assert forall|i: int|
                        0 <= i < t.claimed@.len() && (#[trigger] t.claimed@[i])
                            && t.slots@[i] is None implies t.stack@.contains(i as usize) || Some(
                        node as int,
                    ) == Some(i) by {
                        if i != node {
                            let j = choose|j: int|
                                0 <= j < at_head.stack@.len() && at_head.stack@[j] == i as usize;
                            assert(t.stack@[j] == i as usize);
                        }
                    }
                }
            }
            let id = node as u16;
            let children = match t.claim_list(
                &importer.document,
                &importer.document.nodes[node].children,
                Some(id),
                Ghost(importer.meshes@),
            ) {
                Ok(list) => list,
                Err(e) => {
                    return Err(e);
                },
            };
            let ghost before_mesh = importer;
            let mut meshes: Vec<usize> = Vec::new();
            match importer.document.nodes[node].mesh {
                Some(m) => match importer.import_gltf_mesh(m) {
                    Ok(mesh) => {
                        meshes.push(mesh);
                    },
                    Err(e) => {
                        return Err(e);
                    },
                },
                None => {
                    proof {
                        lemma_extends_self(importer);
                    }
                },
            }
            proof {
                lemma_extends_trans(self, before_mesh, importer);
            }
            let skin = match build_skin(n, &importer.document.nodes[node].skin) {
                Ok(skin) => skin,
                Err(e) => {
                    return Err(e);
                },
            };
            let record = Node {
                parent: t.parents[node],
                children,
                transform: importer.document.nodes[node].transform,
                meshes,
                skin,
            };
            t.slots[node] = Some(record);
            fuel = fuel - 1;
        }
        if n > NODE_CAPACITY {
            return Err(ImportGltfError::NodeIndexCapacityExceeded(NODE_CAPACITY));
        }
        // the nodes that were reached must be the first nodes of the asset
        let k = t.claim_count;
        let mut i: usize = 0;
        while i < k
            invariant
                i <= k <= n <= NODE_CAPACITY,
                n == t.claimed@.len(),
                n == doc.nodes@.len(),
                k == count_true(t.claimed@),
                doc == self.document,
                image_count == self.images@.len(),
                claim(
                    n as int,
                    doc.scene_roots@,
                    0,
                    Walk { stack: Seq::empty(), claimed: Seq::new(n as nat, |i: int| false) },
                ) == Ok::<Walk, Failure>(seeded),
                visit_all(doc, image_count, seeded, n as nat) == Ok::<Seq<bool>, Failure>(
                    t.claimed@,
                ),
                forall|j: int| 0 <= j < i ==> #[trigger] t.claimed@[j],
                first_unclaimed(t.claimed@, 0) == first_unclaimed(t.claimed@, i as int),
            decreases k - i,
        {
            if !t.claimed[i] {
                return Err(ImportGltfError::NodeGraphNotForest(i));
            }
            i += 1;
        }
        proof {
            lemma_count_prefix(t.claimed@, k as int);
        }
        // and their skins must name none but them
        let mut i: usize = 0;
        while i < k
            invariant
                i <= k <= n <= NODE_CAPACITY,
                n == t.claimed@.len(),
                n == doc.nodes@.len(),
                k == count_true(t.claimed@),
                doc == self.document,
                doc == importer.document,
                image_count == self.images@.len(),
                claim(
                    n as int,
                    doc.scene_roots@,
                    0,
                    Walk { stack: Seq::empty(), claimed: Seq::new(n as nat, |i: int| false) },
                ) == Ok::<Walk, Failure>(seeded),
                visit_all(doc, image_count, seeded, n as nat) == Ok::<Seq<bool>, Failure>(
                    t.claimed@,
                ),
                first_unclaimed(t.claimed@, 0) >= k,
                skins_failure(doc, k as int, 0) == skins_failure(doc, k as int, i as int),
                forall|j: int|
                    0 <= j < i ==> skin_failure(k as int, (#[trigger] doc.nodes@[j]).skin) is None,
            decreases k - i,
        {
            match build_skin(k, &importer.document.nodes[i].skin) {
                Ok(_) => {},
                Err(e) => {
                    return Err(e);
                },
            }
            i += 1;
        }
        let ghost done = t;
        let ghost finished = importer;
        proof {
            assert forall|j: int| 0 <= j < k implies (#[trigger] done.slots@[j]) is Some by {
                assert(done.claimed@[j]);
            }
        }
        let nodes = into_nodes(t.slots, k);
        let scene = Scene {
            nodes,
            root_nodes,
            transform: Transform::identity(),
            meshes: importer.meshes,
            materials: importer.materials,
            textures: importer.textures,
        };
        proof {
            lemma_forest(done, doc, scene);
            lemma_resources(finished, scene);
        }
        Ok(scene)
    }
}

} // verus!
