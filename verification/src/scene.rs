use crate::ids::{id_list, IdList};
use crate::resources::{Material, Mesh, Texture};
use crate::transform::Transform;
use vstd::prelude::*;

verus! {

/// The binding of a mesh to the joints that deform it.
#[derive(Debug, Clone)]
pub struct Skin {
    pub joints: IdList,
    pub skeleton: Option<u16>,
}

/// An entry of the hierarchy: its links, its local transform, its meshes and its skin.
#[derive(Debug, Clone)]
pub struct Node {
    pub parent: Option<u16>,
    pub children: IdList,
    pub transform: Transform,
    /// Ids of the node's meshes in the scene's mesh table.
    pub meshes: Vec<usize>,
    pub skin: Option<Skin>,
}

/// A node hierarchy, addressed by node id, and the resources that its nodes draw with.
#[derive(Debug)]
pub struct Scene {
    pub nodes: Vec<Node>,
    pub root_nodes: IdList,
    pub transform: Transform,
    pub meshes: Vec<Mesh>,
    pub materials: Vec<Material>,
    pub textures: Vec<Texture>,
}

/// `rest` with `front` before it, where there is a `rest`.
pub open spec fn prepend(front: Seq<u16>, rest: Option<Seq<u16>>) -> Option<Seq<u16>> {
    match rest {
        Some(r) => Some(front + r),
        None => None,
    }
}

/// What a joint is placed relative to.
#[derive(Debug, Clone, PartialEq, Eq)]
pub enum PlacementBase {
    /// The scene's own root transform.
    SceneRoot,
    /// The skeleton root: its node id, then its ancestors up to a root.
    Skeleton(Vec<u16>),
}

/// The transforms that place a joint: the local transforms of the nodes of
/// `joint_chain`, multiplied in that order, then the base.
#[derive(Debug, Clone, PartialEq, Eq)]
pub struct JointPlacement {
    pub joint_chain: Vec<u16>,
    pub base: PlacementBase,
}

impl Skin {
    /// Every joint and the skeleton root are below `n`.
    pub open spec fn ids_below(self, n: int) -> bool {
        &&& forall|k: int|
            0 <= k < id_list(self.joints).len() ==> (#[trigger] id_list(self.joints)[k]) < n
        &&& self.skeleton matches Some(s) ==> s < n
    }
}

impl Node {
    /// Every node id that the node mentions is below `n`.
    pub open spec fn ids_below(self, n: int) -> bool {
        &&& self.parent matches Some(p) ==> p < n
        &&& forall|k: int|
            0 <= k < id_list(self.children).len() ==> (#[trigger] id_list(self.children)[k]) < n
        &&& self.skin matches Some(skin) ==> skin.ids_below(n)
    }
}

impl Scene {
    /// The ids of the children of node `i`.
    pub open spec fn children(self, i: int) -> Seq<u16> {
        id_list(self.nodes@[i].children)
    }

    /// The ids of the roots.
    pub open spec fn roots(self) -> Seq<u16> {
        id_list(self.root_nodes)
    }

    /// Every node has an id of 16 bits, and every node id in the scene is an index
    /// into its nodes.
    pub open spec fn ids_in_range(self) -> bool {
        &&& self.nodes@.len() <= 0x1_0000
        &&& forall|k: int|
            0 <= k < self.roots().len() ==> (#[trigger] self.roots()[k]) < self.nodes@.len()
        &&& forall|i: int|
            0 <= i < self.nodes@.len() ==> (#[trigger] self.nodes@[i]).ids_below(
                self.nodes@.len() as int,
            )
    }

    /// Parent and child links say the same thing, and the roots are the nodes without
    /// a parent.
    pub open spec fn links_consistent(self) -> bool {
        &&& forall|i: int, k: int|
            0 <= i < self.nodes@.len() && 0 <= k < self.children(i).len() ==> self.nodes@[(
            #[trigger] self.children(i)[k]) as int].parent == Some(i as u16)
        &&& forall|i: int|
            0 <= i < self.nodes@.len() ==> ((#[trigger] self.nodes@[i]).parent matches Some(p)
                ==> self.children(p as int).contains(i as u16))
        &&& forall|i: int|
            0 <= i < self.nodes@.len() ==> (#[trigger] self.children(i)).no_duplicates()
        &&& forall|k: int|
            0 <= k < self.roots().len() ==> self.nodes@[(#[trigger] self.roots()[k]) as int].parent
                is None
        &&& forall|i: int|
            0 <= i < self.nodes@.len() ==> ((#[trigger] self.nodes@[i]).parent is None
                ==> self.roots().contains(i as u16))
        &&& self.roots().no_duplicates()
    }

    /// Whether following parent links from node `i` ends at a node without a parent
    /// within `fuel` nodes, node `i` counted.
    pub open spec fn reaches_root(self, i: int, fuel: nat) -> bool
        decreases fuel,
    {
        if fuel == 0 || !(0 <= i < self.nodes@.len()) {
            false
        } else {
            match self.nodes@[i].parent {
                None => true,
                Some(p) => self.reaches_root(p as int, (fuel - 1) as nat),
            }
        }
    }

    /// No node is its own ancestor.
    pub open spec fn acyclic(self) -> bool {
        forall|i: int|
            0 <= i < self.nodes@.len() ==> #[trigger] self.reaches_root(
                i,
                self.nodes@.len() as nat,
            )
    }

    /// Every resource id is an index into its table, and no table holds two resources
    /// built from the same index of the asset.
    pub open spec fn resources_consistent(self) -> bool {
        &&& forall|i: int, k: int|
            0 <= i < self.nodes@.len() && 0 <= k < self.nodes@[i].meshes@.len() ==> (
            #[trigger] self.nodes@[i].meshes@[k]) < self.meshes@.len()
        &&& forall|m: int, p: int|
            0 <= m < self.meshes@.len() && 0 <= p < self.meshes@[m].primitives@.len() ==> (
            #[trigger] self.meshes@[m].primitives@[p]).material < self.materials@.len()
        &&& forall|m: int|
            0 <= m < self.materials@.len() ==> {
                &&& (#[trigger] self.materials@[m]).normal matches Some(t) ==> t
                    < self.textures@.len()
                &&& self.materials@[m].diffuse matches Some(t) ==> t < self.textures@.len()
            }
        &&& forall|a: int, b: int|
            0 <= a < b < self.textures@.len() ==> (#[trigger] self.textures@[a]).source != (
            #[trigger] self.textures@[b]).source
        &&& forall|a: int, b: int|
            0 <= a < b < self.materials@.len() ==> (#[trigger] self.materials@[a]).source != (
            #[trigger] self.materials@[b]).source
        &&& forall|a: int, b: int|
            0 <= a < b < self.meshes@.len() ==> (#[trigger] self.meshes@[a]).source != (
            #[trigger] self.meshes@[b]).source
    }

    /// The invariant of a scene: valid ids, consistent links, a forest, consistent
    /// resources.
    pub open spec fn wf(self) -> bool {
        &&& self.ids_in_range()
        &&& self.links_consistent()
        &&& self.acyclic()
        &&& self.resources_consistent()
    }

    /// Node `i`, then its parent, and so on up to a node without a parent; `None`
    /// where `i` or an ancestor is no node, or where more than `fuel` nodes would come.
    pub open spec fn chain(self, i: int, fuel: nat) -> Option<Seq<u16>>
        decreases fuel,
    {
        if fuel == 0 || !(0 <= i < self.nodes@.len()) {
            None
        } else {
            match self.nodes@[i].parent {
                None => Some(seq![i as u16]),
                Some(p) => prepend(seq![i as u16], self.chain(p as int, (fuel - 1) as nat)),
            }
        }
    }

    /// The nodes whose local transforms make up the world transform of `node`, in the
    /// order in which they are multiplied: the node itself first, a root last.
    pub open spec fn world_chain_of(self, node: int) -> Option<Seq<u16>> {
        self.chain(node, self.nodes@.len() as nat)
    }

    /// The chain of nodes from `node` up to a root (see [`Scene::world_chain_of`]).
    /// `None` where the parent links from `node` do not lead to a root.
    pub fn world_chain(&self, node: u16) -> (r: Option<Vec<u16>>)
        ensures
            match r {
                Some(c) => self.world_chain_of(node as int) == Some(c@),
                None => self.world_chain_of(node as int) is None,
            },
    {
        let n = self.nodes.len();
        let mut acc: Vec<u16> = Vec::new();
        let mut cur: usize = node as usize;
        let mut steps: usize = 0;
        loop
            invariant
                n == self.nodes@.len(),
                steps <= n,
                cur <= u16::MAX,
                self.world_chain_of(node as int) == prepend(
                    acc@,
                    self.chain(cur as int, (n - steps) as nat),
                ),
            decreases n - steps,
        {
            if steps >= n || cur >= n {
                return None;
            }
            acc.push(cur as u16);
            match self.nodes[cur].parent {
                None => {
                    return Some(acc);
                },
                Some(p) => {
                    cur = p as usize;
                    steps += 1;
                },
            }
        }
    }
}

impl Scene {
    /// Two scenes have the same graph: the same roots and, node for node, the same
    /// parent, children, meshes and skin. Only local transforms may differ.
    pub open spec fn same_graph(self, other: Scene) -> bool {
        &&& self.nodes@.len() == other.nodes@.len()
        &&& self.roots() == other.roots()
        &&& forall|i: int|
            0 <= i < self.nodes@.len() ==> {
                &&& (#[trigger] self.nodes@[i]).parent == other.nodes@[i].parent
                &&& self.children(i) == other.children(i)
                &&& self.nodes@[i].meshes@ == other.nodes@[i].meshes@
                &&& skins_agree(self.nodes@[i].skin, other.nodes@[i].skin)
            }
    }

    /// The ids below `upto` of the nodes that have a mesh, rising.
    pub open spec fn drawn_below(self, upto: int) -> Seq<u16>
        decreases upto,
    {
        if upto <= 0 {
            Seq::empty()
        } else if self.nodes@[upto - 1].meshes@.len() > 0 {
            self.drawn_below(upto - 1).push((upto - 1) as u16)
        } else {
            self.drawn_below(upto - 1)
        }
    }

    /// The number of nodes that can have an id.
    pub open spec fn id_count(self) -> int {
        if self.nodes@.len() <= 0x1_0000 {
            self.nodes@.len() as int
        } else {
            0x1_0000
        }
    }

    /// The nodes that a renderer draws, in the order of their ids: a node without
    /// meshes is passed over.
    pub fn drawn_nodes(&self) -> (ids: Vec<u16>)
        ensures
            ids@ == self.drawn_below(self.id_count()),
    {
        let n = if self.nodes.len() <= 0x1_0000 {
            self.nodes.len()
        } else {
            0x1_0000
        };
        let mut ids: Vec<u16> = Vec::new();
        let mut i: usize = 0;
        while i < n
            invariant
                i <= n <= 0x1_0000,
                n <= self.nodes@.len(),
                ids@ == self.drawn_below(i as int),
            decreases n - i,
        {
            if self.nodes[i].meshes.len() > 0 {
                ids.push(i as u16);
            }
            i += 1;
        }
        ids
    }

    /// The transform of node `node` becomes `transform`; nothing else changes.
    /// Returns whether the scene has such a node.
    pub fn set_local_transform(&mut self, node: u16, transform: Transform) -> (done: bool)
        ensures
            done == (node < old(self).nodes@.len()),
            !done ==> *final(self) == *old(self),
            done ==> final(self).nodes@[node as int].transform == transform,
            final(self).same_graph(*old(self)),
            final(self).transform == old(self).transform,
            final(self).meshes == old(self).meshes,
            final(self).materials == old(self).materials,
            final(self).textures == old(self).textures,
            forall|i: int|
                0 <= i < old(self).nodes@.len() && i != node ==> (#[trigger] final(self).nodes@[i])
                    == old(self).nodes@[i],
            old(self).wf() ==> final(self).wf(),
    {
        if (node as usize) < self.nodes.len() {
            self.nodes[node as usize].transform = transform;
            proof {
                if old(self).wf() {
                    lemma_same_graph_wf(*old(self), *self);
                }
            }
            true
        } else {
            false
        }
    }

    /// What places joint `k` of a skin: the chain of the joint, and the chain of the
    /// skeleton root where the skin declares one, else the scene's root transform.
    /// `None` where the skin has no such joint, or a chain does not lead to a root.
    pub open spec fn joint_placement_of(self, skin: Skin, k: int) -> Option<
        (Seq<u16>, Option<Seq<u16>>),
    > {
        if !(0 <= k < id_list(skin.joints).len()) {
            None
        } else {
            match self.world_chain_of(id_list(skin.joints)[k] as int) {
                None => None,
                Some(joint_chain) => match skin.skeleton {
                    None => Some((joint_chain, None)),
                    Some(root) => match self.world_chain_of(root as int) {
                        Some(base) => Some((joint_chain, Some(base))),
                        None => None,
                    },
                },
            }
        }
    }

    /// The placement of joint `k` of a skin (see [`Scene::joint_placement_of`]). A skin
    /// without a skeleton root is placed relative to the scene's root transform.
    pub fn joint_placement(&self, skin: &Skin, k: usize) -> (r: Option<JointPlacement>)
        ensures
            match r {
                Some(placement) => self.joint_placement_of(*skin, k as int) == Some(placement@),
                None => self.joint_placement_of(*skin, k as int) is None,
            },
            skin.skeleton is None && r is Some ==> r.unwrap().base == PlacementBase::SceneRoot,
    {
        if k >= skin.joints.count() {
            return None;
        }
        let joint_chain = match self.world_chain(skin.joints.at(k)) {
            Some(chain) => chain,
            None => {
                return None;
            },
        };
        match skin.skeleton {
            None => Some(JointPlacement { joint_chain, base: PlacementBase::SceneRoot }),
            Some(root) => match self.world_chain(root) {
                Some(base) => Some(JointPlacement { joint_chain, base: PlacementBase::Skeleton(base) }),
                None => None,
            },
        }
    }
}

impl View for JointPlacement {
    type V = (Seq<u16>, Option<Seq<u16>>);

    open spec fn view(&self) -> (Seq<u16>, Option<Seq<u16>>) {
        (
            self.joint_chain@,
            match self.base {
                PlacementBase::SceneRoot => None,
                PlacementBase::Skeleton(chain) => Some(chain@),
            },
        )
    }
}

/// Two skins bind the same joints to the same skeleton root.
pub open spec fn skins_agree(a: Option<Skin>, b: Option<Skin>) -> bool {
    match (a, b) {
        (Some(a), Some(b)) => id_list(a.joints) == id_list(b.joints) && a.skeleton == b.skeleton,
        (None, None) => true,
        _ => false,
    }
}

/// Following parent links does not depend on the transforms.
pub proof fn lemma_same_graph_reaches(a: Scene, b: Scene, i: int, fuel: nat)
    requires
        b.same_graph(a),
    ensures
        b.reaches_root(i, fuel) == a.reaches_root(i, fuel),
        b.chain(i, fuel) == a.chain(i, fuel),
    decreases fuel,
{
    if fuel > 0 && 0 <= i < a.nodes@.len() {
        if let Some(p) = a.nodes@[i].parent {
            lemma_same_graph_reaches(a, b, p as int, (fuel - 1) as nat);
        }
    }
}

/// A scene with the graph and the resources of a well-formed scene is well-formed.
pub proof fn lemma_same_graph_wf(a: Scene, b: Scene)
    requires
        a.wf(),
        b.same_graph(a),
        b.meshes == a.meshes,
        b.materials == a.materials,
        b.textures == a.textures,
    ensures
        b.wf(),
{
    assert forall|i: int| 0 <= i < b.nodes@.len() implies #[trigger] b.reaches_root(
        i,
        b.nodes@.len() as nat,
    ) by {
        lemma_same_graph_reaches(a, b, i, a.nodes@.len() as nat);
    }
}

/// In a well-formed scene the child list of a node's parent holds the node exactly
/// once, and a root has no parent.
pub proof fn lemma_parent_child_consistency(scene: Scene, i: int)
    requires
        scene.wf(),
        0 <= i < scene.nodes@.len(),
    ensures
        scene.nodes@[i].parent matches Some(p) ==> {
            &&& p < scene.nodes@.len()
            &&& exists|k: int|
                0 <= k < scene.children(p as int).len() && #[trigger] scene.children(p as int)[k]
                    == i
            &&& forall|j: int, k: int|
                0 <= j < scene.children(p as int).len() && 0 <= k < scene.children(p as int).len()
                    && scene.children(p as int)[j] == i && scene.children(p as int)[k] == i ==> j
                    == k
        },
        scene.roots().contains(i as u16) ==> scene.nodes@[i].parent is None,
        scene.nodes@[i].parent is None ==> scene.roots().contains(i as u16),
{
}

/// In a well-formed scene every node has a chain, which starts with the node and
/// goes on with the chain of its parent; the chain of a root is the root alone.
pub proof fn lemma_chain_unfolds(scene: Scene, i: int)
    requires
        scene.wf(),
        0 <= i < scene.nodes@.len(),
    ensures
        scene.world_chain_of(i) is Some,
        scene.world_chain_of(i).unwrap()[0] == i,
        match scene.nodes@[i].parent {
            Some(p) => scene.world_chain_of(p as int) is Some && scene.world_chain_of(i).unwrap()
                == seq![i as u16] + scene.world_chain_of(p as int).unwrap(),
            None => scene.world_chain_of(i).unwrap() == seq![i as u16],
        },
{
    let n = scene.nodes@.len() as nat;
    lemma_chain_of_reaching(scene, i, n);
    if let Some(p) = scene.nodes@[i].parent {
        lemma_chain_fuel(scene, p as int, (n - 1) as nat, n);
    }
}

/// The chain of a node three levels below a root: the node, its parent, its
/// grandparent, the root. The world transform is the product of their local
/// transforms in this order.
pub proof fn lemma_chain_of_three_levels(scene: Scene, root: u16, a: u16, b: u16, c: u16)
    requires
        scene.wf(),
        c < scene.nodes@.len(),
        scene.nodes@[c as int].parent == Some(b),
        scene.nodes@[b as int].parent == Some(a),
        scene.nodes@[a as int].parent == Some(root),
        scene.nodes@[root as int].parent is None,
    ensures
        scene.world_chain_of(c as int) == Some(seq![c, b, a, root]),
{
    lemma_chain_unfolds(scene, c as int);
    lemma_chain_unfolds(scene, b as int);
    lemma_chain_unfolds(scene, a as int);
}

/// In a well-formed scene the chain of a node ends at a root of the scene and is no
/// longer than the scene has nodes.
pub proof fn lemma_chain_ends_at_root(scene: Scene, i: int)
    requires
        scene.wf(),
        0 <= i < scene.nodes@.len(),
    ensures
        scene.world_chain_of(i) is Some,
        0 < scene.world_chain_of(i).unwrap().len() <= scene.nodes@.len(),
        scene.roots().contains(scene.world_chain_of(i).unwrap().last()),
{
    let n = scene.nodes@.len() as nat;
    lemma_chain_of_reaching(scene, i, n);
    lemma_chain_last(scene, i, n);
}

/// In a well-formed scene every joint of a skin of the scene has a placement; it is
/// relative to the scene's root transform exactly where the skin names no skeleton
/// root.
pub proof fn lemma_joint_placement_defined(scene: Scene, skin: Skin, k: int)
    requires
        scene.wf(),
        skin.ids_below(scene.nodes@.len() as int),
        0 <= k < id_list(skin.joints).len(),
    ensures
        scene.joint_placement_of(skin, k) is Some,
        scene.joint_placement_of(skin, k).unwrap().0 == scene.world_chain_of(
            id_list(skin.joints)[k] as int,
        ).unwrap(),
        scene.joint_placement_of(skin, k).unwrap().1 is None <==> skin.skeleton is None,
{
    lemma_chain_ends_at_root(scene, id_list(skin.joints)[k] as int);
    if let Some(root) = skin.skeleton {
        lemma_chain_ends_at_root(scene, root as int);
    }
}

/// A chain is no longer than its fuel, and its last node has no parent.
proof fn lemma_chain_last(scene: Scene, i: int, fuel: nat)
    requires
        scene.wf(),
        scene.chain(i, fuel) is Some,
    ensures
        0 < scene.chain(i, fuel).unwrap().len() <= fuel,
        scene.roots().contains(scene.chain(i, fuel).unwrap().last()),
    decreases fuel,
{
    if fuel > 0 && 0 <= i < scene.nodes@.len() {
        match scene.nodes@[i].parent {
            Some(p) => {
                lemma_chain_last(scene, p as int, (fuel - 1) as nat);
            },
            None => {
            },
        }
    }
}

/// Where the parent links lead to a root within the fuel, there is a chain.
proof fn lemma_chain_of_reaching(scene: Scene, i: int, fuel: nat)
    ensures
        scene.reaches_root(i, fuel) <==> scene.chain(i, fuel) is Some,
        scene.chain(i, fuel) is Some ==> scene.chain(i, fuel).unwrap().len() > 0
            && scene.chain(i, fuel).unwrap()[0] == i as u16,
    decreases fuel,
{
    if fuel > 0 && 0 <= i < scene.nodes@.len() {
        if let Some(p) = scene.nodes@[i].parent {
            lemma_chain_of_reaching(scene, p as int, (fuel - 1) as nat);
        }
    }
}

/// More fuel does not change a chain.
proof fn lemma_chain_fuel(scene: Scene, i: int, fuel: nat, more: nat)
    requires
        fuel <= more,
        scene.chain(i, fuel) is Some,
    ensures
        scene.chain(i, more) == scene.chain(i, fuel),
    decreases fuel,
{
    if fuel > 0 && 0 <= i < scene.nodes@.len() {
        if let Some(p) = scene.nodes@[i].parent {
            lemma_chain_fuel(scene, p as int, (fuel - 1) as nat, (more - 1) as nat);
        }
    }
}

} // verus!
