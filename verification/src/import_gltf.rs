use crate::buffers::byte_rows;
use crate::builder::{
    material_built, mesh_built, mesh_failure, texture_built, with_mesh, Built, Importer,
};
use crate::document::{Document, ImageSource, SkinDesc};
use crate::error::{Failure, ImportGltfError};
use crate::forest::{
    count_true, forest_of, importable, is_forest, lemma_forest_is_imported,
    lemma_imported_is_forest, Forest,
};
use crate::ids::{id_list, IdList};
use crate::images::{
    images_failure, import_images, loading_may_fail_at, no_jpeg, pixel_views, resolved_pixels,
    Pixels,
};
use crate::resources::{Material, Mesh, Texture};
use crate::scene::{skins_agree, Node, Scene, Skin};
use crate::transform::ONE_BITS;
use vstd::prelude::*;

verus! {


/// Largest index that fits the 16-bit width of a node id.
pub const MAX_NODE_INDEX: usize = 65535;

/// The node id for a node index of the asset; an index beyond the 16-bit id width is
/// refused.
pub fn map_node_to_u16_index(index: usize) -> (r: Result<u16, ImportGltfError>)
    ensures
        match r {
            Ok(id) => id == index,
            Err(e) => index > MAX_NODE_INDEX && e@ == Failure::NodeIndexCapacityExceeded(
                index as int,
            ),
        },
{
    if index <= MAX_NODE_INDEX {
        Ok(index as u16)
    } else {
        Err(ImportGltfError::NodeIndexCapacityExceeded(index))
    }
}

/// Why an index cannot be the id of one of `n` nodes, if it cannot: it is beyond the
/// id width, or else it is no node of the asset.
pub open spec fn node_id_failure(n: int, index: usize) -> Option<Failure> {
    if index > MAX_NODE_INDEX {
        Some(Failure::NodeIndexCapacityExceeded(index as int))
    } else if index >= n {
        Some(Failure::UnknownNodeIndex(index as int))
    } else {
        None
    }
}

/// The id of a node of an asset with `n` nodes.
pub fn check_node_id(n: usize, index: usize) -> (r: Result<u16, ImportGltfError>)
    ensures
        match r {
            Ok(id) => node_id_failure(n as int, index) is None && id == index,
            Err(e) => node_id_failure(n as int, index) == Some(e@),
        },
{
    match map_node_to_u16_index(index) {
        Ok(id) => if index < n {
            Ok(id)
        } else {
            Err(ImportGltfError::UnknownNodeIndex(index))
        },
        Err(e) => Err(e),
    }
}

/// The failure of the first index, from position `from` on, that cannot be a node id.
pub open spec fn node_ids_failure(n: int, ids: Seq<usize>, from: int) -> Option<Failure>
    decreases ids.len() - from,
{
    if from < 0 || from >= ids.len() {
        None
    } else {
        match node_id_failure(n, ids[from]) {
            Some(e) => Some(e),
            None => node_ids_failure(n, ids, from + 1),
        }
    }
}

/// `list` holds the indices `ids`, each as a 16-bit id.
pub open spec fn narrowed(ids: Seq<usize>, list: Seq<u16>) -> bool {
    &&& list.len() == ids.len()
    &&& forall|k: int| 0 <= k < ids.len() ==> (#[trigger] list[k]) == ids[k]
}

/// The ids of a list of node indices.
pub fn narrow_node_ids(n: usize, ids: &Vec<usize>) -> (r: Result<IdList, ImportGltfError>)
    ensures
        match r {
            Ok(list) => node_ids_failure(n as int, ids@, 0) is None && narrowed(
                ids@,
                id_list(list),
            ),
            Err(e) => node_ids_failure(n as int, ids@, 0) == Some(e@),
        },
{
    let mut list = IdList::empty();
    let mut k: usize = 0;
    while k < ids.len()
        invariant
            k <= ids@.len(),
            node_ids_failure(n as int, ids@, 0) == node_ids_failure(n as int, ids@, k as int),
            narrowed(ids@.take(k as int), id_list(list)),
        decreases ids@.len() - k,
    {
        match check_node_id(n, ids[k]) {
            Ok(id) => {
                list.append(id);
            },
            Err(e) => {
                return Err(e);
            },
        }
        k += 1;
    }
    Ok(list)
}

/// Why a skin cannot be built, if it cannot: the first joint that cannot be a node
/// id, or else the skeleton root.
pub open spec fn skin_failure(n: int, skin: Option<SkinDesc>) -> Option<Failure> {
    match skin {
        None => None,
        Some(desc) => match node_ids_failure(n, desc.joints@, 0) {
            Some(e) => Some(e),
            None => match desc.skeleton {
                Some(root) => node_id_failure(n, root),
                None => None,
            },
        },
    }
}

/// `skin` is what a skin of the asset builds to: the same joints and the same
/// skeleton root, as node ids.
pub open spec fn skin_built(desc: Option<SkinDesc>, skin: Option<Skin>) -> bool {
    match desc {
        None => skin is None,
        Some(desc) => {
            &&& skin is Some
            &&& narrowed(desc.joints@, id_list(skin.unwrap().joints))
            &&& match desc.skeleton {
                Some(root) => skin.unwrap().skeleton matches Some(id) && id == root,
                None => skin.unwrap().skeleton is None,
            }
        },
    }
}

/// The skin of a node of an asset with `n` nodes.
pub fn build_skin(n: usize, desc: &Option<SkinDesc>) -> (r: Result<Option<Skin>, ImportGltfError>)
    ensures
        match r {
            Ok(skin) => skin_failure(n as int, *desc) is None && skin_built(*desc, skin),
            Err(e) => skin_failure(n as int, *desc) == Some(e@),
        },
{
    match desc {
        None => Ok(None),
        Some(desc) => {
            let joints = match narrow_node_ids(n, &desc.joints) {
                Ok(joints) => joints,
                Err(e) => {
                    return Err(e);
                },
            };
            let skeleton = match desc.skeleton {
                Some(root) => match check_node_id(n, root) {
                    Ok(id) => Some(id),
                    Err(e) => {
                        return Err(e);
                    },
                },
                None => None,
            };
            Ok(Some(Skin { joints, skeleton }))
        },
    }
}

/// A traversal of the node graph under way: the nodes that wait for their visit, the
/// next one last, and for every node whether a root list or a child list has named it.
pub struct Walk {
    pub stack: Seq<usize>,
    pub claimed: Seq<bool>,
}

/// Names the nodes `ids[from..]`, in their order, for their visit. A node is named at
/// most once: the first index that cannot be a node id, or that names a node a second
/// time, ends the traversal.
pub open spec fn claim(n: int, ids: Seq<usize>, from: int, walk: Walk) -> Result<Walk, Failure>
    decreases ids.len() - from,
{
    if from < 0 || from >= ids.len() {
        Ok(walk)
    } else {
        let index = ids[from];
        match node_id_failure(n, index) {
            Some(e) => Err(e),
            None => if walk.claimed[index as int] {
                Err(Failure::NodeGraphNotForest(index as int))
            } else {
                claim(
                    n,
                    ids,
                    from + 1,
                    Walk {
                        stack: walk.stack.push(index),
                        claimed: walk.claimed.update(index as int, true),
                    },
                )
            },
        }
    }
}

/// Why the record of node `i` cannot be built, if it cannot: its mesh fails, or else
/// its skin.
pub open spec fn node_failure(doc: Document, image_count: int, i: int) -> Option<Failure> {
    let desc = doc.nodes@[i];
    let mesh = match desc.mesh {
        Some(m) => mesh_failure(doc, image_count, m as int),
        None => None,
    };
    match mesh {
        Some(e) => Some(e),
        None => skin_failure(doc.nodes@.len() as int, desc.skin),
    }
}

/// The record of each of the first `k` nodes of the asset can be built, and their
/// skins name none but these nodes.
pub open spec fn records_buildable(doc: Document, image_count: int, k: int) -> bool {
    forall|i: int|
        0 <= i < k ==> (#[trigger] node_failure(doc, image_count, i)) is None && skin_failure(
            k,
            doc.nodes@[i].skin,
        ) is None
}

/// The failure of the first of the nodes `from..k` whose skin names a node that is
/// none of the first `k`.
pub open spec fn skins_failure(doc: Document, k: int, from: int) -> Option<Failure>
    decreases k - from,
{
    if from < 0 || from >= k {
        None
    } else {
        match skin_failure(k, doc.nodes@[from].skin) {
            Some(e) => Some(e),
            None => skins_failure(doc, k, from + 1),
        }
    }
}

/// Visits the waiting nodes, last first, at most `fuel` of them: a visit names the
/// children of the node, then builds its record. The result tells which nodes were
/// named, or the first failure.
pub open spec fn visit_all(doc: Document, image_count: int, walk: Walk, fuel: nat) -> Result<
    Seq<bool>,
    Failure,
>
    decreases fuel,
{
    if walk.stack.len() == 0 || fuel == 0 {
        Ok(walk.claimed)
    } else {
        let node = walk.stack.last();
        let rest = Walk { stack: walk.stack.drop_last(), claimed: walk.claimed };
        match claim(doc.nodes@.len() as int, doc.nodes@[node as int].children@, 0, rest) {
            Err(e) => Err(e),
            Ok(next) => match node_failure(doc, image_count, node as int) {
                Some(e) => Err(e),
                None => visit_all(doc, image_count, next, (fuel - 1) as nat),
            },
        }
    }
}

/// The tables after the visit of node `i`: its mesh is requested, if it has one.
pub open spec fn with_node(doc: Document, built: Built, i: int) -> Built {
    match doc.nodes@[i].mesh {
        Some(m) => with_mesh(doc, built, m as int),
        None => built,
    }
}

/// The tables after the visits of a traversal that meets no failure (see
/// [`visit_all`]), starting with the tables `built`.
pub open spec fn built_by_visits(doc: Document, walk: Walk, fuel: nat, built: Built) -> Built
    decreases fuel,
{
    if walk.stack.len() == 0 || fuel == 0 {
        built
    } else {
        let node = walk.stack.last();
        let rest = Walk { stack: walk.stack.drop_last(), claimed: walk.claimed };
        match claim(doc.nodes@.len() as int, doc.nodes@[node as int].children@, 0, rest) {
            Err(_) => built,
            Ok(next) => built_by_visits(
                doc,
                next,
                (fuel - 1) as nat,
                with_node(doc, built, node as int),
            ),
        }
    }
}

/// The order in which the import of the default scene builds the resources of an
/// asset, behind those of `built`: every node requests its mesh at its visit.
pub open spec fn built_by_import(doc: Document, built: Built) -> Built {
    let n = doc.nodes@.len() as int;
    let start = Walk { stack: Seq::empty(), claimed: Seq::new(n as nat, |i: int| false) };
    match claim(n, doc.scene_roots@, 0, start) {
        Ok(walk) => built_by_visits(doc, walk, n as nat, built),
        Err(_) => built,
    }
}

/// The order in which the resources of a scene stand in its tables.
pub open spec fn scene_order(scene: Scene) -> Built {
    Built {
        textures: scene.textures@.map_values(|t: Texture| t.source as int),
        materials: scene.materials@.map_values(|m: Material| m.source),
        meshes: scene.meshes@.map_values(|m: Mesh| m.source as int),
    }
}

/// No resource has been built.
pub open spec fn nothing_built() -> Built {
    Built { textures: Seq::empty(), materials: Seq::empty(), meshes: Seq::empty() }
}

/// The first position from `from` on that holds `false`, or the length.
pub open spec fn first_unclaimed(claimed: Seq<bool>, from: int) -> int
    decreases claimed.len() - from,
{
    if from < 0 || from >= claimed.len() || !claimed[from] {
        from
    } else {
        first_unclaimed(claimed, from + 1)
    }
}

/// The number of node ids.
pub const NODE_CAPACITY: usize = 65536;

/// The first failure that the traversal of the default scene meets, if it meets one.
pub open spec fn traversal_failure(doc: Document, image_count: int) -> Option<Failure> {
    let n = doc.nodes@.len() as int;
    let start = Walk { stack: Seq::empty(), claimed: Seq::new(n as nat, |i: int| false) };
    match claim(n, doc.scene_roots@, 0, start) {
        Err(e) => Some(e),
        Ok(walk) => match visit_all(doc, image_count, walk, n as nat) {
            Err(e) => Some(e),
            Ok(_) => None,
        },
    }
}

/// Which nodes the traversal of the default scene names, where it meets no failure.
pub open spec fn named_nodes(doc: Document, image_count: int) -> Seq<bool> {
    let n = doc.nodes@.len() as int;
    let start = Walk { stack: Seq::empty(), claimed: Seq::new(n as nat, |i: int| false) };
    match claim(n, doc.scene_roots@, 0, start) {
        Ok(walk) => match visit_all(doc, image_count, walk, n as nat) {
            Ok(claimed) => claimed,
            Err(_) => start.claimed,
        },
        Err(_) => start.claimed,
    }
}

/// The number of nodes that the default scene reaches.
pub open spec fn reached(doc: Document, image_count: int) -> int {
    count_true(named_nodes(doc, image_count)) as int
}

/// Why the default scene of an asset cannot be built, if it cannot.
///
/// The traversal starts with the scene's roots and visits every node that it names;
/// its first failure is the failure of the import. Where it meets none, an asset with
/// more nodes than there are ids is refused for its first node without an id. A scene
/// holds its nodes under the indices that they have in the asset: the nodes that the
/// scene reaches must be the first nodes of the asset, and the first node that it
/// does not reach before one that it reaches is reported. Last, the skins of the
/// reached nodes must name reached nodes.
pub open spec fn scene_failure(doc: Document, image_count: int) -> Option<Failure> {
    let n = doc.nodes@.len() as int;
    let start = Walk { stack: Seq::empty(), claimed: Seq::new(n as nat, |i: int| false) };
    match claim(n, doc.scene_roots@, 0, start) {
        Err(e) => Some(e),
        Ok(walk) => match visit_all(doc, image_count, walk, n as nat) {
            Err(e) => Some(e),
            Ok(claimed) => if n > NODE_CAPACITY {
                Some(Failure::NodeIndexCapacityExceeded(NODE_CAPACITY as int))
            } else if first_unclaimed(claimed, 0) < count_true(claimed) {
                Some(Failure::NodeGraphNotForest(first_unclaimed(claimed, 0)))
            } else {
                skins_failure(doc, count_true(claimed) as int, 0)
            },
        },
    }
}

/// The meshes of a node: the built mesh for the one that the asset gives it, if any.
pub open spec fn node_meshes_built(mesh: Option<usize>, meshes: Seq<Mesh>, ids: Seq<usize>) -> bool {
    match mesh {
        Some(m) => ids.len() == 1 && ids[0] < meshes.len() && meshes[ids[0] as int].source == m,
        None => ids.len() == 0,
    }
}

/// `node` is the record of node `i` of the asset, but for its parent: the same
/// children, transform, mesh and skin.
pub open spec fn node_built(doc: Document, meshes: Seq<Mesh>, i: int, node: Node) -> bool {
    let desc = doc.nodes@[i];
    &&& narrowed(desc.children@, id_list(node.children))
    &&& node.transform == desc.transform
    &&& node_meshes_built(desc.mesh, meshes, node.meshes@)
    &&& skin_built(desc.skin, node.skin)
}

/// The scene holds what the asset describes: the first nodes of the asset, each with
/// its record under its index, the roots of the default scene, the identity as its
/// own transform, and resources that are each what the asset says of the index they
/// were built from.
pub open spec fn scene_built(doc: Document, images: Seq<Pixels>, scene: Scene) -> bool {
    &&& scene.nodes@.len() <= doc.nodes@.len()
    &&& narrowed(doc.scene_roots@, scene.roots())
    &&& forall|col: int, row: int|
        0 <= col < 4 && 0 <= row < 4 ==> #[trigger] scene.transform.entry(col, row) == if col
            == row {
            ONE_BITS
        } else {
            0u32
        }
    &&& forall|i: int|
        0 <= i < scene.nodes@.len() ==> node_built(doc, scene.meshes@, i, #[trigger] scene.nodes@[i])
    &&& forall|k: int|
        0 <= k < scene.textures@.len() ==> texture_built(
            doc,
            images,
            (#[trigger] scene.textures@[k]).source as int,
            scene.textures@[k],
        )
    &&& forall|k: int|
        0 <= k < scene.materials@.len() ==> material_built(
            doc,
            scene.textures@,
            (#[trigger] scene.materials@[k]).source,
            scene.materials@[k],
        )
    &&& forall|k: int|
        0 <= k < scene.meshes@.len() ==> mesh_built(
            doc,
            scene.materials@,
            (#[trigger] scene.meshes@[k]).source as int,
            scene.meshes@[k],
        )
}

impl Importer {
    /// Builds the default scene of the asset. The node graph is walked with a work
    /// list that starts with the scene's roots; every node keeps the index that it has
    /// in the asset as its id, and its record stands under that index in the scene.
    /// The scene holds the nodes that its roots reach. The import succeeds on the
    /// assets in which these are the first nodes and form a forest, and whose records
    /// for these nodes can all be built.
    pub fn import_default_scene(self) -> (r: Result<Scene, ImportGltfError>)
        requires
            self.wf(),
        ensures
            r is Ok <==> importable(self.document, self.images@.len() as int),
            match r {
                Ok(scene) => {
                    &&& scene_failure(self.document, self.images@.len() as int) is None
                    &&& scene.wf()
                    &&& scene.nodes@.len() == reached(self.document, self.images@.len() as int)
                    &&& scene_built(self.document, self.pixels(), scene)
                    &&& scene_order(scene) == built_by_import(self.document, self.built())
                },
                Err(e) => scene_failure(self.document, self.images@.len() as int) == Some(e@),
            },
    {
        let ghost doc = self.document;
        let ghost image_count = self.images@.len() as int;
        let ghost pixels = self.pixels();
        let r = self.walk_default_scene();
        proof {
            if r is Ok {
                lemma_imported_is_forest(doc, pixels, r->Ok_0);
            } else if importable(doc, image_count) {
                let forest = choose|forest: Forest|
                    is_forest(doc, forest) && records_buildable(
                        doc,
                        image_count,
                        forest.parent.len() as int,
                    );
                lemma_forest_is_imported(doc, forest, image_count);
            }
        }
        r
    }
}

/// Builds the default scene of an asset from its description, its resolved buffers
/// and the files that its images name: resolves the images in their order, then builds
/// the resources and the node graph. `image_files[k]` holds the bytes of the file that
/// image `k` names, or `None`. The import succeeds where every image resolves and the
/// scene can be built (see [`importable`]); else it reports the first failure that it
/// meets. A JPEG may fail to load whatever its bytes are.
pub fn import_default_scene(
    document: Document,
    image_sources: &Vec<ImageSource>,
    buffers: &Vec<Vec<u8>>,
    image_files: &Vec<Option<Vec<u8>>>,
) -> (r: Result<Scene, ImportGltfError>)
    ensures
        r is Ok ==> images_failure(image_sources@, byte_rows(buffers@), image_files@, 0) is None
            && importable(document, image_sources@.len() as int),
        images_failure(image_sources@, byte_rows(buffers@), image_files@, 0) is None && importable(
            document,
            image_sources@.len() as int,
        ) && no_jpeg(image_sources@, byte_rows(buffers@), image_files@) ==> r is Ok,
        match r {
            Ok(scene) => {
                &&& scene_failure(document, image_sources@.len() as int) is None
                &&& scene.wf()
                &&& scene.nodes@.len() == reached(document, image_sources@.len() as int)
                &&& scene_built(
                    document,
                    resolved_pixels(image_sources@, byte_rows(buffers@), image_files@),
                    scene,
                )
                &&& scene_order(scene) == built_by_import(document, nothing_built())
            },
            Err(e) => (exists|k: int|
                #[trigger] loading_may_fail_at(image_sources@, byte_rows(buffers@), image_files@, k)
                    && e@ == Failure::ImageLoadingFailed(k)) || match images_failure(
                image_sources@,
                byte_rows(buffers@),
                image_files@,
                0,
            ) {
                Some(failure) => e@ == failure,
                None => scene_failure(document, image_sources@.len() as int) == Some(e@),
            },
        },
{
    let images = match import_images(image_sources, buffers, image_files) {
        Ok(images) => images,
        Err(e) => {
            return Err(e);
        },
    };
    proof {
        assert(pixel_views(images@).len() == images@.len());
    }
    let importer = Importer::new(document, images);
    proof {
        assert(importer.built().textures =~= nothing_built().textures);
        assert(importer.built().materials =~= nothing_built().materials);
        assert(importer.built().meshes =~= nothing_built().meshes);
    }
    importer.import_default_scene()
}

/// Two scenes built from one asset, each with the nodes that the asset's default
/// scene reaches, have the same nodes: the same roots and, node for node, the same
/// parent, children, skin and transform bits, and meshes built from the same meshes of
/// the asset.
pub proof fn lemma_import_deterministic(doc: Document, images: Seq<Pixels>, a: Scene, b: Scene)
    requires
        a.wf(),
        b.wf(),
        scene_built(doc, images, a),
        scene_built(doc, images, b),
        a.nodes@.len() == b.nodes@.len(),
    ensures
        a.roots() == b.roots(),
        a.transform.same_bits(b.transform),
        forall|i: int|
            0 <= i < a.nodes@.len() ==> {
                &&& (#[trigger] a.nodes@[i]).parent == b.nodes@[i].parent
                &&& a.children(i) == b.children(i)
                &&& a.nodes@[i].transform == b.nodes@[i].transform
                &&& skins_agree(a.nodes@[i].skin, b.nodes@[i].skin)
                &&& a.nodes@[i].meshes@.len() == b.nodes@[i].meshes@.len()
                &&& forall|k: int|
                    0 <= k < a.nodes@[i].meshes@.len() ==> a.meshes@[(
                    #[trigger] a.nodes@[i].meshes@[k]) as int].source
                        == b.meshes@[b.nodes@[i].meshes@[k] as int].source
            },
{
    assert(a.roots() =~= b.roots());
    assert forall|i: int| 0 <= i < a.nodes@.len() implies {
        &&& (#[trigger] a.nodes@[i]).parent == b.nodes@[i].parent
        &&& a.children(i) == b.children(i)
        &&& a.nodes@[i].transform == b.nodes@[i].transform
        &&& skins_agree(a.nodes@[i].skin, b.nodes@[i].skin)
        &&& a.nodes@[i].meshes@.len() == b.nodes@[i].meshes@.len()
        &&& forall|k: int|
            0 <= k < a.nodes@[i].meshes@.len() ==> a.meshes@[(
            #[trigger] a.nodes@[i].meshes@[k]) as int].source
                == b.meshes@[b.nodes@[i].meshes@[k] as int].source
    } by {
        let x = a.nodes@[i];
        let y = b.nodes@[i];
        if let Some(desc) = doc.nodes@[i].skin {
            assert(id_list(x.skin.unwrap().joints) =~= id_list(y.skin.unwrap().joints));
        }
        // the parent is the node whose child list holds the node
        match x.parent {
            Some(p) => {
                let kids = a.children(p as int);
                let k = choose|k: int| 0 <= k < kids.len() && kids[k] == i as u16;
                assert(b.children(p as int)[k] == i as u16);
            },
            None => {
            },
        }
    }
}

/// Two scenes built from one asset in one order hold the same resources under the
/// same ids: node for node the same mesh ids, and table for table entries that agree
/// in everything they hold.
pub proof fn lemma_import_pins_resources(doc: Document, images: Seq<Pixels>, a: Scene, b: Scene)
    requires
        a.wf(),
        b.wf(),
        scene_built(doc, images, a),
        scene_built(doc, images, b),
        a.nodes@.len() == b.nodes@.len(),
        scene_order(a) == scene_order(b),
    ensures
        forall|i: int|
            0 <= i < a.nodes@.len() ==> (#[trigger] a.nodes@[i]).meshes@ == b.nodes@[i].meshes@,
        a.textures@.len() == b.textures@.len(),
        forall|k: int|
            0 <= k < a.textures@.len() ==> {
                &&& (#[trigger] a.textures@[k]).source == b.textures@[k].source
                &&& a.textures@[k].data@ == b.textures@[k].data@
                &&& a.textures@[k].width == b.textures@[k].width
                &&& a.textures@[k].height == b.textures@[k].height
                &&& a.textures@[k].format == b.textures@[k].format
                &&& a.textures@[k].sampling == b.textures@[k].sampling
            },
        a.materials@.len() == b.materials@.len(),
        forall|k: int|
            0 <= k < a.materials@.len() ==> {
                &&& (#[trigger] a.materials@[k]).source == b.materials@[k].source
                &&& a.materials@[k].normal == b.materials@[k].normal
                &&& a.materials@[k].diffuse == b.materials@[k].diffuse
                &&& a.materials@[k].base_diffuse_color@ == b.materials@[k].base_diffuse_color@
            },
        a.meshes@.len() == b.meshes@.len(),
        forall|k: int, p: int|
            0 <= k < a.meshes@.len() && 0 <= p < a.meshes@[k].primitives@.len() ==> {
                &&& a.meshes@[k].source == b.meshes@[k].source
                &&& a.meshes@[k].primitives@.len() == b.meshes@[k].primitives@.len()
                &&& (#[trigger] a.meshes@[k].primitives@[p]).material
                    == b.meshes@[k].primitives@[p].material
                &&& a.meshes@[k].primitives@[p].indices@ == b.meshes@[k].primitives@[p].indices@
                &&& a.meshes@[k].primitives@[p].vertices@ == b.meshes@[k].primitives@[p].vertices@
            },
{
    let order = scene_order(a);
    assert(order.textures.len() == a.textures@.len() && order.textures.len() == b.textures@.len());
    assert(order.materials.len() == a.materials@.len() && order.materials.len()
        == b.materials@.len());
    assert(order.meshes.len() == a.meshes@.len() && order.meshes.len() == b.meshes@.len());
    assert forall|k: int| 0 <= k < a.textures@.len() implies (#[trigger] a.textures@[k]).source
        == b.textures@[k].source by {
        assert(scene_order(a).textures[k] == scene_order(b).textures[k]);
    }
    assert forall|k: int| 0 <= k < a.materials@.len() implies (#[trigger] a.materials@[k]).source
        == b.materials@[k].source by {
        assert(scene_order(a).materials[k] == scene_order(b).materials[k]);
    }
    assert forall|k: int| 0 <= k < a.meshes@.len() implies (#[trigger] a.meshes@[k]).source
        == b.meshes@[k].source by {
        assert(scene_order(a).meshes[k] == scene_order(b).meshes[k]);
    }
    assert forall|k: int| 0 <= k < a.textures@.len() implies {
        &&& (#[trigger] a.textures@[k]).source == b.textures@[k].source
        &&& a.textures@[k].data@ == b.textures@[k].data@
        &&& a.textures@[k].width == b.textures@[k].width
        &&& a.textures@[k].height == b.textures@[k].height
        &&& a.textures@[k].format == b.textures@[k].format
        &&& a.textures@[k].sampling == b.textures@[k].sampling
    } by {
    }
    assert forall|k: int| 0 <= k < a.materials@.len() implies {
        &&& (#[trigger] a.materials@[k]).source == b.materials@[k].source
        &&& a.materials@[k].normal == b.materials@[k].normal
        &&& a.materials@[k].diffuse == b.materials@[k].diffuse
        &&& a.materials@[k].base_diffuse_color@ == b.materials@[k].base_diffuse_color@
    } by {
    }
    assert forall|k: int, p: int|
        0 <= k < a.meshes@.len() && 0 <= p < a.meshes@[k].primitives@.len() implies {
        &&& a.meshes@[k].source == b.meshes@[k].source
        &&& a.meshes@[k].primitives@.len() == b.meshes@[k].primitives@.len()
        &&& (#[trigger] a.meshes@[k].primitives@[p]).material == b.meshes@[k].primitives@[p].material
        &&& a.meshes@[k].primitives@[p].indices@ == b.meshes@[k].primitives@[p].indices@
        &&& a.meshes@[k].primitives@[p].vertices@ == b.meshes@[k].primitives@[p].vertices@
    } by {
        let x = a.meshes@[k];
        let y = b.meshes@[k];
        let px = x.primitives@[p];
        let py = y.primitives@[p];
        assert forall|v: int| 0 <= v < px.vertices@.len() implies px.vertices@[v] == py.vertices@[v] by {
            let vx = px.vertices@[v];
            let vy = py.vertices@[v];
            assert(vx.position == vy.position);
        }
    }
}

/// A texture of the asset is built once: two materials whose diffuse textures are
/// the same texture of the asset refer to one and the same built texture, and so do
/// two built textures with the same index of the asset.
pub proof fn lemma_texture_built_once(doc: Document, images: Seq<Pixels>, scene: Scene, m1: int, m2: int)
    requires
        scene.wf(),
        scene_built(doc, images, scene),
        0 <= m1 < scene.materials@.len(),
        0 <= m2 < scene.materials@.len(),
        scene.materials@[m1].source is Some,
        scene.materials@[m2].source is Some,
        doc.materials@[scene.materials@[m1].source.unwrap() as int].base_color_texture is Some,
        doc.materials@[scene.materials@[m1].source.unwrap() as int].base_color_texture
            == doc.materials@[scene.materials@[m2].source.unwrap() as int].base_color_texture,
    ensures
        scene.materials@[m1].diffuse is Some,
        scene.materials@[m1].diffuse == scene.materials@[m2].diffuse,
        forall|a: int, b: int|
            0 <= a < scene.textures@.len() && 0 <= b < scene.textures@.len()
                && scene.textures@[a].source == scene.textures@[b].source ==> a == b,
{
}

/// No index of a built scene was cut to fit: every root, child, joint and skeleton
/// root of the asset fits the 16-bit id width, and so does every vertex index of a
/// built mesh.
pub proof fn lemma_no_truncation(doc: Document, images: Seq<Pixels>, scene: Scene)
    requires
        scene_built(doc, images, scene),
    ensures
        forall|k: int|
            0 <= k < doc.scene_roots@.len() ==> (#[trigger] doc.scene_roots@[k]) <= MAX_NODE_INDEX,
        forall|i: int, k: int|
            0 <= i < scene.nodes@.len() && 0 <= k < doc.nodes@[i].children@.len() ==> (
            #[trigger] doc.nodes@[i].children@[k]) <= MAX_NODE_INDEX,
        forall|i: int, k: int|
            0 <= i < scene.nodes@.len() && doc.nodes@[i].skin is Some && 0 <= k
                < doc.nodes@[i].skin.unwrap().joints@.len() ==> (
            #[trigger] doc.nodes@[i].skin.unwrap().joints@[k]) <= MAX_NODE_INDEX,
        forall|i: int|
            0 <= i < scene.nodes@.len() && (#[trigger] doc.nodes@[i]).skin is Some
                && doc.nodes@[i].skin.unwrap().skeleton is Some
                ==> doc.nodes@[i].skin.unwrap().skeleton.unwrap() <= MAX_NODE_INDEX,
        forall|m: int, p: int, k: int|
            0 <= m < scene.meshes@.len() && 0 <= p < scene.meshes@[m].primitives@.len() && 0 <= k
                < scene.meshes@[m].primitives@[p].indices@.len() ==> (
            #[trigger] doc.meshes@[scene.meshes@[m].source as int].primitives@[p].indices.unwrap()@[k])
                <= 0xffff,
{
    assert forall|k: int| 0 <= k < doc.scene_roots@.len() implies (
    #[trigger] doc.scene_roots@[k]) <= MAX_NODE_INDEX by {
        assert(scene.roots()[k] == doc.scene_roots@[k]);
    }
    assert forall|i: int, k: int|
        0 <= i < scene.nodes@.len() && 0 <= k < doc.nodes@[i].children@.len() implies (
    #[trigger] doc.nodes@[i].children@[k]) <= MAX_NODE_INDEX by {
        assert(id_list(scene.nodes@[i].children)[k] == doc.nodes@[i].children@[k]);
    }
    assert forall|i: int, k: int|
        0 <= i < scene.nodes@.len() && doc.nodes@[i].skin is Some && 0 <= k
            < doc.nodes@[i].skin.unwrap().joints@.len() implies (
    #[trigger] doc.nodes@[i].skin.unwrap().joints@[k]) <= MAX_NODE_INDEX by {
        assert(id_list(scene.nodes@[i].skin.unwrap().joints)[k]
            == doc.nodes@[i].skin.unwrap().joints@[k]);
    }
    assert forall|i: int|
        0 <= i < scene.nodes@.len() && (#[trigger] doc.nodes@[i]).skin is Some
            && doc.nodes@[i].skin.unwrap().skeleton is Some implies
        doc.nodes@[i].skin.unwrap().skeleton.unwrap() <= MAX_NODE_INDEX by {
        assert(node_built(doc, scene.meshes@, i, scene.nodes@[i]));
    }
    assert forall|m: int, p: int, k: int|
        0 <= m < scene.meshes@.len() && 0 <= p < scene.meshes@[m].primitives@.len() && 0 <= k
            < scene.meshes@[m].primitives@[p].indices@.len() implies (
    #[trigger] doc.meshes@[scene.meshes@[m].source as int].primitives@[p].indices.unwrap()@[k])
        <= 0xffff by {
        let mesh = scene.meshes@[m];
        let primitive = mesh.primitives@[p];
        assert(primitive.indices@[k]
            == doc.meshes@[mesh.source as int].primitives@[p].indices.unwrap()@[k]);
    }
}

/// An index beyond the 16-bit id width ends the naming of a list of nodes with
/// `NodeIndexCapacityExceeded`, where no index before it fails: where those before it
/// are nodes of the asset, all different, and none of them named already.
pub proof fn lemma_claim_refuses_wide_index(n: int, ids: Seq<usize>, from: int, walk: Walk, k: int)
    requires
        0 <= from <= k < ids.len(),
        ids[k] > MAX_NODE_INDEX,
        walk.claimed.len() == n,
        forall|j: int| from <= j < k ==> node_id_failure(n, #[trigger] ids[j]) is None,
        forall|j: int| from <= j < k ==> !walk.claimed[(#[trigger] ids[j]) as int],
        forall|i: int, j: int| from <= i < j < k ==> #[trigger] ids[i] != #[trigger] ids[j],
    ensures
        claim(n, ids, from, walk) == Err::<Walk, Failure>(
            Failure::NodeIndexCapacityExceeded(ids[k] as int),
        ),
    decreases k - from,
{
    if from < k {
        let index = ids[from];
        let next = Walk {
            stack: walk.stack.push(index),
            claimed: walk.claimed.update(index as int, true),
        };
        lemma_claim_refuses_wide_index(n, ids, from + 1, next, k);
    }
}

/// An asset with more nodes than there are node ids is never imported; where the
/// traversal meets no failure, the import fails with `NodeIndexCapacityExceeded` for
/// the first node without an id.
pub proof fn lemma_scene_refuses_wide_node_count(doc: Document, image_count: int)
    requires
        doc.nodes@.len() > NODE_CAPACITY,
    ensures
        scene_failure(doc, image_count) is Some,
        scene_failure(doc, image_count) == Some(
            Failure::NodeIndexCapacityExceeded(NODE_CAPACITY as int),
        ) || scene_failure(doc, image_count) == traversal_failure(doc, image_count),
{
}

/// A root of the default scene beyond the 16-bit id width fails the import with
/// `NodeIndexCapacityExceeded`, where the roots before it are nodes of the asset and
/// all different.
pub proof fn lemma_scene_refuses_wide_root(doc: Document, image_count: int, k: int)
    requires
        0 <= k < doc.scene_roots@.len(),
        doc.scene_roots@[k] > MAX_NODE_INDEX,
        forall|j: int|
            0 <= j < k ==> node_id_failure(doc.nodes@.len() as int, #[trigger] doc.scene_roots@[j])
                is None,
        forall|i: int, j: int|
            0 <= i < j < k ==> #[trigger] doc.scene_roots@[i] != #[trigger] doc.scene_roots@[j],
    ensures
        scene_failure(doc, image_count) == Some(
            Failure::NodeIndexCapacityExceeded(doc.scene_roots@[k] as int),
        ),
{
    let n = doc.nodes@.len() as int;
    let start = Walk { stack: Seq::empty(), claimed: Seq::new(n as nat, |i: int| false) };
    lemma_claim_refuses_wide_index(n, doc.scene_roots@, 0, start, k);
}

/// A joint beyond the 16-bit id width fails its skin with `NodeIndexCapacityExceeded`,
/// where the joints before it are nodes of the asset; so does such a skeleton root,
/// where all joints are.
pub proof fn lemma_skin_refuses_wide_index(n: int, desc: SkinDesc, from: int, k: int)
    requires
        0 <= from <= k <= desc.joints@.len(),
        forall|j: int| from <= j < k ==> node_id_failure(n, #[trigger] desc.joints@[j]) is None,
        k < desc.joints@.len() ==> desc.joints@[k] > MAX_NODE_INDEX,
        k == desc.joints@.len() ==> desc.skeleton is Some && desc.skeleton.unwrap()
            > MAX_NODE_INDEX,
    ensures
        k < desc.joints@.len() ==> node_ids_failure(n, desc.joints@, from) == Some(
            Failure::NodeIndexCapacityExceeded(desc.joints@[k] as int),
        ),
        k == desc.joints@.len() ==> node_ids_failure(n, desc.joints@, from) is None,
        from == 0 ==> skin_failure(n, Some(desc)) == Some(
            Failure::NodeIndexCapacityExceeded(
                if k < desc.joints@.len() {
                    desc.joints@[k] as int
                } else {
                    desc.skeleton.unwrap() as int
                },
            ),
        ),
    decreases k - from,
{
    if from < k {
        lemma_skin_refuses_wide_index(n, desc, from + 1, k);
    }
}

} // verus!
