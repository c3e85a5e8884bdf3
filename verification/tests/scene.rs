use ayude::builder::Importer;
use ayude::document::{Document, NodeDesc, SkinDesc};
use ayude::ids::IdList;
use ayude::scene::{JointPlacement, Node, PlacementBase, Scene, Skin};
use ayude::{Frame, Transform};
use glam::Mat4;

fn to_bits(m: &Mat4) -> Transform {
    let cols = m.to_cols_array_2d();
    let mut bits = [[0u32; 4]; 4];
    for c in 0..4 {
        for r in 0..4 {
            bits[c][r] = cols[c][r].to_bits();
        }
    }
    Transform::new(bits)
}

fn to_mat4(t: &Transform) -> Mat4 {
    let bits = t.mat4();
    let mut cols = [[0.0f32; 4]; 4];
    for c in 0..4 {
        for r in 0..4 {
            cols[c][r] = f32::from_bits(bits[c][r]);
        }
    }
    Mat4::from_cols_array_2d(&cols)
}

/// The product of the local transforms along a chain, the first node leftmost.
fn compose(scene: &Scene, chain: &[u16]) -> Mat4 {
    let mut product = to_mat4(&scene.nodes[chain[0] as usize].transform);
    for &id in &chain[1..] {
        product = product.mul_mat4(&to_mat4(&scene.nodes[id as usize].transform));
    }
    product
}

fn root_local() -> Mat4 {
    // translation by (1, 2, 3)
    Mat4::from_cols_array_2d(&[
        [1.0, 0.0, 0.0, 0.0],
        [0.0, 1.0, 0.0, 0.0],
        [0.0, 0.0, 1.0, 0.0],
        [1.0, 2.0, 3.0, 1.0],
    ])
}

fn a_local() -> Mat4 {
    // a quarter turn about z, then translation by (0, 4, 0)
    Mat4::from_cols_array_2d(&[
        [0.0, 1.0, 0.0, 0.0],
        [-1.0, 0.0, 0.0, 0.0],
        [0.0, 0.0, 1.0, 0.0],
        [0.0, 4.0, 0.0, 1.0],
    ])
}

fn b_local() -> Mat4 {
    // a quarter turn about x, then translation by (5, 0, 0)
    Mat4::from_cols_array_2d(&[
        [1.0, 0.0, 0.0, 0.0],
        [0.0, 0.0, 1.0, 0.0],
        [0.0, -1.0, 0.0, 0.0],
        [5.0, 0.0, 0.0, 1.0],
    ])
}

fn c_local() -> Mat4 {
    // a quarter turn about y, then translation by (0, 0, 6)
    Mat4::from_cols_array_2d(&[
        [0.0, 0.0, -1.0, 0.0],
        [0.0, 1.0, 0.0, 0.0],
        [1.0, 0.0, 0.0, 0.0],
        [0.0, 0.0, 6.0, 1.0],
    ])
}

fn desc(transform: &Mat4, children: Vec<usize>) -> NodeDesc {
    NodeDesc { children, transform: to_bits(transform), mesh: None, skin: None }
}

/// root (0) -> A (1) -> B (2) -> C (3), and a second root (4) with the joints.
fn chain_scene(skeleton: Option<usize>) -> Scene {
    let mut skinned = desc(&Mat4::IDENTITY, vec![]);
    skinned.skin = Some(SkinDesc { joints: vec![3, 1], skeleton });
    let doc = Document {
        textures: Vec::new(),
        materials: Vec::new(),
        meshes: Vec::new(),
        nodes: vec![
            desc(&root_local(), vec![1]),
            desc(&a_local(), vec![2]),
            desc(&b_local(), vec![3]),
            desc(&c_local(), vec![]),
            skinned,
        ],
        scene_roots: vec![0, 4],
    };
    Importer::new(doc, Vec::new()).import_default_scene().unwrap()
}

#[test]
fn world_chain_runs_from_node_to_root() {
    let scene = chain_scene(None);
    assert_eq!(scene.world_chain(3), Some(vec![3u16, 2, 1, 0]));
    assert_eq!(scene.world_chain(2), Some(vec![2u16, 1, 0]));
    assert_eq!(scene.world_chain(0), Some(vec![0u16]));
    assert_eq!(scene.world_chain(4), Some(vec![4u16]));
    assert_eq!(scene.world_chain(5), None);
    assert_eq!(scene.world_chain(65535), None);
}

#[test]
fn world_transform_of_a_three_level_chain() {
    let scene = chain_scene(None);
    let chain = scene.world_chain(3).unwrap();
    let world = compose(&scene, &chain);
    // C x B x A x root, worked out by hand
    let reference = [
        [1.0, 0.0, 0.0, 0.0],
        [0.0, 0.0, 1.0, 0.0],
        [0.0, -1.0, 0.0, 0.0],
        [5.0, -3.0, 3.0, 1.0],
    ];
    assert_eq!(world.to_cols_array_2d(), reference);
    let product = c_local().mul_mat4(&b_local()).mul_mat4(&a_local()).mul_mat4(&root_local());
    assert_eq!(world.to_cols_array_2d(), product.to_cols_array_2d());
    // the other order gives another matrix
    let reversed = root_local().mul_mat4(&a_local()).mul_mat4(&b_local()).mul_mat4(&c_local());
    assert_ne!(world.to_cols_array_2d(), reversed.to_cols_array_2d());
}

#[test]
fn world_transform_of_a_root_is_its_local_transform() {
    let scene = chain_scene(None);
    let chain = scene.world_chain(0).unwrap();
    assert_eq!(compose(&scene, &chain).to_cols_array_2d(), root_local().to_cols_array_2d());
}

#[test]
fn world_chain_does_not_follow_a_cycle() {
    let mut scene = chain_scene(None);
    // a scene put together by hand, with a root that points back into its tree
    scene.nodes[0].parent = Some(3);
    assert_eq!(scene.world_chain(3), None);
    assert_eq!(scene.world_chain(4), Some(vec![4u16]));
    scene.nodes[0].parent = Some(9);
    assert_eq!(scene.world_chain(3), None);
}

#[test]
fn skin_without_skeleton_is_placed_by_the_scene_root() {
    let scene = chain_scene(None);
    let skin = scene.nodes[4].skin.as_ref().unwrap();
    assert_eq!(skin.skeleton, None);
    assert_eq!(
        scene.joint_placement(skin, 0),
        Some(JointPlacement { joint_chain: vec![3, 2, 1, 0], base: PlacementBase::SceneRoot })
    );
    assert_eq!(
        scene.joint_placement(skin, 1),
        Some(JointPlacement { joint_chain: vec![1, 0], base: PlacementBase::SceneRoot })
    );
    assert_eq!(scene.joint_placement(skin, 2), None);
    // the placement matrix: the joint's world transform on the scene's root transform
    let placement = scene.joint_placement(skin, 0).unwrap();
    let matrix = compose(&scene, &placement.joint_chain).mul_mat4(&to_mat4(&scene.transform));
    assert_eq!(
        matrix.to_cols_array_2d(),
        [[1.0, 0.0, 0.0, 0.0], [0.0, 0.0, 1.0, 0.0], [0.0, -1.0, 0.0, 0.0], [5.0, -3.0, 3.0, 1.0]]
    );
}

#[test]
fn skin_with_skeleton_is_placed_by_the_skeleton_root() {
    let scene = chain_scene(Some(1));
    let skin = scene.nodes[4].skin.as_ref().unwrap();
    let placement = scene.joint_placement(skin, 0).unwrap();
    assert_eq!(placement.joint_chain, vec![3u16, 2, 1, 0]);
    assert_eq!(placement.base, PlacementBase::Skeleton(vec![1, 0]));
    let base = match &placement.base {
        PlacementBase::Skeleton(chain) => compose(&scene, chain),
        PlacementBase::SceneRoot => to_mat4(&scene.transform),
    };
    // A x root
    assert_eq!(
        base.to_cols_array_2d(),
        [[0.0, 1.0, 0.0, 0.0], [-1.0, 0.0, 0.0, 0.0], [0.0, 0.0, 1.0, 0.0], [-2.0, 5.0, 3.0, 1.0]]
    );
}

#[test]
fn placement_of_a_hand_made_skin() {
    let scene = chain_scene(None);
    let skin = Skin { joints: IdList::from_vec(&vec![2, 7]), skeleton: Some(9) };
    // joint 7 and skeleton root 9 are no nodes
    assert_eq!(scene.joint_placement(&skin, 0), None);
    assert_eq!(scene.joint_placement(&skin, 1), None);
    let skin = Skin { joints: IdList::from_vec(&vec![2, 7]), skeleton: Some(4) };
    assert_eq!(
        scene.joint_placement(&skin, 0),
        Some(JointPlacement { joint_chain: vec![2, 1, 0], base: PlacementBase::Skeleton(vec![4]) })
    );
    assert_eq!(scene.joint_placement(&skin, 1), None);
}

#[test]
fn local_transform_can_be_overwritten() {
    let mut scene = chain_scene(None);
    let pose = Mat4::from_cols_array_2d(&[
        [2.0, 0.0, 0.0, 0.0],
        [0.0, 2.0, 0.0, 0.0],
        [0.0, 0.0, 2.0, 0.0],
        [0.0, 0.0, 0.0, 1.0],
    ]);
    assert!(scene.set_local_transform(2, to_bits(&pose)));
    assert_eq!(scene.nodes[2].transform, to_bits(&pose));
    assert_eq!(scene.nodes[1].transform, to_bits(&a_local()));
    assert_eq!(scene.nodes[2].parent, Some(1));
    assert_eq!(scene.nodes[2].children.to_vec(), vec![3u16]);
    // the next query sees the new pose: C x pose x A x root
    let chain = scene.world_chain(3).unwrap();
    let expected = c_local().mul_mat4(&pose).mul_mat4(&a_local()).mul_mat4(&root_local());
    assert_eq!(compose(&scene, &chain).to_cols_array_2d(), expected.to_cols_array_2d());
    assert!(!scene.set_local_transform(5, to_bits(&pose)));
    assert_eq!(scene.nodes.len(), 5);
}

#[test]
fn hand_made_scene() {
    let identity = Transform::identity();
    let scene = Scene {
        nodes: vec![
            Node {
                parent: Some(1),
                children: IdList::from_vec(&Vec::new()),
                transform: identity,
                meshes: Vec::new(),
                skin: None,
            },
            Node {
                parent: None,
                children: IdList::from_vec(&vec![0]),
                transform: identity,
                meshes: Vec::new(),
                skin: None,
            },
        ],
        root_nodes: IdList::from_vec(&vec![1]),
        transform: identity,
        meshes: Vec::new(),
        materials: Vec::new(),
        textures: Vec::new(),
    };
    assert_eq!(scene.world_chain(0), Some(vec![0u16, 1]));
    assert_eq!(scene.world_chain(1), Some(vec![1u16]));
}

#[test]
fn transform_keeps_its_bits() {
    let mut mat = [[0u32; 4]; 4];
    for c in 0..4 {
        for r in 0..4 {
            mat[c][r] = (c * 4 + r) as u32 * 0x0101_0101;
        }
    }
    let t = Transform::new(mat);
    assert_eq!(t.mat4(), &mat);
    assert_eq!(t, Transform::new(mat));
    assert_ne!(t, Transform::identity());
}

#[test]
fn identity_transform() {
    let identity = Transform::identity();
    assert_eq!(to_mat4(&identity).to_cols_array_2d(), Mat4::IDENTITY.to_cols_array_2d());
    assert_eq!(identity.mat4()[0][0], 0x3F80_0000);
    assert_eq!(identity.mat4()[0][1], 0);
    assert_eq!(f32::from_bits(ayude::transform::ONE_BITS), 1.0);
}

#[test]
fn frame_covers_the_window() {
    let frame = Frame::start((1024, 768));
    assert_eq!(frame.viewport(), (0, 0, 1024, 768));
    assert_eq!(Frame::start((0, -1)).viewport(), (0, 0, 0, -1));
}
