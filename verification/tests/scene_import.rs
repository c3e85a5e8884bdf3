use ayude::builder::Importer;
use ayude::document::{
    Document, ImageSource, MaterialDesc, MeshDesc, NodeDesc, PrimitiveDesc, SamplerDesc, SkinDesc,
    TextureDesc,
};
use ayude::import_gltf::{
    build_skin, check_node_id, import_default_scene, map_node_to_u16_index, narrow_node_ids,
};
use ayude::resources::PixelFormat;
use ayude::scene::Scene;
use ayude::{ImportGltfError, Transform};

fn transform(seed: u32) -> Transform {
    let mut mat = [[0u32; 4]; 4];
    for col in 0..4 {
        for row in 0..4 {
            mat[col][row] = (seed * 100 + (col * 4 + row) as u32 + 1) as u32;
        }
    }
    Transform::new(mat)
}

fn node(seed: u32, children: Vec<usize>) -> NodeDesc {
    NodeDesc { children, transform: transform(seed), mesh: None, skin: None }
}

fn graph(nodes: Vec<NodeDesc>, scene_roots: Vec<usize>) -> Document {
    Document { textures: Vec::new(), materials: Vec::new(), meshes: Vec::new(), nodes, scene_roots }
}

fn import(doc: Document) -> Result<Scene, ImportGltfError> {
    Importer::new(doc, Vec::new()).import_default_scene()
}

/// Two trees: 2 -> (0 -> (4), 3) and 1 -> (5).
fn forest() -> Document {
    graph(
        vec![
            node(0, vec![4]),
            node(1, vec![5]),
            node(2, vec![0, 3]),
            node(3, vec![]),
            node(4, vec![]),
            node(5, vec![]),
        ],
        vec![2, 1],
    )
}

#[test]
fn node_index_maps_to_id() {
    assert_eq!(map_node_to_u16_index(0), Ok(0));
    assert_eq!(map_node_to_u16_index(65535), Ok(65535));
    assert_eq!(map_node_to_u16_index(65536), Err(ImportGltfError::NodeIndexCapacityExceeded(65536)));
    assert_eq!(
        map_node_to_u16_index(usize::MAX),
        Err(ImportGltfError::NodeIndexCapacityExceeded(usize::MAX))
    );
}

#[test]
fn node_id_must_be_a_node() {
    assert_eq!(check_node_id(3, 2), Ok(2));
    assert_eq!(check_node_id(3, 3), Err(ImportGltfError::UnknownNodeIndex(3)));
    assert_eq!(check_node_id(0, 0), Err(ImportGltfError::UnknownNodeIndex(0)));
    // the id width is checked first
    assert_eq!(check_node_id(3, 65536), Err(ImportGltfError::NodeIndexCapacityExceeded(65536)));
    assert_eq!(check_node_id(100000, 65536), Err(ImportGltfError::NodeIndexCapacityExceeded(65536)));
}

#[test]
fn node_ids_are_narrowed_in_order() {
    assert_eq!(narrow_node_ids(10, &vec![3, 1, 9, 1]).unwrap().to_vec(), vec![3u16, 1, 9, 1]);
    assert_eq!(narrow_node_ids(10, &Vec::new()).unwrap().to_vec(), Vec::<u16>::new());
    assert_eq!(
        narrow_node_ids(10, &vec![3, 10, 70000]).map(|l| l.to_vec()),
        Err(ImportGltfError::UnknownNodeIndex(10))
    );
    assert_eq!(
        narrow_node_ids(10, &vec![70000, 10]).map(|l| l.to_vec()),
        Err(ImportGltfError::NodeIndexCapacityExceeded(70000))
    );
}

#[test]
fn skin_is_built_from_its_joints() {
    let desc = Some(SkinDesc { joints: vec![2, 0, 1], skeleton: Some(1) });
    let skin = build_skin(3, &desc).unwrap().unwrap();
    assert_eq!(skin.joints.to_vec(), vec![2u16, 0, 1]);
    assert_eq!(skin.skeleton, Some(1));
    let desc = Some(SkinDesc { joints: vec![2], skeleton: None });
    let skin = build_skin(3, &desc).unwrap().unwrap();
    assert_eq!(skin.skeleton, None);
    assert!(build_skin(3, &None).unwrap().is_none());
}

#[test]
fn skin_failures() {
    let desc = Some(SkinDesc { joints: vec![2, 3], skeleton: Some(70000) });
    assert_eq!(build_skin(3, &desc).map(|_| ()), Err(ImportGltfError::UnknownNodeIndex(3)));
    let desc = Some(SkinDesc { joints: vec![2, 1], skeleton: Some(70000) });
    assert_eq!(
        build_skin(3, &desc).map(|_| ()),
        Err(ImportGltfError::NodeIndexCapacityExceeded(70000))
    );
    let desc = Some(SkinDesc { joints: vec![65536], skeleton: None });
    assert_eq!(
        build_skin(100000, &desc).map(|_| ()),
        Err(ImportGltfError::NodeIndexCapacityExceeded(65536))
    );
}

#[test]
fn empty_asset_gives_empty_scene() {
    let scene = import(graph(Vec::new(), Vec::new())).unwrap();
    assert_eq!(scene.nodes.len(), 0);
    assert_eq!(scene.root_nodes.to_vec(), Vec::<u16>::new());
    assert_eq!(scene.transform, Transform::identity());
}

#[test]
fn scene_root_transform_is_the_identity() {
    let scene = import(forest()).unwrap();
    let mat = scene.transform.mat4();
    for col in 0..4 {
        for row in 0..4 {
            let expected = if col == row { 1.0f32 } else { 0.0f32 };
            assert_eq!(f32::from_bits(mat[col][row]), expected);
        }
    }
}

#[test]
fn nodes_stand_under_their_index() {
    let scene = import(forest()).unwrap();
    assert_eq!(scene.nodes.len(), 6);
    assert_eq!(scene.root_nodes.to_vec(), vec![2u16, 1]);
    for i in 0..6 {
        assert_eq!(scene.nodes[i].transform, transform(i as u32));
    }
    assert_eq!(scene.nodes[0].children.to_vec(), vec![4u16]);
    assert_eq!(scene.nodes[1].children.to_vec(), vec![5u16]);
    assert_eq!(scene.nodes[2].children.to_vec(), vec![0u16, 3]);
    assert_eq!(scene.nodes[3].children.to_vec(), Vec::<u16>::new());
    assert_eq!(scene.nodes[0].parent, Some(2));
    assert_eq!(scene.nodes[1].parent, None);
    assert_eq!(scene.nodes[2].parent, None);
    assert_eq!(scene.nodes[3].parent, Some(2));
    assert_eq!(scene.nodes[4].parent, Some(0));
    assert_eq!(scene.nodes[5].parent, Some(1));
}

#[test]
fn parent_and_child_links_agree() {
    let scene = import(forest()).unwrap();
    for (i, node) in scene.nodes.iter().enumerate() {
        match node.parent {
            Some(p) => {
                let kids = scene.nodes[p as usize].children.to_vec();
                assert_eq!(kids.iter().filter(|&&k| k as usize == i).count(), 1);
            },
            None => assert!(scene.root_nodes.contains(i as u16)),
        }
        for child in node.children.to_vec() {
            assert_eq!(scene.nodes[child as usize].parent, Some(i as u16));
        }
    }
    for root in scene.root_nodes.to_vec() {
        assert_eq!(scene.nodes[root as usize].parent, None);
    }
}

#[test]
fn importing_twice_gives_the_same_graph() {
    let a = import(forest()).unwrap();
    let b = import(forest()).unwrap();
    assert_eq!(a.nodes.len(), b.nodes.len());
    assert_eq!(a.root_nodes.to_vec(), b.root_nodes.to_vec());
    assert_eq!(a.transform, b.transform);
    for i in 0..a.nodes.len() {
        assert_eq!(a.nodes[i].parent, b.nodes[i].parent);
        assert_eq!(a.nodes[i].children.to_vec(), b.nodes[i].children.to_vec());
        assert_eq!(a.nodes[i].transform.mat4(), b.nodes[i].transform.mat4());
        assert_eq!(a.nodes[i].meshes, b.nodes[i].meshes);
    }
}

#[test]
fn root_index_beyond_the_id_width() {
    let doc = graph(vec![node(0, vec![])], vec![0, 65536]);
    assert_eq!(import(doc).err(), Some(ImportGltfError::NodeIndexCapacityExceeded(65536)));
}

#[test]
fn child_index_beyond_the_id_width() {
    let doc = graph(vec![node(0, vec![1, 70000]), node(1, vec![])], vec![0]);
    assert_eq!(import(doc).err(), Some(ImportGltfError::NodeIndexCapacityExceeded(70000)));
}

#[test]
fn joint_and_skeleton_index_beyond_the_id_width() {
    let mut skinned = node(0, vec![]);
    skinned.skin = Some(SkinDesc { joints: vec![0, 65536], skeleton: None });
    assert_eq!(
        import(graph(vec![skinned], vec![0])).err(),
        Some(ImportGltfError::NodeIndexCapacityExceeded(65536))
    );
    let mut skinned = node(0, vec![]);
    skinned.skin = Some(SkinDesc { joints: vec![0], skeleton: Some(65536) });
    assert_eq!(
        import(graph(vec![skinned], vec![0])).err(),
        Some(ImportGltfError::NodeIndexCapacityExceeded(65536))
    );
}

#[test]
fn unknown_node_index() {
    let doc = graph(vec![node(0, vec![1])], vec![0]);
    assert_eq!(import(doc).err(), Some(ImportGltfError::UnknownNodeIndex(1)));
    let doc = graph(Vec::new(), vec![0]);
    assert_eq!(import(doc).err(), Some(ImportGltfError::UnknownNodeIndex(0)));
    let mut skinned = node(0, vec![]);
    skinned.skin = Some(SkinDesc { joints: vec![4], skeleton: None });
    assert_eq!(import(graph(vec![skinned], vec![0])).err(), Some(ImportGltfError::UnknownNodeIndex(4)));
}

#[test]
fn node_named_twice_is_no_forest() {
    // a child of two parents
    let doc = graph(vec![node(0, vec![2]), node(1, vec![2]), node(2, vec![])], vec![0, 1]);
    assert_eq!(import(doc).err(), Some(ImportGltfError::NodeGraphNotForest(2)));
    // twice in one child list
    let doc = graph(vec![node(0, vec![1, 1]), node(1, vec![])], vec![0]);
    assert_eq!(import(doc).err(), Some(ImportGltfError::NodeGraphNotForest(1)));
    // a root that is a child
    let doc = graph(vec![node(0, vec![1]), node(1, vec![])], vec![0, 1]);
    assert_eq!(import(doc).err(), Some(ImportGltfError::NodeGraphNotForest(1)));
    // a root twice
    let doc = graph(vec![node(0, vec![])], vec![0, 0]);
    assert_eq!(import(doc).err(), Some(ImportGltfError::NodeGraphNotForest(0)));
    // a cycle below a root
    let doc = graph(vec![node(0, vec![1]), node(1, vec![2]), node(2, vec![0])], vec![0]);
    assert_eq!(import(doc).err(), Some(ImportGltfError::NodeGraphNotForest(0)));
    // a node that is its own child
    let doc = graph(vec![node(0, vec![0])], vec![0]);
    assert_eq!(import(doc).err(), Some(ImportGltfError::NodeGraphNotForest(0)));
}

#[test]
fn node_out_of_reach_before_a_reached_node() {
    // node 1 belongs to no tree of the scene, node 2 does: node 2 could not stand
    // under its index
    let doc = graph(vec![node(0, vec![2]), node(1, vec![]), node(2, vec![])], vec![0]);
    assert_eq!(import(doc).err(), Some(ImportGltfError::NodeGraphNotForest(1)));
    let doc = graph(vec![node(0, vec![]), node(1, vec![])], vec![1]);
    assert_eq!(import(doc).err(), Some(ImportGltfError::NodeGraphNotForest(0)));
}

#[test]
fn nodes_behind_the_scene_are_left_out() {
    // an unused node behind the nodes of the scene
    let doc = graph(vec![node(0, vec![1]), node(1, vec![]), node(2, vec![])], vec![0]);
    let scene = import(doc).unwrap();
    assert_eq!(scene.nodes.len(), 2);
    assert_eq!(scene.root_nodes.to_vec(), vec![0u16]);
    assert_eq!(scene.nodes[0].children.to_vec(), vec![1u16]);
    assert_eq!(scene.nodes[1].parent, Some(0));
    assert_eq!(scene.nodes[1].transform, transform(1));
    // the nodes of a second scene, with links of their own
    let doc = graph(
        vec![node(0, vec![1]), node(1, vec![]), node(2, vec![3]), node(3, vec![])],
        vec![0],
    );
    let scene = import(doc).unwrap();
    assert_eq!(scene.nodes.len(), 2);
    assert_eq!(scene.world_chain(1), Some(vec![1u16, 0]));
    assert_eq!(scene.world_chain(2), None);
    // a cycle that no root leads to
    let doc = graph(vec![node(0, vec![]), node(1, vec![2]), node(2, vec![1])], vec![0]);
    let scene = import(doc).unwrap();
    assert_eq!(scene.nodes.len(), 1);
    assert_eq!(scene.nodes[0].parent, None);
}

#[test]
fn scene_without_roots_is_empty() {
    let scene = import(graph(vec![node(0, vec![1]), node(1, vec![])], Vec::new())).unwrap();
    assert_eq!(scene.nodes.len(), 0);
    assert_eq!(scene.root_nodes.to_vec(), Vec::<u16>::new());
    assert_eq!(scene.drawn_nodes(), Vec::<u16>::new());
    assert_eq!(scene.world_chain(0), None);
}

#[test]
fn mesh_of_a_node_behind_the_scene_is_not_built() {
    let mut doc = meshed();
    // node 3 is no part of the scene; its mesh is unknown, which nobody finds out
    let mut unused = node(3, vec![]);
    unused.mesh = Some(17);
    unused.skin = Some(SkinDesc { joints: vec![99], skeleton: None });
    doc.nodes.push(unused);
    let sources = vec![ImageSource::Uri { uri: b"pixel.png".to_vec(), mime_type: None }];
    let files = vec![Some(png_pixel())];
    let scene = import_default_scene(doc, &sources, &Vec::new(), &files).unwrap();
    assert_eq!(scene.nodes.len(), 3);
    assert_eq!(scene.meshes.len(), 2);
}

#[test]
fn skin_must_name_nodes_of_the_scene() {
    // node 1 is a node of the asset, but the scene does not reach it
    let mut skinned = node(0, vec![]);
    skinned.skin = Some(SkinDesc { joints: vec![0, 1], skeleton: None });
    let doc = graph(vec![skinned, node(1, vec![])], vec![0]);
    assert_eq!(import(doc).err(), Some(ImportGltfError::UnknownNodeIndex(1)));
    let mut skinned = node(0, vec![]);
    skinned.skin = Some(SkinDesc { joints: vec![0], skeleton: Some(1) });
    let doc = graph(vec![skinned, node(1, vec![])], vec![0]);
    assert_eq!(import(doc).err(), Some(ImportGltfError::UnknownNodeIndex(1)));
    // the skin of the node with the least index is reported
    let mut first = node(0, vec![1]);
    first.skin = Some(SkinDesc { joints: vec![3], skeleton: None });
    let mut second = node(1, vec![]);
    second.skin = Some(SkinDesc { joints: vec![2], skeleton: None });
    let doc = graph(vec![first, second, node(2, vec![]), node(3, vec![])], vec![0]);
    assert_eq!(import(doc).err(), Some(ImportGltfError::UnknownNodeIndex(3)));
}

#[test]
fn traversal_order_decides_between_failures() {
    // the last root is visited first: its child 9 is unknown, before node 0 names 70000
    let doc = graph(vec![node(0, vec![70000]), node(1, vec![9])], vec![0, 1]);
    assert_eq!(import(doc).err(), Some(ImportGltfError::UnknownNodeIndex(9)));
    // roots are named before any visit
    let doc = graph(vec![node(0, vec![9])], vec![0, 70000]);
    assert_eq!(import(doc).err(), Some(ImportGltfError::NodeIndexCapacityExceeded(70000)));
}

fn float_bits(x: f32) -> u32 {
    x.to_bits()
}

fn quad(material: Option<usize>) -> PrimitiveDesc {
    PrimitiveDesc {
        positions: Some(vec![[float_bits(0.0), float_bits(0.0), float_bits(0.0)]; 4]),
        normals: Some(vec![[float_bits(0.0), float_bits(0.0), float_bits(1.0)]; 4]),
        tex_coords: Some(vec![[float_bits(0.0), float_bits(0.0)]; 4]),
        indices: Some(vec![0, 1, 2, 2, 1, 3]),
        material,
    }
}

fn plain_sampler() -> SamplerDesc {
    SamplerDesc { wrap_s: None, wrap_t: None, min_filter: None, mag_filter: None }
}

fn meshed() -> Document {
    let mut a = node(0, vec![1, 2]);
    a.mesh = Some(1);
    let mut b = node(1, vec![]);
    b.mesh = Some(0);
    let mut c = node(2, vec![]);
    c.mesh = Some(1);
    c.skin = Some(SkinDesc { joints: vec![1, 0], skeleton: Some(0) });
    Document {
        textures: vec![TextureDesc { image: 0, sampler: plain_sampler() }],
        materials: vec![
            MaterialDesc {
                normal_texture: None,
                base_color_texture: Some(0),
                base_color_factor: [float_bits(1.0); 4],
            },
            MaterialDesc {
                normal_texture: Some(0),
                base_color_texture: Some(0),
                base_color_factor: [float_bits(0.5); 4],
            },
        ],
        meshes: vec![
            MeshDesc { primitives: vec![quad(Some(0))] },
            MeshDesc { primitives: vec![quad(Some(1)), quad(None)] },
        ],
        nodes: vec![a, b, c],
        scene_roots: vec![0],
    }
}

fn png_pixel() -> Vec<u8> {
    let image = image::DynamicImage::ImageRgba8(
        image::RgbaImage::from_raw(1, 1, vec![10u8, 20, 30, 40]).unwrap(),
    );
    let mut out = Vec::new();
    image.write_to(&mut out, image::ImageOutputFormat::Png).unwrap();
    out
}

#[test]
fn scene_owns_deduplicated_resources() {
    let sources = vec![ImageSource::Uri { uri: b"pixel.png".to_vec(), mime_type: None }];
    let files = vec![Some(png_pixel())];
    let scene = import_default_scene(meshed(), &sources, &Vec::new(), &files).unwrap();
    assert_eq!(scene.nodes.len(), 3);
    // two nodes share mesh 1 of the asset: it was built once
    assert_eq!(scene.meshes.len(), 2);
    assert_eq!(scene.nodes[0].meshes.len(), 1);
    assert_eq!(scene.nodes[0].meshes, scene.nodes[2].meshes);
    assert_ne!(scene.nodes[0].meshes, scene.nodes[1].meshes);
    assert_eq!(scene.meshes[scene.nodes[0].meshes[0]].source, 1);
    assert_eq!(scene.meshes[scene.nodes[1].meshes[0]].source, 0);
    // three materials: two of the asset and the default one
    assert_eq!(scene.materials.len(), 3);
    // one texture, which three texture references share
    assert_eq!(scene.textures.len(), 1);
    assert_eq!(scene.textures[0].data, vec![10u8, 20, 30, 40]);
    assert_eq!(scene.textures[0].format, PixelFormat::Rgba8);
    for material in &scene.materials {
        match material.source {
            Some(0) => assert_eq!((material.normal, material.diffuse), (None, Some(0))),
            Some(1) => assert_eq!((material.normal, material.diffuse), (Some(0), Some(0))),
            _ => assert_eq!((material.normal, material.diffuse), (None, None)),
        }
    }
    let skin = scene.nodes[2].skin.as_ref().unwrap();
    assert_eq!(skin.joints.to_vec(), vec![1u16, 0]);
    assert_eq!(skin.skeleton, Some(0));
    assert!(scene.nodes[0].skin.is_none());
}

#[test]
fn image_failure_comes_before_the_scene() {
    let sources = vec![ImageSource::Uri { uri: b"pixel.tga".to_vec(), mime_type: None }];
    let files = vec![Some(png_pixel())];
    let mut doc = meshed();
    doc.scene_roots = vec![70000];
    assert_eq!(
        import_default_scene(doc, &sources, &Vec::new(), &files).err(),
        Some(ImportGltfError::UnsupportedImageFormat(b"application/octet-stream".to_vec(), 0))
    );
}

#[test]
fn mesh_failure_of_a_visited_node() {
    let mut doc = meshed();
    doc.meshes[0].primitives[0].tex_coords = None;
    let sources = vec![ImageSource::Uri { uri: b"pixel.png".to_vec(), mime_type: None }];
    let files = vec![Some(png_pixel())];
    assert_eq!(
        import_default_scene(doc, &sources, &Vec::new(), &files).err(),
        Some(ImportGltfError::RequiredAttributeMissing("uvs", 0, 0))
    );
    let mut doc = meshed();
    doc.nodes[1].mesh = Some(5);
    assert_eq!(
        import_default_scene(doc, &sources, &Vec::new(), &files).err(),
        Some(ImportGltfError::UnknownMeshIndex(5))
    );
    // without the image the texture of the first material cannot be built
    assert_eq!(
        import_default_scene(meshed(), &Vec::new(), &Vec::new(), &Vec::new()).err(),
        Some(ImportGltfError::UnknownImageIndex(0))
    );
}

#[test]
fn largest_node_index_is_imported() {
    let mut nodes = Vec::new();
    for i in 0..65536usize {
        nodes.push(node(0, if i + 1 < 65536 { vec![i + 1] } else { vec![] }));
    }
    let scene = import(graph(nodes, vec![0])).unwrap();
    assert_eq!(scene.nodes.len(), 65536);
    assert_eq!(scene.nodes[65535].parent, Some(65534));
    assert_eq!(scene.nodes[65534].children.to_vec(), vec![65535u16]);
    let chain = scene.world_chain(65535).unwrap();
    assert_eq!(chain.len(), 65536);
    assert_eq!(chain[0], 65535);
    assert_eq!(chain[65535], 0);
}

#[test]
fn one_node_too_many() {
    let mut nodes = Vec::new();
    for i in 0..65537usize {
        nodes.push(node(0, if i + 1 < 65537 { vec![i + 1] } else { vec![] }));
    }
    assert_eq!(
        import(graph(nodes, vec![0])).err(),
        Some(ImportGltfError::NodeIndexCapacityExceeded(65536))
    );
}

#[test]
fn nodes_without_meshes_are_not_drawn() {
    let sources = vec![ImageSource::Uri { uri: b"pixel.png".to_vec(), mime_type: None }];
    let files = vec![Some(png_pixel())];
    let mut doc = meshed();
    doc.nodes[1].mesh = None;
    let scene = import_default_scene(doc, &sources, &Vec::new(), &files).unwrap();
    assert_eq!(scene.drawn_nodes(), vec![0u16, 2]);
    assert_eq!(import(forest()).unwrap().drawn_nodes(), Vec::<u16>::new());
    let all = import_default_scene(meshed(), &sources, &Vec::new(), &files).unwrap();
    assert_eq!(all.drawn_nodes(), vec![0u16, 1, 2]);
}

#[test]
fn node_record_can_be_copied() {
    let scene = import(forest()).unwrap();
    let copy = scene.nodes[2].clone();
    assert_eq!(copy.children.to_vec(), vec![0u16, 3]);
    assert_eq!(copy.parent, None);
    assert_eq!(copy.transform, scene.nodes[2].transform);
    let roots = scene.root_nodes.clone();
    assert_eq!(roots.to_vec(), vec![2u16, 1]);
}

#[test]
fn more_nodes_than_ids() {
    // no index beyond the id width is named: the asset is refused for its first node
    // without an id
    let mut nodes = Vec::new();
    for _ in 0..65537usize {
        nodes.push(node(0, vec![]));
    }
    assert_eq!(
        import(graph(nodes, vec![0])).err(),
        Some(ImportGltfError::NodeIndexCapacityExceeded(65536))
    );
}

#[test]
fn resources_stand_in_the_order_of_their_first_request() {
    let sources = vec![ImageSource::Uri { uri: b"pixel.png".to_vec(), mime_type: None }];
    let files = vec![Some(png_pixel())];
    let scene = import_default_scene(meshed(), &sources, &Vec::new(), &files).unwrap();
    // node 0 is visited first and asks for mesh 1, then node 2 (mesh 1 again), then
    // node 1 (mesh 0)
    let meshes: Vec<usize> = scene.meshes.iter().map(|m| m.source).collect();
    assert_eq!(meshes, vec![1, 0]);
    let materials: Vec<Option<usize>> = scene.materials.iter().map(|m| m.source).collect();
    assert_eq!(materials, vec![Some(1), None, Some(0)]);
    let textures: Vec<usize> = scene.textures.iter().map(|t| t.source).collect();
    assert_eq!(textures, vec![0]);
    assert_eq!(scene.nodes[0].meshes, vec![0]);
    assert_eq!(scene.nodes[1].meshes, vec![1]);
    assert_eq!(scene.nodes[2].meshes, vec![0]);
    assert_eq!(scene.meshes[0].primitives[0].material, 0);
    assert_eq!(scene.meshes[0].primitives[1].material, 1);
    assert_eq!(scene.meshes[1].primitives[0].material, 2);
}

#[test]
fn first_index_beyond_the_id_width_is_reported() {
    // 65538 nodes; the only root is node 65537
    let mut nodes = Vec::new();
    for _ in 0..65538usize {
        nodes.push(node(0, vec![]));
    }
    assert_eq!(
        import(graph(nodes.clone(), vec![65537])).err(),
        Some(ImportGltfError::NodeIndexCapacityExceeded(65537))
    );
    // a child beyond the width, met at the visit of its parent
    nodes[0] = node(0, vec![1, 65536]);
    assert_eq!(
        import(graph(nodes.clone(), vec![0])).err(),
        Some(ImportGltfError::NodeIndexCapacityExceeded(65536))
    );
    nodes[0] = node(0, vec![1, 65537]);
    assert_eq!(
        import(graph(nodes.clone(), vec![0])).err(),
        Some(ImportGltfError::NodeIndexCapacityExceeded(65537))
    );
    // a joint beyond the width
    let mut skinned = node(0, vec![]);
    skinned.skin = Some(SkinDesc { joints: vec![0, 65537], skeleton: None });
    nodes[0] = skinned;
    assert_eq!(
        import(graph(nodes.clone(), vec![0])).err(),
        Some(ImportGltfError::NodeIndexCapacityExceeded(65537))
    );
    // another failure that the traversal meets first stays first
    nodes[0] = node(0, vec![70000]);
    nodes[1] = node(1, vec![1]);
    assert_eq!(
        import(graph(nodes, vec![0, 1])).err(),
        Some(ImportGltfError::NodeGraphNotForest(1))
    );
}
