use ayude::builder::{resolve_sampling, Importer};
use ayude::document::{
    Document, MagFilter, MaterialDesc, MeshDesc, MinFilter, PrimitiveDesc, SamplerDesc,
    TextureDesc, WrapMode,
};
use ayude::resources::{ImageData, Material, PixelFormat, Sampling, Vertex};
use ayude::ImportGltfError;

const ONE: u32 = 0x3F80_0000;

fn bits(x: f32) -> u32 {
    x.to_bits()
}

fn no_sampler() -> SamplerDesc {
    SamplerDesc { wrap_s: None, wrap_t: None, min_filter: None, mag_filter: None }
}

fn two_images() -> Vec<ImageData> {
    vec![
        ImageData { data: vec![1, 2, 3, 4], width: 1, height: 1, format: PixelFormat::Rgba8 },
        ImageData { data: vec![5, 6, 7, 8, 9, 10], width: 2, height: 1, format: PixelFormat::Rgb8 },
    ]
}

fn triangle(material: Option<usize>) -> PrimitiveDesc {
    PrimitiveDesc {
        positions: Some(vec![
            [bits(0.0), bits(0.0), bits(0.0)],
            [bits(1.0), bits(0.0), bits(0.0)],
            [bits(0.0), bits(1.0), bits(0.5)],
        ]),
        normals: Some(vec![[bits(0.0), bits(0.0), bits(1.0)]; 3]),
        tex_coords: Some(vec![
            [bits(0.0), bits(0.0)],
            [bits(1.0), bits(0.0)],
            [bits(0.0), bits(1.0)],
        ]),
        indices: Some(vec![0, 1, 2]),
        material,
    }
}

fn document() -> Document {
    Document {
        textures: vec![
            TextureDesc { image: 1, sampler: no_sampler() },
            TextureDesc {
                image: 0,
                sampler: SamplerDesc {
                    wrap_s: Some(WrapMode::ClampToEdge),
                    wrap_t: Some(WrapMode::MirroredRepeat),
                    min_filter: Some(MinFilter::NearestMipmapLinear),
                    mag_filter: Some(MagFilter::Nearest),
                },
            },
            TextureDesc { image: 2, sampler: no_sampler() },
        ],
        materials: vec![
            MaterialDesc {
                normal_texture: Some(1),
                base_color_texture: Some(0),
                base_color_factor: [bits(0.5), bits(0.25), bits(1.0), bits(1.0)],
            },
            MaterialDesc {
                normal_texture: None,
                base_color_texture: Some(0),
                base_color_factor: [ONE; 4],
            },
            MaterialDesc { normal_texture: None, base_color_texture: None, base_color_factor: [0; 4] },
            MaterialDesc {
                normal_texture: Some(9),
                base_color_texture: Some(2),
                base_color_factor: [0; 4],
            },
            MaterialDesc {
                normal_texture: None,
                base_color_texture: Some(2),
                base_color_factor: [0; 4],
            },
        ],
        meshes: vec![
            MeshDesc { primitives: vec![triangle(Some(0)), triangle(Some(1)), triangle(None)] },
            MeshDesc { primitives: Vec::new() },
        ],
        nodes: Vec::new(),
        scene_roots: Vec::new(),
    }
}

#[test]
fn sampling_defaults() {
    assert_eq!(
        resolve_sampling(&no_sampler()),
        Sampling {
            wrap_s: WrapMode::Repeat,
            wrap_t: WrapMode::Repeat,
            min_filter: MinFilter::Linear,
            mag_filter: MagFilter::Linear,
        }
    );
    let stated = SamplerDesc {
        wrap_s: Some(WrapMode::ClampToEdge),
        wrap_t: None,
        min_filter: Some(MinFilter::LinearMipmapLinear),
        mag_filter: Some(MagFilter::Nearest),
    };
    assert_eq!(
        resolve_sampling(&stated),
        Sampling {
            wrap_s: WrapMode::ClampToEdge,
            wrap_t: WrapMode::Repeat,
            min_filter: MinFilter::LinearMipmapLinear,
            mag_filter: MagFilter::Nearest,
        }
    );
}

#[test]
fn texture_is_built_from_its_image() {
    let mut importer = Importer::new(document(), two_images());
    let id = importer.import_gltf_texture(1).unwrap();
    assert_eq!(id, 0);
    let texture = &importer.textures[id];
    assert_eq!(texture.source, 1);
    assert_eq!(texture.data, vec![1u8, 2, 3, 4]);
    assert_eq!((texture.width, texture.height), (1, 1));
    assert_eq!(texture.format, PixelFormat::Rgba8);
    assert_eq!(texture.sampling.wrap_s, WrapMode::ClampToEdge);
    assert_eq!(texture.sampling.wrap_t, WrapMode::MirroredRepeat);
    assert_eq!(texture.sampling.min_filter, MinFilter::NearestMipmapLinear);
    assert_eq!(texture.sampling.mag_filter, MagFilter::Nearest);
    let other = importer.import_gltf_texture(0).unwrap();
    assert_eq!(other, 1);
    assert_eq!(importer.textures[other].data, vec![5u8, 6, 7, 8, 9, 10]);
    assert_eq!(importer.textures[other].format, PixelFormat::Rgb8);
    assert_eq!(importer.textures[other].sampling.wrap_s, WrapMode::Repeat);
    assert_eq!(importer.textures[other].sampling.min_filter, MinFilter::Linear);
}

#[test]
fn texture_is_built_once() {
    let mut importer = Importer::new(document(), two_images());
    let first = importer.import_gltf_texture(0).unwrap();
    let second = importer.import_gltf_texture(0).unwrap();
    assert_eq!(first, second);
    assert_eq!(importer.textures.len(), 1);
}

#[test]
fn unknown_texture_and_image_index() {
    let mut importer = Importer::new(document(), two_images());
    assert_eq!(importer.import_gltf_texture(3), Err(ImportGltfError::UnknownTextureIndex(3)));
    assert_eq!(importer.import_gltf_texture(2), Err(ImportGltfError::UnknownImageIndex(2)));
    assert_eq!(importer.textures.len(), 0);
}

#[test]
fn two_materials_share_one_texture() {
    let mut importer = Importer::new(document(), two_images());
    let a = importer.import_gltf_material(Some(0)).unwrap();
    let b = importer.import_gltf_material(Some(1)).unwrap();
    assert_ne!(a, b);
    let first = importer.materials[a];
    let second = importer.materials[b];
    assert_eq!(first.diffuse, second.diffuse);
    assert_eq!(first.diffuse, Some(1));
    assert_eq!(first.normal, Some(0));
    assert_eq!(second.normal, None);
    // texture 0 of the asset was built once, texture 1 once
    assert_eq!(importer.textures.len(), 2);
    assert_eq!(importer.textures[1].source, 0);
    assert_eq!(importer.textures[0].source, 1);
}

#[test]
fn material_keeps_its_color() {
    let mut importer = Importer::new(document(), two_images());
    let id = importer.import_gltf_material(Some(0)).unwrap();
    assert_eq!(
        importer.materials[id],
        Material {
            source: Some(0),
            normal: Some(0),
            diffuse: Some(1),
            base_diffuse_color: [bits(0.5), bits(0.25), bits(1.0), bits(1.0)],
        }
    );
}

#[test]
fn material_without_textures_is_valid() {
    let mut importer = Importer::new(document(), two_images());
    let id = importer.import_gltf_material(Some(2)).unwrap();
    assert_eq!(
        importer.materials[id],
        Material { source: Some(2), normal: None, diffuse: None, base_diffuse_color: [0; 4] }
    );
    assert_eq!(importer.textures.len(), 0);
}

#[test]
fn default_material_is_white_and_built_once() {
    let mut importer = Importer::new(document(), two_images());
    let id = importer.import_gltf_material(None).unwrap();
    assert_eq!(
        importer.materials[id],
        Material { source: None, normal: None, diffuse: None, base_diffuse_color: [ONE; 4] }
    );
    assert_eq!(importer.import_gltf_material(None), Ok(id));
    assert_eq!(importer.materials.len(), 1);
}

#[test]
fn material_is_built_once() {
    let mut importer = Importer::new(document(), two_images());
    let first = importer.import_gltf_material(Some(1)).unwrap();
    let second = importer.import_gltf_material(Some(1)).unwrap();
    assert_eq!(first, second);
    assert_eq!(importer.materials.len(), 1);
    assert_eq!(importer.textures.len(), 1);
}

#[test]
fn material_failures() {
    let mut importer = Importer::new(document(), two_images());
    assert_eq!(importer.import_gltf_material(Some(5)), Err(ImportGltfError::UnknownMaterialIndex(5)));
    // the normal texture is looked at before the diffuse texture
    assert_eq!(importer.import_gltf_material(Some(3)), Err(ImportGltfError::UnknownTextureIndex(9)));
    assert_eq!(importer.import_gltf_material(Some(4)), Err(ImportGltfError::UnknownImageIndex(2)));
    assert_eq!(importer.materials.len(), 0);
}

#[test]
fn mesh_is_built_with_vertices_indices_and_materials() {
    let mut importer = Importer::new(document(), two_images());
    let id = importer.import_gltf_mesh(0).unwrap();
    assert_eq!(id, 0);
    let mesh = &importer.meshes[id];
    assert_eq!(mesh.source, 0);
    assert_eq!(mesh.primitives.len(), 3);
    let first = &mesh.primitives[0];
    assert_eq!(first.indices, vec![0u16, 1, 2]);
    assert_eq!(
        first.vertices,
        vec![
            Vertex {
                position: [bits(0.0), bits(0.0), bits(0.0), ONE],
                normal: [bits(0.0), bits(0.0), bits(1.0)],
                tex_coord: [bits(0.0), bits(0.0)],
            },
            Vertex {
                position: [bits(1.0), bits(0.0), bits(0.0), ONE],
                normal: [bits(0.0), bits(0.0), bits(1.0)],
                tex_coord: [bits(1.0), bits(0.0)],
            },
            Vertex {
                position: [bits(0.0), bits(1.0), bits(0.5), ONE],
                normal: [bits(0.0), bits(0.0), bits(1.0)],
                tex_coord: [bits(0.0), bits(1.0)],
            },
        ]
    );
    assert_eq!(f32::from_bits(first.vertices[2].position[3]), 1.0);
    assert_eq!(importer.materials[first.material].source, Some(0));
    assert_eq!(importer.materials[mesh.primitives[1].material].source, Some(1));
    assert_eq!(importer.materials[mesh.primitives[2].material].source, None);
    assert_eq!(importer.materials.len(), 3);
    assert_eq!(importer.textures.len(), 2);
}

#[test]
fn mesh_is_built_once() {
    let mut importer = Importer::new(document(), two_images());
    let first = importer.import_gltf_mesh(0).unwrap();
    let second = importer.import_gltf_mesh(0).unwrap();
    assert_eq!(first, second);
    assert_eq!(importer.meshes.len(), 1);
    assert_eq!(importer.materials.len(), 3);
}

#[test]
fn mesh_without_primitives() {
    let mut importer = Importer::new(document(), two_images());
    let id = importer.import_gltf_mesh(1).unwrap();
    assert_eq!(importer.meshes[id].primitives.len(), 0);
    assert_eq!(importer.meshes[id].source, 1);
}

#[test]
fn unknown_mesh_index() {
    let mut importer = Importer::new(document(), two_images());
    assert_eq!(importer.import_gltf_mesh(2), Err(ImportGltfError::UnknownMeshIndex(2)));
    assert_eq!(importer.meshes.len(), 0);
    assert_eq!(importer.materials.len(), 0);
    assert_eq!(importer.textures.len(), 0);
    // nor where something was built before
    importer.import_gltf_mesh(0).unwrap();
    assert_eq!(importer.import_gltf_mesh(9), Err(ImportGltfError::UnknownMeshIndex(9)));
    assert_eq!(importer.import_gltf_material(Some(9)), Err(ImportGltfError::UnknownMaterialIndex(9)));
    assert_eq!(importer.import_gltf_texture(9), Err(ImportGltfError::UnknownTextureIndex(9)));
    assert_eq!((importer.meshes.len(), importer.materials.len(), importer.textures.len()), (1, 3, 2));
}

fn mesh_with(primitive: PrimitiveDesc) -> Importer {
    let mut doc = document();
    doc.meshes = vec![
        MeshDesc { primitives: vec![triangle(None)] },
        MeshDesc { primitives: vec![triangle(None), triangle(None), primitive] },
    ];
    Importer::new(doc, two_images())
}

#[test]
fn missing_texture_coordinates() {
    let mut primitive = triangle(None);
    primitive.tex_coords = None;
    let mut importer = mesh_with(primitive);
    assert_eq!(
        importer.import_gltf_mesh(1),
        Err(ImportGltfError::RequiredAttributeMissing("uvs", 1, 2))
    );
    assert_eq!(importer.meshes.len(), 0);
}

#[test]
fn missing_attributes_in_their_order() {
    let mut primitive = triangle(None);
    primitive.indices = None;
    assert_eq!(
        mesh_with(primitive.clone()).import_gltf_mesh(1),
        Err(ImportGltfError::RequiredAttributeMissing("indices", 1, 2))
    );
    primitive.tex_coords = None;
    assert_eq!(
        mesh_with(primitive.clone()).import_gltf_mesh(1),
        Err(ImportGltfError::RequiredAttributeMissing("uvs", 1, 2))
    );
    primitive.normals = None;
    assert_eq!(
        mesh_with(primitive.clone()).import_gltf_mesh(1),
        Err(ImportGltfError::RequiredAttributeMissing("normals", 1, 2))
    );
    primitive.positions = None;
    assert_eq!(
        mesh_with(primitive).import_gltf_mesh(1),
        Err(ImportGltfError::RequiredAttributeMissing("positions", 1, 2))
    );
}

#[test]
fn attributes_shorter_than_positions_are_missing() {
    let mut primitive = triangle(None);
    primitive.normals = Some(vec![[0, 0, 0]; 2]);
    assert_eq!(
        mesh_with(primitive).import_gltf_mesh(1),
        Err(ImportGltfError::RequiredAttributeMissing("normals", 1, 2))
    );
    let mut primitive = triangle(None);
    primitive.tex_coords = Some(Vec::new());
    assert_eq!(
        mesh_with(primitive).import_gltf_mesh(1),
        Err(ImportGltfError::RequiredAttributeMissing("uvs", 1, 2))
    );
    // longer lists are cut to the positions
    let mut primitive = triangle(None);
    primitive.normals = Some(vec![[7, 7, 7]; 5]);
    let mut importer = mesh_with(primitive);
    let id = importer.import_gltf_mesh(1).unwrap();
    assert_eq!(importer.meshes[id].primitives[2].vertices.len(), 3);
    assert_eq!(importer.meshes[id].primitives[2].vertices[2].normal, [7, 7, 7]);
}

#[test]
fn vertex_index_beyond_sixteen_bits() {
    let mut primitive = triangle(None);
    primitive.indices = Some(vec![0, 65536, 2]);
    assert_eq!(
        mesh_with(primitive).import_gltf_mesh(1),
        Err(ImportGltfError::IndexCapacityExceeded(1, 2))
    );
    let mut primitive = triangle(None);
    primitive.indices = Some(vec![0, 65535, u32::MAX]);
    assert_eq!(
        mesh_with(primitive).import_gltf_mesh(1),
        Err(ImportGltfError::IndexCapacityExceeded(1, 2))
    );
    let mut primitive = triangle(None);
    primitive.indices = Some(vec![65535, 0, 65535]);
    let mut importer = mesh_with(primitive);
    let id = importer.import_gltf_mesh(1).unwrap();
    assert_eq!(importer.meshes[id].primitives[2].indices, vec![65535u16, 0, 65535]);
}

#[test]
fn primitive_with_unknown_material() {
    let mut importer = mesh_with(triangle(Some(17)));
    assert_eq!(importer.import_gltf_mesh(1), Err(ImportGltfError::UnknownMaterialIndex(17)));
}

#[test]
fn first_failing_primitive_decides() {
    let mut doc = document();
    let mut no_normals = triangle(None);
    no_normals.normals = None;
    let mut wide = triangle(None);
    wide.indices = Some(vec![70000]);
    doc.meshes = vec![MeshDesc { primitives: vec![triangle(None), wide, no_normals] }];
    let mut importer = Importer::new(doc, two_images());
    assert_eq!(importer.import_gltf_mesh(0), Err(ImportGltfError::IndexCapacityExceeded(0, 1)));
}

#[test]
fn standalone_texture() {
    let pixels = ImageData { data: vec![9u8, 8, 7], width: 1, height: 1, format: PixelFormat::Rgb8 };
    let texture = ayude::builder::create_texture(0, &pixels, &no_sampler());
    assert_eq!(texture.data, vec![9u8, 8, 7]);
    assert_eq!((texture.width, texture.height, texture.format), (1, 1, PixelFormat::Rgb8));
    assert_eq!(texture.sampling, resolve_sampling(&no_sampler()));
    assert_eq!(texture.source, 0);
}
