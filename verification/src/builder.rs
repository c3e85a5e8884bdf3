use crate::data_uri::copy_range;
use crate::document::{Document, MagFilter, MinFilter, SamplerDesc, WrapMode};
use crate::error::{Failure, ImportGltfError};
use crate::images::{pixel_views, Pixels};
use crate::resources::{ImageData, Material, Mesh, Primitive, Sampling, Texture, Vertex};
use crate::transform::ONE_BITS;
use vstd::prelude::*;

verus! {

/// Largest value of a vertex index: the indices of a primitive are 16 bits wide.
pub const MAX_VERTEX_INDEX: u32 = 65535;

/// The sampling of a texture: what the asset states, `Repeat` for a wrap mode and
/// `Linear` for a filter that it does not state.
pub open spec fn resolved_sampling(sampler: SamplerDesc) -> Sampling {
    Sampling {
        wrap_s: match sampler.wrap_s {
            Some(mode) => mode,
            None => WrapMode::Repeat,
        },
        wrap_t: match sampler.wrap_t {
            Some(mode) => mode,
            None => WrapMode::Repeat,
        },
        min_filter: match sampler.min_filter {
            Some(filter) => filter,
            None => MinFilter::Linear,
        },
        mag_filter: match sampler.mag_filter {
            Some(filter) => filter,
            None => MagFilter::Linear,
        },
    }
}

/// The sampling of a texture with the defaults filled in.
pub fn resolve_sampling(sampler: &SamplerDesc) -> (sampling: Sampling)
    ensures
        sampling == resolved_sampling(*sampler),
{
    Sampling {
        wrap_s: match sampler.wrap_s {
            Some(mode) => mode,
            None => WrapMode::Repeat,
        },
        wrap_t: match sampler.wrap_t {
            Some(mode) => mode,
            None => WrapMode::Repeat,
        },
        min_filter: match sampler.min_filter {
            Some(filter) => filter,
            None => MinFilter::Linear,
        },
        mag_filter: match sampler.mag_filter {
            Some(filter) => filter,
            None => MagFilter::Linear,
        },
    }
}

/// A texture of decoded pixels, sampled as `sampler` states and by the defaults where
/// it states nothing. `source` is the index that the texture has in its asset.
pub fn create_texture(source: usize, pixels: &ImageData, sampler: &SamplerDesc) -> (texture:
    Texture)
    ensures
        texture.source == source,
        texture.data@ == pixels.data@,
        texture.width == pixels.width,
        texture.height == pixels.height,
        texture.format == pixels.format,
        texture.sampling == resolved_sampling(*sampler),
{
    let data = copy_range(pixels.data.as_slice(), 0, pixels.data.len());
    Texture {
        source,
        data,
        width: pixels.width,
        height: pixels.height,
        format: pixels.format,
        sampling: resolve_sampling(sampler),
    }
}

/// Why texture `t` of the asset cannot be built, if it cannot.
pub open spec fn texture_failure(doc: Document, image_count: int, t: int) -> Option<Failure> {
    if !(0 <= t < doc.textures@.len()) {
        Some(Failure::UnknownTextureIndex(t))
    } else if doc.textures@[t].image >= image_count {
        Some(Failure::UnknownImageIndex(doc.textures@[t].image as int))
    } else {
        None
    }
}

/// `texture` is what texture `t` of the asset builds to: the pixels of its image and
/// its resolved sampling.
pub open spec fn texture_built(doc: Document, images: Seq<Pixels>, t: int, texture: Texture) -> bool {
    let desc = doc.textures@[t];
    let pixels = images[desc.image as int];
    &&& texture.source == t
    &&& texture.data@ == pixels.data
    &&& texture.width == pixels.width
    &&& texture.height == pixels.height
    &&& texture.format == pixels.format
    &&& texture.sampling == resolved_sampling(desc.sampler)
}

/// Why a texture that a material may name cannot be built, if it cannot.
pub open spec fn texture_ref_failure(doc: Document, image_count: int, t: Option<usize>) -> Option<
    Failure,
> {
    match t {
        Some(t) => texture_failure(doc, image_count, t as int),
        None => None,
    }
}

/// Why a material cannot be built, if it cannot: its index is unknown, or its normal
/// texture fails, or else its diffuse texture fails. The default material (`None`)
/// never fails.
pub open spec fn material_failure(doc: Document, image_count: int, m: Option<usize>) -> Option<
    Failure,
> {
    match m {
        None => None,
        Some(m) => if m >= doc.materials@.len() {
            Some(Failure::UnknownMaterialIndex(m as int))
        } else {
            let desc = doc.materials@[m as int];
            match texture_ref_failure(doc, image_count, desc.normal_texture) {
                Some(e) => Some(e),
                None => texture_ref_failure(doc, image_count, desc.base_color_texture),
            }
        },
    }
}

/// `id` is the built texture for the asset's texture `t`, where the material names one.
pub open spec fn texture_ref_built(textures: Seq<Texture>, t: Option<usize>, id: Option<usize>) -> bool {
    match t {
        Some(t) => id matches Some(id) && id < textures.len() && textures[id as int].source == t,
        None => id is None,
    }
}

/// `material` is what a material of the asset builds to. The default material has no
/// textures and the base color one, one, one, one.
pub open spec fn material_built(
    doc: Document,
    textures: Seq<Texture>,
    m: Option<usize>,
    material: Material,
) -> bool {
    &&& material.source == m
    &&& match m {
        Some(m) => {
            let desc = doc.materials@[m as int];
            &&& material.base_diffuse_color == desc.base_color_factor
            &&& texture_ref_built(textures, desc.normal_texture, material.normal)
            &&& texture_ref_built(textures, desc.base_color_texture, material.diffuse)
        },
        None => {
            &&& material.normal is None
            &&& material.diffuse is None
            &&& forall|k: int| 0 <= k < 4 ==> material.base_diffuse_color@[k] == ONE_BITS
        },
    }
}

/// The name of a vertex attribute in failures.
pub open spec fn attribute_missing(name: &'static str, mesh: int, primitive: int) -> Failure {
    Failure::RequiredAttributeMissing(name@, mesh, primitive)
}

/// Why primitive `p` of mesh `m` cannot be built, if it cannot. Positions, normals and
/// texture coordinates must be there, normals and texture coordinates for every
/// position; then the indices, each of which must fit 16 bits; then the material.
pub open spec fn primitive_failure(doc: Document, image_count: int, m: int, p: int) -> Option<
    Failure,
> {
    let desc = doc.meshes@[m].primitives@[p];
    if desc.positions is None {
        Some(attribute_missing("positions", m, p))
    } else if desc.normals is None {
        Some(attribute_missing("normals", m, p))
    } else if desc.tex_coords is None {
        Some(attribute_missing("uvs", m, p))
    } else if desc.normals.unwrap()@.len() < desc.positions.unwrap()@.len() {
        Some(attribute_missing("normals", m, p))
    } else if desc.tex_coords.unwrap()@.len() < desc.positions.unwrap()@.len() {
        Some(attribute_missing("uvs", m, p))
    } else if desc.indices is None {
        Some(attribute_missing("indices", m, p))
    } else if exists|k: int|
        0 <= k < desc.indices.unwrap()@.len() && #[trigger] desc.indices.unwrap()@[k]
            > MAX_VERTEX_INDEX {
        Some(Failure::IndexCapacityExceeded(m, p))
    } else {
        material_failure(doc, image_count, desc.material)
    }
}

/// The failure of the first primitive of mesh `m`, from primitive `from` on, that
/// cannot be built.
pub open spec fn primitives_failure(doc: Document, image_count: int, m: int, from: int) -> Option<
    Failure,
>
    decreases doc.meshes@[m].primitives@.len() - from,
{
    if from < 0 || from >= doc.meshes@[m].primitives@.len() {
        None
    } else {
        match primitive_failure(doc, image_count, m, from) {
            Some(e) => Some(e),
            None => primitives_failure(doc, image_count, m, from + 1),
        }
    }
}

/// Why mesh `m` of the asset cannot be built, if it cannot.
pub open spec fn mesh_failure(doc: Document, image_count: int, m: int) -> Option<Failure> {
    if !(0 <= m < doc.meshes@.len()) {
        Some(Failure::UnknownMeshIndex(m))
    } else {
        primitives_failure(doc, image_count, m, 0)
    }
}

/// `vertex` joins a position, with one as its fourth coordinate, a normal and a
/// texture coordinate.
pub open spec fn vertex_built(
    position: [u32; 3],
    normal: [u32; 3],
    tex_coord: [u32; 2],
    vertex: Vertex,
) -> bool {
    &&& vertex.position@ == seq![position@[0], position@[1], position@[2], ONE_BITS]
    &&& vertex.normal == normal
    &&& vertex.tex_coord == tex_coord
}

/// `primitive` is what primitive `p` of mesh `m` builds to: one vertex for each
/// position, the indices unchanged in 16 bits, and the built material.
pub open spec fn primitive_built(
    doc: Document,
    materials: Seq<Material>,
    m: int,
    p: int,
    primitive: Primitive,
) -> bool {
    let desc = doc.meshes@[m].primitives@[p];
    &&& primitive.vertices@.len() == desc.positions.unwrap()@.len()
    &&& forall|v: int|
        0 <= v < primitive.vertices@.len() ==> vertex_built(
            desc.positions.unwrap()@[v],
            desc.normals.unwrap()@[v],
            desc.tex_coords.unwrap()@[v],
            #[trigger] primitive.vertices@[v],
        )
    &&& primitive.indices@.len() == desc.indices.unwrap()@.len()
    &&& forall|k: int|
        0 <= k < primitive.indices@.len() ==> (#[trigger] primitive.indices@[k])
            == desc.indices.unwrap()@[k]
    &&& primitive.material < materials.len()
    &&& materials[primitive.material as int].source == desc.material
}

/// `mesh` is what mesh `m` of the asset builds to.
pub open spec fn mesh_built(doc: Document, materials: Seq<Material>, m: int, mesh: Mesh) -> bool {
    &&& mesh.source == m
    &&& mesh.primitives@.len() == doc.meshes@[m].primitives@.len()
    &&& forall|p: int|
        0 <= p < mesh.primitives@.len() ==> primitive_built(
            doc,
            materials,
            m,
            p,
            #[trigger] mesh.primitives@[p],
        )
}

/// The order in which resources were built: for each table, the indices of the asset
/// that its entries were built from, the default material standing as `None`.
pub struct Built {
    pub textures: Seq<int>,
    pub materials: Seq<Option<usize>>,
    pub meshes: Seq<int>,
}

/// The tables after a request for texture `t`: it is built behind the others unless
/// it is there already.
pub open spec fn with_texture(built: Built, t: int) -> Built {
    if built.textures.contains(t) {
        built
    } else {
        Built { textures: built.textures.push(t), ..built }
    }
}

/// The tables after a request for the texture that a material may name.
pub open spec fn with_texture_ref(built: Built, t: Option<usize>) -> Built {
    match t {
        Some(t) => with_texture(built, t as int),
        None => built,
    }
}

/// The tables after a request for material `m`: unless it is there already, its
/// normal texture is requested, then its diffuse texture, and the material is built
/// behind the others.
pub open spec fn with_material(doc: Document, built: Built, m: Option<usize>) -> Built {
    if built.materials.contains(m) {
        built
    } else {
        let textured = match m {
            Some(i) => with_texture_ref(
                with_texture_ref(built, doc.materials@[i as int].normal_texture),
                doc.materials@[i as int].base_color_texture,
            ),
            None => built,
        };
        Built { materials: textured.materials.push(m), ..textured }
    }
}

/// The tables after requests for the materials of the primitives `from..upto` of
/// mesh `m`, in their order.
pub open spec fn with_primitives(doc: Document, built: Built, m: int, from: int, upto: int) -> Built
    decreases upto - from,
{
    if from >= upto {
        built
    } else {
        with_primitives(
            doc,
            with_material(doc, built, doc.meshes@[m].primitives@[from].material),
            m,
            from + 1,
            upto,
        )
    }
}

/// The tables after a request for mesh `m`: unless it is there already, the materials
/// of its primitives are requested, and the mesh is built behind the others.
pub open spec fn with_mesh(doc: Document, built: Built, m: int) -> Built {
    if built.meshes.contains(m) {
        built
    } else {
        let furnished = with_primitives(
            doc,
            built,
            m,
            0,
            doc.meshes@[m].primitives@.len() as int,
        );
        Built { meshes: furnished.meshes.push(m), ..furnished }
    }
}

/// `cache` and `sources` say the same: the resource built from index `i` of the asset
/// has the id `cache[i]`, and the resource with id `k` was built from `sources[k]`.
pub open spec fn cache_agrees(cache: Seq<Option<usize>>, sources: Seq<int>) -> bool {
    &&& forall|i: int|
        0 <= i < cache.len() ==> ((#[trigger] cache[i]) matches Some(id) ==> id < sources.len()
            && sources[id as int] == i)
    &&& forall|k: int|
        0 <= k < sources.len() ==> 0 <= (#[trigger] sources[k]) < cache.len() && (
        cache[sources[k]] matches Some(id) && id == k)
}

/// One import in progress: the asset, its decoded images, and the textures, materials
/// and meshes built so far. Each resource is built once, at the first request for its
/// index; the caches hold the id that it was given.
#[derive(Debug)]
pub struct Importer {
    pub document: Document,
    pub images: Vec<ImageData>,
    pub texture_cache: Vec<Option<usize>>,
    pub material_cache: Vec<Option<usize>>,
    pub default_material: Option<usize>,
    pub mesh_cache: Vec<Option<usize>>,
    pub textures: Vec<Texture>,
    pub materials: Vec<Material>,
    pub meshes: Vec<Mesh>,
}

impl Importer {
    /// The decoded images as mathematical values.
    pub open spec fn pixels(self) -> Seq<Pixels> {
        pixel_views(self.images@)
    }

    /// For each built texture, the index of the asset that it was built from.
    pub open spec fn texture_sources(self) -> Seq<int> {
        self.textures@.map_values(|t: Texture| t.source as int)
    }

    /// For each built mesh, the index of the asset that it was built from.
    pub open spec fn mesh_sources(self) -> Seq<int> {
        self.meshes@.map_values(|m: Mesh| m.source as int)
    }

    /// For each built material, the index of the asset that it was built from.
    pub open spec fn material_sources(self) -> Seq<Option<usize>> {
        self.materials@.map_values(|m: Material| m.source)
    }

    /// The order in which the resources were built.
    pub open spec fn built(self) -> Built {
        Built {
            textures: self.texture_sources(),
            materials: self.material_sources(),
            meshes: self.mesh_sources(),
        }
    }

    /// The textures built so far are exactly those that the cache knows, and each is
    /// what the asset describes.
    pub open spec fn textures_wf(self) -> bool {
        &&& self.texture_cache@.len() == self.document.textures@.len()
        &&& cache_agrees(self.texture_cache@, self.texture_sources())
        &&& forall|k: int|
            0 <= k < self.textures@.len() ==> {
                &&& texture_failure(
                    self.document,
                    self.images@.len() as int,
                    (#[trigger] self.textures@[k]).source as int,
                ) is None
                &&& texture_built(
                    self.document,
                    self.pixels(),
                    self.textures@[k].source as int,
                    self.textures@[k],
                )
            }
    }

    /// The id of the material built from `m`, if it has been built.
    pub open spec fn material_id(self, m: Option<usize>) -> Option<usize> {
        match m {
            Some(m) => if m < self.material_cache@.len() {
                self.material_cache@[m as int]
            } else {
                None
            },
            None => self.default_material,
        }
    }

    /// The materials built so far are exactly those that the cache and the slot of the
    /// default material know, and each is what the asset describes.
    pub open spec fn materials_wf(self) -> bool {
        &&& self.material_cache@.len() == self.document.materials@.len()
        &&& forall|i: int|
            0 <= i < self.material_cache@.len() ==> ((#[trigger] self.material_cache@[i]) matches Some(
                id,
            ) ==> id < self.materials@.len() && self.materials@[id as int].source == Some(
                i as usize,
            ))
        &&& self.default_material matches Some(id) ==> id < self.materials@.len()
            && self.materials@[id as int].source is None
        &&& forall|k: int|
            0 <= k < self.materials@.len() ==> {
                &&& self.material_id((#[trigger] self.materials@[k]).source) matches Some(id)
                    && id == k
                &&& material_failure(
                    self.document,
                    self.images@.len() as int,
                    self.materials@[k].source,
                ) is None
                &&& material_built(
                    self.document,
                    self.textures@,
                    self.materials@[k].source,
                    self.materials@[k],
                )
            }
    }

    /// The meshes built so far are exactly those that the cache knows, and each is
    /// what the asset describes.
    pub open spec fn meshes_wf(self) -> bool {
        &&& self.mesh_cache@.len() == self.document.meshes@.len()
        &&& cache_agrees(self.mesh_cache@, self.mesh_sources())
        &&& forall|k: int|
            0 <= k < self.meshes@.len() ==> {
                &&& mesh_failure(
                    self.document,
                    self.images@.len() as int,
                    (#[trigger] self.meshes@[k]).source as int,
                ) is None
                &&& mesh_built(
                    self.document,
                    self.materials@,
                    self.meshes@[k].source as int,
                    self.meshes@[k],
                )
            }
    }

    /// The invariant of an import in progress.
    pub open spec fn wf(self) -> bool {
        &&& self.textures_wf()
        &&& self.materials_wf()
        &&& self.meshes_wf()
    }

    /// `self` is a later state of the import `before`: the same asset and images, and
    /// every resource that was built is still there under its id.
    pub open spec fn extends(self, before: Importer) -> bool {
        &&& self.document == before.document
        &&& self.images == before.images
        &&& before.textures@.len() <= self.textures@.len()
        &&& self.textures@.take(before.textures@.len() as int) == before.textures@
        &&& before.materials@.len() <= self.materials@.len()
        &&& self.materials@.take(before.materials@.len() as int) == before.materials@
        &&& before.meshes@.len() <= self.meshes@.len()
        &&& self.meshes@.take(before.meshes@.len() as int) == before.meshes@
    }

    /// An import of `document` with its decoded images, with nothing built yet.
    pub fn new(document: Document, images: Vec<ImageData>) -> (importer: Importer)
        ensures
            importer.wf(),
            importer.document == document,
            importer.images == images,
            importer.textures@.len() == 0,
            importer.materials@.len() == 0,
            importer.meshes@.len() == 0,
    {
        let texture_cache = empty_cache(document.textures.len());
        let material_cache = empty_cache(document.materials.len());
        let mesh_cache = empty_cache(document.meshes.len());
        Importer {
            document,
            images,
            texture_cache,
            material_cache,
            default_material: None,
            mesh_cache,
            textures: Vec::new(),
            materials: Vec::new(),
            meshes: Vec::new(),
        }
    }

    /// The id of the texture built from texture `t` of the asset. The texture is built
    /// on the first request and found again on every later one.
    pub fn import_gltf_texture(&mut self, t: usize) -> (r: Result<usize, ImportGltfError>)
        requires
            old(self).wf(),
        ensures
            final(self).wf(),
            final(self).extends(*old(self)),
            final(self).materials@ == old(self).materials@,
            final(self).meshes@ == old(self).meshes@,
            final(self).material_cache == old(self).material_cache,
            final(self).default_material == old(self).default_material,
            final(self).mesh_cache == old(self).mesh_cache,
            match r {
                Ok(id) => {
                    &&& texture_failure(
                        old(self).document,
                        old(self).images@.len() as int,
                        t as int,
                    ) is None
                    &&& final(self).texture_cache@[t as int] == Some(id)
                    &&& id < final(self).textures@.len()
                    &&& texture_built(
                        old(self).document,
                        old(self).pixels(),
                        t as int,
                        final(self).textures@[id as int],
                    )
                    &&& match old(self).texture_cache@[t as int] {
                        Some(known) => id == known && final(self).textures@ == old(self).textures@,
                        None => id == old(self).textures@.len() && final(self).textures@.len()
                            == id + 1,
                    }
                    &&& final(self).built() == with_texture(old(self).built(), t as int)
                },
                Err(e) => texture_failure(
                    old(self).document,
                    old(self).images@.len() as int,
                    t as int,
                ) == Some(e@) && *final(self) == *old(self),
            },
    {
        if t >= self.texture_cache.len() {
            proof {
                lemma_extends_self(*self);
            }
            return Err(ImportGltfError::UnknownTextureIndex(t));
        }
        if let Some(id) = self.texture_cache[t] {
            proof {
                lemma_extends_self(*self);
            }
            return Ok(id);
        }
        let image_index = self.document.textures[t].image;
        if image_index >= self.images.len() {
            proof {
                lemma_extends_self(*self);
            }
            return Err(ImportGltfError::UnknownImageIndex(image_index));
        }
        let texture = create_texture(
            t,
            &self.images[image_index],
            &self.document.textures[t].sampler,
        );
        let id = self.textures.len();
        let ghost before = *self;
        self.textures.push(texture);
        self.texture_cache[t] = Some(id);
        proof {
            assert(self.textures@.take(id as int) =~= before.textures@);
            assert(self.materials@.take(self.materials@.len() as int) =~= self.materials@);
            assert(self.meshes@.take(self.meshes@.len() as int) =~= self.meshes@);
            assert(self.texture_sources() =~= before.texture_sources().push(t as int));
        }
        Ok(id)
    }

    /// The id of the texture that a material names, if it names one.
    fn import_texture_ref(&mut self, t: Option<usize>) -> (r: Result<Option<usize>, ImportGltfError>)
        requires
            old(self).wf(),
        ensures
            final(self).wf(),
            final(self).extends(*old(self)),
            final(self).materials@ == old(self).materials@,
            final(self).meshes@ == old(self).meshes@,
            final(self).material_cache == old(self).material_cache,
            final(self).default_material == old(self).default_material,
            final(self).mesh_cache == old(self).mesh_cache,
            match r {
                Ok(id) => {
                    &&& texture_ref_failure(
                        old(self).document,
                        old(self).images@.len() as int,
                        t,
                    ) is None
                    &&& texture_ref_built(final(self).textures@, t, id)
                    &&& final(self).built() == with_texture_ref(old(self).built(), t)
                },
                Err(e) => texture_ref_failure(
                    old(self).document,
                    old(self).images@.len() as int,
                    t,
                ) == Some(e@),
            },
    {
        match t {
            Some(t) => match self.import_gltf_texture(t) {
                Ok(id) => {
                    Ok(Some(id))
                },
                Err(e) => Err(e),
            },
            None => {
                proof {
                    lemma_extends_self(*self);
                }
                Ok(None)
            },
        }
    }

    /// The id of the material built from material `m` of the asset, or from the
    /// default material where `m` is `None`. The material is built on the first
    /// request, with its textures, and found again on every later one.
    pub fn import_gltf_material(&mut self, m: Option<usize>) -> (r: Result<
        usize,
        ImportGltfError,
    >)
        requires
            old(self).wf(),
        ensures
            final(self).wf(),
            final(self).extends(*old(self)),
            final(self).meshes@ == old(self).meshes@,
            final(self).mesh_cache == old(self).mesh_cache,
            match r {
                Ok(id) => {
                    &&& material_failure(
                        old(self).document,
                        old(self).images@.len() as int,
                        m,
                    ) is None
                    &&& final(self).material_id(m) == Some(id)
                    &&& id < final(self).materials@.len()
                    &&& material_built(
                        old(self).document,
                        final(self).textures@,
                        m,
                        final(self).materials@[id as int],
                    )
                    &&& match old(self).material_id(m) {
                        Some(known) => id == known && final(self).materials@ == old(self).materials@
                            && final(self).textures@ == old(self).textures@,
                        None => id == old(self).materials@.len() && final(self).materials@.len()
                            == id + 1,
                    }
                    &&& final(self).built() == with_material(
                        old(self).document,
                        old(self).built(),
                        m,
                    )
                },
                Err(e) => material_failure(old(self).document, old(self).images@.len() as int, m)
                    == Some(e@) && final(self).materials@ == old(self).materials@,
            },
            m matches Some(i) && i >= old(self).document.materials@.len() ==> *final(self) == *old(
                self,
            ),
    {
        let ghost start = *self;
        let (normal, diffuse, color) = match m {
            Some(i) => {
                if i >= self.material_cache.len() {
                    proof {
                        lemma_extends_self(*self);
                    }
                    return Err(ImportGltfError::UnknownMaterialIndex(i));
                }
                if let Some(id) = self.material_cache[i] {
                    proof {
                        lemma_extends_self(*self);
                        assert(self.material_sources()[id as int] == m);
                    }
                    return Ok(id);
                }
                let desc = self.document.materials[i];
                let normal = match self.import_texture_ref(desc.normal_texture) {
                    Ok(id) => id,
                    Err(e) => {
                        return Err(e);
                    },
                };
                let ghost middle = *self;
                let diffuse = match self.import_texture_ref(desc.base_color_texture) {
                    Ok(id) => id,
                    Err(e) => {
                        proof {
                            lemma_extends_trans(start, middle, *self);
                        }
                        return Err(e);
                    },
                };
                proof {
                    lemma_extends_trans(start, middle, *self);
                }
                (normal, diffuse, desc.base_color_factor)
            },
            None => {
                if let Some(id) = self.default_material {
                    proof {
                        lemma_extends_self(*self);
                        assert(self.material_sources()[id as int] == m);
                    }
                    return Ok(id);
                }
                proof {
                    lemma_extends_self(*self);
                }
                (None, None, [ONE_BITS, ONE_BITS, ONE_BITS, ONE_BITS])
            },
        };
        let material = Material { source: m, normal, diffuse, base_diffuse_color: color };
        let id = self.materials.len();
        let ghost before = *self;
        self.materials.push(material);
        match m {
            Some(i) => {
                self.material_cache[i] = Some(id);
            },
            None => {
                self.default_material = Some(id);
            },
        }
        proof {
            assert(self.materials@.take(id as int) =~= before.materials@);
            assert forall|k: int| 0 <= k < self.materials@.len() implies {
                &&& self.material_id((#[trigger] self.materials@[k]).source) matches Some(id)
                    && id == k
                &&& material_failure(
                    self.document,
                    self.images@.len() as int,
                    self.materials@[k].source,
                ) is None
                &&& material_built(
                    self.document,
                    self.textures@,
                    self.materials@[k].source,
                    self.materials@[k],
                )
            } by {
            }
            assert(self.built().materials =~= before.built().materials.push(m));
        }
        Ok(id)
    }

    /// Builds primitive `p` of mesh `m` of the asset, and its material.
    #[verifier::loop_isolation(false)]
    fn build_primitive(&mut self, m: usize, p: usize) -> (r: Result<Primitive, ImportGltfError>)
        requires
            old(self).wf(),
            m < old(self).document.meshes@.len(),
            p < old(self).document.meshes@[m as int].primitives@.len(),
        ensures
            final(self).wf(),
            final(self).extends(*old(self)),
            final(self).meshes@ == old(self).meshes@,
            final(self).mesh_cache == old(self).mesh_cache,
            match r {
                Ok(primitive) => {
                    &&& primitive_failure(
                        old(self).document,
                        old(self).images@.len() as int,
                        m as int,
                        p as int,
                    ) is None
                    &&& primitive_built(
                        old(self).document,
                        final(self).materials@,
                        m as int,
                        p as int,
                        primitive,
                    )
                    &&& final(self).built() == with_material(
                        old(self).document,
                        old(self).built(),
                        old(self).document.meshes@[m as int].primitives@[p as int].material,
                    )
                },
                Err(e) => primitive_failure(
                    old(self).document,
                    old(self).images@.len() as int,
                    m as int,
                    p as int,
                ) == Some(e@),
            },
    {
        proof {
            lemma_extends_self(*self);
        }
        let desc = &self.document.meshes[m].primitives[p];
        let positions = match &desc.positions {
            Some(positions) => positions,
            None => {
                return Err(ImportGltfError::RequiredAttributeMissing("positions", m, p));
            },
        };
        let normals = match &desc.normals {
            Some(normals) => normals,
            None => {
                return Err(ImportGltfError::RequiredAttributeMissing("normals", m, p));
            },
        };
        let tex_coords = match &desc.tex_coords {
            Some(tex_coords) => tex_coords,
            None => {
                return Err(ImportGltfError::RequiredAttributeMissing("uvs", m, p));
            },
        };
        if normals.len() < positions.len() {
            return Err(ImportGltfError::RequiredAttributeMissing("normals", m, p));
        }
        if tex_coords.len() < positions.len() {
            return Err(ImportGltfError::RequiredAttributeMissing("uvs", m, p));
        }
        let mut vertices: Vec<Vertex> = Vec::new();
        let mut v: usize = 0;
        while v < positions.len()
            invariant
                v <= positions@.len() <= normals@.len(),
                positions@.len() <= tex_coords@.len(),
                vertices@.len() == v,
                forall|j: int|
                    0 <= j < v ==> vertex_built(
                        positions@[j],
                        normals@[j],
                        tex_coords@[j],
                        #[trigger] vertices@[j],
                    ),
            decreases positions@.len() - v,
        {
            let position = positions[v];
            let vertex = Vertex {
                position: [position[0], position[1], position[2], ONE_BITS],
                normal: normals[v],
                tex_coord: tex_coords[v],
            };
            vertices.push(vertex);
            v += 1;
        }
        let wide = match &desc.indices {
            Some(indices) => indices,
            None => {
                return Err(ImportGltfError::RequiredAttributeMissing("indices", m, p));
            },
        };
        let mut indices: Vec<u16> = Vec::new();
        let mut k: usize = 0;
        while k < wide.len()
            invariant
                k <= wide@.len(),
                indices@.len() == k,
                forall|j: int| 0 <= j < k ==> (#[trigger] wide@[j]) <= MAX_VERTEX_INDEX,
                forall|j: int| 0 <= j < k ==> (#[trigger] indices@[j]) == wide@[j],
            decreases wide@.len() - k,
        {
            let index = wide[k];
            if index > MAX_VERTEX_INDEX {
                return Err(ImportGltfError::IndexCapacityExceeded(m, p));
            }
            indices.push(index as u16);
            k += 1;
        }
        let material = desc.material;
        match self.import_gltf_material(material) {
            Ok(material) => Ok(Primitive { vertices, indices, material }),
            Err(e) => Err(e),
        }
    }

    /// The id of the mesh built from mesh `m` of the asset. The mesh is built on the
    /// first request, with the materials and textures of its primitives, and found
    /// again on every later one.
    #[verifier::loop_isolation(false)]
    pub fn import_gltf_mesh(&mut self, m: usize) -> (r: Result<usize, ImportGltfError>)
        requires
            old(self).wf(),
        ensures
            final(self).wf(),
            final(self).extends(*old(self)),
            match r {
                Ok(id) => {
                    &&& mesh_failure(
                        old(self).document,
                        old(self).images@.len() as int,
                        m as int,
                    ) is None
                    &&& final(self).mesh_cache@[m as int] == Some(id)
                    &&& id < final(self).meshes@.len()
                    &&& mesh_built(
                        old(self).document,
                        final(self).materials@,
                        m as int,
                        final(self).meshes@[id as int],
                    )
                    &&& match old(self).mesh_cache@[m as int] {
                        Some(known) => id == known && final(self).meshes@ == old(self).meshes@
                            && final(self).materials@ == old(self).materials@
                            && final(self).textures@ == old(self).textures@,
                        None => id == old(self).meshes@.len() && final(self).meshes@.len() == id
                            + 1,
                    }
                    &&& final(self).built() == with_mesh(
                        old(self).document,
                        old(self).built(),
                        m as int,
                    )
                },
                Err(e) => mesh_failure(old(self).document, old(self).images@.len() as int, m as int)
                    == Some(e@) && final(self).meshes@ == old(self).meshes@,
            },
            m >= old(self).document.meshes@.len() ==> *final(self) == *old(self),
    {
        let ghost start = *self;
        proof {
            lemma_extends_self(*self);
        }
        if m >= self.mesh_cache.len() {
            return Err(ImportGltfError::UnknownMeshIndex(m));
        }
        if let Some(id) = self.mesh_cache[m] {
            return Ok(id);
        }
        let count = self.document.meshes[m].primitives.len();
        let mut primitives: Vec<Primitive> = Vec::new();
        let mut p: usize = 0;
        while p < count
            invariant
                self.wf(),
                self.extends(start),
                self.meshes@ == start.meshes@,
                self.mesh_cache == start.mesh_cache,
                m < start.document.meshes@.len(),
                count == start.document.meshes@[m as int].primitives@.len(),
                p <= count,
                primitives@.len() == p,
                primitives_failure(start.document, start.images@.len() as int, m as int, 0)
                    == primitives_failure(
                    start.document,
                    start.images@.len() as int,
                    m as int,
                    p as int,
                ),
                with_primitives(start.document, start.built(), m as int, 0, count as int)
                    == with_primitives(
                    start.document,
                    self.built(),
                    m as int,
                    p as int,
                    count as int,
                ),
                forall|j: int|
                    0 <= j < p ==> primitive_built(
                        start.document,
                        self.materials@,
                        m as int,
                        j,
                        #[trigger] primitives@[j],
                    ),
            decreases count - p,
        {
            let ghost before = *self;
            match self.build_primitive(m, p) {
                Ok(primitive) => {
                    proof {
                        lemma_extends_trans(start, before, *self);
                    }
                    primitives.push(primitive);
                },
                Err(e) => {
                    proof {
                        lemma_extends_trans(start, before, *self);
                    }
                    return Err(e);
                },
            }
            p += 1;
        }
        let mesh = Mesh { source: m, primitives };
        let id = self.meshes.len();
        let ghost before = *self;
        self.meshes.push(mesh);
        self.mesh_cache[m] = Some(id);
        proof {
            assert(self.meshes@.take(id as int) =~= before.meshes@);
            assert(self.mesh_sources() =~= before.mesh_sources().push(m as int));
            assert forall|k: int| 0 <= k < self.meshes@.len() implies {
                &&& mesh_failure(
                    self.document,
                    self.images@.len() as int,
                    (#[trigger] self.meshes@[k]).source as int,
                ) is None
                &&& mesh_built(
                    self.document,
                    self.materials@,
                    self.meshes@[k].source as int,
                    self.meshes@[k],
                )
            } by {
            }
        }
        Ok(id)
    }
}

/// Every state of an import extends itself.
pub proof fn lemma_extends_self(importer: Importer)
    ensures
        importer.extends(importer),
{
    assert(importer.textures@.take(importer.textures@.len() as int) =~= importer.textures@);
    assert(importer.materials@.take(importer.materials@.len() as int) =~= importer.materials@);
    assert(importer.meshes@.take(importer.meshes@.len() as int) =~= importer.meshes@);
}

/// A later state of a later state is a later state.
pub proof fn lemma_extends_trans(a: Importer, b: Importer, c: Importer)
    requires
        b.extends(a),
        c.extends(b),
    ensures
        c.extends(a),
{
    assert(c.textures@.take(a.textures@.len() as int) =~= b.textures@.take(
        a.textures@.len() as int,
    )) by {
    }
    assert(c.materials@.take(a.materials@.len() as int) =~= b.materials@.take(
        a.materials@.len() as int,
    )) by {
    }
    assert(c.meshes@.take(a.meshes@.len() as int) =~= b.meshes@.take(a.meshes@.len() as int)) by {
    }
}

/// A cache that knows no resource, for a table of `n` entries.
fn empty_cache(n: usize) -> (cache: Vec<Option<usize>>)
    ensures
        cache@.len() == n,
        forall|i: int| 0 <= i < n ==> (#[trigger] cache@[i]) is None,
{
    let mut cache: Vec<Option<usize>> = Vec::new();
    let mut i: usize = 0;
    while i < n
        invariant
            i <= n,
            cache@.len() == i,
            forall|k: int| 0 <= k < i ==> (#[trigger] cache@[k]) is None,
        decreases n - i,
    {
        cache.push(None);
        i += 1;
    }
    cache
}

/// A primitive that has all its attributes and a vertex index beyond 16 bits fails
/// with `IndexCapacityExceeded`.
pub proof fn lemma_primitive_refuses_wide_index(doc: Document, image_count: int, m: int, p: int, k: int)
    requires
        doc.meshes@[m].primitives@[p].positions is Some,
        doc.meshes@[m].primitives@[p].normals is Some,
        doc.meshes@[m].primitives@[p].tex_coords is Some,
        doc.meshes@[m].primitives@[p].indices is Some,
        doc.meshes@[m].primitives@[p].normals.unwrap()@.len()
            >= doc.meshes@[m].primitives@[p].positions.unwrap()@.len(),
        doc.meshes@[m].primitives@[p].tex_coords.unwrap()@.len()
            >= doc.meshes@[m].primitives@[p].positions.unwrap()@.len(),
        0 <= k < doc.meshes@[m].primitives@[p].indices.unwrap()@.len(),
        doc.meshes@[m].primitives@[p].indices.unwrap()@[k] > MAX_VERTEX_INDEX,
    ensures
        primitive_failure(doc, image_count, m, p) == Some(Failure::IndexCapacityExceeded(m, p)),
{
}

} // verus!
