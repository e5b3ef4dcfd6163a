//! The resource tables: what exists, under which handle, and under which name.
//!
//! The tables hold what the scheduler needs to know of each resource. The
//! device objects themselves live with whoever talks to the device, keyed by
//! the handles issued here.

use crate::model::{
    IndexBufferKey, Mapping, Material, MaterialKey, RenderTargetKey, ShaderKey, TextureKey,
    VertexBufferKey,
};
use crate::names::NameMap;
use crate::slots::SLOT_LIMIT;
use crate::table::ResourceTable;
use vstd::prelude::*;

verus! {

/// The name of an asset.
pub type AssetName = String;

/// What the tables record of a texture.
#[derive(Clone, Copy, PartialEq, Eq, Structural, Debug)]
pub struct TextureInfo {
    pub width: u32,
    pub height: u32,
}

/// The kinds of resource that are kept by handle.
#[derive(Clone, Copy, PartialEq, Eq, Structural, Debug)]
pub enum ResourceKind {
    Texture,
    Shader,
    Material,
    VertexBuffer,
    IndexBuffer,
}

/// The resource tables as a mathematical value.
pub struct AssetsView {
    /// Loaded textures by name.
    pub texture_names: Map<Seq<char>, TextureKey>,
    /// Shaders by name.
    pub shader_names: Map<Seq<char>, ShaderKey>,
    /// Offscreen render targets by name.
    pub dynamic_targets: Map<Seq<char>, RenderTargetKey>,
    /// Live textures by handle.
    pub textures: Map<u64, TextureInfo>,
    /// Live shader handles.
    pub shaders: Set<u64>,
    /// Live vertex buffer handles.
    pub vertex_buffers: Set<u64>,
    /// Live index buffer handles.
    pub index_buffers: Set<u64>,
    /// Live materials by handle.
    pub materials: Map<u64, Material>,
}

impl AssetsView {
    /// The number of live resources of one kind.
    pub open spec fn count(self, kind: ResourceKind) -> nat {
        match kind {
            ResourceKind::Texture => self.textures.len(),
            ResourceKind::Shader => self.shaders.len(),
            ResourceKind::Material => self.materials.len(),
            ResourceKind::VertexBuffer => self.vertex_buffers.len(),
            ResourceKind::IndexBuffer => self.index_buffers.len(),
        }
    }

    /// Every handle that `material` refers to is live.
    pub open spec fn material_resolves(self, material: Material) -> bool {
        &&& self.shaders.contains(material.shader.raw)
        &&& forall|i: int|
            0 <= i < material.textures@.len() ==> self.textures.contains_key(
                (#[trigger] material.textures@[i]).raw,
            )
    }

    /// Every buffer that `mapping` refers to is live.
    pub open spec fn mapping_resolves(self, mapping: Mapping) -> bool {
        match mapping {
            Mapping::Sprite { uv_rect } => true,
            Mapping::Mesh { vertex_buffer, index_buffer, vertex_count, index_count } => {
                self.vertex_buffers.contains(vertex_buffer.raw) && self.index_buffers.contains(
                    index_buffer.raw,
                )
            },
        }
    }

    /// A submission of `material` with `mapping` can be drawn: the material is
    /// live, and so is everything it and the mapping refer to.
    pub open spec fn submission_live(self, material: MaterialKey, mapping: Mapping) -> bool {
        &&& self.materials.contains_key(material.raw)
        &&& self.material_resolves(self.materials[material.raw])
        &&& self.mapping_resolves(mapping)
    }

    /// What holds of the names: a named texture or shader is live, a named
    /// render target is a live texture, and no two names share a render target.
    pub open spec fn valid(self) -> bool {
        &&& forall|name: Seq<char>| #[trigger]
            self.texture_names.contains_key(name) ==> self.textures.contains_key(
                self.texture_names[name].raw,
            )
        &&& forall|name: Seq<char>| #[trigger]
            self.shader_names.contains_key(name) ==> self.shaders.contains(
                self.shader_names[name].raw,
            )
        &&& forall|name: Seq<char>| #[trigger]
            self.dynamic_targets.contains_key(name) ==> {
                &&& self.dynamic_targets[name] is Texture
                &&& self.textures.contains_key(self.dynamic_targets[name]->Texture_0.raw)
            }
        &&& forall|a: Seq<char>, b: Seq<char>|
            #![trigger self.dynamic_targets.contains_key(a), self.dynamic_targets.contains_key(b)]
            self.dynamic_targets.contains_key(a) && self.dynamic_targets.contains_key(b) && a != b
                ==> self.dynamic_targets[a] != self.dynamic_targets[b]
    }

    /// The tables after a texture was stored under a new handle and a name.
    pub open spec fn with_texture(self, name: Seq<char>, handle: u64, info: TextureInfo) -> AssetsView {
        AssetsView {
            textures: self.textures.insert(handle, info),
            texture_names: self.texture_names.insert(name, TextureKey { raw: handle }),
            ..self
        }
    }

    /// The tables after an offscreen target was stored under a new handle and a name.
    pub open spec fn with_dynamic_target(
        self,
        name: Seq<char>,
        handle: u64,
        info: TextureInfo,
    ) -> AssetsView {
        AssetsView {
            textures: self.textures.insert(handle, info),
            dynamic_targets: self.dynamic_targets.insert(
                name,
                RenderTargetKey::Texture(TextureKey { raw: handle }),
            ),
            ..self
        }
    }

    /// The tables after a shader was stored under a new handle and a name.
    pub open spec fn with_shader(self, name: Seq<char>, handle: u64) -> AssetsView {
        AssetsView {
            shaders: self.shaders.insert(handle),
            shader_names: self.shader_names.insert(name, ShaderKey { raw: handle }),
            ..self
        }
    }
}

/// What asking for the offscreen target `name` does to the tables: a cached
/// target is handed back and nothing changes; else a texture of `size` is
/// stored under a handle that was not live, cached under `name`, and handed back.
pub open spec fn dynamic_target_created(
    before: AssetsView,
    size: (u32, u32),
    name: Seq<char>,
    after: AssetsView,
    target: RenderTargetKey,
) -> bool {
    if before.dynamic_targets.contains_key(name) {
        after == before && target == before.dynamic_targets[name]
    } else {
        exists|handle: u64|
            {
                &&& !(#[trigger] before.textures.contains_key(handle))
                &&& target == RenderTargetKey::Texture(TextureKey { raw: handle })
                &&& after == before.with_dynamic_target(
                    name,
                    handle,
                    TextureInfo { width: size.0, height: size.1 },
                )
            }
    }
}

/// Asking for an offscreen target keeps valid tables valid.
pub proof fn lemma_dynamic_target_keeps_valid(
    before: AssetsView,
    size: (u32, u32),
    name: Seq<char>,
    after: AssetsView,
    target: RenderTargetKey,
)
    requires
        before.valid(),
        dynamic_target_created(before, size, name, after, target),
    ensures
        after.valid(),
        after.dynamic_targets.contains_key(name),
        after.dynamic_targets[name] == target,
{
    if !before.dynamic_targets.contains_key(name) {
        assert forall|a: Seq<char>, b: Seq<char>|
            #![trigger after.dynamic_targets.contains_key(a), after.dynamic_targets.contains_key(b)]
            after.dynamic_targets.contains_key(a) && after.dynamic_targets.contains_key(b) && a
                != b implies after.dynamic_targets[a] != after.dynamic_targets[b] by {
            if a != name {
                assert(before.dynamic_targets.contains_key(a));
            }
            if b != name {
                assert(before.dynamic_targets.contains_key(b));
            }
        }
        assert forall|n: Seq<char>| #[trigger]
            after.texture_names.contains_key(n) implies after.textures.contains_key(
            after.texture_names[n].raw,
        ) by {
            assert(before.texture_names.contains_key(n));
        }
        assert forall|n: Seq<char>| #[trigger] after.dynamic_targets.contains_key(n) implies {
            &&& after.dynamic_targets[n] is Texture
            &&& after.textures.contains_key(after.dynamic_targets[n]->Texture_0.raw)
        } by {
            if n != name {
                assert(before.dynamic_targets.contains_key(n));
            }
        }
    }
}

/// Asking for an offscreen target is idempotent: asked again under the same
/// name, whatever the size, it hands back the same target and changes nothing.
pub proof fn lemma_dynamic_target_idempotent(
    before: AssetsView,
    name: Seq<char>,
    first_size: (u32, u32),
    between: AssetsView,
    first: RenderTargetKey,
    second_size: (u32, u32),
    after: AssetsView,
    second: RenderTargetKey,
)
    requires
        dynamic_target_created(before, first_size, name, between, first),
        dynamic_target_created(between, second_size, name, after, second),
    ensures
        second == first,
        after == between,
{
}

/// Offscreen targets asked for under different names are different targets.
pub proof fn lemma_dynamic_targets_distinct(
    before: AssetsView,
    first_name: Seq<char>,
    first_size: (u32, u32),
    between: AssetsView,
    first: RenderTargetKey,
    second_name: Seq<char>,
    second_size: (u32, u32),
    after: AssetsView,
    second: RenderTargetKey,
)
    requires
        before.valid(),
        first_name != second_name,
        dynamic_target_created(before, first_size, first_name, between, first),
        dynamic_target_created(between, second_size, second_name, after, second),
    ensures
        second != first,
{
    lemma_dynamic_target_keeps_valid(before, first_size, first_name, between, first);
    lemma_dynamic_target_keeps_valid(between, second_size, second_name, after, second);
    assert(after.dynamic_targets.contains_key(first_name));
    assert(after.dynamic_targets.contains_key(second_name));
    assert(after.dynamic_targets[first_name] == first);
}

/// The resource tables.
pub struct AssetManager {
    texture_assets: NameMap<TextureKey>,
    shader_assets: NameMap<ShaderKey>,
    dynamic_render_targets: NameMap<RenderTargetKey>,
    vertex_buffers: ResourceTable<()>,
    index_buffers: ResourceTable<()>,
    textures: ResourceTable<TextureInfo>,
    shaders: ResourceTable<()>,
    materials: ResourceTable<Material>,
}

impl View for AssetManager {
    type V = AssetsView;

    closed spec fn view(&self) -> AssetsView {
        AssetsView {
            texture_names: self.texture_assets@,
            shader_names: self.shader_assets@,
            dynamic_targets: self.dynamic_render_targets@,
            textures: self.textures@,
            shaders: self.shaders@.dom(),
            vertex_buffers: self.vertex_buffers@.dom(),
            index_buffers: self.index_buffers@.dom(),
            materials: self.materials@,
        }
    }
}

impl AssetManager {
    /// Every table is sound and the view is valid.
    pub closed spec fn wf(&self) -> bool {
        &&& self.texture_assets.wf()
        &&& self.shader_assets.wf()
        &&& self.dynamic_render_targets.wf()
        &&& self.vertex_buffers.wf()
        &&& self.index_buffers.wf()
        &&& self.textures.wf()
        &&& self.shaders.wf()
        &&& self.materials.wf()
        &&& self@.valid()
    }

    /// Well-formed tables are valid and finite.
    pub proof fn lemma_valid(self)
        requires
            self.wf(),
        ensures
            self@.valid(),
            self@.textures.dom().finite(),
            self@.shaders.finite(),
            self@.vertex_buffers.finite(),
            self@.index_buffers.finite(),
            self@.materials.dom().finite(),
    {
        self.textures.lemma_finite();
        self.shaders.lemma_finite();
        self.vertex_buffers.lemma_finite();
        self.index_buffers.lemma_finite();
        self.materials.lemma_finite();
    }

    /// Empty tables.
    pub fn new() -> (assets: Self)
        ensures
            assets.wf(),
            assets@ == (AssetsView {
                texture_names: Map::empty(),
                shader_names: Map::empty(),
                dynamic_targets: Map::empty(),
                textures: Map::empty(),
                shaders: Set::empty(),
                vertex_buffers: Set::empty(),
                index_buffers: Set::empty(),
                materials: Map::empty(),
            }),
    {
        let assets = AssetManager {
            texture_assets: NameMap::new(),
            shader_assets: NameMap::new(),
            dynamic_render_targets: NameMap::new(),
            vertex_buffers: ResourceTable::new(),
            index_buffers: ResourceTable::new(),
            textures: ResourceTable::new(),
            shaders: ResourceTable::new(),
            materials: ResourceTable::new(),
        };
        assert(assets@.shaders =~= Set::empty());
        assert(assets@.vertex_buffers =~= Set::empty());
        assert(assets@.index_buffers =~= Set::empty());
        assets
    }

    /// Records the texture that was read from `path`, unless a texture is
    /// already recorded under that path, and returns the name it goes by.
    pub fn load_texture(&mut self, path: &str, info: TextureInfo) -> (name: AssetName)
        requires
            old(self).wf(),
            !old(self)@.texture_names.contains_key(path@) ==> old(self)@.textures.len()
                < SLOT_LIMIT,
        ensures
            final(self).wf(),
            name@ == path@,
            old(self)@.texture_names.contains_key(path@) ==> final(self)@ == old(self)@,
            !old(self)@.texture_names.contains_key(path@) ==> exists|handle: u64|
                !old(self)@.textures.contains_key(handle) && final(self)@ == old(
                    self,
                )@.with_texture(path@, handle, info),
    {
        let name = path.to_owned();
        if self.texture_assets.contains(&name) {
            return name;
        }
        let handle = self.textures.insert(info);
        self.texture_assets.insert(path.to_owned(), TextureKey { raw: handle });
        proof {
            assert(self@ == old(self)@.with_texture(path@, handle, info));
        }
        name
    }

    /// The handle of the texture loaded under `asset_key`.
    pub fn get_texture_key(&self, asset_key: &AssetName) -> (key: Option<TextureKey>)
        requires
            self.wf(),
        ensures
            match key {
                Some(k) => self@.texture_names.contains_key(asset_key@) && k
                    == self@.texture_names[asset_key@] && self@.textures.contains_key(k.raw),
                None => !self@.texture_names.contains_key(asset_key@),
            },
    {
        match self.texture_assets.get(asset_key) {
            Some(key) => {
                assert(self@.texture_names.contains_key(asset_key@));
                Some(*key)
            },
            None => None,
        }
    }

    /// Stores `material` and returns its handle.
    pub fn create_material(&mut self, material: Material) -> (key: MaterialKey)
        requires
            old(self).wf(),
            old(self)@.materials.len() < SLOT_LIMIT,
        ensures
            final(self).wf(),
            !old(self)@.materials.contains_key(key.raw),
            final(self)@ == (AssetsView {
                materials: old(self)@.materials.insert(key.raw, material),
                ..old(self)@
            }),
    {
        let handle = self.materials.insert(material);
        MaterialKey { raw: handle }
    }

    /// A copy of the material stored under `key`, if the handle is live.
    pub fn get_material(&self, key: MaterialKey) -> (material: Option<Material>)
        ensures
            match material {
                Some(m) => self@.materials.contains_key(key.raw) && m@
                    == self@.materials[key.raw]@,
                None => !self@.materials.contains_key(key.raw),
            },
    {
        match self.materials.get(key.raw) {
            Some(material) => Some(material.clone()),
            None => None,
        }
    }

    /// Retires `key` and hands back its material. Submissions that still
    /// refer to the handle are skipped when their frame is executed.
    pub fn remove_material(&mut self, key: MaterialKey) -> (material: Option<Material>)
        requires
            old(self).wf(),
        ensures
            final(self).wf(),
            final(self)@ == (AssetsView {
                materials: old(self)@.materials.remove(key.raw),
                ..old(self)@
            }),
            match material {
                Some(m) => old(self)@.materials.contains_key(key.raw) && m
                    == old(self)@.materials[key.raw],
                None => !old(self)@.materials.contains_key(key.raw),
            },
    {
        self.materials.remove(key.raw)
    }

    /// Records a shader under `name`, unless one is already recorded under
    /// that name, and returns its handle.
    pub fn create_shader(&mut self, name: &str) -> (key: ShaderKey)
        requires
            old(self).wf(),
            !old(self)@.shader_names.contains_key(name@) ==> old(self)@.shaders.len() < SLOT_LIMIT,
        ensures
            final(self).wf(),
            final(self)@.shader_names.contains_key(name@),
            final(self)@.shader_names[name@] == key,
            old(self)@.shader_names.contains_key(name@) ==> final(self)@ == old(self)@,
            !old(self)@.shader_names.contains_key(name@) ==> !old(self)@.shaders.contains(key.raw)
                && final(self)@ == old(self)@.with_shader(name@, key.raw),
    {
        let owned = name.to_owned();
        match self.shader_assets.get(&owned) {
            Some(key) => {
                return *key;
            },
            None => {},
        }
        let handle = self.shaders.insert(());
        self.shader_assets.insert(owned, ShaderKey { raw: handle });
        proof {
            assert(self@.shaders =~= old(self)@.shaders.insert(handle));
            assert(self@ == old(self)@.with_shader(name@, handle));
        }
        ShaderKey { raw: handle }
    }

    /// The handle of the shader recorded under `name`.
    pub fn get_shader_key(&self, name: &str) -> (key: Option<ShaderKey>)
        requires
            self.wf(),
        ensures
            match key {
                Some(k) => self@.shader_names.contains_key(name@) && k == self@.shader_names[name@]
                    && self@.shaders.contains(k.raw),
                None => !self@.shader_names.contains_key(name@),
            },
    {
        let owned = name.to_owned();
        match self.shader_assets.get(&owned) {
            Some(key) => {
                assert(self@.shader_names.contains_key(name@));
                Some(*key)
            },
            None => None,
        }
    }

    /// Records a vertex buffer and returns its handle.
    pub fn create_vertex_buffer(&mut self) -> (key: VertexBufferKey)
        requires
            old(self).wf(),
            old(self)@.vertex_buffers.len() < SLOT_LIMIT,
        ensures
            final(self).wf(),
            !old(self)@.vertex_buffers.contains(key.raw),
            final(self)@ == (AssetsView {
                vertex_buffers: old(self)@.vertex_buffers.insert(key.raw),
                ..old(self)@
            }),
    {
        let handle = self.vertex_buffers.insert(());
        proof {
            assert(self@.vertex_buffers =~= old(self)@.vertex_buffers.insert(handle));
        }
        VertexBufferKey { raw: handle }
    }

    /// Records an index buffer and returns its handle.
    pub fn create_index_buffer(&mut self) -> (key: IndexBufferKey)
        requires
            old(self).wf(),
            old(self)@.index_buffers.len() < SLOT_LIMIT,
        ensures
            final(self).wf(),
            !old(self)@.index_buffers.contains(key.raw),
            final(self)@ == (AssetsView {
                index_buffers: old(self)@.index_buffers.insert(key.raw),
                ..old(self)@
            }),
    {
        let handle = self.index_buffers.insert(());
        proof {
            assert(self@.index_buffers =~= old(self)@.index_buffers.insert(handle));
        }
        IndexBufferKey { raw: handle }
    }

    /// The offscreen target cached under `name`.
    pub fn get_dynamic_render_target(&self, name: &str) -> (target: Option<RenderTargetKey>)
        requires
            self.wf(),
        ensures
            match target {
                Some(key) => self@.dynamic_targets.contains_key(name@) && key
                    == self@.dynamic_targets[name@],
                None => !self@.dynamic_targets.contains_key(name@),
            },
    {
        let owned = name.to_owned();
        match self.dynamic_render_targets.get(&owned) {
            Some(key) => Some(*key),
            None => None,
        }
    }

    /// The offscreen target cached under `name`; where there is none yet, a
    /// new texture of `size` is recorded and cached under `name`.
    pub fn create_dynamic_render_target(&mut self, size: (u32, u32), name: &str) -> (target:
        RenderTargetKey)
        requires
            old(self).wf(),
            !old(self)@.dynamic_targets.contains_key(name@) ==> old(self)@.textures.len()
                < SLOT_LIMIT,
        ensures
            final(self).wf(),
            dynamic_target_created(old(self)@, size, name@, final(self)@, target),
    {
        let owned = name.to_owned();
        match self.dynamic_render_targets.get(&owned) {
            Some(existing) => {
                return *existing;
            },
            None => {},
        }
        let info = TextureInfo { width: size.0, height: size.1 };
        let handle = self.textures.insert(info);
        let target = RenderTargetKey::Texture(TextureKey { raw: handle });
        self.dynamic_render_targets.insert(owned, target);
        proof {
            assert(self@ == old(self)@.with_dynamic_target(name@, handle, info));
            assert(!old(self)@.textures.contains_key(handle));
        }
        target
    }

    /// Whether every handle that `material` refers to is live.
    fn material_resolves(&self, material: &Material) -> (live: bool)
        ensures
            live == self@.material_resolves(*material),
    {
        if !self.shaders.contains(material.shader.raw) {
            return false;
        }
        let mut i: usize = 0;
        while i < material.textures.len()
            invariant
                i <= material.textures@.len(),
                forall|k: int|
                    0 <= k < i ==> self@.textures.contains_key(
                        (#[trigger] material.textures@[k]).raw,
                    ),
            decreases material.textures@.len() - i,
        {
            if !self.textures.contains(material.textures[i].raw) {
                return false;
            }
            i += 1;
        }
        true
    }

    /// Whether a submission of `material` with `mapping` can be drawn.
    pub fn is_live(&self, material: MaterialKey, mapping: &Mapping) -> (live: bool)
        ensures
            live == self@.submission_live(material, *mapping),
    {
        let resolved = match self.materials.get(material.raw) {
            Some(m) => self.material_resolves(m),
            None => false,
        };
        if !resolved {
            return false;
        }
        match mapping {
            Mapping::Sprite { .. } => true,
            Mapping::Mesh { vertex_buffer, index_buffer, .. } => {
                self.vertex_buffers.contains(vertex_buffer.raw) && self.index_buffers.contains(
                    index_buffer.raw,
                )
            },
        }
    }

    /// Whether one more resource of `kind` can be stored.
    pub fn has_room(&self, kind: ResourceKind) -> (room: bool)
        ensures
            room == (self@.count(kind) < SLOT_LIMIT),
    {
        match kind {
            ResourceKind::Texture => !self.textures.is_full(),
            ResourceKind::Shader => !self.shaders.is_full(),
            ResourceKind::Material => !self.materials.is_full(),
            ResourceKind::VertexBuffer => !self.vertex_buffers.is_full(),
            ResourceKind::IndexBuffer => !self.index_buffers.is_full(),
        }
    }

    /// Whether `key` is a live shader.
    pub fn has_shader(&self, key: ShaderKey) -> (live: bool)
        ensures
            live == self@.shaders.contains(key.raw),
    {
        self.shaders.contains(key.raw)
    }

    /// Whether `key` is a live texture.
    pub fn has_texture(&self, key: TextureKey) -> (live: bool)
        ensures
            live == self@.textures.contains_key(key.raw),
    {
        self.textures.contains(key.raw)
    }
}

} // verus!
