//! The data model of a draw submission: what to draw, how, and where.
//!
//! Real-valued fields are carried as IEEE-754 single-precision bit patterns.
//! The scheduler never computes with them; it only stores them and hands them on.

use vstd::prelude::*;

verus! {

/// A single-precision number, held as its bit pattern.
#[derive(Clone, Copy, PartialEq, Eq, Structural, Debug)]
pub struct Scalar {
    pub bits: u32,
}

impl Scalar {
    pub fn from_bits(bits: u32) -> (s: Scalar)
        ensures
            s.bits == bits,
    {
        Scalar { bits }
    }

    pub fn to_bits(&self) -> (bits: u32)
        ensures
            bits == self.bits,
    {
        self.bits
    }
}

#[derive(Clone, Copy, PartialEq, Eq, Structural, Debug)]
pub struct Vector2 {
    pub x: Scalar,
    pub y: Scalar,
}

#[derive(Clone, Copy, PartialEq, Eq, Structural, Debug)]
pub struct Vector3 {
    pub x: Scalar,
    pub y: Scalar,
    pub z: Scalar,
}

#[derive(Clone, Copy, PartialEq, Eq, Structural, Debug)]
pub struct Vector4 {
    pub x: Scalar,
    pub y: Scalar,
    pub z: Scalar,
    pub w: Scalar,
}

/// A rotation as a quaternion: scalar part `s`, vector part `v`.
#[derive(Clone, Copy, PartialEq, Eq, Structural, Debug)]
pub struct Quaternion {
    pub s: Scalar,
    pub v: Vector3,
}

/// An axis-aligned rectangle: origin and extent.
#[derive(Clone, Copy, PartialEq, Eq, Structural, Debug)]
pub struct Rectangle {
    pub x: Scalar,
    pub y: Scalar,
    pub width: Scalar,
    pub height: Scalar,
}

#[derive(Clone, Copy, PartialEq, Eq, Structural, Debug, Hash)]
pub struct TextureKey {
    pub raw: u64,
}

#[derive(Clone, Copy, PartialEq, Eq, Structural, Debug, Hash)]
pub struct ShaderKey {
    pub raw: u64,
}

#[derive(Clone, Copy, PartialEq, Eq, Structural, Debug, Hash)]
pub struct MaterialKey {
    pub raw: u64,
}

#[derive(Clone, Copy, PartialEq, Eq, Structural, Debug, Hash)]
pub struct VertexBufferKey {
    pub raw: u64,
}

#[derive(Clone, Copy, PartialEq, Eq, Structural, Debug, Hash)]
pub struct IndexBufferKey {
    pub raw: u64,
}

#[derive(Clone, Copy, PartialEq, Eq, Structural, Debug)]
pub enum BlendMode {
    /// No blending.
    Off,
    Premultiplied,
    AlphaBlend,
    Additive,
    Multiply,
    Subtract,
}

#[derive(Clone, Copy, PartialEq, Eq, Structural, Debug)]
pub enum FaceCullMode {
    /// No culling.
    Off,
    Back,
    Front,
}

#[derive(Clone, Copy, PartialEq, Eq, Structural, Debug)]
pub enum AntiAliasing {
    /// No anti-aliasing.
    Off,
    MSAA2x,
    MSAA4x,
    MSAA8x,
    FXAA,
    SMAA,
}

#[derive(Clone, Copy, PartialEq, Eq, Structural, Debug)]
pub enum FilterMode {
    Nearest,
    Linear,
}

#[derive(Clone, Copy, PartialEq, Eq, Structural, Debug)]
pub enum WrapMode {
    Repeat,
    MirroredRepeat,
    Clamp,
}

/// How a surface is shaded: its textures, shader and fixed-function state.
#[derive(PartialEq, Eq, Debug)]
pub struct Material {
    pub textures: Vec<TextureKey>,
    pub shader: ShaderKey,
    pub blend_mode: BlendMode,
    pub cull_mode: FaceCullMode,
    pub filter_mode: FilterMode,
    /// Horizontal, then vertical.
    pub wrap_mode: (WrapMode, WrapMode),
}

/// A [`Material`] as a mathematical value.
pub struct MaterialView {
    pub textures: Seq<TextureKey>,
    pub shader: ShaderKey,
    pub blend_mode: BlendMode,
    pub cull_mode: FaceCullMode,
    pub filter_mode: FilterMode,
    pub wrap_mode: (WrapMode, WrapMode),
}

impl View for Material {
    type V = MaterialView;

    open spec fn view(&self) -> MaterialView {
        MaterialView {
            textures: self.textures@,
            shader: self.shader,
            blend_mode: self.blend_mode,
            cull_mode: self.cull_mode,
            filter_mode: self.filter_mode,
            wrap_mode: self.wrap_mode,
        }
    }
}

impl Clone for Material {
    /// A copy with the same view.
    fn clone(&self) -> (copy: Material)
        ensures
            copy@ == self@,
    {
        let mut textures: Vec<TextureKey> = Vec::new();
        let mut i: usize = 0;
        while i < self.textures.len()
            invariant
                i <= self.textures@.len(),
                textures@ == self.textures@.take(i as int),
            decreases self.textures@.len() - i,
        {
            textures.push(self.textures[i]);
            assert(self.textures@.take(i as int).push(self.textures@[i as int])
                =~= self.textures@.take(i + 1));
            i += 1;
        }
        assert(self.textures@.take(i as int) =~= self.textures@);
        Material {
            textures,
            shader: self.shader,
            blend_mode: self.blend_mode,
            cull_mode: self.cull_mode,
            filter_mode: self.filter_mode,
            wrap_mode: self.wrap_mode,
        }
    }
}

/// What geometry to draw.
#[derive(Clone, Copy, PartialEq, Eq, Structural, Debug)]
pub enum Mapping {
    /// A textured quad, cut out of the texture by a UV rectangle.
    Sprite { uv_rect: Rectangle },
    /// An indexed mesh.
    Mesh {
        vertex_buffer: VertexBufferKey,
        index_buffer: IndexBufferKey,
        vertex_count: u32,
        index_count: u32,
    },
}

/// Where to draw it.
#[allow(inconsistent_fields)]
#[derive(Clone, Copy, PartialEq, Eq, Structural, Debug)]
pub enum Transform {
    Sprite { position: Vector2, rotation: Scalar, scale: Vector2, z_order: Scalar },
    Mesh { position: Vector3, rotation: Quaternion, scale: Vector3 },
}

impl Transform {
    /// The depth of a transform: `z_order` of a sprite, the z component of a
    /// mesh's position.
    pub open spec fn spec_depth(self) -> Scalar {
        match self {
            Transform::Sprite { z_order, .. } => z_order,
            Transform::Mesh { position, .. } => position.z,
        }
    }

    pub fn depth(&self) -> (d: Scalar)
        ensures
            d == self.spec_depth(),
    {
        match self {
            Transform::Sprite { z_order, .. } => *z_order,
            Transform::Mesh { position, .. } => position.z,
        }
    }

    /// Whether this transform is of the kind that `mapping` calls for: a sprite
    /// transform for a sprite, a mesh transform for a mesh.
    pub open spec fn spec_matches(self, mapping: Mapping) -> bool {
        (self is Sprite && mapping is Sprite) || (self is Mesh && mapping is Mesh)
    }

    pub fn matches(&self, mapping: &Mapping) -> (same: bool)
        ensures
            same == self.spec_matches(*mapping),
    {
        match (self, mapping) {
            (Transform::Sprite { .. }, Mapping::Sprite { .. }) => true,
            (Transform::Mesh { .. }, Mapping::Mesh { .. }) => true,
            _ => false,
        }
    }
}

/// Per-submission shader inputs.
#[derive(Clone, PartialEq, Eq, Debug)]
pub struct MaterialUniforms {
    pub tint: Vector4,
    /// Shader-specific parameters.
    pub custom_params: Vec<Scalar>,
}

/// Where a pass renders to.
#[derive(Clone, Copy, PartialEq, Eq, Structural, Debug)]
pub enum RenderTargetKey {
    /// The presented surface.
    Screen,
    /// An offscreen texture.
    Texture(TextureKey),
}

} // verus!
