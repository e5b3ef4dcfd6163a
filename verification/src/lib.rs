//! Frame-rendering core of a small real-time graphics engine: resource
//! tables addressed by generational handles, a declarative render schedule,
//! and a per-frame draw queue that is turned into an ordered frame plan.
//! Beside it, the input state of a window and its key bindings.

pub mod appstate;
pub mod assets;
pub mod input;
pub mod laws;
pub mod model;
pub mod names;
pub mod plan;
pub mod render;
pub mod schedule;
pub mod screen;
pub mod slots;
pub mod table;

pub use appstate::AppState;
pub use assets::{AssetManager, AssetName, ResourceKind, TextureInfo};
pub use input::{
    Button, ButtonState, InputEvent, InputManager, Keybind, KeybindKey, MouseButton, PenAxis,
    PenState,
};
pub use model::{
    AntiAliasing, BlendMode, FaceCullMode, FilterMode, IndexBufferKey, Mapping, Material,
    MaterialKey, MaterialUniforms, Quaternion, Rectangle, RenderTargetKey, Scalar, ShaderKey,
    TextureKey, Transform, Vector2, Vector3, Vector4, VertexBufferKey, WrapMode,
};
pub use plan::FrameStep;
pub use render::{QueueError, RenderQueue, Renderer};
pub use schedule::{
    RenderPassName, RenderSchedule, RenderTargetName, ScheduleError, ScheduleStep,
};
pub use screen::{Screen, ScreenKey, ScreenManager};
pub use table::ResourceTable;
