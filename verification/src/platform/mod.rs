pub mod buffer;
pub mod event;
pub mod format;
pub mod frame_tracker;
pub mod input;
pub mod program;
pub mod window;

pub use buffer::{vertex_attributes, BufferElement, BufferLayout, BufferUsage, VertexAttribute};
pub use event::{KeyCode, KeyboardEvent, MouseButton, WindowEvent};
pub use format::Format;
pub use frame_tracker::{pace, Pace};
pub use input::{Keyboard, MouseButtons, State};
pub use program::{ScalarKind, ShaderDataType, ShaderSource};
pub use window::{WindowAttributes, WindowPosition, WindowSize};
