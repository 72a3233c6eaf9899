//! Runtime support for rendering HTML documents: an escaper for text content,
//! byte sinks, and the `Render` / `RenderAttributeValue` capabilities that every
//! renderable value provides.
pub mod deferred;
pub mod error;
pub mod escape;
pub mod raw;
pub mod render;
pub mod sink;

pub use deferred::{new, DynRender};
pub use error::RenderError;
pub use escape::{escape, escaped, Escape};
pub use raw::{doctype, raw_bytes, raw_disp, Raw, RawBytes};
pub use render::{Render, RenderAttributeValue};
pub use sink::{Limited, Sink};
