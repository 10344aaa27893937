//! A layer composition engine: an ordered collection of map layers (mutually
//! exclusive base layers and independently toggleable overlays), a name index,
//! a UI-facing control binding, and a synchronous change notifier.

pub mod layer;
pub mod model;
pub mod registry;
pub mod notifier;
pub mod binding;
pub mod laws;

pub use layer::{Layer, LayerKind, RegistryError};
pub use registry::{Config, OverlayOrder, Registry};
pub use notifier::{Engine, Subscriber};
pub use binding::ControlBinding;
