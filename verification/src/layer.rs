//! Layers and the errors the registry reports.
//!
//! A layer is either a base layer (base layers are mutually exclusive: at most
//! one is visible at a time) or an overlay (independently toggleable, drawn
//! above base layers in z-index order). The engine never inspects a layer's
//! render payload; it only stores and returns the opaque handle.

use vstd::prelude::*;

verus! {

/// The two kinds of layer. Base layers are mutually exclusive; overlays are
/// independently visible and ordered by z-index.
#[derive(Clone, Copy, PartialEq, Eq, Structural, Debug)]
pub enum LayerKind {
    Base,
    Overlay,
}

/// Every error the registry can report. All are local and recoverable: an
/// operation that fails leaves the registry exactly as it was.
#[derive(Clone, Copy, PartialEq, Eq, Structural, Debug)]
pub enum RegistryError {
    /// The name is already taken in that kind's namespace.
    DuplicateName,
    /// No layer with that id exists (or, for an overlay operation, the id does
    /// not belong to an overlay).
    UnknownLayer,
    /// No layer with that name exists in that kind's namespace.
    UnknownName,
    /// A mutating call was made while a change notification was being
    /// delivered.
    ReentrantMutation,
}

/// The mathematical value of a layer: what contracts speak of.
#[verifier::ext_equal]
pub ghost struct LayerModel {
    pub id: u64,
    pub name: Seq<char>,
    pub kind: LayerKind,
    pub visible: bool,
    pub z_index: u64,
    pub payload: u64,
}

/// A map layer. `payload` is an opaque handle owned by the external renderer;
/// the engine stores and returns it untouched. `z_index` is meaningful for
/// overlays only (base layers need no ordering among themselves).
#[derive(Debug)]
pub struct Layer {
    pub id: u64,
    pub name: String,
    pub kind: LayerKind,
    pub visible: bool,
    pub z_index: u64,
    pub payload: u64,
}

impl View for Layer {
    type V = LayerModel;

    open spec fn view(&self) -> LayerModel {
        LayerModel {
            id: self.id,
            name: self.name@,
            kind: self.kind,
            visible: self.visible,
            z_index: self.z_index,
            payload: self.payload,
        }
    }
}

impl Clone for Layer {
    fn clone(&self) -> (r: Self)
        ensures
            r == *self,
    {
        Layer {
            id: self.id,
            name: self.name.clone(),
            kind: self.kind,
            visible: self.visible,
            z_index: self.z_index,
            payload: self.payload,
        }
    }
}

} // verus!
