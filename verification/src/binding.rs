//! The UI-facing control binding.
//!
//! A binding is a thin façade a layer-switcher control works through: each
//! operation translates to exactly one engine mutation (plus read-only
//! lookups), errors surface unchanged, and nothing is ever partially applied.
//! The binding's own state is a single presentation flag — the expanded or
//! collapsed display mode — which has no effect on layer semantics. Bindings
//! do not own the engine: every call borrows it, so any number of bindings
//! can drive one shared registry.

use vstd::prelude::*;
use crate::layer::{LayerKind, RegistryError};
use crate::model::{
    has_id, has_name, id_of_name, lemma_idx_of_name, spec_add, spec_remove, spec_set_visible,
    vis_of_id,
};
use crate::notifier::{Engine, Subscriber};

verus! {

/// A layer-switcher control's binding to an engine. Its model is its display
/// mode: true when expanded.
pub struct ControlBinding {
    expanded: bool,
}

impl View for ControlBinding {
    type V = bool;

    closed spec fn view(&self) -> bool {
        self.expanded
    }
}

impl ControlBinding {
    /// A new binding, collapsed.
    pub fn new() -> (r: ControlBinding)
        ensures
            r@ == false,
    {
        ControlBinding { expanded: false }
    }

    /// Switches the control to its expanded display mode. Purely local: no
    /// registry interaction, no layer-change notification.
    pub fn expand(&mut self)
        ensures
            final(self)@ == true,
    {
        self.expanded = true;
    }

    /// Switches the control to its collapsed display mode. Purely local.
    pub fn collapse(&mut self)
        ensures
            final(self)@ == false,
    {
        self.expanded = false;
    }

    /// The current display mode: true when expanded.
    pub fn is_expanded(&self) -> (r: bool)
        ensures
            r == self@,
    {
        self.expanded
    }

    /// Adds a base layer; one engine call, errors surface unchanged.
    pub fn add_base_layer<S: Subscriber>(
        &self,
        engine: &mut Engine<S>,
        name: String,
        payload: u64,
    ) -> (r: Result<u64, RegistryError>)
        requires
            old(engine).wf(),
            old(engine).reg().next_id < u64::MAX,
        ensures
            final(engine).wf(),
            final(engine).sub_ids() == old(engine).sub_ids(),
            has_name(old(engine).reg().bases, name@) ==> r == Err::<u64, RegistryError>(
                RegistryError::DuplicateName,
            ) && final(engine).reg() == old(engine).reg(),
            !has_name(old(engine).reg().bases, name@) ==> r == Ok::<u64, RegistryError>(
                old(engine).reg().next_id,
            ) && final(engine).reg() == spec_add(
                old(engine).reg(),
                name@,
                LayerKind::Base,
                payload,
            ),
    {
        engine.add(name, LayerKind::Base, payload)
    }

    /// Adds an overlay; one engine call, errors surface unchanged.
    pub fn add_overlay<S: Subscriber>(
        &self,
        engine: &mut Engine<S>,
        name: String,
        payload: u64,
    ) -> (r: Result<u64, RegistryError>)
        requires
            old(engine).wf(),
            old(engine).reg().next_id < u64::MAX,
        ensures
            final(engine).wf(),
            final(engine).sub_ids() == old(engine).sub_ids(),
            has_name(old(engine).reg().overlays, name@) ==> r == Err::<u64, RegistryError>(
                RegistryError::DuplicateName,
            ) && final(engine).reg() == old(engine).reg(),
            !has_name(old(engine).reg().overlays, name@) ==> r == Ok::<u64, RegistryError>(
                old(engine).reg().next_id,
            ) && final(engine).reg() == spec_add(
                old(engine).reg(),
                name@,
                LayerKind::Overlay,
                payload,
            ),
    {
        engine.add(name, LayerKind::Overlay, payload)
    }

    /// Removes a layer by id; one engine call, errors surface unchanged.
    pub fn remove_layer<S: Subscriber>(&self, engine: &mut Engine<S>, id: u64) -> (r: Result<
        (),
        RegistryError,
    >)
        requires
            old(engine).wf(),
        ensures
            final(engine).wf(),
            final(engine).sub_ids() == old(engine).sub_ids(),
            !old(engine).reg().contains_id(id) ==> r == Err::<(), RegistryError>(
                RegistryError::UnknownLayer,
            ) && final(engine).reg() == old(engine).reg(),
            old(engine).reg().contains_id(id) ==> r == Ok::<(), RegistryError>(())
                && final(engine).reg() == spec_remove(old(engine).reg(), id),
    {
        engine.remove(id)
    }

    /// Makes the base layer with the given name the sole visible base layer
    /// and returns its id. Fails with `UnknownName` if no base layer carries
    /// the name; the engine is then untouched.
    pub fn select_base<S: Subscriber>(&self, engine: &mut Engine<S>, name: &String) -> (r: Result<
        u64,
        RegistryError,
    >)
        requires
            old(engine).wf(),
        ensures
            final(engine).wf(),
            final(engine).sub_ids() == old(engine).sub_ids(),
            !has_name(old(engine).reg().bases, name@) ==> r == Err::<u64, RegistryError>(
                RegistryError::UnknownName,
            ) && final(engine).reg() == old(engine).reg(),
            has_name(old(engine).reg().bases, name@) ==> r == Ok::<u64, RegistryError>(
                id_of_name(old(engine).reg().bases, name@),
            ) && final(engine).reg() == spec_set_visible(
                old(engine).reg(),
                id_of_name(old(engine).reg().bases, name@),
                true,
            ),
    {
        match engine.resolve(name, LayerKind::Base) {
            Err(e) => Err(e),
            Ok(id) => {
                proof {
                    let ns = old(engine).reg().bases;
                    let i = choose|i: int|
                        0 <= i < ns.len() && #[trigger] ns[i].name == name@ && ns[i].id == id;
                    lemma_idx_of_name(ns, i, name@);
                    assert(has_id(ns, id));
                }
                match engine.set_visible(id, true) {
                    Ok(_) => Ok(id),
                    Err(e) => Err(e),
                }
            },
        }
    }

    /// Toggles the overlay with the given name and returns its new
    /// visibility. Fails with `UnknownName` if no overlay carries the name;
    /// the engine is then untouched.
    pub fn toggle_overlay<S: Subscriber>(&self, engine: &mut Engine<S>, name: &String) -> (r:
        Result<bool, RegistryError>)
        requires
            old(engine).wf(),
        ensures
            final(engine).wf(),
            final(engine).sub_ids() == old(engine).sub_ids(),
            !has_name(old(engine).reg().overlays, name@) ==> r == Err::<bool, RegistryError>(
                RegistryError::UnknownName,
            ) && final(engine).reg() == old(engine).reg(),
            has_name(old(engine).reg().overlays, name@) ==> r == Ok::<bool, RegistryError>(
                !vis_of_id(old(engine).reg(), id_of_name(old(engine).reg().overlays, name@)),
            ) && final(engine).reg() == spec_set_visible(
                old(engine).reg(),
                id_of_name(old(engine).reg().overlays, name@),
                !vis_of_id(old(engine).reg(), id_of_name(old(engine).reg().overlays, name@)),
            ),
    {
        match engine.resolve(name, LayerKind::Overlay) {
            Err(e) => Err(e),
            Ok(id) => {
                proof {
                    let ns = old(engine).reg().overlays;
                    let i = choose|i: int|
                        0 <= i < ns.len() && #[trigger] ns[i].name == name@ && ns[i].id == id;
                    lemma_idx_of_name(ns, i, name@);
                    assert(has_id(ns, id));
                    assert(!has_id(old(engine).reg().bases, id)) by {
                        if has_id(old(engine).reg().bases, id) {
                            let b = choose|b: int|
                                0 <= b < old(engine).reg().bases.len() && #[trigger] old(
                                    engine,
                                ).reg().bases[b].id == id;
                            assert(old(engine).reg().bases[b].id != ns[i].id);
                        }
                    }
                }
                let cur = match engine.is_visible(id) {
                    Ok(v) => v,
                    Err(e) => {
                        return Err(e);
                    },
                };
                match engine.set_visible(id, !cur) {
                    Ok(_) => Ok(!cur),
                    Err(e) => Err(e),
                }
            },
        }
    }
}

} // verus!
