//! The layer registry: the owning container of all layers.
//!
//! The registry validates and applies every mutation; names are unique per
//! kind namespace, ids are allocated once and never reused, at most one base
//! layer is visible at a time, and overlays are kept in the configured order.
//! A mutating call made while a change notification is being delivered is
//! rejected with `ReentrantMutation` before anything is touched.

use vstd::prelude::*;
use crate::layer::{Layer, LayerKind, LayerModel, RegistryError};
use crate::model::{
    has_id, has_name, idx_of_id, lmodels, lemma_add_wf, lemma_filter_push, lemma_idx_of_id,
    lemma_remove_wf, lemma_rename_wf, lemma_reorder_wf, lemma_set_visible_wf, max_overlay_z,
    lemma_z_split_is, rename_conflict, rename_in, set_vis_base, set_vis_overlay, spec_add,
    spec_remove, spec_rename, spec_reorder, spec_set_visible, vis_of_id, vis_pred, visible_layers,
    witness_z_split, z_split, RegistryModel,
};

verus! {

/// How `snapshot` orders overlays.
#[derive(Clone, Copy, PartialEq, Eq, Structural, Debug)]
pub enum OverlayOrder {
    /// Overlays appear in the order they were inserted; z-index is stored but
    /// does not affect ordering.
    InsertionOrder,
    /// Overlays appear in ascending z-index order; equal z-indexes keep the
    /// order of the most recent (re)insertion.
    ZIndexThenInsertion,
}

/// Engine-construction options.
#[derive(Clone, Copy, PartialEq, Eq, Structural, Debug)]
pub struct Config {
    /// When false, the first base layer ever added is forced visible, so a
    /// non-empty base set is never entirely hidden by default.
    pub allow_empty_base: bool,
    /// How overlays are ordered in snapshots.
    pub overlay_order: OverlayOrder,
}

impl Default for Config {
    /// The stated defaults: the first base layer becomes visible, and
    /// overlays are sorted by z-index with insertion order breaking ties.
    fn default() -> (r: Self)
        ensures
            !r.allow_empty_base,
            r.overlay_order == OverlayOrder::ZIndexThenInsertion,
    {
        Config { allow_empty_base: false, overlay_order: OverlayOrder::ZIndexThenInsertion }
    }
}

/// The owning container mapping ids and names to layers. Its mathematical
/// value is a `RegistryModel`; every operation's contract is stated over it.
pub struct Registry {
    bases: Vec<Layer>,
    overlays: Vec<Layer>,
    next_id: u64,
    had_base: bool,
    notifying: bool,
    config: Config,
}

impl View for Registry {
    type V = RegistryModel;

    closed spec fn view(&self) -> RegistryModel {
        RegistryModel {
            bases: lmodels(self.bases@),
            overlays: lmodels(self.overlays@),
            next_id: self.next_id,
            had_base: self.had_base,
            notifying: self.notifying,
            allow_empty_base: self.config.allow_empty_base,
            z_ordered: self.config.overlay_order == OverlayOrder::ZIndexThenInsertion,
        }
    }
}

impl Registry {
    /// An empty registry with the default configuration.
    pub fn new() -> (r: Registry)
        ensures
            r@ == (RegistryModel {
                bases: Seq::empty(),
                overlays: Seq::empty(),
                next_id: 0,
                had_base: false,
                notifying: false,
                allow_empty_base: false,
                z_ordered: true,
            }),
            r@.wf(),
    {
        Self::new_with_options(Config::default())
    }

    /// An empty registry with the given configuration.
    pub fn new_with_options(config: Config) -> (r: Registry)
        ensures
            r@ == (RegistryModel {
                bases: Seq::empty(),
                overlays: Seq::empty(),
                next_id: 0,
                had_base: false,
                notifying: false,
                allow_empty_base: config.allow_empty_base,
                z_ordered: config.overlay_order == OverlayOrder::ZIndexThenInsertion,
            }),
            r@.wf(),
    {
        let r = Registry {
            bases: Vec::new(),
            overlays: Vec::new(),
            next_id: 0,
            had_base: false,
            notifying: false,
            config,
        };
        proof {
            assert(lmodels(r.bases@) =~= Seq::<LayerModel>::empty());
            assert(lmodels(r.overlays@) =~= Seq::<LayerModel>::empty());
        }
        r
    }

    /// The next id `add` will allocate. Ids count up from zero and are never
    /// reused, so this also says how many layers were ever added.
    pub fn allocated_ids(&self) -> (r: u64)
        ensures
            r == self@.next_id,
    {
        self.next_id
    }

    /// The index of the layer with `id`, scanning one kind's vector.
    fn find_id(v: &Vec<Layer>, id: u64) -> (r: Option<usize>)
        ensures
            match r {
                Some(i) => i < v.len() && lmodels(v@)[i as int].id == id,
                None => !has_id(lmodels(v@), id),
            },
    {
        let mut i: usize = 0;
        while i < v.len()
            invariant
                i <= v.len(),
                forall|k: int| 0 <= k < i ==> lmodels(v@)[k].id != id,
            decreases v.len() - i,
        {
            if v[i].id == id {
                return Some(i);
            }
            i += 1;
        }
        None
    }

    /// The index of the layer named `name`, scanning one kind's vector.
    fn find_name(v: &Vec<Layer>, name: &String) -> (r: Option<usize>)
        ensures
            match r {
                Some(i) => i < v.len() && lmodels(v@)[i as int].name == name@,
                None => !has_name(lmodels(v@), name@),
            },
    {
        let mut i: usize = 0;
        while i < v.len()
            invariant
                i <= v.len(),
                forall|k: int| 0 <= k < i ==> lmodels(v@)[k].name != name@,
            decreases v.len() - i,
        {
            if v[i].name == *name {
                return Some(i);
            }
            i += 1;
        }
        None
    }

    /// The largest z-index currently assigned to an overlay, zero when there
    /// are none.
    fn max_z(&self) -> (r: u64)
        ensures
            r == max_overlay_z(lmodels(self.overlays@)),
    {
        let ghost om = lmodels(self.overlays@);
        let mut m: u64 = 0;
        let mut i: usize = 0;
        while i < self.overlays.len()
            invariant
                i <= self.overlays.len(),
                om == lmodels(self.overlays@),
                m == max_overlay_z(om.take(i as int)),
            decreases self.overlays.len() - i,
        {
            let z = self.overlays[i].z_index;
            proof {
                assert(om.take(i + 1).drop_last() =~= om.take(i as int));
                assert(om.take(i + 1).last() == om[i as int]);
                assert(om[i as int].z_index == z);
            }
            if z > m {
                m = z;
            }
            i += 1;
        }
        proof {
            assert(om.take(self.overlays.len() as int) =~= om);
        }
        m
    }

    /// Adds a layer and returns its id.
    ///
    /// Fails with `ReentrantMutation` during notification delivery and with
    /// `DuplicateName` if `name` is already taken in `kind`'s namespace; a
    /// failed call leaves the registry unchanged. On success the layer gets
    /// the next id; a base layer is forced visible exactly when it is the
    /// first base layer ever added and the configuration does not allow an
    /// empty base set, every other new layer starts hidden; a new overlay's
    /// z-index is one above the current maximum.
    pub fn add(&mut self, name: String, kind: LayerKind, payload: u64) -> (r: Result<
        u64,
        RegistryError,
    >)
        requires
            old(self)@.wf(),
            old(self)@.next_id < u64::MAX,
        ensures
            final(self)@.wf(),
            old(self)@.notifying ==> r == Err::<u64, RegistryError>(
                RegistryError::ReentrantMutation,
            ) && final(self)@ == old(self)@,
            !old(self)@.notifying && has_name(old(self)@.namespace(kind), name@) ==> r
                == Err::<u64, RegistryError>(RegistryError::DuplicateName) && final(self)@ == old(
                self,
            )@,
            !old(self)@.notifying && !has_name(old(self)@.namespace(kind), name@) ==> r
                == Ok::<u64, RegistryError>(old(self)@.next_id) && final(self)@ == spec_add(
                old(self)@,
                name@,
                kind,
                payload,
            ),
    {
        if self.notifying {
            return Err(RegistryError::ReentrantMutation);
        }
        let ghost nm: Seq<char> = name@;
        let dup = match kind {
            LayerKind::Base => Self::find_name(&self.bases, &name),
            LayerKind::Overlay => Self::find_name(&self.overlays, &name),
        };
        if dup.is_some() {
            return Err(RegistryError::DuplicateName);
        }
        let id = self.next_id;
        self.next_id = id + 1;
        match kind {
            LayerKind::Base => {
                let visible = !self.config.allow_empty_base && !self.had_base;
                self.had_base = true;
                self.bases.push(Layer { id, name, kind, visible, z_index: 0, payload });
                proof {
                    assert(lmodels(self.bases@) =~= lmodels(old(self).bases@).push(
                        LayerModel {
                            id,
                            name: nm,
                            kind,
                            visible: !old(self)@.allow_empty_base && !old(self)@.had_base,
                            z_index: 0,
                            payload,
                        },
                    ));
                    assert(self@ =~= spec_add(old(self)@, nm, kind, payload));
                    lemma_add_wf(old(self)@, nm, kind, payload);
                }
                Ok(id)
            },
            LayerKind::Overlay => {
                let m = self.max_z();
                let z = if m == u64::MAX {
                    u64::MAX
                } else {
                    m + 1
                };
                self.overlays.push(Layer { id, name, kind, visible: false, z_index: z, payload });
                proof {
                    assert(lmodels(self.overlays@) =~= lmodels(old(self).overlays@).push(
                        LayerModel {
                            id,
                            name: nm,
                            kind,
                            visible: false,
                            z_index: z,
                            payload,
                        },
                    ));
                    assert(self@ =~= spec_add(old(self)@, nm, kind, payload));
                    lemma_add_wf(old(self)@, nm, kind, payload);
                }
                Ok(id)
            },
        }
    }

    /// Removes the layer with `id`.
    ///
    /// Fails with `ReentrantMutation` during notification delivery and with
    /// `UnknownLayer` if no layer has that id; a failed call leaves the
    /// registry unchanged. Removing the visible base layer selects no
    /// replacement: the caller must set a new one.
    pub fn remove(&mut self, id: u64) -> (r: Result<(), RegistryError>)
        requires
            old(self)@.wf(),
        ensures
            final(self)@.wf(),
            old(self)@.notifying ==> r == Err::<(), RegistryError>(
                RegistryError::ReentrantMutation,
            ) && final(self)@ == old(self)@,
            !old(self)@.notifying && !old(self)@.contains_id(id) ==> r == Err::<
                (),
                RegistryError,
            >(RegistryError::UnknownLayer) && final(self)@ == old(self)@,
            !old(self)@.notifying && old(self)@.contains_id(id) ==> r == Ok::<(), RegistryError>(
                (),
            ) && final(self)@ == spec_remove(old(self)@, id),
    {
        if self.notifying {
            return Err(RegistryError::ReentrantMutation);
        }
        match Self::find_id(&self.bases, id) {
            Some(i) => {
                proof {
                    lemma_idx_of_id(lmodels(self.bases@), i as int, id);
                }
                self.bases.remove(i);
                proof {
                    assert(lmodels(self.bases@) =~= lmodels(old(self).bases@).remove(
                        idx_of_id(lmodels(old(self).bases@), id),
                    ));
                    assert(self@ =~= spec_remove(old(self)@, id));
                    lemma_remove_wf(old(self)@, id);
                }
                Ok(())
            },
            None => {
                match Self::find_id(&self.overlays, id) {
                    Some(i) => {
                        proof {
                            lemma_idx_of_id(lmodels(self.overlays@), i as int, id);
                        }
                        self.overlays.remove(i);
                        proof {
                            assert(lmodels(self.overlays@) =~= lmodels(old(self).overlays@).remove(
                                idx_of_id(lmodels(old(self).overlays@), id),
                            ));
                            assert(self@ =~= spec_remove(old(self)@, id));
                            lemma_remove_wf(old(self)@, id);
                        }
                        Ok(())
                    },
                    None => Err(RegistryError::UnknownLayer),
                }
            },
        }
    }

    /// Sets a layer's visibility.
    ///
    /// For a base layer, setting it visible makes it the sole visible base
    /// layer in one atomic step: the previously visible one is demoted in the
    /// same call, so no intermediate state is ever observable. For an overlay
    /// the flag toggles independently. Fails with `ReentrantMutation` during
    /// notification delivery and with `UnknownLayer` if no layer has the id;
    /// a failed call leaves the registry unchanged.
    pub fn set_visible(&mut self, id: u64, visible: bool) -> (r: Result<(), RegistryError>)
        requires
            old(self)@.wf(),
        ensures
            final(self)@.wf(),
            old(self)@.notifying ==> r == Err::<(), RegistryError>(
                RegistryError::ReentrantMutation,
            ) && final(self)@ == old(self)@,
            !old(self)@.notifying && !old(self)@.contains_id(id) ==> r == Err::<
                (),
                RegistryError,
            >(RegistryError::UnknownLayer) && final(self)@ == old(self)@,
            !old(self)@.notifying && old(self)@.contains_id(id) ==> r == Ok::<(), RegistryError>(
                (),
            ) && final(self)@ == spec_set_visible(old(self)@, id, visible),
    {
        if self.notifying {
            return Err(RegistryError::ReentrantMutation);
        }
        match Self::find_id(&self.bases, id) {
            Some(_) => {
                let n = self.bases.len();
                let mut k: usize = 0;
                while k < n
                    invariant
                        k <= n,
                        n == self.bases.len(),
                        n == old(self).bases@.len(),
                        self.overlays == old(self).overlays,
                        self.next_id == old(self).next_id,
                        self.had_base == old(self).had_base,
                        self.notifying == old(self).notifying,
                        self.config == old(self).config,
                        forall|t: int|
                            0 <= t < k ==> lmodels(self.bases@)[t] == set_vis_base(
                                lmodels(old(self).bases@),
                                id,
                                visible,
                            )[t],
                        forall|t: int| k <= t < n ==> self.bases@[t] == old(self).bases@[t],
                    decreases n - k,
                {
                    let target = self.bases[k].id == id;
                    let newvis = if target {
                        visible
                    } else {
                        self.bases[k].visible && !visible
                    };
                    let mut l = self.bases[k].clone();
                    l.visible = newvis;
                    let ghost prevb = self.bases@;
                    self.bases[k] = l;
                    proof {
                        assert(self.bases@ =~= prevb.update(k as int, l));
                        assert forall|t: int| 0 <= t < k + 1 implies lmodels(self.bases@)[t]
                            == set_vis_base(lmodels(old(self).bases@), id, visible)[t] by {
                            if t < k {
                                assert(lmodels(self.bases@)[t] == lmodels(prevb)[t]);
                            } else {
                                let om = lmodels(old(self).bases@)[t];
                                assert(prevb[t] == old(self).bases@[t]);
                                assert(self.bases@[t] == l);
                                assert(lmodels(self.bases@)[t] == l@);
                                assert(om == prevb[t]@);
                                if om.id == id {
                                    assert(l@ =~= (LayerModel { visible: visible, ..om }));
                                } else {
                                    assert(l@ =~= (LayerModel {
                                        visible: om.visible && !visible,
                                        ..om
                                    }));
                                }
                            }
                        }
                    }
                    k += 1;
                }
                proof {
                    assert(lmodels(self.bases@) =~= set_vis_base(
                        lmodels(old(self).bases@),
                        id,
                        visible,
                    ));
                    assert(self@ =~= spec_set_visible(old(self)@, id, visible));
                    lemma_set_visible_wf(old(self)@, id, visible);
                }
                Ok(())
            },
            None => {
                match Self::find_id(&self.overlays, id) {
                    Some(i) => {
                        let mut l = self.overlays[i].clone();
                        l.visible = visible;
                        self.overlays[i] = l;
                        proof {
                            assert forall|t: int|
                                0 <= t < lmodels(self.overlays@).len() implies lmodels(
                                self.overlays@,
                            )[t] == set_vis_overlay(lmodels(old(self).overlays@), id, visible)[t] by {
                                if t != i as int {
                                    assert(lmodels(old(self).overlays@)[t].id != id);
                                }
                            }
                            assert(lmodels(self.overlays@) =~= set_vis_overlay(
                                lmodels(old(self).overlays@),
                                id,
                                visible,
                            ));
                            assert(self@ =~= spec_set_visible(old(self)@, id, visible));
                            lemma_set_visible_wf(old(self)@, id, visible);
                        }
                        Ok(())
                    },
                    None => Err(RegistryError::UnknownLayer),
                }
            },
        }
    }

    /// Moves an overlay to z-index `new_z`.
    ///
    /// Under z-index ordering the overlay is taken out and reinserted after
    /// every overlay whose z-index is at most `new_z`, so among equal
    /// z-indexes the most recently reordered layer comes last and untouched
    /// overlays keep their relative order; under insertion ordering only the
    /// stored z-index changes. Fails with `ReentrantMutation` during
    /// notification delivery and with `UnknownLayer` if the id does not name
    /// an overlay (base layers have no z-order); a failed call leaves the
    /// registry unchanged.
    pub fn reorder_overlay(&mut self, id: u64, new_z: u64) -> (r: Result<(), RegistryError>)
        requires
            old(self)@.wf(),
        ensures
            final(self)@.wf(),
            old(self)@.notifying ==> r == Err::<(), RegistryError>(
                RegistryError::ReentrantMutation,
            ) && final(self)@ == old(self)@,
            !old(self)@.notifying && !has_id(old(self)@.overlays, id) ==> r == Err::<
                (),
                RegistryError,
            >(RegistryError::UnknownLayer) && final(self)@ == old(self)@,
            !old(self)@.notifying && has_id(old(self)@.overlays, id) ==> r == Ok::<
                (),
                RegistryError,
            >(()) && final(self)@ == spec_reorder(old(self)@, id, new_z),
    {
        if self.notifying {
            return Err(RegistryError::ReentrantMutation);
        }
        match Self::find_id(&self.overlays, id) {
            None => Err(RegistryError::UnknownLayer),
            Some(i) => {
                proof {
                    lemma_idx_of_id(lmodels(self.overlays@), i as int, id);
                }
                if self.config.overlay_order == OverlayOrder::ZIndexThenInsertion {
                    let mut l = self.overlays.remove(i);
                    l.z_index = new_z;
                    let ghost rest = lmodels(old(self).overlays@).remove(i as int);
                    proof {
                        assert(lmodels(self.overlays@) =~= rest);
                    }
                    let n = self.overlays.len();
                    let mut p: usize = 0;
                    while p < n && self.overlays[p].z_index <= new_z
                        invariant
                            p <= n,
                            n == self.overlays.len(),
                            rest == lmodels(self.overlays@),
                            forall|t: int| 0 <= t < p ==> #[trigger] rest[t].z_index <= new_z,
                        decreases n - p,
                    {
                        p += 1;
                    }
                    proof {
                        assert forall|t: int| p <= t < n implies #[trigger] rest[t].z_index
                            > new_z by {
                            assert(rest[p as int].z_index > new_z);
                            if t > p {
                                assert(rest[p as int].z_index <= rest[t].z_index);
                            }
                        }
                        assert(witness_z_split(rest, new_z, p as int));
                        lemma_z_split_is(rest, new_z, p as int);
                    }
                    self.overlays.insert(p, l);
                    proof {
                        assert(lmodels(self.overlays@) =~= rest.insert(
                            z_split(rest, new_z),
                            LayerModel {
                                z_index: new_z,
                                ..lmodels(old(self).overlays@)[i as int]
                            },
                        ));
                        assert(self@ =~= spec_reorder(old(self)@, id, new_z));
                        lemma_reorder_wf(old(self)@, id, new_z);
                    }
                    Ok(())
                } else {
                    let mut l = self.overlays[i].clone();
                    l.z_index = new_z;
                    self.overlays[i] = l;
                    proof {
                        assert forall|t: int|
                            0 <= t < lmodels(self.overlays@).len() implies lmodels(self.overlays@)[t]
                            == spec_reorder(old(self)@, id, new_z).overlays[t] by {
                            if t != i as int {
                                assert(lmodels(old(self).overlays@)[t].id != id);
                            }
                        }
                        assert(lmodels(self.overlays@) =~= spec_reorder(
                            old(self)@,
                            id,
                            new_z,
                        ).overlays);
                        assert(self@ =~= spec_reorder(old(self)@, id, new_z));
                        lemma_reorder_wf(old(self)@, id, new_z);
                    }
                    Ok(())
                }
            },
        }
    }

    /// The currently visible layers: the visible base layer (if any) first,
    /// then the visible overlays in the registry's overlay order. Read-only:
    /// the registry is not touched, and two calls with no mutation in
    /// between return equal sequences.
    pub fn snapshot(&self) -> (r: Vec<Layer>)
        ensures
            lmodels(r@) == visible_layers(self@),
    {
        let mut out: Vec<Layer> = Vec::new();
        let ghost bm = lmodels(self.bases@);
        let ghost om = lmodels(self.overlays@);
        proof {
            assert(lmodels(out@) =~= bm.take(0).filter(vis_pred()));
        }
        let mut i: usize = 0;
        while i < self.bases.len()
            invariant
                i <= self.bases.len(),
                bm == lmodels(self.bases@),
                lmodels(out@) == bm.take(i as int).filter(vis_pred()),
            decreases self.bases.len() - i,
        {
            proof {
                assert(bm.take(i + 1).drop_last() =~= bm.take(i as int));
                assert(bm.take(i + 1) =~= bm.take(i as int).push(bm[i as int]));
                lemma_filter_push(bm.take(i as int), bm[i as int], vis_pred());
            }
            if self.bases[i].visible {
                let ghost prior = out@;
                out.push(self.bases[i].clone());
                proof {
                    assert(lmodels(out@) =~= lmodels(prior).push(bm[i as int]));
                }
            }
            i += 1;
        }
        proof {
            assert(bm.take(self.bases.len() as int) =~= bm);
        }
        let ghost bf = bm.filter(vis_pred());
        let mut j: usize = 0;
        while j < self.overlays.len()
            invariant
                j <= self.overlays.len(),
                om == lmodels(self.overlays@),
                bf == lmodels(self.bases@).filter(vis_pred()),
                lmodels(out@) == bf + om.take(j as int).filter(vis_pred()),
            decreases self.overlays.len() - j,
        {
            proof {
                assert(om.take(j + 1).drop_last() =~= om.take(j as int));
                assert(om.take(j + 1) =~= om.take(j as int).push(om[j as int]));
                lemma_filter_push(om.take(j as int), om[j as int], vis_pred());
            }
            if self.overlays[j].visible {
                let ghost prior = out@;
                out.push(self.overlays[j].clone());
                proof {
                    assert(lmodels(out@) =~= lmodels(prior).push(om[j as int]));
                }
            }
            proof {
                if !om[j as int].visible {
                    assert(lmodels(out@) =~= bf + om.take(j + 1).filter(vis_pred()));
                }
            }
            j += 1;
        }
        proof {
            assert(om.take(self.overlays.len() as int) =~= om);
        }
        out
    }

    /// Looks a name up in one kind's namespace and returns the layer's id.
    /// Fails with `UnknownName` if no layer of that kind carries the name.
    /// Read-only.
    pub fn resolve(&self, name: &String, kind: LayerKind) -> (r: Result<u64, RegistryError>)
        ensures
            match r {
                Ok(id) => exists|i: int|
                    0 <= i < self@.namespace(kind).len() && #[trigger] self@.namespace(
                        kind,
                    )[i].name == name@ && self@.namespace(kind)[i].id == id,
                Err(e) => e == RegistryError::UnknownName && !has_name(
                    self@.namespace(kind),
                    name@,
                ),
            },
    {
        match kind {
            LayerKind::Base => {
                match Self::find_name(&self.bases, name) {
                    Some(i) => {
                        proof {
                            assert(self@.namespace(kind)[i as int].name == name@);
                        }
                        Ok(self.bases[i].id)
                    },
                    None => Err(RegistryError::UnknownName),
                }
            },
            LayerKind::Overlay => {
                match Self::find_name(&self.overlays, name) {
                    Some(i) => {
                        proof {
                            assert(self@.namespace(kind)[i as int].name == name@);
                        }
                        Ok(self.overlays[i].id)
                    },
                    None => Err(RegistryError::UnknownName),
                }
            },
        }
    }

    /// The visibility flag of the layer with `id`, hidden layers included.
    /// Fails with `UnknownLayer` if no layer has the id. Read-only.
    pub fn is_visible(&self, id: u64) -> (r: Result<bool, RegistryError>)
        requires
            self@.wf(),
        ensures
            self@.contains_id(id) ==> r == Ok::<bool, RegistryError>(vis_of_id(self@, id)),
            !self@.contains_id(id) ==> r == Err::<bool, RegistryError>(RegistryError::UnknownLayer),
    {
        match Self::find_id(&self.bases, id) {
            Some(i) => {
                proof {
                    lemma_idx_of_id(lmodels(self.bases@), i as int, id);
                }
                Ok(self.bases[i].visible)
            },
            None => {
                match Self::find_id(&self.overlays, id) {
                    Some(i) => {
                        proof {
                            lemma_idx_of_id(lmodels(self.overlays@), i as int, id);
                        }
                        Ok(self.overlays[i].visible)
                    },
                    None => Err(RegistryError::UnknownLayer),
                }
            },
        }
    }

    /// Renames the layer with `id` within its kind namespace.
    ///
    /// Fails with `ReentrantMutation` during notification delivery, with
    /// `UnknownLayer` if no layer has the id, and with `DuplicateName` if
    /// another layer of the same kind already carries `new_name` (renaming a
    /// layer to its own name succeeds and changes nothing). A failed call
    /// leaves the registry unchanged.
    pub fn rename(&mut self, id: u64, new_name: String) -> (r: Result<(), RegistryError>)
        requires
            old(self)@.wf(),
        ensures
            final(self)@.wf(),
            old(self)@.notifying ==> r == Err::<(), RegistryError>(
                RegistryError::ReentrantMutation,
            ) && final(self)@ == old(self)@,
            !old(self)@.notifying && !old(self)@.contains_id(id) ==> r == Err::<
                (),
                RegistryError,
            >(RegistryError::UnknownLayer) && final(self)@ == old(self)@,
            !old(self)@.notifying && old(self)@.contains_id(id) && rename_conflict(
                old(self)@,
                id,
                new_name@,
            ) ==> r == Err::<(), RegistryError>(RegistryError::DuplicateName) && final(self)@
                == old(self)@,
            !old(self)@.notifying && old(self)@.contains_id(id) && !rename_conflict(
                old(self)@,
                id,
                new_name@,
            ) ==> r == Ok::<(), RegistryError>(()) && final(self)@ == spec_rename(
                old(self)@,
                id,
                new_name@,
            ),
    {
        if self.notifying {
            return Err(RegistryError::ReentrantMutation);
        }
        let ghost nm: Seq<char> = new_name@;
        let in_bases = match Self::find_id(&self.bases, id) {
            Some(i) => {
                proof {
                    lemma_idx_of_id(lmodels(self.bases@), i as int, id);
                }
                Some(i)
            },
            None => None,
        };
        match in_bases {
            Some(i) => {
                match Self::find_name(&self.bases, &new_name) {
                    Some(j) if j != i => {
                        proof {
                            assert(lmodels(self.bases@)[j as int].id != id);
                        }
                        Err(RegistryError::DuplicateName)
                    },
                    other => {
                        proof {
                            assert(!rename_conflict(old(self)@, id, nm)) by {
                                if other is Some {
                                    let j = other->0;
                                    assert(lmodels(self.bases@)[j as int].name == nm);
                                    assert forall|t: int|
                                        0 <= t < lmodels(self.bases@).len() && #[trigger] lmodels(
                                            self.bases@,
                                        )[t].name == nm implies lmodels(self.bases@)[t].id == id by {
                                        if t != j as int {
                                            assert(lmodels(self.bases@)[t].name != lmodels(
                                                self.bases@,
                                            )[j as int].name);
                                        }
                                    }
                                }
                            }
                        }
                        let mut l = self.bases[i].clone();
                        l.name = new_name;
                        self.bases[i] = l;
                        proof {
                            assert forall|t: int|
                                0 <= t < lmodels(self.bases@).len() implies lmodels(self.bases@)[t]
                                == rename_in(lmodels(old(self).bases@), id, nm)[t] by {
                                if t != i as int {
                                    assert(lmodels(old(self).bases@)[t].id != id);
                                }
                            }
                            assert(lmodels(self.bases@) =~= rename_in(
                                lmodels(old(self).bases@),
                                id,
                                nm,
                            ));
                            assert(self@ =~= spec_rename(old(self)@, id, nm));
                            lemma_rename_wf(old(self)@, id, nm);
                        }
                        Ok(())
                    },
                }
            },
            None => {
                match Self::find_id(&self.overlays, id) {
                    None => Err(RegistryError::UnknownLayer),
                    Some(i) => {
                        proof {
                            lemma_idx_of_id(lmodels(self.overlays@), i as int, id);
                        }
                        match Self::find_name(&self.overlays, &new_name) {
                            Some(j) if j != i => {
                                proof {
                                    assert(lmodels(self.overlays@)[j as int].id != id);
                                }
                                Err(RegistryError::DuplicateName)
                            },
                            other => {
                                proof {
                                    assert(!rename_conflict(old(self)@, id, nm)) by {
                                        if other is Some {
                                            let j = other->0;
                                            assert(lmodels(self.overlays@)[j as int].name == nm);
                                            assert forall|t: int|
                                                0 <= t < lmodels(self.overlays@).len()
                                                    && #[trigger] lmodels(self.overlays@)[t].name
                                                    == nm implies lmodels(self.overlays@)[t].id
                                                == id by {
                                                if t != j as int {
                                                    assert(lmodels(self.overlays@)[t].name
                                                        != lmodels(self.overlays@)[j as int].name);
                                                }
                                            }
                                        }
                                    }
                                }
                                let mut l = self.overlays[i].clone();
                                l.name = new_name;
                                self.overlays[i] = l;
                                proof {
                                    assert forall|t: int|
                                        0 <= t < lmodels(self.overlays@).len() implies lmodels(
                                        self.overlays@,
                                    )[t] == rename_in(lmodels(old(self).overlays@), id, nm)[t] by {
                                        if t != i as int {
                                            assert(lmodels(old(self).overlays@)[t].id != id);
                                        }
                                    }
                                    assert(lmodels(self.overlays@) =~= rename_in(
                                        lmodels(old(self).overlays@),
                                        id,
                                        nm,
                                    ));
                                    assert(self@ =~= spec_rename(old(self)@, id, nm));
                                    lemma_rename_wf(old(self)@, id, nm);
                                }
                                Ok(())
                            },
                        }
                    },
                }
            },
        }
    }

    /// Marks the start of notification delivery: until the matching
    /// `end_notification`, every mutating call fails with
    /// `ReentrantMutation`.
    pub(crate) fn begin_notification(&mut self)
        requires
            !old(self)@.notifying,
        ensures
            final(self)@ == (RegistryModel { notifying: true, ..old(self)@ }),
    {
        self.notifying = true;
    }

    /// Marks the end of notification delivery: mutating calls are accepted
    /// again.
    pub(crate) fn end_notification(&mut self)
        requires
            old(self)@.notifying,
        ensures
            final(self)@ == (RegistryModel { notifying: false, ..old(self)@ }),
    {
        self.notifying = false;
    }
}

} // verus!
