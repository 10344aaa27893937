//! The mathematical model of the registry.
//!
//! Contracts throughout the crate speak of a `RegistryModel`: two sequences of
//! layer models (base layers and overlays, each in the order the registry
//! keeps them), the id-allocation counter, the notification flag, and the
//! configuration. The transition spec functions here say exactly what each
//! registry operation does to that model; the lemmas show that every
//! transition preserves well-formedness.

use vstd::prelude::*;
use crate::layer::{Layer, LayerKind, LayerModel};

verus! {

/// The models of a sequence of layers.
pub open spec fn lmodels(s: Seq<Layer>) -> Seq<LayerModel> {
    s.map_values(|l: Layer| l@)
}

/// The visibility predicate used by `snapshot`.
pub open spec fn vis_pred() -> spec_fn(LayerModel) -> bool {
    |l: LayerModel| l.visible
}

/// The model of a whole registry.
#[verifier::ext_equal]
pub ghost struct RegistryModel {
    /// Base layers, in insertion order.
    pub bases: Seq<LayerModel>,
    /// Overlays; sorted by z-index when `z_ordered`, by id (insertion order)
    /// otherwise.
    pub overlays: Seq<LayerModel>,
    /// The next id to allocate. Ids are never reused.
    pub next_id: u64,
    /// Whether a base layer was ever added.
    pub had_base: bool,
    /// Whether a change notification is being delivered right now.
    pub notifying: bool,
    /// When false, the first base layer ever added is forced visible.
    pub allow_empty_base: bool,
    /// Whether overlays are kept in z-index order (ties broken by most recent
    /// reinsertion) rather than plain insertion order.
    pub z_ordered: bool,
}

// ---------------------------------------------------------------------------
// Predicates over layer sequences
// ---------------------------------------------------------------------------

pub open spec fn has_id(s: Seq<LayerModel>, id: u64) -> bool {
    exists|i: int| 0 <= i < s.len() && #[trigger] s[i].id == id
}

/// The index of the layer with `id`; meaningful only when `has_id` holds and
/// ids are unique.
pub open spec fn idx_of_id(s: Seq<LayerModel>, id: u64) -> int {
    choose|i: int| 0 <= i < s.len() && #[trigger] s[i].id == id
}

pub open spec fn has_name(s: Seq<LayerModel>, name: Seq<char>) -> bool {
    exists|i: int| 0 <= i < s.len() && #[trigger] s[i].name == name
}

/// The index of the layer named `name`; meaningful only when `has_name` holds
/// and names are unique.
pub open spec fn idx_of_name(s: Seq<LayerModel>, name: Seq<char>) -> int {
    choose|i: int| 0 <= i < s.len() && #[trigger] s[i].name == name
}

/// The id of the layer named `name`; meaningful under the same conditions.
pub open spec fn id_of_name(s: Seq<LayerModel>, name: Seq<char>) -> u64 {
    s[idx_of_name(s, name)].id
}

/// Some layer other than the one with `id` carries `name`.
pub open spec fn name_taken_by_other(s: Seq<LayerModel>, name: Seq<char>, id: u64) -> bool {
    exists|i: int| 0 <= i < s.len() && #[trigger] s[i].name == name && s[i].id != id
}

pub open spec fn unique_ids(s: Seq<LayerModel>) -> bool {
    forall|i: int, j: int| 0 <= i < j < s.len() ==> #[trigger] s[i].id != #[trigger] s[j].id
}

pub open spec fn disjoint_ids(a: Seq<LayerModel>, b: Seq<LayerModel>) -> bool {
    forall|i: int, j: int|
        0 <= i < a.len() && 0 <= j < b.len() ==> #[trigger] a[i].id != #[trigger] b[j].id
}

pub open spec fn ids_below(s: Seq<LayerModel>, bound: u64) -> bool {
    forall|i: int| 0 <= i < s.len() ==> #[trigger] s[i].id < bound
}

pub open spec fn unique_names(s: Seq<LayerModel>) -> bool {
    forall|i: int, j: int| 0 <= i < j < s.len() ==> #[trigger] s[i].name != #[trigger] s[j].name
}

pub open spec fn all_kind(s: Seq<LayerModel>, kind: LayerKind) -> bool {
    forall|i: int| 0 <= i < s.len() ==> #[trigger] s[i].kind == kind
}

/// No two distinct layers of the sequence are visible at once.
pub open spec fn at_most_one_visible(s: Seq<LayerModel>) -> bool {
    forall|i: int, j: int|
        0 <= i < j < s.len() ==> !(#[trigger] s[i].visible && #[trigger] s[j].visible)
}

pub open spec fn sorted_by_z(s: Seq<LayerModel>) -> bool {
    forall|i: int, j: int| 0 <= i < j < s.len() ==> #[trigger] s[i].z_index <= #[trigger] s[j].z_index
}

pub open spec fn sorted_by_id(s: Seq<LayerModel>) -> bool {
    forall|i: int, j: int| 0 <= i < j < s.len() ==> #[trigger] s[i].id < #[trigger] s[j].id
}

// ---------------------------------------------------------------------------
// Well-formedness
// ---------------------------------------------------------------------------

impl RegistryModel {
    /// The registry's invariant: ids unique and below the allocation counter,
    /// names unique per kind namespace, each sequence of its kind, at most one
    /// base layer visible, and overlays in the configured order.
    pub open spec fn wf(self) -> bool {
        &&& unique_ids(self.bases)
        &&& unique_ids(self.overlays)
        &&& disjoint_ids(self.bases, self.overlays)
        &&& ids_below(self.bases, self.next_id)
        &&& ids_below(self.overlays, self.next_id)
        &&& unique_names(self.bases)
        &&& unique_names(self.overlays)
        &&& all_kind(self.bases, LayerKind::Base)
        &&& all_kind(self.overlays, LayerKind::Overlay)
        &&& at_most_one_visible(self.bases)
        &&& (self.bases.len() > 0 ==> self.had_base)
        &&& (if self.z_ordered {
            sorted_by_z(self.overlays)
        } else {
            sorted_by_id(self.overlays)
        })
    }

    /// The kind namespace a name lives in.
    pub open spec fn namespace(self, kind: LayerKind) -> Seq<LayerModel> {
        if kind == LayerKind::Base {
            self.bases
        } else {
            self.overlays
        }
    }

    pub open spec fn contains_id(self, id: u64) -> bool {
        has_id(self.bases, id) || has_id(self.overlays, id)
    }
}

// ---------------------------------------------------------------------------
// Derived views
// ---------------------------------------------------------------------------

/// What `snapshot` returns: the visible base layer (at most one, when the
/// registry is well formed) followed by the visible overlays, in the
/// registry's overlay order.
pub open spec fn visible_layers(m: RegistryModel) -> Seq<LayerModel> {
    m.bases.filter(vis_pred()) + m.overlays.filter(vis_pred())
}

/// The visibility flag of the layer with `id`; meaningful when the id is
/// present and ids are unique.
pub open spec fn vis_of_id(m: RegistryModel, id: u64) -> bool {
    if has_id(m.bases, id) {
        m.bases[idx_of_id(m.bases, id)].visible
    } else {
        m.overlays[idx_of_id(m.overlays, id)].visible
    }
}

/// Whether renaming the layer with `id` to `name` would collide with another
/// layer of the same kind namespace.
pub open spec fn rename_conflict(m: RegistryModel, id: u64, name: Seq<char>) -> bool {
    if has_id(m.bases, id) {
        name_taken_by_other(m.bases, name, id)
    } else {
        name_taken_by_other(m.overlays, name, id)
    }
}

/// The largest z-index among the overlays (zero when there are none).
pub open spec fn max_overlay_z(s: Seq<LayerModel>) -> u64
    decreases s.len(),
{
    if s.len() == 0 {
        0u64
    } else if s.last().z_index >= max_overlay_z(s.drop_last()) {
        s.last().z_index
    } else {
        max_overlay_z(s.drop_last())
    }
}

/// The z-index a newly added overlay receives: one above the current maximum,
/// saturating at the top of the range.
pub open spec fn next_overlay_z(s: Seq<LayerModel>) -> u64 {
    if max_overlay_z(s) == u64::MAX {
        u64::MAX
    } else {
        (max_overlay_z(s) + 1) as u64
    }
}

/// The split-point predicate behind `z_split`: everything at or below `z`
/// sits before `p`, everything above `z` at or after it.
pub open spec fn witness_z_split(s: Seq<LayerModel>, z: u64, p: int) -> bool {
    &&& 0 <= p <= s.len()
    &&& forall|k: int| 0 <= k < p ==> #[trigger] s[k].z_index <= z
    &&& forall|k: int| p <= k < s.len() ==> #[trigger] s[k].z_index > z
}

/// Where a reinserted overlay with z-index `z` lands in the sorted sequence
/// `s`: after every entry with z-index at most `z` (so among equal z-indexes
/// the reinserted layer comes last) and before every entry above `z`.
pub open spec fn z_split(s: Seq<LayerModel>, z: u64) -> int {
    choose|p: int| witness_z_split(s, z, p)
}

// ---------------------------------------------------------------------------
// Transitions
// ---------------------------------------------------------------------------

/// The model of a successful `add`. The new layer gets the next id; a base
/// layer is forced visible exactly when it is the first base layer ever added
/// and the configuration does not allow an empty base set; an overlay starts
/// hidden with z-index one above the current maximum.
pub open spec fn spec_add(
    m: RegistryModel,
    name: Seq<char>,
    kind: LayerKind,
    payload: u64,
) -> RegistryModel {
    if kind == LayerKind::Base {
        RegistryModel {
            bases: m.bases.push(
                LayerModel {
                    id: m.next_id,
                    name,
                    kind,
                    visible: !m.allow_empty_base && !m.had_base,
                    z_index: 0,
                    payload,
                },
            ),
            next_id: (m.next_id + 1) as u64,
            had_base: true,
            ..m
        }
    } else {
        RegistryModel {
            overlays: m.overlays.push(
                LayerModel {
                    id: m.next_id,
                    name,
                    kind,
                    visible: false,
                    z_index: next_overlay_z(m.overlays),
                    payload,
                },
            ),
            next_id: (m.next_id + 1) as u64,
            ..m
        }
    }
}

/// The model of a successful `remove`: the layer with `id` leaves its
/// sequence; nothing else moves. No replacement base layer is selected.
pub open spec fn spec_remove(m: RegistryModel, id: u64) -> RegistryModel {
    if has_id(m.bases, id) {
        RegistryModel { bases: m.bases.remove(idx_of_id(m.bases, id)), ..m }
    } else {
        RegistryModel { overlays: m.overlays.remove(idx_of_id(m.overlays, id)), ..m }
    }
}

/// Visibility update over the base sequence: the target gets `v`; when `v` is
/// true every other base layer is demoted in the same step.
pub open spec fn set_vis_base(s: Seq<LayerModel>, id: u64, v: bool) -> Seq<LayerModel> {
    s.map_values(
        |l: LayerModel|
            if l.id == id {
                LayerModel { visible: v, ..l }
            } else {
                LayerModel { visible: l.visible && !v, ..l }
            },
    )
}

/// Visibility update over the overlay sequence: only the target changes.
pub open spec fn set_vis_overlay(s: Seq<LayerModel>, id: u64, v: bool) -> Seq<LayerModel> {
    s.map_values(
        |l: LayerModel|
            if l.id == id {
                LayerModel { visible: v, ..l }
            } else {
                l
            },
    )
}

/// The model of a successful `set_visible`.
pub open spec fn spec_set_visible(m: RegistryModel, id: u64, v: bool) -> RegistryModel {
    if has_id(m.bases, id) {
        RegistryModel { bases: set_vis_base(m.bases, id, v), ..m }
    } else {
        RegistryModel { overlays: set_vis_overlay(m.overlays, id, v), ..m }
    }
}

/// The model of a successful `reorder_overlay`. Under z-ordering the target
/// is taken out and reinserted after every overlay whose z-index is at most
/// the new one (last-write-wins among equals, untouched overlays keep their
/// relative order); under insertion ordering only its z-index field changes.
pub open spec fn spec_reorder(m: RegistryModel, id: u64, new_z: u64) -> RegistryModel {
    if m.z_ordered {
        let i = idx_of_id(m.overlays, id);
        let moved = LayerModel { z_index: new_z, ..m.overlays[i] };
        let rest = m.overlays.remove(i);
        RegistryModel { overlays: rest.insert(z_split(rest, new_z), moved), ..m }
    } else {
        RegistryModel {
            overlays: m.overlays.map_values(
                |l: LayerModel|
                    if l.id == id {
                        LayerModel { z_index: new_z, ..l }
                    } else {
                        l
                    },
            ),
            ..m
        }
    }
}

/// Name update over one sequence: only the target's name changes.
pub open spec fn rename_in(s: Seq<LayerModel>, id: u64, name: Seq<char>) -> Seq<LayerModel> {
    s.map_values(
        |l: LayerModel|
            if l.id == id {
                LayerModel { name, ..l }
            } else {
                l
            },
    )
}

/// The model of a successful `rename`.
pub open spec fn spec_rename(m: RegistryModel, id: u64, name: Seq<char>) -> RegistryModel {
    if has_id(m.bases, id) {
        RegistryModel { bases: rename_in(m.bases, id, name), ..m }
    } else {
        RegistryModel { overlays: rename_in(m.overlays, id, name), ..m }
    }
}

// ---------------------------------------------------------------------------
// Lemmas
// ---------------------------------------------------------------------------

/// Every entry's z-index is bounded by the sequence maximum.
pub proof fn lemma_max_z_bound(s: Seq<LayerModel>)
    ensures
        forall|i: int| 0 <= i < s.len() ==> #[trigger] s[i].z_index <= max_overlay_z(s),
    decreases s.len(),
{
    if s.len() > 0 {
        lemma_max_z_bound(s.drop_last());
        assert forall|i: int| 0 <= i < s.len() implies #[trigger] s[i].z_index
            <= max_overlay_z(s) by {
            if i < s.len() - 1 {
                assert(s.drop_last()[i] == s[i]);
            }
        }
    }
}

/// Filtering a push appends the new element exactly when it passes.
pub proof fn lemma_filter_push(s: Seq<LayerModel>, x: LayerModel, pred: spec_fn(LayerModel) -> bool)
    ensures
        s.push(x).filter(pred) == if pred(x) {
            s.filter(pred).push(x)
        } else {
            s.filter(pred)
        },
{
    reveal(Seq::filter);
    assert(s.push(x).drop_last() =~= s);
    assert(s.push(x).last() == x);
}

/// A filter that nothing passes is empty.
pub proof fn lemma_filter_none(s: Seq<LayerModel>, pred: spec_fn(LayerModel) -> bool)
    requires
        forall|i: int| 0 <= i < s.len() ==> !pred(#[trigger] s[i]),
    ensures
        s.filter(pred) == Seq::<LayerModel>::empty(),
    decreases s.len(),
{
    reveal(Seq::filter);
    if s.len() > 0 {
        assert forall|i: int| 0 <= i < s.drop_last().len() implies !pred(
            #[trigger] s.drop_last()[i],
        ) by {
            assert(s.drop_last()[i] == s[i]);
        }
        lemma_filter_none(s.drop_last(), pred);
    }
}

/// When exactly the entry at `t` passes the filter, the result is that single
/// entry.
pub proof fn lemma_filter_single(s: Seq<LayerModel>, pred: spec_fn(LayerModel) -> bool, t: int)
    requires
        0 <= t < s.len(),
        forall|i: int| 0 <= i < s.len() ==> (pred(#[trigger] s[i]) <==> i == t),
    ensures
        s.filter(pred) == seq![s[t]],
    decreases s.len(),
{
    reveal(Seq::filter);
    let d = s.drop_last();
    assert(forall|i: int| 0 <= i < d.len() ==> #[trigger] d[i] == s[i]);
    if t == s.len() - 1 {
        lemma_filter_none(d, pred);
        assert(s.filter(pred) =~= seq![s[t]]);
    } else {
        lemma_filter_single(d, pred, t);
        assert(!pred(s.last()));
    }
}

/// Every element of a filtered sequence occurs in the unfiltered one.
pub proof fn lemma_filter_elems(s: Seq<LayerModel>, pred: spec_fn(LayerModel) -> bool)
    ensures
        forall|i: int|
            0 <= i < s.filter(pred).len() ==> s.contains(#[trigger] s.filter(pred)[i]),
    decreases s.len(),
{
    reveal(Seq::filter);
    if s.len() > 0 {
        let d = s.drop_last();
        lemma_filter_elems(d, pred);
        assert forall|i: int| 0 <= i < s.filter(pred).len() implies s.contains(
            #[trigger] s.filter(pred)[i],
        ) by {
            let f = s.filter(pred);
            if pred(s.last()) && i == f.len() - 1 {
                assert(s[s.len() - 1] == f[i]);
            } else {
                assert(f[i] == d.filter(pred)[i]);
                assert(d.contains(d.filter(pred)[i]));
                let k = choose|k: int| 0 <= k < d.len() && d[k] == f[i];
                assert(s[k] == f[i]);
            }
        }
    }
}

/// `spec_add` preserves well-formedness and leaves every existing layer in
/// place.
pub proof fn lemma_add_wf(m: RegistryModel, name: Seq<char>, kind: LayerKind, payload: u64)
    requires
        m.wf(),
        m.next_id < u64::MAX,
        !has_name(m.namespace(kind), name),
    ensures
        spec_add(m, name, kind, payload).wf(),
{
    let m2 = spec_add(m, name, kind, payload);
    if kind == LayerKind::Base {
        if !m.allow_empty_base && !m.had_base {
            assert(m.bases.len() == 0);
        }
        assert(at_most_one_visible(m2.bases));
        assert(unique_names(m2.bases));
    } else {
        lemma_max_z_bound(m.overlays);
        if m.z_ordered {
            assert(sorted_by_z(m2.overlays));
        } else {
            assert(sorted_by_id(m2.overlays));
        }
    }
}

/// `spec_remove` preserves well-formedness.
pub proof fn lemma_remove_wf(m: RegistryModel, id: u64)
    requires
        m.wf(),
        m.contains_id(id),
    ensures
        spec_remove(m, id).wf(),
{
    let m2 = spec_remove(m, id);
    if has_id(m.bases, id) {
        let i = idx_of_id(m.bases, id);
        assert(0 <= i < m.bases.len() && m.bases[i].id == id);
        assert(m2.bases =~= m.bases.subrange(0, i) + m.bases.subrange(i + 1, m.bases.len() as int));
    } else {
        let i = idx_of_id(m.overlays, id);
        assert(0 <= i < m.overlays.len() && m.overlays[i].id == id);
        assert(m2.overlays =~= m.overlays.subrange(0, i) + m.overlays.subrange(
            i + 1,
            m.overlays.len() as int,
        ));
    }
}

/// `spec_set_visible` preserves well-formedness.
pub proof fn lemma_set_visible_wf(m: RegistryModel, id: u64, v: bool)
    requires
        m.wf(),
        m.contains_id(id),
    ensures
        spec_set_visible(m, id, v).wf(),
{
    let m2 = spec_set_visible(m, id, v);
    if has_id(m.bases, id) {
        assert(at_most_one_visible(m2.bases)) by {
            assert forall|i: int, j: int| 0 <= i < j < m2.bases.len() implies !(
            #[trigger] m2.bases[i].visible && #[trigger] m2.bases[j].visible) by {
                if v {
                    assert(m.bases[i].id == id && m.bases[j].id == id ==> false);
                } else {
                    assert(!(m.bases[i].visible && m.bases[j].visible));
                }
            }
        }
    }
}

/// `spec_reorder` preserves well-formedness.
pub proof fn lemma_reorder_wf(m: RegistryModel, id: u64, new_z: u64)
    requires
        m.wf(),
        has_id(m.overlays, id),
    ensures
        spec_reorder(m, id, new_z).wf(),
{
    let m2 = spec_reorder(m, id, new_z);
    if m.z_ordered {
        let i = idx_of_id(m.overlays, id);
        assert(0 <= i < m.overlays.len() && m.overlays[i].id == id);
        let rest = m.overlays.remove(i);
        assert(rest =~= m.overlays.subrange(0, i) + m.overlays.subrange(
            i + 1,
            m.overlays.len() as int,
        ));
        lemma_z_split_exists(rest, new_z);
        let p = z_split(rest, new_z);
        assert(0 <= p <= rest.len() && (forall|k: int|
            0 <= k < p ==> #[trigger] rest[k].z_index <= new_z) && (forall|k: int|
            p <= k < rest.len() ==> #[trigger] rest[k].z_index > new_z));
        let out = rest.insert(p, LayerModel { z_index: new_z, ..m.overlays[i] });
        assert(forall|k: int| 0 <= k < p ==> #[trigger] out[k] == rest[k]);
        assert(forall|k: int| p < k < out.len() ==> #[trigger] out[k] == rest[k - 1]);
        assert(sorted_by_z(out));
        assert(unique_ids(out));
        assert(unique_names(out));
        assert(m2.overlays == out);
    }
}

/// In a z-sorted sequence there is a split point for any z-index: everything
/// at or below it first, everything above it after.
pub proof fn lemma_z_split_exists(s: Seq<LayerModel>, z: u64)
    requires
        sorted_by_z(s),
    ensures
        ({
            let p = z_split(s, z);
            &&& 0 <= p <= s.len()
            &&& forall|k: int| 0 <= k < p ==> #[trigger] s[k].z_index <= z
            &&& forall|k: int| p <= k < s.len() ==> #[trigger] s[k].z_index > z
        }),
    decreases s.len(),
{
    if s.len() == 0 {
        assert(witness_z_split(s, z, 0));
    } else if s.last().z_index <= z {
        let w = s.len() as int;
        assert forall|k: int| 0 <= k < w implies #[trigger] s[k].z_index <= z by {
            if k < w - 1 {
                assert(s[k].z_index <= s[w - 1].z_index);
            }
        }
        assert(witness_z_split(s, z, w));
    } else {
        let d = s.drop_last();
        assert(forall|i: int| 0 <= i < d.len() ==> #[trigger] d[i] == s[i]);
        lemma_z_split_exists(d, z);
        let p = z_split(d, z);
        assert(witness_z_split(d, z, p));
        assert forall|k: int| 0 <= k < p implies #[trigger] s[k].z_index <= z by {
            assert(d[k].z_index <= z);
        }
        assert forall|k: int| p <= k < s.len() implies #[trigger] s[k].z_index > z by {
            if k < s.len() - 1 {
                assert(d[k].z_index > z);
            }
        }
        assert(witness_z_split(s, z, p));
    }
}

/// With unique ids, `idx_of_id` is exactly the index where the id was found.
pub proof fn lemma_idx_of_id(s: Seq<LayerModel>, i: int, id: u64)
    requires
        unique_ids(s),
        0 <= i < s.len(),
        s[i].id == id,
    ensures
        has_id(s, id),
        idx_of_id(s, id) == i,
{
    assert(has_id(s, id));
    let j = idx_of_id(s, id);
    assert(0 <= j < s.len() && s[j].id == id);
    if i < j {
        assert(s[i].id != s[j].id);
    } else if j < i {
        assert(s[j].id != s[i].id);
    }
}

/// With unique names, `idx_of_name` is exactly the index where the name was
/// found.
pub proof fn lemma_idx_of_name(s: Seq<LayerModel>, i: int, name: Seq<char>)
    requires
        unique_names(s),
        0 <= i < s.len(),
        s[i].name == name,
    ensures
        has_name(s, name),
        idx_of_name(s, name) == i,
        id_of_name(s, name) == s[i].id,
{
    assert(has_name(s, name));
    let j = idx_of_name(s, name);
    assert(0 <= j < s.len() && s[j].name == name);
    if i < j {
        assert(s[i].name != s[j].name);
    } else if j < i {
        assert(s[j].name != s[i].name);
    }
}

/// The split point is unique: any index satisfying the split predicate is
/// `z_split`.
pub proof fn lemma_z_split_is(s: Seq<LayerModel>, z: u64, p: int)
    requires
        witness_z_split(s, z, p),
    ensures
        z_split(s, z) == p,
{
    let q = z_split(s, z);
    assert(witness_z_split(s, z, q));
    if q < p {
        assert(s[q].z_index <= z);
        assert(s[q].z_index > z);
    } else if p < q {
        assert(s[p].z_index <= z);
        assert(s[p].z_index > z);
    }
}

/// `spec_rename` preserves well-formedness.
pub proof fn lemma_rename_wf(m: RegistryModel, id: u64, name: Seq<char>)
    requires
        m.wf(),
        m.contains_id(id),
        !rename_conflict(m, id, name),
    ensures
        spec_rename(m, id, name).wf(),
{
    let m2 = spec_rename(m, id, name);
    if has_id(m.bases, id) {
        assert(unique_names(m2.bases)) by {
            assert forall|i: int, j: int| 0 <= i < j < m2.bases.len() implies #[trigger] m2.bases[i].name
                != #[trigger] m2.bases[j].name by {
                if m.bases[i].id != id && m.bases[j].id != id {
                    assert(m.bases[i].name != m.bases[j].name);
                }
            }
        }
    } else {
        assert(unique_names(m2.overlays)) by {
            assert forall|i: int, j: int| 0 <= i < j < m2.overlays.len() implies #[trigger] m2.overlays[i].name
                != #[trigger] m2.overlays[j].name by {
                if m.overlays[i].id != id && m.overlays[j].id != id {
                    assert(m.overlays[i].name != m.overlays[j].name);
                }
            }
        }
    }
}

} // verus!
