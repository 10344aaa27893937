//! The engine's global laws, stated and proved over the registry model.
//!
//! Each operation's own contract already pins its exact effect; the proof
//! functions here state the cross-cutting guarantees a caller may rely on
//! without unfolding those contracts.

use vstd::prelude::*;
use crate::layer::{LayerKind, LayerModel};
use crate::model::{
    has_id, has_name, idx_of_id, lemma_add_wf, lemma_filter_elems, lemma_filter_single,
    lemma_idx_of_id, spec_add, spec_remove, spec_set_visible, vis_pred, visible_layers,
    RegistryModel,
};

verus! {

/// Base layers are mutually exclusive: in any well-formed registry state —
/// and every operation of this crate both requires and preserves
/// well-formedness, so in every reachable state under any sequence of `add`
/// and `remove` — no two base layers are visible at once.
pub proof fn lemma_base_exclusive(m: RegistryModel, i: int, j: int)
    requires
        m.wf(),
        0 <= i < m.bases.len(),
        0 <= j < m.bases.len(),
        i != j,
        m.bases[i].visible,
    ensures
        !m.bases[j].visible,
{
    if i < j {
        assert(!(m.bases[i].visible && m.bases[j].visible));
    } else {
        assert(!(m.bases[j].visible && m.bases[i].visible));
    }
}

/// `add` followed immediately by `remove` of the id it allocated restores
/// the registry to an observably identical state: the very same layer
/// sequences, hence the same snapshot and the same name index. Only the
/// id-allocation counter (and, for a first base layer, the record that one
/// was ever added) may differ — ids are never reused.
pub proof fn lemma_add_remove_round_trip(
    m: RegistryModel,
    name: Seq<char>,
    kind: LayerKind,
    payload: u64,
)
    requires
        m.wf(),
        m.next_id < u64::MAX,
        !has_name(m.namespace(kind), name),
    ensures
        ({
            let m2 = spec_remove(spec_add(m, name, kind, payload), m.next_id);
            &&& m2.bases == m.bases
            &&& m2.overlays == m.overlays
            &&& visible_layers(m2) == visible_layers(m)
            &&& m2.notifying == m.notifying
            &&& m2.allow_empty_base == m.allow_empty_base
            &&& m2.z_ordered == m.z_ordered
        }),
{
    let id = m.next_id;
    let m1 = spec_add(m, name, kind, payload);
    lemma_add_wf(m, name, kind, payload);
    if kind == LayerKind::Base {
        let n = m.bases.len() as int;
        assert(m1.bases[n].id == id);
        lemma_idx_of_id(m1.bases, n, id);
        assert(m1.bases.remove(n) =~= m.bases);
    } else {
        assert(!has_id(m1.bases, id)) by {
            if has_id(m1.bases, id) {
                let w = choose|w: int| 0 <= w < m1.bases.len() && #[trigger] m1.bases[w].id == id;
                assert(m.bases[w].id < m.next_id);
            }
        }
        let n = m.overlays.len() as int;
        assert(m1.overlays[n].id == id);
        lemma_idx_of_id(m1.overlays, n, id);
        assert(m1.overlays.remove(n) =~= m.overlays);
    }
}

/// `snapshot` is a pure, side-effect-free function of the registry state:
/// it takes the registry by shared reference, and two calls with no
/// intervening mutation — equal states — yield equal sequences.
pub proof fn lemma_snapshot_idempotent(m1: RegistryModel, m2: RegistryModel)
    requires
        m1 == m2,
    ensures
        visible_layers(m1) == visible_layers(m2),
{
}

/// Setting a base layer visible always leaves the snapshot with exactly one
/// base layer — the one asked for — at its front, every later entry being an
/// overlay.
pub proof fn lemma_select_base_sole_visible(m: RegistryModel, id: u64)
    requires
        m.wf(),
        has_id(m.bases, id),
    ensures
        ({
            let vis = visible_layers(spec_set_visible(m, id, true));
            &&& vis.len() >= 1
            &&& vis[0].kind == LayerKind::Base
            &&& vis[0].id == id
            &&& vis[0].visible
            &&& forall|k: int| 1 <= k < vis.len() ==> #[trigger] vis[k].kind == LayerKind::Overlay
        }),
{
    let m2 = spec_set_visible(m, id, true);
    let i = idx_of_id(m.bases, id);
    assert(0 <= i < m.bases.len() && m.bases[i].id == id);
    assert forall|k: int| 0 <= k < m2.bases.len() implies (vis_pred()(#[trigger] m2.bases[k])
        <==> k == i) by {
        if k != i && m.bases[k].id == id {
            if k < i {
                assert(m.bases[k].id != m.bases[i].id);
            } else {
                assert(m.bases[i].id != m.bases[k].id);
            }
        }
    }
    lemma_filter_single(m2.bases, vis_pred(), i);
    let bf = m2.bases.filter(vis_pred());
    let of = m2.overlays.filter(vis_pred());
    let vis = visible_layers(m2);
    assert(bf == seq![m2.bases[i]]);
    assert(vis[0] == m2.bases[i]);
    lemma_filter_elems(m2.overlays, vis_pred());
    assert forall|k: int| 1 <= k < vis.len() implies #[trigger] vis[k].kind
        == LayerKind::Overlay by {
        assert(vis[k] == of[k - 1]);
        assert(m2.overlays.contains(of[k - 1]));
        let w = choose|w: int| 0 <= w < m2.overlays.len() && m2.overlays[w] == of[k - 1];
        assert(m2.overlays[w].kind == LayerKind::Overlay);
    }
}

} // verus!
