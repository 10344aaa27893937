use layer_engine::{Config, Layer, LayerKind, OverlayOrder, Registry, RegistryError};

fn names(snap: &Vec<Layer>) -> Vec<String> {
    let mut out = Vec::new();
    for l in snap {
        out.push(l.name.clone());
    }
    out
}

#[test]
fn first_base_layer_forced_visible() {
    let mut reg = Registry::new();
    let id = reg.add("osm".to_string(), LayerKind::Base, 11).unwrap();
    let snap = reg.snapshot();
    assert_eq!(snap.len(), 1);
    assert_eq!(snap[0].id, id);
    assert_eq!(snap[0].name, "osm");
    assert_eq!(snap[0].kind, LayerKind::Base);
    assert!(snap[0].visible);
    assert_eq!(snap[0].payload, 11);
    assert_eq!(reg.allocated_ids(), 1);
}

#[test]
fn second_base_layer_defaults_hidden() {
    let mut reg = Registry::new();
    reg.add("osm".to_string(), LayerKind::Base, 1).unwrap();
    reg.add("satellite".to_string(), LayerKind::Base, 2).unwrap();
    let snap = reg.snapshot();
    assert_eq!(names(&snap), vec!["osm".to_string()]);
}

#[test]
fn duplicate_name_rejected_per_namespace() {
    let mut reg = Registry::new();
    reg.add("osm".to_string(), LayerKind::Base, 1).unwrap();
    assert_eq!(
        reg.add("osm".to_string(), LayerKind::Base, 2),
        Err(RegistryError::DuplicateName)
    );
    // base and overlay names are separate namespaces
    assert!(reg.add("osm".to_string(), LayerKind::Overlay, 3).is_ok());
    assert_eq!(
        reg.add("osm".to_string(), LayerKind::Overlay, 4),
        Err(RegistryError::DuplicateName)
    );
}

#[test]
fn remove_unknown_layer_fails() {
    let mut reg = Registry::new();
    assert_eq!(reg.remove(99), Err(RegistryError::UnknownLayer));
}

#[test]
fn removing_visible_base_selects_no_replacement() {
    let mut reg = Registry::new();
    let a = reg.add("a".to_string(), LayerKind::Base, 1).unwrap();
    reg.add("b".to_string(), LayerKind::Base, 2).unwrap();
    reg.remove(a).unwrap();
    let snap = reg.snapshot();
    assert!(snap.is_empty());
}

#[test]
fn add_then_remove_restores_observable_state() {
    let mut reg = Registry::new();
    reg.add("osm".to_string(), LayerKind::Base, 1).unwrap();
    let roads = reg.add("roads".to_string(), LayerKind::Overlay, 2).unwrap();
    reg.set_visible(roads, true).unwrap();
    let before = reg.snapshot();
    let counter_before = reg.allocated_ids();

    let tmp = reg.add("labels".to_string(), LayerKind::Overlay, 3).unwrap();
    reg.remove(tmp).unwrap();

    let after = reg.snapshot();
    assert_eq!(names(&before), names(&after));
    assert_eq!(before.len(), after.len());
    for k in 0..before.len() {
        assert_eq!(before[k].id, after[k].id);
        assert_eq!(before[k].z_index, after[k].z_index);
        assert_eq!(before[k].visible, after[k].visible);
        assert_eq!(before[k].payload, after[k].payload);
    }
    // the name index is restored too
    assert_eq!(
        reg.resolve(&"labels".to_string(), LayerKind::Overlay),
        Err(RegistryError::UnknownName)
    );
    assert_eq!(reg.resolve(&"roads".to_string(), LayerKind::Overlay), Ok(roads));
    // ids are never reused: the counter moved on
    assert!(reg.allocated_ids() > counter_before);
}

#[test]
fn snapshot_is_idempotent() {
    let mut reg = Registry::new();
    reg.add("osm".to_string(), LayerKind::Base, 1).unwrap();
    let o = reg.add("roads".to_string(), LayerKind::Overlay, 2).unwrap();
    reg.set_visible(o, true).unwrap();
    let s1 = reg.snapshot();
    let s2 = reg.snapshot();
    assert_eq!(names(&s1), names(&s2));
    assert_eq!(s1.len(), s2.len());
    for k in 0..s1.len() {
        assert_eq!(s1[k].id, s2[k].id);
        assert_eq!(s1[k].visible, s2[k].visible);
        assert_eq!(s1[k].z_index, s2[k].z_index);
    }
}

#[test]
fn set_visible_base_is_an_atomic_swap() {
    let mut reg = Registry::new();
    let a = reg.add("a".to_string(), LayerKind::Base, 1).unwrap();
    let b = reg.add("b".to_string(), LayerKind::Base, 2).unwrap();
    reg.set_visible(b, true).unwrap();
    let snap = reg.snapshot();
    let bases: Vec<&Layer> = snap.iter().filter(|l| l.kind == LayerKind::Base).collect();
    assert_eq!(bases.len(), 1);
    assert_eq!(bases[0].id, b);
    reg.set_visible(a, true).unwrap();
    let snap = reg.snapshot();
    let bases: Vec<&Layer> = snap.iter().filter(|l| l.kind == LayerKind::Base).collect();
    assert_eq!(bases.len(), 1);
    assert_eq!(bases[0].id, a);
}

#[test]
fn overlays_toggle_independently() {
    let mut reg = Registry::new();
    let a = reg.add("roads".to_string(), LayerKind::Overlay, 1).unwrap();
    let b = reg.add("labels".to_string(), LayerKind::Overlay, 2).unwrap();
    reg.set_visible(a, true).unwrap();
    reg.set_visible(b, true).unwrap();
    assert_eq!(reg.snapshot().len(), 2);
    reg.set_visible(a, false).unwrap();
    let snap = reg.snapshot();
    assert_eq!(names(&snap), vec!["labels".to_string()]);
    assert_eq!(reg.is_visible(a), Ok(false));
    assert_eq!(reg.is_visible(b), Ok(true));
}

#[test]
fn overlay_z_index_counts_up_from_one() {
    let mut reg = Registry::new();
    let roads = reg.add("roads".to_string(), LayerKind::Overlay, 1).unwrap();
    let labels = reg.add("labels".to_string(), LayerKind::Overlay, 2).unwrap();
    reg.set_visible(roads, true).unwrap();
    reg.set_visible(labels, true).unwrap();
    let snap = reg.snapshot();
    assert_eq!(names(&snap), vec!["roads".to_string(), "labels".to_string()]);
    assert_eq!(snap[0].z_index, 1);
    assert_eq!(snap[1].z_index, 2);
}

#[test]
fn reorder_overlay_sorts_by_z_index() {
    let mut reg = Registry::new();
    let roads = reg.add("roads".to_string(), LayerKind::Overlay, 1).unwrap();
    let labels = reg.add("labels".to_string(), LayerKind::Overlay, 2).unwrap();
    reg.set_visible(roads, true).unwrap();
    reg.set_visible(labels, true).unwrap();
    reg.reorder_overlay(roads, 5).unwrap();
    let snap = reg.snapshot();
    assert_eq!(names(&snap), vec!["labels".to_string(), "roads".to_string()]);
    assert_eq!(snap[0].z_index, 2);
    assert_eq!(snap[1].z_index, 5);
}

#[test]
fn reorder_ties_break_last_write_wins() {
    let mut reg = Registry::new();
    let a = reg.add("a".to_string(), LayerKind::Overlay, 1).unwrap();
    let b = reg.add("b".to_string(), LayerKind::Overlay, 2).unwrap();
    let c = reg.add("c".to_string(), LayerKind::Overlay, 3).unwrap();
    for id in [a, b, c] {
        reg.set_visible(id, true).unwrap();
    }
    reg.reorder_overlay(b, 7).unwrap();
    reg.reorder_overlay(a, 7).unwrap();
    // equal z-indexes: the most recently reordered comes last; c keeps its place
    let snap = reg.snapshot();
    assert_eq!(
        names(&snap),
        vec!["c".to_string(), "b".to_string(), "a".to_string()]
    );
}

#[test]
fn reorder_rejects_base_layers_and_unknown_ids() {
    let mut reg = Registry::new();
    let base = reg.add("osm".to_string(), LayerKind::Base, 1).unwrap();
    assert_eq!(reg.reorder_overlay(base, 3), Err(RegistryError::UnknownLayer));
    assert_eq!(reg.reorder_overlay(42, 3), Err(RegistryError::UnknownLayer));
}

#[test]
fn insertion_order_config_ignores_z_for_ordering() {
    let mut reg = Registry::new_with_options(Config {
        allow_empty_base: false,
        overlay_order: OverlayOrder::InsertionOrder,
    });
    let a = reg.add("a".to_string(), LayerKind::Overlay, 1).unwrap();
    let b = reg.add("b".to_string(), LayerKind::Overlay, 2).unwrap();
    reg.set_visible(a, true).unwrap();
    reg.set_visible(b, true).unwrap();
    reg.reorder_overlay(a, 9).unwrap();
    let snap = reg.snapshot();
    assert_eq!(names(&snap), vec!["a".to_string(), "b".to_string()]);
    assert_eq!(snap[0].z_index, 9);
}

#[test]
fn allow_empty_base_leaves_first_base_hidden() {
    let mut reg = Registry::new_with_options(Config {
        allow_empty_base: true,
        overlay_order: OverlayOrder::ZIndexThenInsertion,
    });
    reg.add("osm".to_string(), LayerKind::Base, 1).unwrap();
    assert!(reg.snapshot().is_empty());
}

#[test]
fn overlay_z_saturates_at_the_top() {
    let mut reg = Registry::new();
    let a = reg.add("a".to_string(), LayerKind::Overlay, 1).unwrap();
    reg.reorder_overlay(a, u64::MAX).unwrap();
    let b = reg.add("b".to_string(), LayerKind::Overlay, 2).unwrap();
    reg.set_visible(a, true).unwrap();
    reg.set_visible(b, true).unwrap();
    let snap = reg.snapshot();
    // the new overlay's z-index saturates instead of wrapping; ties keep the
    // most recent insertion last
    assert_eq!(names(&snap), vec!["a".to_string(), "b".to_string()]);
    assert_eq!(snap[0].z_index, u64::MAX);
    assert_eq!(snap[1].z_index, u64::MAX);
}

#[test]
fn empty_registry_has_empty_snapshot() {
    let reg = Registry::new();
    assert!(reg.snapshot().is_empty());
    assert_eq!(reg.allocated_ids(), 0);
}

#[test]
fn resolve_finds_ids_per_namespace() {
    let mut reg = Registry::new();
    let b = reg.add("osm".to_string(), LayerKind::Base, 1).unwrap();
    let o = reg.add("osm".to_string(), LayerKind::Overlay, 2).unwrap();
    assert_eq!(reg.resolve(&"osm".to_string(), LayerKind::Base), Ok(b));
    assert_eq!(reg.resolve(&"osm".to_string(), LayerKind::Overlay), Ok(o));
    assert_eq!(
        reg.resolve(&"missing".to_string(), LayerKind::Base),
        Err(RegistryError::UnknownName)
    );
}

#[test]
fn rename_repairs_the_name_index() {
    let mut reg = Registry::new();
    let a = reg.add("old".to_string(), LayerKind::Base, 1).unwrap();
    let b = reg.add("other".to_string(), LayerKind::Base, 2).unwrap();
    reg.rename(a, "new".to_string()).unwrap();
    assert_eq!(reg.resolve(&"new".to_string(), LayerKind::Base), Ok(a));
    assert_eq!(
        reg.resolve(&"old".to_string(), LayerKind::Base),
        Err(RegistryError::UnknownName)
    );
    assert_eq!(
        reg.rename(b, "new".to_string()),
        Err(RegistryError::DuplicateName)
    );
    // renaming a layer to its own name succeeds and changes nothing
    assert_eq!(reg.rename(b, "other".to_string()), Ok(()));
    assert_eq!(reg.rename(77, "x".to_string()), Err(RegistryError::UnknownLayer));
}
