use std::cell::RefCell;
use std::rc::Rc;

use layer_engine::{
    ControlBinding, Engine, Layer, LayerKind, Registry, RegistryError, Subscriber,
};

struct Counting {
    rounds: Rc<RefCell<usize>>,
    last: Rc<RefCell<Vec<String>>>,
}

impl Subscriber for Counting {
    fn notify(&mut self, _registry: &mut Registry, snapshot: &Vec<Layer>) {
        *self.rounds.borrow_mut() += 1;
        *self.last.borrow_mut() = snapshot.iter().map(|l| l.name.clone()).collect();
    }
}

struct Reentrant {
    rounds: Rc<RefCell<usize>>,
}

impl Subscriber for Reentrant {
    fn notify(&mut self, registry: &mut Registry, snapshot: &Vec<Layer>) {
        assert_eq!(
            registry.add("sneaky".to_string(), LayerKind::Base, 0),
            Err(RegistryError::ReentrantMutation)
        );
        assert_eq!(registry.remove(0), Err(RegistryError::ReentrantMutation));
        assert_eq!(
            registry.set_visible(0, false),
            Err(RegistryError::ReentrantMutation)
        );
        assert_eq!(
            registry.rename(0, "x".to_string()),
            Err(RegistryError::ReentrantMutation)
        );
        assert_eq!(
            registry.reorder_overlay(0, 1),
            Err(RegistryError::ReentrantMutation)
        );
        if *self.rounds.borrow() == 0 {
            // the snapshot handed in is the committed state of the first add
            let names: Vec<&str> = snapshot.iter().map(|l| l.name.as_str()).collect();
            assert_eq!(names, vec!["osm"]);
        }
        *self.rounds.borrow_mut() += 1;
    }
}

#[test]
fn committed_mutations_notify_once_each() {
    let rounds = Rc::new(RefCell::new(0));
    let last = Rc::new(RefCell::new(Vec::new()));
    let reg = Registry::new();
    let mut eng: Engine<Counting> = Engine::new(reg);
    let handle = eng.subscribe(Counting { rounds: Rc::clone(&rounds), last: Rc::clone(&last) });
    assert_eq!(handle, 0);

    eng.add("osm".to_string(), LayerKind::Base, 1).unwrap();
    assert_eq!(*rounds.borrow(), 1);
    assert_eq!(*last.borrow(), vec!["osm".to_string()]);

    // a failed mutation commits nothing, so it notifies nobody
    assert_eq!(
        eng.add("osm".to_string(), LayerKind::Base, 2),
        Err(RegistryError::DuplicateName)
    );
    assert_eq!(*rounds.borrow(), 1);

    eng.add("satellite".to_string(), LayerKind::Base, 3).unwrap();
    assert_eq!(*rounds.borrow(), 2);
    // the second base layer defaults hidden, so the broadcast snapshot kept "osm"
    assert_eq!(*last.borrow(), vec!["osm".to_string()]);
}

#[test]
fn unsubscribe_stops_notifications() {
    let rounds = Rc::new(RefCell::new(0));
    let last = Rc::new(RefCell::new(Vec::new()));
    let reg = Registry::new();
    let mut eng: Engine<Counting> = Engine::new(reg);
    let handle = eng.subscribe(Counting { rounds: Rc::clone(&rounds), last: Rc::clone(&last) });
    eng.add("osm".to_string(), LayerKind::Base, 1).unwrap();
    assert_eq!(*rounds.borrow(), 1);
    assert!(eng.unsubscribe(handle));
    assert!(!eng.unsubscribe(handle));
    eng.add("satellite".to_string(), LayerKind::Base, 2).unwrap();
    assert_eq!(*rounds.borrow(), 1);
}

#[test]
fn reentrant_mutation_is_rejected_and_state_kept() {
    let rounds = Rc::new(RefCell::new(0));
    let reg = Registry::new();
    let mut eng: Engine<Reentrant> = Engine::new(reg);
    eng.subscribe(Reentrant { rounds: Rc::clone(&rounds) });

    eng.add("osm".to_string(), LayerKind::Base, 1).unwrap();
    assert_eq!(*rounds.borrow(), 1);

    // the registry still holds exactly the committed state: nothing the
    // callback tried went through
    let snap = eng.snapshot();
    assert_eq!(snap.len(), 1);
    assert_eq!(snap[0].name, "osm");
    assert_eq!(
        eng.resolve(&"sneaky".to_string(), LayerKind::Base),
        Err(RegistryError::UnknownName)
    );
    // and mutations are accepted again once delivery is over
    let osm = eng.resolve(&"osm".to_string(), LayerKind::Base).unwrap();
    assert_eq!(eng.set_visible(osm, true), Ok(()));
    assert_eq!(*rounds.borrow(), 2);
}

#[test]
fn binding_scenario_base_switching() {
    let reg = Registry::new();
    let mut eng: Engine<Counting> = Engine::new(reg);
    let binding = ControlBinding::new();

    binding.add_base_layer(&mut eng, "osm".to_string(), 1).unwrap();
    let snap = eng.snapshot();
    assert_eq!(snap.len(), 1);
    assert_eq!(snap[0].name, "osm");

    binding
        .add_base_layer(&mut eng, "satellite".to_string(), 2)
        .unwrap();
    let snap = eng.snapshot();
    assert_eq!(snap.len(), 1);
    assert_eq!(snap[0].name, "osm");

    binding.select_base(&mut eng, &"satellite".to_string()).unwrap();
    let snap = eng.snapshot();
    assert_eq!(snap.len(), 1);
    assert_eq!(snap[0].name, "satellite");
    assert_eq!(snap[0].kind, LayerKind::Base);

    let before = eng.snapshot();
    assert_eq!(
        binding.toggle_overlay(&mut eng, &"no_such".to_string()),
        Err(RegistryError::UnknownName)
    );
    let after = eng.snapshot();
    assert_eq!(before.len(), after.len());
    assert_eq!(before[0].name, after[0].name);
}

#[test]
fn binding_scenario_overlay_ordering() {
    let reg = Registry::new();
    let mut eng: Engine<Counting> = Engine::new(reg);
    let binding = ControlBinding::new();

    let roads = binding.add_overlay(&mut eng, "roads".to_string(), 1).unwrap();
    binding.add_overlay(&mut eng, "labels".to_string(), 2).unwrap();
    assert!(binding.toggle_overlay(&mut eng, &"roads".to_string()).unwrap());
    assert!(binding.toggle_overlay(&mut eng, &"labels".to_string()).unwrap());

    eng.reorder_overlay(roads, 5).unwrap();
    let snap = eng.snapshot();
    let names: Vec<&str> = snap.iter().map(|l| l.name.as_str()).collect();
    assert_eq!(names, vec!["labels", "roads"]);
    assert_eq!(snap[0].z_index, 2);
    assert_eq!(snap[1].z_index, 5);

    // toggling again hides the overlay
    assert!(!binding.toggle_overlay(&mut eng, &"roads".to_string()).unwrap());
    let snap = eng.snapshot();
    assert_eq!(snap.len(), 1);
    assert_eq!(snap[0].name, "labels");
}

#[test]
fn binding_remove_forwards_errors_unchanged() {
    let reg = Registry::new();
    let mut eng: Engine<Counting> = Engine::new(reg);
    let binding = ControlBinding::new();
    assert_eq!(
        binding.remove_layer(&mut eng, 5),
        Err(RegistryError::UnknownLayer)
    );
    let id = binding.add_overlay(&mut eng, "roads".to_string(), 1).unwrap();
    assert_eq!(binding.remove_layer(&mut eng, id), Ok(()));
}

#[test]
fn binding_display_mode_is_local_state() {
    let reg = Registry::new();
    let mut eng: Engine<Counting> = Engine::new(reg);
    let mut binding = ControlBinding::new();
    assert!(!binding.is_expanded());
    binding.expand();
    assert!(binding.is_expanded());
    binding.collapse();
    assert!(!binding.is_expanded());
    // no registry interaction took place
    assert!(eng.snapshot().is_empty());
    assert_eq!(eng.allocated_ids(), 0);
}
