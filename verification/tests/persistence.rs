use factorish_core::geom::{Position, Rotation};
use factorish_core::items::ItemType;
use factorish_core::save::{LoadErr, SAVE_VERSION};
use factorish_core::state::FactorishState;
use factorish_core::structure::StructureDynamic;

fn world() -> FactorishState {
    FactorishState::new(16, 16)
}

#[test]
fn save_document_holds_live_structures_compacted() {
    let mut state = world();
    state
        .place(&Position::new(0, 0), &ItemType::Chest, &Rotation::Left)
        .unwrap();
    state
        .place(&Position::new(1, 0), &ItemType::Pipe, &Rotation::Left)
        .unwrap();
    state
        .place(&Position::new(2, 0), &ItemType::Furnace, &Rotation::Left)
        .unwrap();
    // punch a hole in the middle of the arena
    state.harvest(&Position::new(1, 0), true);
    let doc = state.serialize_game();
    assert_eq!(doc.version, SAVE_VERSION);
    assert_eq!(doc.structures.len(), 2);
    assert!(matches!(doc.structures[0].dynamic, StructureDynamic::Chest { .. }));
    assert!(matches!(doc.structures[1].dynamic, StructureDynamic::Furnace));
}

#[test]
fn wires_are_remapped_onto_compacted_indices() {
    let mut state = world();
    // a structure that will be removed sits in slot 0
    state
        .place(&Position::new(9, 9), &ItemType::Chest, &Rotation::Left)
        .unwrap();
    let pole = state
        .place(&Position::new(0, 0), &ItemType::ElectPole, &Rotation::Left)
        .unwrap();
    let engine = state
        .place(&Position::new(3, 0), &ItemType::SteamEngine, &Rotation::Left)
        .unwrap();
    state.harvest(&Position::new(9, 9), true);
    assert_eq!(pole.id, 1);
    assert_eq!(engine.id, 2);
    let doc = state.serialize_game();
    // after compaction the pole is save-index 0 and the engine 1
    assert_eq!(doc.power_wires, vec![(1, 0)]);
}

#[test]
fn round_trip_reproduces_structures_and_wires() {
    let mut state = world();
    state
        .place(&Position::new(5, 5), &ItemType::Chest, &Rotation::Left)
        .unwrap();
    state
        .place(&Position::new(0, 0), &ItemType::ElectPole, &Rotation::Left)
        .unwrap();
    state
        .place(&Position::new(3, 0), &ItemType::SteamEngine, &Rotation::Left)
        .unwrap();
    state
        .place(&Position::new(1, 1), &ItemType::Pipe, &Rotation::Left)
        .unwrap();
    state
        .place(&Position::new(2, 1), &ItemType::Pipe, &Rotation::Left)
        .unwrap();
    // remove the chest so the arena has a dead slot to compact away
    state.harvest(&Position::new(5, 5), true);
    state.simulate(7);
    let doc = state.serialize_game();

    let mut loaded = world();
    loaded.deserialize_game(&doc).expect("load succeeds");

    assert_eq!(loaded.sim_time, state.sim_time);
    assert_eq!(loaded.width, state.width);
    assert_eq!(loaded.height, state.height);
    // same number of live structures, compacted at generation 0
    assert_eq!(loaded.structures.slots.len(), 4);
    for slot in &loaded.structures.slots {
        assert_eq!(slot.gen, 0);
        assert!(slot.bundle.is_some());
    }
    // same kinds and positions, in arena order
    let kinds: Vec<_> = loaded
        .structures
        .slots
        .iter()
        .map(|s| {
            let b = s.bundle.as_ref().unwrap();
            (b.dynamic.item_type(), b.components.position.unwrap())
        })
        .collect();
    assert_eq!(
        kinds,
        vec![
            (ItemType::ElectPole, Position::new(0, 0)),
            (ItemType::SteamEngine, Position::new(3, 0)),
            (ItemType::Pipe, Position::new(1, 1)),
            (ItemType::Pipe, Position::new(2, 1)),
        ]
    );
    // the wire graph survives under the remap: one wire, same network shape
    assert_eq!(loaded.power_wires.len(), 1);
    assert_eq!(loaded.power_networks.len(), 1);
    assert_eq!(loaded.power_networks[0].members.len(), 2);
    // the pipes were relinked after the load
    let p1 = loaded.find_structure_tile(&Position::new(1, 1)).unwrap();
    let linked = loaded.structures.slots[p1]
        .bundle
        .as_ref()
        .unwrap()
        .components
        .fluid_boxes[0]
        .connect_to[2];
    assert!(linked.is_some());
    // the player inventory and tool belt carried over
    assert_eq!(
        loaded.player.inventory.count_item(ItemType::Pipe),
        state.player.inventory.count_item(ItemType::Pipe)
    );
    assert_eq!(loaded.tool_belt, state.tool_belt);
}

#[test]
fn old_save_version_is_refused_whole() {
    let mut state = world();
    state
        .place(&Position::new(1, 1), &ItemType::Pipe, &Rotation::Left)
        .unwrap();
    let mut doc = state.serialize_game();
    doc.version = SAVE_VERSION - 1;
    let mut target = world();
    assert_eq!(target.deserialize_game(&doc), Err(LoadErr::VersionTooOld));
    // nothing was applied
    assert_eq!(target.structures.slots.len(), 0);
}

#[test]
fn malformed_board_is_refused_whole() {
    let state = world();
    let mut doc = state.serialize_game();
    doc.board.pop();
    let mut target = world();
    assert_eq!(target.deserialize_game(&doc), Err(LoadErr::BadShape));
}

#[test]
fn wire_to_missing_structure_is_silently_dropped() {
    let mut state = world();
    state
        .place(&Position::new(0, 0), &ItemType::ElectPole, &Rotation::Left)
        .unwrap();
    state
        .place(&Position::new(3, 0), &ItemType::SteamEngine, &Rotation::Left)
        .unwrap();
    let mut doc = state.serialize_game();
    // a wire that names a structure the document does not contain
    doc.power_wires.push((0, 9));
    doc.power_wires.push((5, 5));
    let mut loaded = world();
    loaded.deserialize_game(&doc).expect("load succeeds");
    assert_eq!(loaded.power_wires.len(), 1);
}
