use factorish_core::arena::StructureArena;
use factorish_core::fluid::{transfer, FluidBox, FluidType};
use factorish_core::items::{Inventory, ItemType};
use factorish_core::geom::{Position, Rotation};
use factorish_core::structure::{
    StructureBundle, StructureComponents, StructureDynamic, StructureId,
};

fn pipe_bundle() -> StructureBundle {
    StructureBundle {
        dynamic: StructureDynamic::Pipe,
        components: StructureComponents {
            position: None,
            rotation: None,
            burner: None,
            energy: None,
            factory: None,
            fluid_boxes: vec![FluidBox::new(true, true)],
        },
    }
}

#[test]
fn handle_resolves_only_while_generation_matches() {
    let mut arena = StructureArena::new();
    let id = arena.place(pipe_bundle());
    assert!(arena.get(id).is_some());
    // wrong generation: not found, never the occupant
    let stale = StructureId {
        id: id.id,
        gen: id.gen.wrapping_add(1),
    };
    assert!(arena.get(stale).is_none());
    // out of range: not found
    let beyond = StructureId { id: 999, gen: 0 };
    assert!(arena.get(beyond).is_none());
}

#[test]
fn destroyed_handle_goes_stale_after_slot_reuse() {
    let mut arena = StructureArena::new();
    let first = arena.place(pipe_bundle());
    let removed = arena.remove(first);
    assert!(removed.is_some());
    assert!(arena.get(first).is_none());
    // the freed slot is reused under a new generation
    let second = arena.place(pipe_bundle());
    assert_eq!(second.id, first.id);
    assert_ne!(second.gen, first.gen);
    // the old handle must resolve to None, not to the new occupant
    assert!(arena.get(first).is_none());
    assert!(arena.get(second).is_some());
}

#[test]
fn split_take_excludes_center_and_keeps_others() {
    let mut arena = StructureArena::new();
    let a = arena.place(pipe_bundle());
    let b = arena.place(pipe_bundle());
    let center = arena.take_at(a.id as usize).expect("live slot");
    // the "others" view: a no longer resolves, b still does
    assert!(arena.get(a).is_none());
    assert!(arena.get(b).is_some());
    arena.restore_at(a.id as usize, center);
    assert!(arena.get(a).is_some());
}

#[test]
fn remove_of_stale_handle_removes_nothing() {
    let mut arena = StructureArena::new();
    let id = arena.place(pipe_bundle());
    arena.remove(id);
    assert!(arena.remove(id).is_none());
    assert_eq!(arena.len(), 1);
}

#[test]
fn adjacent_pipes_one_link_step() {
    // self amount=50, neighbor amount=10: flow is a tenth of the
    // differential, so 4 units move from self to neighbor.
    let mut sb = FluidBox::new(true, true);
    sb.type_ = Some(FluidType::Water);
    sb.amount = 50;
    let mut nb = FluidBox::new(true, true);
    nb.type_ = Some(FluidType::Water);
    nb.amount = 10;
    transfer(&mut sb, &mut nb);
    assert_eq!(sb.amount, 46);
    assert_eq!(nb.amount, 14);
}

#[test]
fn link_steps_conserve_fluid() {
    let mut sb = FluidBox::new(true, true);
    sb.type_ = Some(FluidType::Water);
    sb.amount = 73;
    let mut nb = FluidBox::new(true, true);
    nb.type_ = Some(FluidType::Water);
    nb.amount = 19;
    for _ in 0..50 {
        transfer(&mut sb, &mut nb);
        assert_eq!(sb.amount + nb.amount, 92);
    }
}

#[test]
fn equalization_is_monotone_and_never_overshoots() {
    let mut a = FluidBox::new(true, true);
    a.type_ = Some(FluidType::Water);
    a.amount = 100;
    let mut b = FluidBox::new(true, true);
    b.type_ = Some(FluidType::Water);
    b.amount = 0;
    let mut last_diff = a.amount - b.amount;
    for _ in 0..100 {
        transfer(&mut a, &mut b);
        // the richer side stays the richer side: no overshoot
        assert!(a.amount >= b.amount);
        let diff = a.amount - b.amount;
        assert!(diff <= last_diff);
        last_diff = diff;
        assert_eq!(a.amount + b.amount, 100);
    }
    // converged to within the integer flow threshold
    assert!(last_diff < 10);
}

#[test]
fn filtered_container_never_accumulates_other_kind() {
    // a steam-filtered container next to a pressurized water container
    let mut sb = FluidBox::new(true, false);
    sb.filter = Some(FluidType::Steam);
    let mut nb = FluidBox::new(true, true);
    nb.type_ = Some(FluidType::Water);
    nb.amount = 90;
    for _ in 0..10 {
        transfer(&mut sb, &mut nb);
        assert_eq!(sb.amount, 0);
        assert_ne!(sb.type_, Some(FluidType::Water));
    }
    assert_eq!(nb.amount, 90);
}

#[test]
fn different_fluids_do_not_mix() {
    let mut sb = FluidBox::new(true, true);
    sb.type_ = Some(FluidType::Steam);
    sb.amount = 40;
    let mut nb = FluidBox::new(true, true);
    nb.type_ = Some(FluidType::Water);
    nb.amount = 90;
    transfer(&mut sb, &mut nb);
    assert_eq!(sb.amount, 40);
    assert_eq!(nb.amount, 90);
    assert_eq!(sb.type_, Some(FluidType::Steam));
}

#[test]
fn closed_valves_block_transfer() {
    let mut sb = FluidBox::new(true, false);
    sb.type_ = Some(FluidType::Water);
    sb.amount = 50;
    let mut nb = FluidBox::new(true, true);
    nb.type_ = Some(FluidType::Water);
    nb.amount = 10;
    // self is the giver but its output valve is closed
    transfer(&mut sb, &mut nb);
    assert_eq!(sb.amount, 50);
    assert_eq!(nb.amount, 10);
}

#[test]
fn inventory_counts_add_and_remove() {
    let mut inv = Inventory::new();
    assert_eq!(inv.count_item(ItemType::IronOre), 0);
    inv.add_items(ItemType::IronOre, 5);
    inv.add_items(ItemType::CoalOre, 2);
    inv.add_items(ItemType::IronOre, 3);
    assert_eq!(inv.count_item(ItemType::IronOre), 8);
    assert_eq!(inv.count_item(ItemType::CoalOre), 2);
    inv.remove_items(ItemType::IronOre, 6);
    assert_eq!(inv.count_item(ItemType::IronOre), 2);
    // removing more than held removes what is there
    inv.remove_items(ItemType::IronOre, 100);
    assert_eq!(inv.count_item(ItemType::IronOre), 0);
    assert_eq!(inv.remove(ItemType::CoalOre), Some(2));
    assert_eq!(inv.remove(ItemType::CoalOre), None);
}

#[test]
fn bundle_input_chain_prefers_behavior_then_burner_then_factory() {
    // a chest takes anything at the behavior level
    let mut chest = StructureBundle {
        dynamic: StructureDynamic::Chest {
            inventory: Inventory::new(),
        },
        components: StructureComponents {
            position: None,
            rotation: None,
            burner: None,
            energy: None,
            factory: None,
            fluid_boxes: Vec::new(),
        },
    };
    assert!(chest.can_input(&ItemType::IronPlate));
    assert!(chest.input(ItemType::IronPlate).is_ok());
    match &chest.dynamic {
        StructureDynamic::Chest { inventory } => {
            assert_eq!(inventory.count_item(ItemType::IronPlate), 1)
        }
        _ => panic!("chest stays a chest"),
    }

    // a furnace takes coal through its burner, nothing else without a recipe
    let mut furnace = StructureBundle {
        dynamic: StructureDynamic::Furnace,
        components: StructureComponents {
            position: None,
            rotation: None,
            burner: Some(factorish_core::structure::Burner {
                inventory: Inventory::new(),
            }),
            energy: None,
            factory: Some(factorish_core::structure::Factory::new()),
            fluid_boxes: Vec::new(),
        },
    };
    assert!(furnace.can_input(&ItemType::CoalOre));
    assert!(!furnace.can_input(&ItemType::IronPlate));
    assert!(furnace.input(ItemType::CoalOre).is_ok());
    assert_eq!(
        furnace
            .components
            .burner
            .as_ref()
            .unwrap()
            .inventory
            .count_item(ItemType::CoalOre),
        1
    );
    assert!(furnace.input(ItemType::IronPlate).is_err());

    // no inventory at all: the typed "no input inventory" failure
    let mut pipe = pipe_bundle();
    assert_eq!(
        pipe.input(ItemType::IronOre),
        Err(factorish_core::structure::InputErr::NoInputInventory)
    );
}

#[test]
fn elect_pole_power_outlet_drains_stored_power() {
    let mut pole = StructureDynamic::ElectPole { power: 30 };
    assert_eq!(pole.power_outlet(10), Some(10));
    assert_eq!(pole.power_outlet(50), Some(20));
    assert_eq!(pole.power_outlet(50), Some(0));
    let mut belt = StructureDynamic::TransportBelt;
    assert_eq!(belt.power_outlet(10), None);
}

#[test]
fn rotation_cycles_and_angles() {
    assert_eq!(Rotation::Left.next(), Rotation::Top);
    assert_eq!(Rotation::Top.next(), Rotation::Right);
    assert_eq!(Rotation::Right.next(), Rotation::Bottom);
    assert_eq!(Rotation::Bottom.next(), Rotation::Left);
    assert_eq!(Rotation::Left.delta(), (-1, 0));
    assert_eq!(Rotation::Left.delta_inv(), (1, 0));
    assert_eq!(Rotation::Left.angle_4(), 2);
    assert_eq!(Rotation::Left.angle_deg(), 180);
    assert!(Rotation::Left.is_horizontal());
    assert!(Rotation::Top.is_vertial());
}

#[test]
fn position_distance_and_neighbors() {
    let a = Position::new(0, 0);
    let b = Position::new(3, 0);
    assert_eq!(a.distance(&b), 3);
    assert_eq!(a.distance(&Position::new(2, -5)), 5);
    assert!(Position::new(1, 0).is_neighbor(&a));
    assert!(!Position::new(1, 1).is_neighbor(&a));
    assert!(!a.is_neighbor(&a));
    // direction slots: 0 = west, 1 = north, 2 = east, 3 = south
    assert_eq!(Position::new(-1, 0).neighbor_index(&a), Some(0));
    assert_eq!(Position::new(0, -1).neighbor_index(&a), Some(1));
    assert_eq!(Position::new(1, 0).neighbor_index(&a), Some(2));
    assert_eq!(Position::new(0, 1).neighbor_index(&a), Some(3));
    assert_eq!(Position::new(2, 0).neighbor_index(&a), None);
}

#[test]
fn recipes_select_and_output() {
    let mut furnace = StructureBundle {
        dynamic: StructureDynamic::Furnace,
        components: StructureComponents {
            position: Some(Position::new(0, 0)),
            rotation: None,
            burner: Some(factorish_core::structure::Burner {
                inventory: Inventory::new(),
            }),
            energy: None,
            factory: Some(factorish_core::structure::Factory::new()),
            fluid_boxes: Vec::new(),
        },
    };
    let recipes = furnace.get_recipes();
    assert_eq!(recipes.len(), 2);
    assert_eq!(recipes[0].input.count_item(ItemType::IronOre), 1);
    assert_eq!(recipes[0].output.count_item(ItemType::IronPlate), 1);
    assert!(furnace.get_selected_recipe().is_none());
    assert_eq!(furnace.select_recipe(0), Ok(true));
    assert!(furnace.get_selected_recipe().is_some());
    assert!(furnace.select_recipe(5).is_err());
    // with a recipe selected, its ingredient is accepted
    assert!(furnace.can_input(&ItemType::IronOre));
    assert!(furnace.input(ItemType::IronOre).is_ok());
    // put something in the output buffer and hand it out
    furnace
        .components
        .factory
        .as_mut()
        .unwrap()
        .output_inventory
        .add_items(ItemType::IronPlate, 2);
    assert_eq!(furnace.can_output().count_item(ItemType::IronPlate), 2);
    assert_eq!(furnace.output(ItemType::IronPlate), Ok(()));
    assert_eq!(furnace.can_output().count_item(ItemType::IronPlate), 1);
    assert!(furnace.output(ItemType::Gear).is_err());
    // destroying recovers the buffers
    let loot = furnace.destroy_inventory();
    assert_eq!(loot.count_item(ItemType::IronPlate), 1);
    assert_eq!(loot.count_item(ItemType::IronOre), 1);
    assert_eq!(furnace.can_output().count_item(ItemType::IronPlate), 0);
}

#[test]
fn bounding_box_covers_one_tile() {
    let mut pipe = pipe_bundle();
    assert!(pipe.bounding_box().is_none());
    pipe.components.position = Some(Position::new(3, 4));
    let bb = pipe.bounding_box().unwrap();
    assert_eq!((bb.x0, bb.y0, bb.x1, bb.y1), (3, 4, 4, 5));
    assert!(pipe.contains(&Position::new(3, 4)));
    assert!(!pipe.contains(&Position::new(4, 4)));
}
