//! Structures: behavior variants, attached components, and bundles.
//!
//! A structure is one behavior variant per machine kind plus an optional
//! component set: position, rotation, fuel burner, energy buffer,
//! factory/recipe state, and zero or more fluid containers.  Capability
//! actions compose along a fixed precedence chain: a bundle's `input` and
//! `inventory` try the behavior first, then the burner, then the factory.

use vstd::prelude::*;

use crate::fluid::{FluidBox, FluidType};
use crate::geom::{Position, Rotation};
use crate::items::{Inventory, ItemType};

verus! {

/// A generation-checked reference to an arena slot.  A `StructureId` is
/// valid only while the slot at `id` is live and still carries the same
/// generation; after the slot's structure is destroyed the id goes stale
/// and resolves to nothing, never to a later occupant.
#[derive(PartialEq, Eq, Structural, Clone, Copy, Debug, Hash)]
pub struct StructureId {
    pub id: u32,
    pub gen: u32,
}

#[derive(PartialEq, Eq, Structural, Clone, Copy, Debug)]
pub struct Size {
    pub width: i32,
    pub height: i32,
}

#[derive(PartialEq, Eq, Structural, Clone, Copy, Debug)]
pub struct BoundingBox {
    pub x0: i32,
    pub y0: i32,
    pub x1: i32,
    pub y1: i32,
}

#[derive(PartialEq, Eq, Structural, Clone, Copy, Debug)]
pub enum RotateErr {
    NotFound,
    NotSupported,
}

#[derive(PartialEq, Eq, Structural, Clone, Copy, Debug)]
pub enum InputErr {
    /// The structure takes no such item through any of its inventories.
    NotSupported,
    /// No component of the structure has an input inventory at all.
    NoInputInventory,
}

/// The polymorphic behavior object: one variant per machine kind.
#[derive(Clone, Debug)]
pub enum StructureDynamic {
    TransportBelt,
    Inserter,
    Splitter,
    OreMine,
    Chest { inventory: Inventory },
    Furnace,
    Assembler,
    Boiler,
    WaterWell,
    OffshorePump,
    Pipe,
    SteamEngine,
    ElectPole { power: u64 },
}

/// Whether this machine kind can feed power into a wire network.
pub open spec fn spec_power_source(d: StructureDynamic) -> bool {
    d is SteamEngine || d is ElectPole
}

/// Whether this machine kind draws power from a wire network.
pub open spec fn spec_power_sink(d: StructureDynamic) -> bool {
    d is ElectPole || d is Assembler
}

/// How far, in Chebyshev tiles, this machine kind can form power wires.
pub open spec fn spec_wire_reach(d: StructureDynamic) -> u32 {
    if d is ElectPole {
        5u32
    } else {
        3u32
    }
}

/// Whether items can travel over this machine kind.
pub open spec fn spec_movable(d: StructureDynamic) -> bool {
    d is TransportBelt || d is Splitter
}

/// The inventory item a player gets back when harvesting this structure.
pub open spec fn spec_item_type(d: StructureDynamic) -> ItemType {
    match d {
        StructureDynamic::TransportBelt => ItemType::TransportBelt,
        StructureDynamic::Inserter => ItemType::Inserter,
        StructureDynamic::Splitter => ItemType::Splitter,
        StructureDynamic::OreMine => ItemType::OreMine,
        StructureDynamic::Chest { .. } => ItemType::Chest,
        StructureDynamic::Furnace => ItemType::Furnace,
        StructureDynamic::Assembler => ItemType::Assembler,
        StructureDynamic::Boiler => ItemType::Boiler,
        StructureDynamic::WaterWell => ItemType::WaterWell,
        StructureDynamic::OffshorePump => ItemType::OffshorePump,
        StructureDynamic::Pipe => ItemType::Pipe,
        StructureDynamic::SteamEngine => ItemType::SteamEngine,
        StructureDynamic::ElectPole { .. } => ItemType::ElectPole,
    }
}

impl StructureDynamic {
    pub fn power_source(&self) -> (r: bool)
        ensures
            r == spec_power_source(*self),
    {
        matches!(self, StructureDynamic::SteamEngine | StructureDynamic::ElectPole { .. })
    }

    pub fn power_sink(&self) -> (r: bool)
        ensures
            r == spec_power_sink(*self),
    {
        matches!(self, StructureDynamic::ElectPole { .. } | StructureDynamic::Assembler)
    }

    pub fn wire_reach(&self) -> (r: u32)
        ensures
            r == spec_wire_reach(*self),
    {
        match self {
            StructureDynamic::ElectPole { .. } => 5,
            _ => 3,
        }
    }

    pub fn movable(&self) -> (r: bool)
        ensures
            r == spec_movable(*self),
    {
        matches!(self, StructureDynamic::TransportBelt | StructureDynamic::Splitter)
    }

    pub fn item_type(&self) -> (r: ItemType)
        ensures
            r == spec_item_type(*self),
    {
        match self {
            StructureDynamic::TransportBelt => ItemType::TransportBelt,
            StructureDynamic::Inserter => ItemType::Inserter,
            StructureDynamic::Splitter => ItemType::Splitter,
            StructureDynamic::OreMine => ItemType::OreMine,
            StructureDynamic::Chest { .. } => ItemType::Chest,
            StructureDynamic::Furnace => ItemType::Furnace,
            StructureDynamic::Assembler => ItemType::Assembler,
            StructureDynamic::Boiler => ItemType::Boiler,
            StructureDynamic::WaterWell => ItemType::WaterWell,
            StructureDynamic::OffshorePump => ItemType::OffshorePump,
            StructureDynamic::Pipe => ItemType::Pipe,
            StructureDynamic::SteamEngine => ItemType::SteamEngine,
            StructureDynamic::ElectPole { .. } => ItemType::ElectPole,
        }
    }

    /// Every machine kind occupies a single tile.
    pub fn size(&self) -> (r: Size)
        ensures
            r == (Size { width: 1i32, height: 1i32 }),
    {
        Size { width: 1, height: 1 }
    }

    /// Drain up to `demand` stored power.  Only an electric pole serves as
    /// an outlet; every other kind reports no support and is unchanged.
    pub fn power_outlet(&mut self, demand: u64) -> (r: Option<u64>)
        ensures
            match *old(self) {
                StructureDynamic::ElectPole { power } => {
                    let supplied = if demand < power {
                        demand
                    } else {
                        power
                    };
                    r == Some(supplied) && *final(self) == (StructureDynamic::ElectPole {
                        power: (power - supplied) as u64,
                    })
                },
                _ => r == None::<u64> && *final(self) == *old(self),
            },
    {
        match self {
            StructureDynamic::ElectPole { power } => {
                let supplied = if demand < *power {
                    demand
                } else {
                    *power
                };
                *power = *power - supplied;
                Some(supplied)
            },
            _ => None,
        }
    }
}

/// A stored energy buffer, in kilojoule units.
#[derive(PartialEq, Eq, Structural, Clone, Copy, Debug)]
pub struct Energy {
    pub value: u64,
    pub max: u64,
}

/// A fuel burner: holds a fuel inventory; only coal ore burns.
#[derive(Clone, Debug)]
pub struct Burner {
    pub inventory: Inventory,
}

/// Whether the burner accepts this item as fuel.
pub open spec fn spec_fuel_item(t: ItemType) -> bool {
    t == ItemType::CoalOre
}

impl Burner {
    pub fn can_input(&self, item_type: &ItemType) -> (r: bool)
        ensures
            r == spec_fuel_item(*item_type),
    {
        matches!(item_type, ItemType::CoalOre)
    }
}

/// A crafting recipe: item inputs and outputs with optional fluid
/// counterparts, and its power and time costs.
#[derive(Clone, Debug)]
pub struct Recipe {
    pub input: Inventory,
    pub input_fluid: Option<FluidType>,
    pub output: Inventory,
    pub output_fluid: Option<FluidType>,
    pub power_cost: u64,
    pub recipe_time: u64,
}

impl Recipe {
    pub fn new(input: Inventory, output: Inventory, power_cost: u64, recipe_time: u64) -> (r: Self)
        ensures
            r.input == input,
            r.output == output,
            r.input_fluid is None,
            r.output_fluid is None,
            r.power_cost == power_cost,
            r.recipe_time == recipe_time,
    {
        Recipe { input, input_fluid: None, output, output_fluid: None, power_cost, recipe_time }
    }
}

/// Factory/recipe state: the selected recipe and its in/out buffers.
#[derive(Clone, Debug)]
pub struct Factory {
    pub recipe: Option<Recipe>,
    pub input_inventory: Inventory,
    pub output_inventory: Inventory,
}

/// Whether the factory's selected recipe consumes this item.
pub open spec fn spec_factory_accepts(f: Factory, t: ItemType) -> bool {
    match f.recipe {
        Some(recipe) => recipe.input.spec_count(t) > 0,
        None => false,
    }
}

impl Factory {
    pub fn new() -> (r: Self)
        ensures
            r.recipe is None,
            r.input_inventory.wf(),
            r.output_inventory.wf(),
            forall|t: ItemType| #[trigger] r.input_inventory.spec_count(t) == 0,
            forall|t: ItemType| #[trigger] r.output_inventory.spec_count(t) == 0,
    {
        Factory { recipe: None, input_inventory: Inventory::new(), output_inventory: Inventory::new() }
    }

    pub fn can_input(&self, item_type: &ItemType) -> (r: bool)
        requires
            match self.recipe {
                Some(recipe) => recipe.input.wf(),
                None => true,
            },
        ensures
            r == spec_factory_accepts(*self, *item_type),
    {
        match &self.recipe {
            Some(recipe) => {
                proof {
                    crate::items::lemma_count_nonneg(recipe.input.entries@, *item_type);
                }
                recipe.input.count_item(*item_type) > 0
            },
            None => false,
        }
    }
}

/// The optional component set attached to every structure.
#[derive(Clone, Debug)]
pub struct StructureComponents {
    pub position: Option<Position>,
    pub rotation: Option<Rotation>,
    pub burner: Option<Burner>,
    pub energy: Option<Energy>,
    pub factory: Option<Factory>,
    pub fluid_boxes: Vec<FluidBox>,
}

impl StructureComponents {
    pub fn new_with_position(position: Position) -> (r: Self)
        ensures
            r.position == Some(position),
            r.rotation is None,
            r.burner is None,
            r.energy is None,
            r.factory is None,
            r.fluid_boxes@.len() == 0,
    {
        Self {
            position: Some(position),
            rotation: None,
            burner: None,
            energy: None,
            factory: None,
            fluid_boxes: Vec::new(),
        }
    }

    pub fn new_with_position_and_rotation(position: Position, rotation: Rotation) -> (r: Self)
        ensures
            r.position == Some(position),
            r.rotation == Some(rotation),
            r.burner is None,
            r.energy is None,
            r.factory is None,
            r.fluid_boxes@.len() == 0,
    {
        Self {
            position: Some(position),
            rotation: Some(rotation),
            burner: None,
            energy: None,
            factory: None,
            fluid_boxes: Vec::new(),
        }
    }
}

impl Default for StructureComponents {
    fn default() -> (r: Self)
        ensures
            r.position is None,
            r.rotation is None,
            r.burner is None,
            r.energy is None,
            r.factory is None,
            r.fluid_boxes@.len() == 0,
    {
        Self {
            position: None,
            rotation: None,
            burner: None,
            energy: None,
            factory: None,
            fluid_boxes: Vec::new(),
        }
    }
}

/// A behavior object together with the components it owns.
#[derive(Clone, Debug)]
pub struct StructureBundle {
    pub dynamic: StructureDynamic,
    pub components: StructureComponents,
}

/// Whether the behavior itself takes items, ahead of burner and factory.
/// Only a chest stores arbitrary items at the behavior level.
pub open spec fn behavior_accepts(d: StructureDynamic, t: ItemType) -> bool {
    d is Chest
}

impl StructureBundle {
    /// Every inventory and fluid container of the bundle is well formed.
    pub open spec fn wf(self) -> bool {
        &&& match self.dynamic {
            StructureDynamic::Chest { inventory } => inventory.wf(),
            _ => true,
        }
        &&& match self.components.burner {
            Some(b) => b.inventory.wf(),
            None => true,
        }
        &&& match self.components.factory {
            Some(f) => {
                &&& f.input_inventory.wf()
                &&& f.output_inventory.wf()
                &&& match f.recipe {
                    Some(r) => r.input.wf() && r.output.wf(),
                    None => true,
                }
            },
            None => true,
        }
        &&& forall|i: int|
            0 <= i < self.components.fluid_boxes@.len() ==> (#[trigger] self.components.fluid_boxes@[i]).kind_wf()
                && self.components.fluid_boxes@[i].filter_ok()
    }

    /// The chest inventory, when the behavior is a chest.
    pub open spec fn spec_chest_inventory(self) -> Option<Inventory> {
        match self.dynamic {
            StructureDynamic::Chest { inventory } => Some(inventory),
            _ => None,
        }
    }

    /// Whether `input` would accept an item of kind `t`, through any link
    /// of the behavior -> burner -> factory chain.
    pub open spec fn spec_can_input(self, t: ItemType) -> bool {
        ||| behavior_accepts(self.dynamic, t)
        ||| (self.components.burner is Some && spec_fuel_item(t))
        ||| match self.components.factory {
            Some(f) => spec_factory_accepts(f, t),
            None => false,
        }
    }

    /// Room for one more item wherever the chain would put it.
    pub open spec fn spec_input_fits(self, t: ItemType) -> bool {
        if behavior_accepts(self.dynamic, t) {
            self.spec_chest_inventory().unwrap().spec_count(t) < u64::MAX
        } else if self.components.burner is Some && spec_fuel_item(t) {
            self.components.burner.unwrap().inventory.spec_count(t) < u64::MAX
        } else {
            match self.components.factory {
                Some(f) => f.input_inventory.spec_count(t) < u64::MAX,
                None => true,
            }
        }
    }

    pub fn new(
        dynamic: StructureDynamic,
        position: Option<Position>,
        rotation: Option<Rotation>,
        burner: Option<Burner>,
        energy: Option<Energy>,
        factory: Option<Factory>,
        fluid_boxes: Vec<FluidBox>,
    ) -> (r: Self)
        ensures
            r.dynamic == dynamic,
            r.components.position == position,
            r.components.rotation == rotation,
            r.components.burner == burner,
            r.components.energy == energy,
            r.components.factory == factory,
            r.components.fluid_boxes == fluid_boxes,
    {
        Self {
            dynamic,
            components: StructureComponents {
                position,
                rotation,
                burner,
                energy,
                factory,
                fluid_boxes,
            },
        }
    }

    pub fn can_input(&self, item_type: &ItemType) -> (r: bool)
        requires
            self.wf(),
        ensures
            r == self.spec_can_input(*item_type),
    {
        if matches!(self.dynamic, StructureDynamic::Chest { .. }) {
            return true;
        }
        if let Some(burner) = &self.components.burner {
            if burner.can_input(item_type) {
                return true;
            }
        }
        if let Some(factory) = &self.components.factory {
            if factory.can_input(item_type) {
                return true;
            }
        }
        false
    }

    /// Take one item of kind `item`, trying the behavior first, then the
    /// burner, then the factory; exactly the first inventory along that
    /// chain that takes the kind gains one item, everything else is
    /// unchanged.  Fails with `NoInputInventory` when the bundle has no
    /// inventory at all, with `NotSupported` when none takes the kind.
    pub fn input(&mut self, item: ItemType) -> (r: Result<(), InputErr>)
        requires
            old(self).wf(),
            old(self).spec_input_fits(item),
        ensures
            final(self).wf(),
            r is Ok <==> old(self).spec_can_input(item),
            final(self).components.position == old(self).components.position,
            final(self).components.rotation == old(self).components.rotation,
            final(self).components.energy == old(self).components.energy,
            final(self).components.fluid_boxes == old(self).components.fluid_boxes,
            behavior_accepts(old(self).dynamic, item) ==> {
                &&& final(self).spec_chest_inventory() is Some
                &&& inv_add_one(
                    old(self).spec_chest_inventory().unwrap(),
                    final(self).spec_chest_inventory().unwrap(),
                    item,
                )
                &&& final(self).components.burner == old(self).components.burner
                &&& final(self).components.factory == old(self).components.factory
            },
            (!behavior_accepts(old(self).dynamic, item) && old(self).components.burner is Some
                && spec_fuel_item(item)) ==> {
                &&& final(self).dynamic == old(self).dynamic
                &&& final(self).components.burner is Some
                &&& inv_add_one(
                    old(self).components.burner.unwrap().inventory,
                    final(self).components.burner.unwrap().inventory,
                    item,
                )
                &&& final(self).components.factory == old(self).components.factory
            },
            (!behavior_accepts(old(self).dynamic, item) && !(old(self).components.burner is Some
                && spec_fuel_item(item)) && old(self).spec_can_input(item)) ==> {
                &&& final(self).dynamic == old(self).dynamic
                &&& final(self).components.burner == old(self).components.burner
                &&& final(self).components.factory is Some
                &&& old(self).components.factory is Some
                &&& final(self).components.factory.unwrap().recipe == old(
                    self,
                ).components.factory.unwrap().recipe
                &&& final(self).components.factory.unwrap().output_inventory == old(
                    self,
                ).components.factory.unwrap().output_inventory
                &&& inv_add_one(
                    old(self).components.factory.unwrap().input_inventory,
                    final(self).components.factory.unwrap().input_inventory,
                    item,
                )
            },
            !old(self).spec_can_input(item) ==> {
                &&& *final(self) == *old(self)
                &&& r == Err::<(), InputErr>(
                    if old(self).components.burner is None && old(self).components.factory is None {
                        InputErr::NoInputInventory
                    } else {
                        InputErr::NotSupported
                    },
                )
            },
    {
        match &mut self.dynamic {
            StructureDynamic::Chest { inventory } => {
                inventory.add_item(item);
                return Ok(());
            },
            _ => {},
        }
        let mut took_fuel = false;
        if let Some(burner) = &mut self.components.burner {
            if matches!(item, ItemType::CoalOre) {
                burner.inventory.add_item(item);
                took_fuel = true;
            }
        }
        if took_fuel {
            return Ok(());
        }
        let has_burner = self.components.burner.is_some();
        if let Some(factory) = &mut self.components.factory {
            let accepts = factory.can_input(&item);
            if accepts {
                factory.input_inventory.add_item(item);
                return Ok(());
            }
            return Err(InputErr::NotSupported);
        }
        if has_burner {
            Err(InputErr::NotSupported)
        } else {
            Err(InputErr::NoInputInventory)
        }
    }

    /// The inventory a UI panel sees: the behavior's own inventory when it
    /// has one, otherwise the factory's input or output buffer.
    pub fn inventory(&self, is_input: bool) -> (r: Option<&Inventory>)
        ensures
            match r {
                Some(inv) => self.spec_inventory(is_input) == Some(*inv),
                None => self.spec_inventory(is_input) is None,
            },
    {
        match &self.dynamic {
            StructureDynamic::Chest { inventory } => Some(inventory),
            _ => match &self.components.factory {
                Some(factory) => {
                    if is_input {
                        Some(&factory.input_inventory)
                    } else {
                        Some(&factory.output_inventory)
                    }
                },
                None => None,
            },
        }
    }

    pub open spec fn spec_inventory(self, is_input: bool) -> Option<Inventory> {
        match self.dynamic {
            StructureDynamic::Chest { inventory } => Some(inventory),
            _ => match self.components.factory {
                Some(factory) => Some(
                    if is_input {
                        factory.input_inventory
                    } else {
                        factory.output_inventory
                    },
                ),
                None => None,
            },
        }
    }

    /// The set of items this structure can hand out: whatever its chest
    /// holds, or whatever sits in its factory's output buffer.
    pub fn can_output(&self) -> (r: Inventory)
        requires
            self.wf(),
        ensures
            r.wf(),
            forall|t: ItemType|
                #[trigger] r.spec_count(t) == (match self.spec_inventory(false) {
                    Some(inv) => inv.spec_count(t),
                    None => 0,
                }),
    {
        let mut r = Inventory::new();
        match self.inventory(false) {
            Some(inv) => {
                r.merge(inv);
                proof {
                    assert forall|t: ItemType| true implies #[trigger] r.spec_count(t)
                        == inv.spec_count(t) by {
                        crate::items::lemma_count_bounded(inv.entries@, t);
                    }
                }
            },
            None => {},
        }
        r
    }

    /// Hand one item of kind `t` out of the output inventory; fails when
    /// none is there to give.
    pub fn output(&mut self, t: ItemType) -> (r: Result<(), ()>)
        requires
            old(self).wf(),
        ensures
            final(self).wf(),
            final(self).components.position == old(self).components.position,
            final(self).components.rotation == old(self).components.rotation,
            final(self).components.energy == old(self).components.energy,
            final(self).components.burner == old(self).components.burner,
            final(self).components.fluid_boxes == old(self).components.fluid_boxes,
            match old(self).spec_inventory(false) {
                Some(inv) => if inv.spec_count(t) > 0 {
                    &&& r is Ok
                    &&& final(self).spec_inventory(false) matches Some(inv2) && inv2.spec_count(t)
                        == inv.spec_count(t) - 1 && (forall|t2: ItemType|
                        t2 != t ==> #[trigger] inv2.spec_count(t2) == inv.spec_count(t2))
                } else {
                    r is Err && *final(self) == *old(self)
                },
                None => r is Err && *final(self) == *old(self),
            },
    {
        match &mut self.dynamic {
            StructureDynamic::Chest { inventory } => {
                proof {
                    crate::items::lemma_count_nonneg(inventory.entries@, t);
                }
                let have = inventory.count_item(t);
                if have > 0 {
                    inventory.remove_items(t, 1);
                    Ok(())
                } else {
                    Err(())
                }
            },
            _ => {
                match &mut self.components.factory {
                    Some(factory) => {
                        proof {
                            crate::items::lemma_count_nonneg(
                                factory.output_inventory.entries@,
                                t,
                            );
                        }
                        let have = factory.output_inventory.count_item(t);
                        if have > 0 {
                            factory.output_inventory.remove_items(t, 1);
                            Ok(())
                        } else {
                            Err(())
                        }
                    },
                    None => Err(()),
                }
            },
        }
    }

    /// The recipes this structure offers: smelting for a furnace, basic
    /// assembly for an assembler, none for anything else — entry by entry
    /// exactly the table `recipe_data`.
    pub fn get_recipes(&self) -> (r: Vec<Recipe>)
        ensures
            r@.len() == (if self.dynamic is Furnace {
                2int
            } else if self.dynamic is Assembler {
                3int
            } else {
                0int
            }),
            forall|k: int|
                0 <= k < r@.len() ==> (#[trigger] r@[k]).input.wf() && r@[k].output.wf(),
            forall|k: int| 0 <= k < r@.len() ==> recipe_data(self.dynamic, k, #[trigger] r@[k]),
    {
        let mut r: Vec<Recipe> = Vec::new();
        match &self.dynamic {
            StructureDynamic::Furnace => {
                let mut input = Inventory::new();
                input.add_items(ItemType::IronOre, 1);
                let mut output = Inventory::new();
                output.add_items(ItemType::IronPlate, 1);
                r.push(Recipe::new(input, output, 20, 50));
                let mut input = Inventory::new();
                input.add_items(ItemType::CopperOre, 1);
                let mut output = Inventory::new();
                output.add_items(ItemType::CopperPlate, 1);
                r.push(Recipe::new(input, output, 20, 50));
            },
            StructureDynamic::Assembler => {
                let mut input = Inventory::new();
                input.add_items(ItemType::IronPlate, 2);
                let mut output = Inventory::new();
                output.add_items(ItemType::Gear, 1);
                r.push(Recipe::new(input, output, 20, 50));
                let mut input = Inventory::new();
                input.add_items(ItemType::CopperPlate, 1);
                let mut output = Inventory::new();
                output.add_items(ItemType::CopperWire, 2);
                r.push(Recipe::new(input, output, 20, 50));
                let mut input = Inventory::new();
                input.add_items(ItemType::IronPlate, 1);
                input.add_items(ItemType::CopperWire, 3);
                let mut output = Inventory::new();
                output.add_items(ItemType::Circuit, 1);
                r.push(Recipe::new(input, output, 20, 50));
            },
            _ => {},
        }
        r
    }

    /// Pick one of the offered recipes for the factory to work on; the
    /// factory then holds exactly the index-th entry of the recipe table.
    /// Fails when the structure offers no recipes, has no factory, or the
    /// index is out of range.
    pub fn select_recipe(&mut self, index: usize) -> (r: Result<bool, ()>)
        requires
            old(self).wf(),
        ensures
            final(self).wf(),
            final(self).dynamic == old(self).dynamic,
            r is Ok <==> (old(self).components.factory is Some && (index as int) < (
            if old(self).dynamic is Furnace {
                2int
            } else if old(self).dynamic is Assembler {
                3int
            } else {
                0int
            })),
            r is Ok ==> (final(self).components.factory matches Some(f) && f.recipe matches Some(
                rec,
            ) && recipe_data(old(self).dynamic, index as int, rec)),
            r is Err ==> *final(self) == *old(self),
    {
        if self.components.factory.is_none() {
            return Err(());
        }
        let recipes = self.get_recipes();
        if index >= recipes.len() {
            return Err(());
        }
        let mut recipes = recipes;
        let recipe = recipes.remove(index);
        match &mut self.components.factory {
            Some(factory) => {
                factory.recipe = Some(recipe);
                Ok(true)
            },
            None => Err(()),
        }
    }

    /// The recipe the factory currently works on, if any.
    pub fn get_selected_recipe(&self) -> (r: Option<&Recipe>)
        ensures
            match r {
                Some(recipe) => self.components.factory matches Some(f) && f.recipe == Some(
                    *recipe,
                ),
                None => match self.components.factory {
                    Some(f) => f.recipe is None,
                    None => true,
                },
            },
    {
        match &self.components.factory {
            Some(factory) => factory.recipe.as_ref(),
            None => None,
        }
    }

    /// The tile rectangle the structure occupies, when it stands
    /// somewhere: a single tile, half-open on the far sides.
    pub fn bounding_box(&self) -> (r: Option<BoundingBox>)
        requires
            match self.components.position {
                Some(p) => p.x < i32::MAX && p.y < i32::MAX,
                None => true,
            },
        ensures
            match self.components.position {
                Some(p) => r == Some(
                    BoundingBox { x0: p.x, y0: p.y, x1: (p.x + 1) as i32, y1: (p.y + 1) as i32 },
                ),
                None => r is None,
            },
    {
        match &self.components.position {
            Some(p) => Some(BoundingBox { x0: p.x, y0: p.y, x1: p.x + 1, y1: p.y + 1 }),
            None => None,
        }
    }

    /// Take every recoverable item out of the structure before it is
    /// destroyed: its input and output panel inventories, merged (a chest
    /// contributes its one inventory once).  The inventories are left
    /// empty.
    pub fn destroy_inventory(&mut self) -> (r: Inventory)
        requires
            old(self).wf(),
        ensures
            final(self).wf(),
            r.wf(),
            final(self).components.position == old(self).components.position,
            forall|t: ItemType|
                #[trigger] r.spec_count(t) == (match old(self).dynamic {
                    StructureDynamic::Chest { inventory } => inventory.spec_count(t),
                    _ => match old(self).components.factory {
                        Some(f) => crate::items::cap_add(
                            f.input_inventory.spec_count(t),
                            f.output_inventory.spec_count(t),
                        ),
                        None => 0,
                    },
                }),
            // the structure is left with nothing: both panel inventories
            // exist as before, emptied
            (final(self).spec_inventory(true) is Some) == (old(self).spec_inventory(true) is Some),
            (final(self).spec_inventory(false) is Some) == (old(self).spec_inventory(
                false,
            ) is Some),
            match final(self).spec_inventory(true) {
                Some(i2) => forall|t: ItemType| #[trigger] i2.spec_count(t) == 0,
                None => true,
            },
            match final(self).spec_inventory(false) {
                Some(i2) => forall|t: ItemType| #[trigger] i2.spec_count(t) == 0,
                None => true,
            },
    {
        let mut r = Inventory::new();
        match &mut self.dynamic {
            StructureDynamic::Chest { inventory } => {
                let mut taken = Inventory::new();
                core::mem::swap(&mut taken, inventory);
                r.merge(&taken);
                proof {
                    assert forall|t: ItemType| true implies #[trigger] r.spec_count(t)
                        == taken.spec_count(t) by {
                        crate::items::lemma_count_bounded(taken.entries@, t);
                    }
                }
            },
            _ => {
                match &mut self.components.factory {
                    Some(factory) => {
                        let mut taken = Inventory::new();
                        core::mem::swap(&mut taken, &mut factory.input_inventory);
                        r.merge(&taken);
                        proof {
                            assert forall|t: ItemType| true implies #[trigger] r.spec_count(t)
                                == taken.spec_count(t) by {
                                crate::items::lemma_count_bounded(taken.entries@, t);
                            }
                        }
                        let mut taken2 = Inventory::new();
                        core::mem::swap(&mut taken2, &mut factory.output_inventory);
                        r.merge(&taken2);
                    },
                    None => {},
                }
            },
        }
        r
    }

    /// Take every item of kind `t` out of the panel inventory (the
    /// chest's own, or the factory's input or output buffer); returns how
    /// many were taken.  A bundle without such an inventory yields none.
    pub fn take_inventory_items(&mut self, is_input: bool, t: ItemType) -> (r: u64)
        requires
            old(self).wf(),
        ensures
            final(self).wf(),
            final(self).components.position == old(self).components.position,
            final(self).components.rotation == old(self).components.rotation,
            final(self).components.energy == old(self).components.energy,
            final(self).components.burner == old(self).components.burner,
            final(self).components.fluid_boxes == old(self).components.fluid_boxes,
            match old(self).spec_inventory(is_input) {
                Some(inv) => {
                    &&& r as int == inv.spec_count(t)
                    &&& final(self).spec_inventory(is_input) matches Some(inv2)
                        && inv2.spec_count(t) == 0 && (forall|t2: ItemType|
                        t2 != t ==> #[trigger] inv2.spec_count(t2) == inv.spec_count(t2))
                    &&& !(old(self).dynamic is Chest) ==> final(self).spec_inventory(!is_input)
                        == old(self).spec_inventory(!is_input)
                },
                None => r == 0 && *final(self) == *old(self),
            },
    {
        match &mut self.dynamic {
            StructureDynamic::Chest { inventory } => {
                let taken = inventory.remove(t);
                match taken {
                    Some(n) => n,
                    None => 0,
                }
            },
            _ => {
                match &mut self.components.factory {
                    Some(factory) => {
                        if is_input {
                            let taken = factory.input_inventory.remove(t);
                            match taken {
                                Some(n) => n,
                                None => 0,
                            }
                        } else {
                            let taken = factory.output_inventory.remove(t);
                            match taken {
                                Some(n) => n,
                                None => 0,
                            }
                        }
                    },
                    None => 0,
                }
            },
        }
    }

    /// Pour `n` items of kind `t` into the panel inventory, capping at
    /// what one slot can hold; a bundle without such an inventory takes
    /// nothing.  Returns whether the bundle has that inventory.
    pub fn add_inventory_items(&mut self, is_input: bool, t: ItemType, n: u64) -> (r: bool)
        requires
            old(self).wf(),
        ensures
            final(self).wf(),
            final(self).components.position == old(self).components.position,
            final(self).components.rotation == old(self).components.rotation,
            final(self).components.energy == old(self).components.energy,
            final(self).components.burner == old(self).components.burner,
            final(self).components.fluid_boxes == old(self).components.fluid_boxes,
            match old(self).spec_inventory(is_input) {
                Some(inv) => {
                    &&& r == true
                    &&& final(self).spec_inventory(is_input) matches Some(inv2)
                        && inv2.spec_count(t) == crate::items::cap_add(inv.spec_count(t), n as int)
                        && (forall|t2: ItemType|
                        t2 != t ==> #[trigger] inv2.spec_count(t2) == inv.spec_count(t2))
                    &&& !(old(self).dynamic is Chest) ==> final(self).spec_inventory(!is_input)
                        == old(self).spec_inventory(!is_input)
                },
                None => r == false && *final(self) == *old(self),
            },
    {
        match &mut self.dynamic {
            StructureDynamic::Chest { inventory } => {
                inventory.add_items_capped(t, n);
                true
            },
            _ => {
                match &mut self.components.factory {
                    Some(factory) => {
                        if is_input {
                            factory.input_inventory.add_items_capped(t, n);
                        } else {
                            factory.output_inventory.add_items_capped(t, n);
                        }
                        true
                    },
                    None => false,
                }
            },
        }
    }

    /// Rotate the structure a quarter turn: only structures carrying a
    /// rotation component support it.
    pub fn rotate(&mut self) -> (r: Result<(), RotateErr>)
        ensures
            final(self).dynamic == old(self).dynamic,
            match old(self).components.rotation {
                Some(rot) => r is Ok && final(self).components == (StructureComponents {
                    rotation: Some(rot.spec_next()),
                    ..old(self).components
                }),
                None => r == Err::<(), RotateErr>(RotateErr::NotSupported) && *final(self) == *old(
                    self,
                ),
            },
    {
        match &mut self.components.rotation {
            Some(rotation) => {
                *rotation = rotation.next();
                Ok(())
            },
            None => Err(RotateErr::NotSupported),
        }
    }

    pub fn set_rotation(&mut self, rotation: &Rotation) -> (r: Result<(), ()>)
        ensures
            r is Ok,
            *final(self) == (StructureBundle {
                dynamic: old(self).dynamic,
                components: StructureComponents {
                    rotation: Some(*rotation),
                    ..old(self).components
                },
            }),
    {
        self.components.rotation = Some(*rotation);
        Ok(())
    }

    /// Whether the structure's footprint covers `pos`; every machine kind
    /// occupies exactly its own tile.
    pub fn contains(&self, pos: &Position) -> (r: bool)
        ensures
            r == (self.components.position == Some(*pos)),
    {
        match &self.components.position {
            Some(p) => p.x == pos.x && p.y == pos.y,
            None => false,
        }
    }
}


/// The inventory holds exactly `n1` items of kind `t1` and nothing else.
pub open spec fn inv_only(inv: Inventory, t1: ItemType, n1: int) -> bool {
    forall|t: ItemType| #[trigger] inv.spec_count(t) == (if t == t1 {
        n1
    } else {
        0int
    })
}

/// The inventory holds exactly `n1` of `t1` and `n2` of `t2`, nothing else.
pub open spec fn inv_only2(inv: Inventory, t1: ItemType, n1: int, t2: ItemType, n2: int) -> bool {
    forall|t: ItemType| #[trigger] inv.spec_count(t) == (if t == t1 {
        n1
    } else if t == t2 {
        n2
    } else {
        0int
    })
}

/// The recipe table, entry by entry: which items the `index`-th recipe a
/// machine kind offers consumes and produces.
pub open spec fn recipe_data(d: StructureDynamic, index: int, r: Recipe) -> bool {
    &&& r.input.wf()
    &&& r.output.wf()
    &&& r.input_fluid is None
    &&& r.output_fluid is None
    &&& r.power_cost == 20
    &&& r.recipe_time == 50
    &&& if d is Furnace {
        if index == 0 {
            inv_only(r.input, ItemType::IronOre, 1) && inv_only(r.output, ItemType::IronPlate, 1)
        } else if index == 1 {
            inv_only(r.input, ItemType::CopperOre, 1) && inv_only(
                r.output,
                ItemType::CopperPlate,
                1,
            )
        } else {
            false
        }
    } else if d is Assembler {
        if index == 0 {
            inv_only(r.input, ItemType::IronPlate, 2) && inv_only(r.output, ItemType::Gear, 1)
        } else if index == 1 {
            inv_only(r.input, ItemType::CopperPlate, 1) && inv_only(
                r.output,
                ItemType::CopperWire,
                2,
            )
        } else if index == 2 {
            inv_only2(r.input, ItemType::IronPlate, 1, ItemType::CopperWire, 3) && inv_only(
                r.output,
                ItemType::Circuit,
                1,
            )
        } else {
            false
        }
    } else {
        false
    }
}

/// `b` is `a` with exactly one more item of kind `t`.
pub open spec fn inv_add_one(a: Inventory, b: Inventory, t: ItemType) -> bool {
    &&& b.wf()
    &&& b.spec_count(t) == a.spec_count(t) + 1
    &&& forall|t2: ItemType| t2 != t ==> #[trigger] b.spec_count(t2) == a.spec_count(t2)
}

} // verus!
