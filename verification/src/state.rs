//! The simulation context: board, arena, wires, networks, player.
//!
//! One explicit state object owns the whole world.  Placement and
//! removal keep the derived state in step: power wires are created for
//! every compatible structure within reach, the networks are rebuilt from
//! scratch on every topology change, and fluid neighbor links are rescanned
//! around the affected tile.

use vstd::prelude::*;

use crate::arena::{next_gen, StructureArena, StructureEntry};
use crate::fluid::{FluidBox, FluidType};
use crate::flow::fluid_simulate;
use crate::geom::{chebyshev_dist, opposite_dir, spec_neighbor_index, Position, Rotation};
use crate::items::{Inventory, ItemType};
use crate::power::{build_power_networks, nets_inv, PowerNetwork, PowerWire};
use crate::structure::{
    spec_power_sink, spec_power_source, spec_wire_reach, Burner, Factory, StructureBundle,
    StructureComponents, StructureDynamic, StructureId,
};

verus! {

/// One board tile; the core only tracks passability by water.
#[derive(PartialEq, Eq, Structural, Clone, Copy, Debug)]
pub struct Cell {
    pub water: bool,
}

#[derive(Clone, Debug)]
pub struct Player {
    pub inventory: Inventory,
}

/// An item lying on the ground.
#[derive(PartialEq, Eq, Structural, Clone, Copy, Debug)]
pub struct DropItem {
    pub type_: ItemType,
    pub position: Position,
}

/// One slot of the drop-item list: like an arena slot, the generation
/// moves on when the slot is reused, so stale item handles are detected.
#[derive(PartialEq, Eq, Structural, Clone, Copy, Debug)]
pub struct DropItemEntry {
    pub gen: u32,
    pub item: Option<DropItem>,
}

/// A generation-checked reference to a drop-item slot.
#[derive(PartialEq, Eq, Structural, Clone, Copy, Debug)]
pub struct DropItemId {
    pub id: u32,
    pub gen: u32,
}

/// Whether a live drop item lies at `pos`.
pub open spec fn item_at(items: Seq<DropItemEntry>, pos: Position) -> bool {
    exists|k: int|
        0 <= k < items.len() && ((#[trigger] items[k]).item matches Some(it) && it.position == pos)
}

/// How many live drop items of kind `t` lie at `pos`.
pub open spec fn items_at_count(items: Seq<DropItemEntry>, pos: Position, t: ItemType) -> int
    decreases items.len(),
{
    if items.len() == 0 {
        0
    } else {
        (match items[0].item {
            Some(it) => if it.position == pos && it.type_ == t {
                1int
            } else {
                0int
            },
            None => 0int,
        }) + items_at_count(items.drop_first(), pos, t)
    }
}

/// Appending one slot adds exactly its contribution to the tile's count.
pub proof fn lemma_items_count_push(s: Seq<DropItemEntry>, e: DropItemEntry, pos: Position)
    ensures
        forall|t: ItemType|
            #[trigger] items_at_count(s.push(e), pos, t) == items_at_count(s, pos, t) + (
            match e.item {
                Some(it) => if it.position == pos && it.type_ == t {
                    1int
                } else {
                    0int
                },
                None => 0int,
            }),
    decreases s.len(),
{
    assert forall|t: ItemType|
        #[trigger] items_at_count(s.push(e), pos, t) == items_at_count(s, pos, t) + (
        match e.item {
            Some(it) => if it.position == pos && it.type_ == t {
                1int
            } else {
                0int
            },
            None => 0int,
        }) by {
        lemma_items_count_push_one(s, e, pos, t);
    }
}

proof fn lemma_items_count_push_one(s: Seq<DropItemEntry>, e: DropItemEntry, pos: Position, t: ItemType)
    ensures
        items_at_count(s.push(e), pos, t) == items_at_count(s, pos, t) + (match e.item {
            Some(it) => if it.position == pos && it.type_ == t {
                1int
            } else {
                0int
            },
            None => 0int,
        }),
    decreases s.len(),
{
    assert(s.push(e).len() == s.len() + 1);
    assert(s.push(e)[0] == if s.len() == 0 {
        e
    } else {
        s[0]
    });
    if s.len() == 0 {
        assert(s.push(e).drop_first() =~= Seq::<DropItemEntry>::empty());
        assert(items_at_count(s.push(e), pos, t) == (match s.push(e)[0].item {
            Some(it) => if it.position == pos && it.type_ == t {
                1int
            } else {
                0int
            },
            None => 0int,
        }) + items_at_count(s.push(e).drop_first(), pos, t));
    } else {
        assert(s.push(e).drop_first() =~= s.drop_first().push(e));
        lemma_items_count_push_one(s.drop_first(), e, pos, t);
        assert(items_at_count(s.push(e), pos, t) == (match s.push(e)[0].item {
            Some(it) => if it.position == pos && it.type_ == t {
                1int
            } else {
                0int
            },
            None => 0int,
        }) + items_at_count(s.push(e).drop_first(), pos, t));
        assert(items_at_count(s, pos, t) == (match s[0].item {
            Some(it) => if it.position == pos && it.type_ == t {
                1int
            } else {
                0int
            },
            None => 0int,
        }) + items_at_count(s.drop_first(), pos, t));
    }
}

#[derive(PartialEq, Eq, Structural, Clone, Copy, Debug)]
pub enum NewObjectErr {
    BlockedByStructure,
    BlockedByItem,
    OutOfMap,
    OnWater,
    NotAStructure,
}

/// What the player currently has selected, if anything.
#[derive(PartialEq, Eq, Structural, Clone, Copy, Debug)]
pub enum SelectedItem {
    ToolBelt(usize),
    PlayerInventory(ItemType),
    StructInventory(Position, ItemType),
}

pub struct FactorishState {
    pub width: u32,
    pub height: u32,
    pub board: Vec<Cell>,
    pub structures: StructureArena,
    pub power_wires: Vec<PowerWire>,
    pub power_networks: Vec<PowerNetwork>,
    pub player: Player,
    pub tool_belt: [Option<ItemType>; 10],
    pub selected_item: Option<SelectedItem>,
    pub tool_rotation: Rotation,
    pub selected_structure_inventory: Option<Position>,
    pub drop_items: Vec<DropItemEntry>,
    pub sim_time: u64,
    pub debug_bbox: bool,
    pub debug_fluidbox: bool,
    pub debug_power_network: bool,
}

/// Whether the slot holds a live structure standing at `pos`.
pub open spec fn slot_at(e: StructureEntry, pos: Position) -> bool {
    match e.bundle {
        Some(b) => b.components.position == Some(pos),
        None => false,
    }
}

impl FactorishState {
    pub open spec fn spec_in_bounds(self, pos: Position) -> bool {
        0 <= pos.x < self.width && 0 <= pos.y < self.height
    }

    pub open spec fn cell_index(self, pos: Position) -> int {
        pos.y * self.width + pos.x
    }

    pub open spec fn spec_cell_at(self, pos: Position) -> Cell {
        self.board@[self.cell_index(pos)]
    }

    /// Whether a live structure stands at `pos`.
    pub open spec fn occupied(self, pos: Position) -> bool {
        exists|k: int|
            0 <= k < self.structures.slots@.len() && slot_at(
                #[trigger] self.structures.slots@[k],
                pos,
            )
    }

    /// No two live structures share a tile.
    pub open spec fn positions_distinct(self) -> bool {
        forall|k1: int, k2: int|
            0 <= k1 < self.structures.slots@.len() && 0 <= k2 < self.structures.slots@.len() && k1
                != k2 ==> match (
                (#[trigger] self.structures.slots@[k1]).bundle,
                (#[trigger] self.structures.slots@[k2]).bundle,
            ) {
                (Some(b1), Some(b2)) => !(b1.components.position is Some
                    && b1.components.position == b2.components.position),
                _ => true,
            }
    }

    /// Every live structure knows where it stands.
    pub open spec fn positions_set(self) -> bool {
        forall|k: int|
            0 <= k < self.structures.slots@.len() ==> match (#[trigger] self.structures.slots@[k]).bundle {
                Some(b) => b.components.position is Some,
                None => true,
            }
    }

    /// Every wire joins two distinct live structures.
    pub open spec fn wires_wf(self) -> bool {
        forall|k: int|
            0 <= k < self.power_wires@.len() ==> self.structures.valid_id(
                (#[trigger] self.power_wires@[k]).0,
            ) && self.structures.valid_id(self.power_wires@[k].1) && self.power_wires@[k].0
                != self.power_wires@[k].1
    }

    pub open spec fn wf(self) -> bool {
        &&& self.player.inventory.wf()
        &&& self.board@.len() == self.width * self.height
        &&& self.structures.wf()
        &&& self.positions_set()
        &&& self.positions_distinct()
        &&& self.wires_wf()
        &&& nets_inv(self.power_wires@, self.power_networks@)
        &&& self.structures.slots@.len() < u32::MAX
    }

    /// A fresh world of land tiles with the player's starting inventory.
    pub fn new(width: u32, height: u32) -> (r: FactorishState)
        requires
            width * height < usize::MAX,
        ensures
            r.wf(),
            r.width == width,
            r.height == height,
            r.structures.slots@.len() == 0,
            r.power_wires@.len() == 0,
            r.sim_time == 0,
            forall|pos: Position| r.spec_in_bounds(pos) ==> !(#[trigger] r.spec_cell_at(pos)).water,
    {
        let n = (width as usize) * (height as usize);
        let mut board: Vec<Cell> = Vec::new();
        let mut i: usize = 0;
        while i < n
            invariant
                0 <= i <= n,
                board@.len() == i,
                forall|k: int| 0 <= k < i ==> !(#[trigger] board@[k]).water,
            decreases n - i,
        {
            board.push(Cell { water: false });
            i = i + 1;
        }
        let mut inventory = Inventory::new();
        inventory.add_items(ItemType::TransportBelt, 10);
        inventory.add_items(ItemType::Inserter, 5);
        inventory.add_items(ItemType::OreMine, 5);
        inventory.add_items(ItemType::Chest, 3);
        inventory.add_items(ItemType::Furnace, 3);
        inventory.add_items(ItemType::Assembler, 3);
        inventory.add_items(ItemType::Boiler, 3);
        inventory.add_items(ItemType::OffshorePump, 2);
        inventory.add_items(ItemType::Pipe, 15);
        inventory.add_items(ItemType::SteamEngine, 2);
        let power_wires: Vec<PowerWire> = Vec::new();
        let power_networks = build_power_networks(&power_wires);
        let mut tool_belt: [Option<ItemType>; 10] = [
            None, None, None, None, None, None, None, None, None, None,
        ];
        tool_belt[0] = Some(ItemType::OreMine);
        tool_belt[1] = Some(ItemType::Inserter);
        tool_belt[2] = Some(ItemType::TransportBelt);
        tool_belt[3] = Some(ItemType::Furnace);
        let r = FactorishState {
            width,
            height,
            board,
            structures: StructureArena::new(),
            power_wires,
            power_networks,
            player: Player { inventory },
            tool_belt,
            selected_item: None,
            tool_rotation: Rotation::Left,
            selected_structure_inventory: None,
            drop_items: Vec::new(),
            sim_time: 0,
            debug_bbox: false,
            debug_fluidbox: false,
            debug_power_network: false,
        };
        proof {
            assert forall|pos: Position| r.spec_in_bounds(pos) implies !(#[trigger] r.spec_cell_at(
                pos,
            )).water by {
                assert(0 <= r.cell_index(pos) < r.width * r.height) by (nonlinear_arith)
                    requires
                        0 <= pos.x < r.width,
                        0 <= pos.y < r.height,
                        r.cell_index(pos) == pos.y * r.width + pos.x,
                ;
            }
        }
        r
    }

    /// The tile at `pos`, or nothing outside the board.
    pub fn tile_at(&self, tile: &Position) -> (r: Option<Cell>)
        requires
            self.wf(),
        ensures
            r is Some <==> self.spec_in_bounds(*tile),
            r is Some ==> r == Some(self.spec_cell_at(*tile)),
    {
        if 0 <= tile.x && (tile.x as u32) < self.width && 0 <= tile.y && (tile.y as u32)
            < self.height {
            let blen = self.board.len();
            proof {
                assert(0 <= self.cell_index(*tile) < self.width * self.height) by (nonlinear_arith)
                    requires
                        0 <= tile.x < self.width,
                        0 <= tile.y < self.height,
                        self.cell_index(*tile) == tile.y * self.width + tile.x,
                ;
            }
            let idx = (tile.y as usize) * (self.width as usize) + (tile.x as usize);
            Some(self.board[idx])
        } else {
            None
        }
    }

    /// Turn a tile into water or land.
    pub fn set_water(&mut self, tile: &Position, water: bool)
        requires
            old(self).wf(),
            old(self).spec_in_bounds(*tile),
        ensures
            final(self).wf(),
            final(self).spec_cell_at(*tile) == (Cell { water }),
            *final(self) == (FactorishState { board: final(self).board, ..*old(self) }),
            final(self).board@.len() == old(self).board@.len(),
    {
        let blen = self.board.len();
        proof {
            assert(0 <= self.cell_index(*tile) < self.width * self.height) by (nonlinear_arith)
                requires
                    0 <= tile.x < self.width,
                    0 <= tile.y < self.height,
                    self.cell_index(*tile) == tile.y * self.width + tile.x,
            ;
        }
        let idx = (tile.y as usize) * (self.width as usize) + (tile.x as usize);
        self.board[idx] = Cell { water };
    }

    /// Look a structure handle up, with generation validation.
    pub fn get_structure(&self, id: StructureId) -> (r: Option<&StructureBundle>)
        ensures
            r is Some <==> self.structures.valid_id(id),
            match r {
                Some(b) => self.structures.spec_get(id) == Some(*b),
                None => self.structures.spec_get(id) is None,
            },
    {
        self.structures.get(id)
    }

    /// The index of the live structure standing at `tile`, if any.
    pub fn find_structure_tile(&self, tile: &Position) -> (r: Option<usize>)
        ensures
            match r {
                Some(i) => i < self.structures.slots@.len() && slot_at(
                    self.structures.slots@[i as int],
                    *tile,
                ),
                None => !self.occupied(*tile),
            },
    {
        let n = self.structures.len();
        let mut i: usize = 0;
        while i < n
            invariant
                n == self.structures.slots@.len(),
                0 <= i <= n,
                forall|k: int| 0 <= k < i ==> !slot_at(#[trigger] self.structures.slots@[k], *tile),
            decreases n - i,
        {
            let found = match self.structures.get_at(i) {
                Some(e) => match &e.bundle {
                    Some(b) => b.contains(tile),
                    None => false,
                },
                None => false,
            };
            if found {
                return Some(i);
            }
            i = i + 1;
        }
        None
    }

    /// Whether a live drop item sits at `pos`.
    pub fn find_item(&self, pos: &Position) -> (r: bool)
        ensures
            r == item_at(self.drop_items@, *pos),
    {
        let n = self.drop_items.len();
        let mut i: usize = 0;
        while i < n
            invariant
                n == self.drop_items@.len(),
                0 <= i <= n,
                forall|k: int|
                    0 <= k < i ==> !((#[trigger] self.drop_items@[k]).item matches Some(it)
                        && it.position == *pos),
            decreases n - i,
        {
            let hit = match &self.drop_items[i].item {
                Some(it) => it.position.x == pos.x && it.position.y == pos.y,
                None => false,
            };
            if hit {
                proof {
                    assert((self.drop_items@[i as int]).item matches Some(it) && it.position
                        == *pos);
                }
                return true;
            }
            i = i + 1;
        }
        false
    }
}


/// The machine kinds a structure can be built from.
pub open spec fn is_structure_kind(kind: ItemType) -> bool {
    ||| kind == ItemType::TransportBelt
    ||| kind == ItemType::Inserter
    ||| kind == ItemType::Splitter
    ||| kind == ItemType::OreMine
    ||| kind == ItemType::Chest
    ||| kind == ItemType::Furnace
    ||| kind == ItemType::Assembler
    ||| kind == ItemType::Boiler
    ||| kind == ItemType::WaterWell
    ||| kind == ItemType::OffshorePump
    ||| kind == ItemType::Pipe
    ||| kind == ItemType::SteamEngine
    ||| kind == ItemType::ElectPole
}

/// The kinds that carry a rotation component when built.
pub open spec fn wants_rotation(kind: ItemType) -> bool {
    ||| kind == ItemType::TransportBelt
    ||| kind == ItemType::Inserter
    ||| kind == ItemType::Splitter
    ||| kind == ItemType::OreMine
}

/// A newly built fluid container: empty, at default capacity, unlinked.
pub open spec fn box_fresh(
    b: FluidBox,
    input: bool,
    output: bool,
    t: Option<FluidType>,
    f: Option<FluidType>,
) -> bool {
    &&& b.amount == 0
    &&& b.max_amount == 100
    &&& b.input_enable == input
    &&& b.output_enable == output
    &&& b.type_ == t
    &&& b.filter == f
}

/// An empty inventory.
pub open spec fn inv_empty(inv: Inventory) -> bool {
    inv.wf() && forall|t: ItemType| #[trigger] inv.spec_count(t) == 0
}

/// What a freshly built structure of each kind looks like, links aside.
pub open spec fn bundle_of_kind(
    kind: ItemType,
    pos: Position,
    rot: Rotation,
    b: StructureBundle,
) -> bool {
    &&& b.components.position == Some(pos)
    &&& b.components.rotation == (if wants_rotation(kind) {
        Some(rot)
    } else {
        None::<Rotation>
    })
    &&& if kind == ItemType::TransportBelt {
        b.dynamic is TransportBelt && b.components.burner is None && b.components.factory is None
            && b.components.energy is None && b.components.fluid_boxes@.len() == 0
    } else if kind == ItemType::Inserter {
        b.dynamic is Inserter && b.components.burner is None && b.components.factory is None
            && b.components.energy is None && b.components.fluid_boxes@.len() == 0
    } else if kind == ItemType::Splitter {
        b.dynamic is Splitter && b.components.burner is None && b.components.factory is None
            && b.components.energy is None && b.components.fluid_boxes@.len() == 0
    } else if kind == ItemType::OreMine {
        &&& b.dynamic is OreMine
        &&& b.components.burner matches Some(burner) && inv_empty(burner.inventory)
        &&& b.components.factory is None
        &&& b.components.energy is None
        &&& b.components.fluid_boxes@.len() == 0
    } else if kind == ItemType::Chest {
        &&& b.dynamic matches StructureDynamic::Chest { inventory } && inv_empty(inventory)
        &&& b.components.burner is None
        &&& b.components.factory is None
        &&& b.components.energy is None
        &&& b.components.fluid_boxes@.len() == 0
    } else if kind == ItemType::Furnace {
        &&& b.dynamic is Furnace
        &&& b.components.burner matches Some(burner) && inv_empty(burner.inventory)
        &&& b.components.factory matches Some(f) && f.recipe is None && inv_empty(f.input_inventory)
            && inv_empty(f.output_inventory)
        &&& b.components.energy is None
        &&& b.components.fluid_boxes@.len() == 0
    } else if kind == ItemType::Assembler {
        &&& b.dynamic is Assembler
        &&& b.components.burner is None
        &&& b.components.factory matches Some(f) && f.recipe is None && inv_empty(f.input_inventory)
            && inv_empty(f.output_inventory)
        &&& b.components.energy == Some(crate::structure::Energy { value: 0, max: 100 })
        &&& b.components.fluid_boxes@.len() == 0
    } else if kind == ItemType::Boiler {
        &&& b.dynamic is Boiler
        &&& b.components.burner matches Some(burner) && inv_empty(burner.inventory)
        &&& b.components.factory is None
        &&& b.components.energy is None
        &&& b.components.fluid_boxes@.len() == 2
        &&& box_fresh(b.components.fluid_boxes@[0], true, false, None, Some(FluidType::Water))
        &&& box_fresh(
            b.components.fluid_boxes@[1],
            false,
            true,
            Some(FluidType::Steam),
            Some(FluidType::Steam),
        )
    } else if kind == ItemType::WaterWell {
        b.dynamic is WaterWell && b.components.burner is None && b.components.factory is None
            && b.components.energy is None && b.components.fluid_boxes@.len() == 1 && box_fresh(
            b.components.fluid_boxes@[0],
            false,
            true,
            Some(FluidType::Water),
            None,
        )
    } else if kind == ItemType::OffshorePump {
        b.dynamic is OffshorePump && b.components.burner is None && b.components.factory is None
            && b.components.energy is None && b.components.fluid_boxes@.len() == 1 && box_fresh(
            b.components.fluid_boxes@[0],
            false,
            true,
            Some(FluidType::Water),
            None,
        )
    } else if kind == ItemType::Pipe {
        b.dynamic is Pipe && b.components.burner is None && b.components.factory is None
            && b.components.energy is None && b.components.fluid_boxes@.len() == 1 && box_fresh(
            b.components.fluid_boxes@[0],
            true,
            true,
            None,
            None,
        )
    } else if kind == ItemType::SteamEngine {
        b.dynamic is SteamEngine && b.components.burner is None && b.components.factory is None
            && b.components.energy == Some(crate::structure::Energy { value: 0, max: 100 })
            && b.components.fluid_boxes@.len() == 1 && box_fresh(
            b.components.fluid_boxes@[0],
            true,
            false,
            None,
            Some(FluidType::Steam),
        )
    } else if kind == ItemType::ElectPole {
        b.dynamic == (StructureDynamic::ElectPole { power: 0u64 }) && b.components.burner is None
            && b.components.factory is None && b.components.energy is None
            && b.components.fluid_boxes@.len() == 0
    } else {
        false
    }
}

impl FactorishState {
    /// Build a fresh bundle of the given machine kind standing at `pos`.
    /// The tool rotation is attached only to the kinds that use one.
    pub fn new_structure(kind: &ItemType, cursor: &Position, rotation: &Rotation) -> (r: Result<
        StructureBundle,
        NewObjectErr,
    >)
        ensures
            r is Ok <==> is_structure_kind(*kind),
            match r {
                Ok(b) => bundle_of_kind(*kind, *cursor, *rotation, b) && b.wf(),
                Err(e) => e == NewObjectErr::NotAStructure,
            },
    {
        let pos = Some(*cursor);
        let rot = Some(*rotation);
        let b = match kind {
            ItemType::TransportBelt => StructureBundle::new(
                StructureDynamic::TransportBelt,
                pos,
                rot,
                None,
                None,
                None,
                Vec::new(),
            ),
            ItemType::Inserter => StructureBundle::new(
                StructureDynamic::Inserter,
                pos,
                rot,
                None,
                None,
                None,
                Vec::new(),
            ),
            ItemType::Splitter => StructureBundle::new(
                StructureDynamic::Splitter,
                pos,
                rot,
                None,
                None,
                None,
                Vec::new(),
            ),
            ItemType::OreMine => StructureBundle::new(
                StructureDynamic::OreMine,
                pos,
                rot,
                Some(Burner { inventory: Inventory::new() }),
                None,
                None,
                Vec::new(),
            ),
            ItemType::Chest => StructureBundle::new(
                StructureDynamic::Chest { inventory: Inventory::new() },
                pos,
                None,
                None,
                None,
                None,
                Vec::new(),
            ),
            ItemType::Furnace => StructureBundle::new(
                StructureDynamic::Furnace,
                pos,
                None,
                Some(Burner { inventory: Inventory::new() }),
                None,
                Some(Factory::new()),
                Vec::new(),
            ),
            ItemType::Assembler => StructureBundle::new(
                StructureDynamic::Assembler,
                pos,
                None,
                None,
                Some(crate::structure::Energy { value: 0, max: 100 }),
                Some(Factory::new()),
                Vec::new(),
            ),
            ItemType::Boiler => {
                let mut boxes: Vec<FluidBox> = Vec::new();
                let mut input_box = FluidBox::new(true, false);
                input_box.filter = Some(FluidType::Water);
                boxes.push(input_box);
                let mut output_box = FluidBox::new(false, true).set_type(&FluidType::Steam);
                output_box.filter = Some(FluidType::Steam);
                boxes.push(output_box);
                StructureBundle::new(
                    StructureDynamic::Boiler,
                    pos,
                    None,
                    Some(Burner { inventory: Inventory::new() }),
                    None,
                    None,
                    boxes,
                )
            },
            ItemType::WaterWell => {
                let mut boxes: Vec<FluidBox> = Vec::new();
                boxes.push(FluidBox::new(false, true).set_type(&FluidType::Water));
                StructureBundle::new(
                    StructureDynamic::WaterWell,
                    pos,
                    None,
                    None,
                    None,
                    None,
                    boxes,
                )
            },
            ItemType::OffshorePump => {
                let mut boxes: Vec<FluidBox> = Vec::new();
                boxes.push(FluidBox::new(false, true).set_type(&FluidType::Water));
                StructureBundle::new(
                    StructureDynamic::OffshorePump,
                    pos,
                    None,
                    None,
                    None,
                    None,
                    boxes,
                )
            },
            ItemType::Pipe => {
                let mut boxes: Vec<FluidBox> = Vec::new();
                boxes.push(FluidBox::new(true, true));
                StructureBundle::new(StructureDynamic::Pipe, pos, None, None, None, None, boxes)
            },
            ItemType::SteamEngine => {
                let mut boxes: Vec<FluidBox> = Vec::new();
                let mut input_box = FluidBox::new(true, false);
                input_box.filter = Some(FluidType::Steam);
                boxes.push(input_box);
                StructureBundle::new(
                    StructureDynamic::SteamEngine,
                    pos,
                    None,
                    None,
                    Some(crate::structure::Energy { value: 0, max: 100 }),
                    None,
                    boxes,
                )
            },
            ItemType::ElectPole => StructureBundle::new(
                StructureDynamic::ElectPole { power: 0 },
                pos,
                None,
                None,
                None,
                None,
                Vec::new(),
            ),
            _ => {
                return Err(NewObjectErr::NotAStructure);
            },
        };
        Ok(b)
    }
}


/// Two containers equal in everything but their neighbor links.
pub open spec fn box_eq_mod_links(b1: FluidBox, b2: FluidBox) -> bool {
    &&& b1.type_ == b2.type_
    &&& b1.amount == b2.amount
    &&& b1.max_amount == b2.max_amount
    &&& b1.input_enable == b2.input_enable
    &&& b1.output_enable == b2.output_enable
    &&& b1.filter == b2.filter
}

/// What a neighbor-link rescan may change in a slot: only the `connect_to`
/// fields of a live bundle's containers.
pub open spec fn link_frame(e1: StructureEntry, e2: StructureEntry) -> bool {
    &&& e2.gen == e1.gen
    &&& match (e1.bundle, e2.bundle) {
        (Some(b1), Some(b2)) => {
            &&& b2.dynamic == b1.dynamic
            &&& b2.components.position == b1.components.position
            &&& b2.components.rotation == b1.components.rotation
            &&& b2.components.burner == b1.components.burner
            &&& b2.components.energy == b1.components.energy
            &&& b2.components.factory == b1.components.factory
            &&& b2.components.fluid_boxes@.len() == b1.components.fluid_boxes@.len()
            &&& forall|k: int|
                0 <= k < b1.components.fluid_boxes@.len() ==> box_eq_mod_links(
                    #[trigger] b1.components.fluid_boxes@[k],
                    b2.components.fluid_boxes@[k],
                )
        },
        (None, None) => true,
        _ => false,
    }
}

pub proof fn lemma_link_frame_trans(e1: StructureEntry, e2: StructureEntry, e3: StructureEntry)
    requires
        link_frame(e1, e2),
        link_frame(e2, e3),
    ensures
        link_frame(e1, e3),
{
}

/// Replace one directional slot of a link array.
fn set_dir(
    arr: [Option<StructureId>; 4],
    d: usize,
    v: Option<StructureId>,
) -> (r: [Option<StructureId>; 4])
    requires
        d < 4,
    ensures
        r@[d as int] == v,
        forall|k: int| 0 <= k < 4 && k != d ==> r@[k] == arr@[k],
{
    let r = if d == 0 {
        [v, arr[1], arr[2], arr[3]]
    } else if d == 1 {
        [arr[0], v, arr[2], arr[3]]
    } else if d == 2 {
        [arr[0], arr[1], v, arr[3]]
    } else {
        [arr[0], arr[1], arr[2], v]
    };
    r
}

/// Point every container of the bundle's given direction slot at `v`.
fn set_links(bundle: &mut StructureBundle, d: usize, v: Option<StructureId>)
    requires
        d < 4,
    ensures
        final(bundle).dynamic == old(bundle).dynamic,
        final(bundle).components.position == old(bundle).components.position,
        final(bundle).components.rotation == old(bundle).components.rotation,
        final(bundle).components.burner == old(bundle).components.burner,
        final(bundle).components.energy == old(bundle).components.energy,
        final(bundle).components.factory == old(bundle).components.factory,
        final(bundle).components.fluid_boxes@.len() == old(bundle).components.fluid_boxes@.len(),
        forall|k: int|
            0 <= k < old(bundle).components.fluid_boxes@.len() ==> box_eq_mod_links(
                #[trigger] old(bundle).components.fluid_boxes@[k],
                final(bundle).components.fluid_boxes@[k],
            ),
        forall|k: int|
            0 <= k < final(bundle).components.fluid_boxes@.len() ==> (
            #[trigger] final(bundle).components.fluid_boxes@[k]).connect_to@[d as int] == v,
        forall|k: int, dd: int|
            0 <= k < old(bundle).components.fluid_boxes@.len() && 0 <= dd < 4 && dd != d
                ==> #[trigger] final(bundle).components.fluid_boxes@[k].connect_to@[dd] == old(
                bundle,
            ).components.fluid_boxes@[k].connect_to@[dd],
        final(bundle).wf() <== old(bundle).wf(),
{
    let n = bundle.components.fluid_boxes.len();
    let mut k: usize = 0;
    while k < n
        invariant
            d < 4,
            n == bundle.components.fluid_boxes@.len(),
            n == old(bundle).components.fluid_boxes@.len(),
            0 <= k <= n,
            bundle.dynamic == old(bundle).dynamic,
            bundle.components.position == old(bundle).components.position,
            bundle.components.rotation == old(bundle).components.rotation,
            bundle.components.burner == old(bundle).components.burner,
            bundle.components.energy == old(bundle).components.energy,
            bundle.components.factory == old(bundle).components.factory,
            forall|j: int|
                0 <= j < n ==> box_eq_mod_links(
                    #[trigger] old(bundle).components.fluid_boxes@[j],
                    bundle.components.fluid_boxes@[j],
                ),
            forall|j: int|
                0 <= j < k ==> (#[trigger] bundle.components.fluid_boxes@[j]).connect_to@[d as int]
                    == v,
            forall|j: int, dd: int|
                0 <= j < n && 0 <= dd < 4 && dd != d
                    ==> #[trigger] bundle.components.fluid_boxes@[j].connect_to@[dd] == old(
                    bundle,
                ).components.fluid_boxes@[j].connect_to@[dd],
        decreases n - k,
    {
        let ghost pre_boxes = bundle.components.fluid_boxes@;
        let fb = &mut bundle.components.fluid_boxes[k];
        let links = fb.connect_to;
        fb.connect_to = set_dir(links, d, v);
        proof {
            assert forall|j: int|
                0 <= j < n implies box_eq_mod_links(
                #[trigger] old(bundle).components.fluid_boxes@[j],
                bundle.components.fluid_boxes@[j],
            ) by {
                if j != k as int {
                    assert(bundle.components.fluid_boxes@[j] == pre_boxes[j]);
                }
            }
            assert forall|j: int|
                0 <= j <= k implies (
            #[trigger] bundle.components.fluid_boxes@[j]).connect_to@[d as int] == v by {
                if j < k as int {
                    assert(bundle.components.fluid_boxes@[j] == pre_boxes[j]);
                }
            }
            assert forall|j: int, dd: int|
                0 <= j < n && 0 <= dd < 4 && dd != d
                    implies #[trigger] bundle.components.fluid_boxes@[j].connect_to@[dd] == old(
                bundle,
            ).components.fluid_boxes@[j].connect_to@[dd] by {
                if j != k as int {
                    assert(bundle.components.fluid_boxes@[j] == pre_boxes[j]);
                }
            }
        }
        k = k + 1;
    }
    proof {
        if old(bundle).wf() {
            assert forall|j: int|
                0 <= j < bundle.components.fluid_boxes@.len() implies (
            #[trigger] bundle.components.fluid_boxes@[j]).kind_wf()
                && bundle.components.fluid_boxes@[j].filter_ok() by {
                assert(box_eq_mod_links(
                    old(bundle).components.fluid_boxes@[j],
                    bundle.components.fluid_boxes@[j],
                ));
                assert(old(bundle).components.fluid_boxes@[j].kind_wf());
                assert(old(bundle).components.fluid_boxes@[j].filter_ok());
            }
        }
    }
}

/// Whether the slot holds a live structure at `pos` exposing at least
/// one fluid container.
pub open spec fn fluid_slot_at(e: StructureEntry, pos: Position) -> bool {
    match e.bundle {
        Some(b) => b.components.position == Some(pos) && b.components.fluid_boxes@.len() > 0,
        None => false,
    }
}

/// Every fluid container of the bundle has direction slot `d` set to `v`.
pub open spec fn boxes_link(b: StructureBundle, d: int, v: Option<StructureId>) -> bool {
    forall|k: int|
        0 <= k < b.components.fluid_boxes@.len() ==> (
        #[trigger] b.components.fluid_boxes@[k]).connect_to@[d] == v
}

/// The slot is live and all its containers' direction slot `d` is `v`.
pub open spec fn linked_at(e: StructureEntry, d: int, v: Option<StructureId>) -> bool {
    match e.bundle {
        Some(b) => boxes_link(b, d, v),
        None => false,
    }
}

/// After a rescan around `pos` found the fluid structure in slot `i`:
/// slot `j`'s structure, when it stands orthogonally adjacent with at
/// least one container, points back at slot `i` through the facing
/// direction, and slot `i` points at it through the opposite one.
pub open spec fn link_established(
    old_slots: Seq<StructureEntry>,
    new_slots: Seq<StructureEntry>,
    i: int,
    j: int,
    pos: Position,
) -> bool {
    match old_slots[j].bundle {
        Some(bj) => match bj.components.position {
            Some(pj) => match spec_neighbor_index(pos, pj) {
                Some(idx) => bj.components.fluid_boxes@.len() > 0 ==> linked_at(
                    new_slots[j],
                    idx as int,
                    Some(StructureId { id: i as u32, gen: old_slots[i].gen }),
                ) && linked_at(
                    new_slots[i],
                    opposite_dir(idx as int),
                    Some(StructureId { id: j as u32, gen: old_slots[j].gen }),
                ),
                None => true,
            },
            None => true,
        },
        None => true,
    }
}

/// After a rescan around an empty `pos`: slot `j`'s structure, when it
/// stands orthogonally adjacent, no longer points toward `pos`.
pub open spec fn link_cleared(
    old_slots: Seq<StructureEntry>,
    new_slots: Seq<StructureEntry>,
    j: int,
    pos: Position,
) -> bool {
    match old_slots[j].bundle {
        Some(bj) => match bj.components.position {
            Some(pj) => match spec_neighbor_index(pos, pj) {
                Some(idx) => linked_at(new_slots[j], idx as int, None),
                None => true,
            },
            None => true,
        },
        None => true,
    }
}

/// Whether this machine kind offers recipes to pick from.
pub open spec fn spec_has_recipes(d: StructureDynamic) -> bool {
    d is Furnace || d is Assembler
}

impl FactorishState {
    pub fn set_debug_bbox(&mut self, value: bool)
        ensures
            *final(self) == (FactorishState { debug_bbox: value, ..*old(self) }),
    {
        self.debug_bbox = value;
    }

    pub fn set_debug_fluidbox(&mut self, value: bool)
        ensures
            *final(self) == (FactorishState { debug_fluidbox: value, ..*old(self) }),
    {
        self.debug_fluidbox = value;
    }

    pub fn set_debug_power_network(&mut self, value: bool)
        ensures
            *final(self) == (FactorishState { debug_power_network: value, ..*old(self) }),
    {
        self.debug_power_network = value;
    }

    /// Select an item of the player's inventory.
    pub fn select_player_inventory(&mut self, item: ItemType)
        ensures
            *final(self) == (FactorishState {
                selected_item: Some(SelectedItem::PlayerInventory(item)),
                ..*old(self)
            }),
    {
        self.selected_item = Some(SelectedItem::PlayerInventory(item));
    }

    /// Drop whatever selection the player holds.
    pub fn deselect_player_inventory(&mut self)
        ensures
            *final(self) == (FactorishState { selected_item: None, ..*old(self) }),
    {
        self.selected_item = None;
    }

    /// Open the inventory panel of the structure at `(c, r)`.  Returns
    /// whether that structure offers recipes; fails when no structure
    /// stands there.
    pub fn open_structure_inventory(&mut self, c: i32, r: i32) -> (res: Result<bool, ()>)
        requires
            old(self).wf(),
        ensures
            match res {
                Ok(recipe_enable) => {
                    &&& old(self).occupied(Position { x: c, y: r })
                    &&& *final(self) == (FactorishState {
                        selected_structure_inventory: Some(Position { x: c, y: r }),
                        ..*old(self)
                    })
                    &&& forall|k: int|
                        0 <= k < old(self).structures.slots@.len() && slot_at(
                            #[trigger] old(self).structures.slots@[k],
                            Position { x: c, y: r },
                        ) ==> recipe_enable == spec_has_recipes(
                            old(self).structures.slots@[k].bundle.unwrap().dynamic,
                        )
                },
                Err(()) => !old(self).occupied(Position { x: c, y: r }) && *final(self) == *old(
                    self,
                ),
            },
    {
        let pos = Position { x: c, y: r };
        match self.find_structure_tile(&pos) {
            Some(i) => {
                let recipe_enable = match self.structures.get_at(i) {
                    Some(e) => match &e.bundle {
                        Some(b) => matches!(
                            b.dynamic,
                            StructureDynamic::Furnace | StructureDynamic::Assembler
                        ),
                        None => false,
                    },
                    None => false,
                };
                self.selected_structure_inventory = Some(pos);
                proof {
                    assert(slot_at(self.structures.slots@[i as int], pos));
                    assert forall|k: int|
                        0 <= k < self.structures.slots@.len() && slot_at(
                            #[trigger] self.structures.slots@[k],
                            pos,
                        ) implies recipe_enable == spec_has_recipes(
                        self.structures.slots@[k].bundle.unwrap().dynamic,
                    ) by {
                        if k != i as int {
                            assert(match (
                                self.structures.slots@[k].bundle,
                                self.structures.slots@[i as int].bundle,
                            ) {
                                (Some(b1), Some(b2)) => !(b1.components.position is Some
                                    && b1.components.position == b2.components.position),
                                _ => true,
                            });
                            assert(false);
                        }
                    }
                }
                Ok(recipe_enable)
            },
            None => Err(()),
        }
    }

    /// The coordinates of the structure whose inventory panel is open.
    pub fn get_selected_inventory(&self) -> (r: Option<Position>)
        ensures
            r == self.selected_structure_inventory,
    {
        self.selected_structure_inventory
    }

    /// Select an item inside the open structure inventory panel.
    pub fn select_structure_inventory(&mut self, item: ItemType) -> (r: Result<(), ()>)
        ensures
            match r {
                Ok(()) => old(self).selected_structure_inventory matches Some(pos) && *final(self)
                    == (FactorishState {
                    selected_item: Some(SelectedItem::StructInventory(pos, item)),
                    ..*old(self)
                }),
                Err(()) => old(self).selected_structure_inventory is None && *final(self) == *old(
                    self,
                ),
            },
    {
        match self.selected_structure_inventory {
            Some(pos) => {
                self.selected_item = Some(SelectedItem::StructInventory(pos, item));
                Ok(())
            },
            None => Err(()),
        }
    }

    /// Turn the build cursor a quarter turn.
    pub fn rotate_tool(&mut self)
        ensures
            *final(self) == (FactorishState {
                tool_rotation: old(self).tool_rotation.spec_next(),
                ..*old(self)
            }),
    {
        self.tool_rotation = self.tool_rotation.next();
    }

    /// Select a tool-belt slot; an empty or out-of-range slot deselects.
    pub fn select_tool(&mut self, tool: usize) -> (r: bool)
        ensures
            r == (tool < 10 && old(self).tool_belt@[tool as int] is Some),
            r ==> *final(self) == (FactorishState {
                selected_item: Some(SelectedItem::ToolBelt(tool)),
                ..*old(self)
            }),
            !r ==> *final(self) == (FactorishState { selected_item: None, ..*old(self) }),
    {
        if tool < 10 && self.tool_belt[tool].is_some() {
            self.selected_item = Some(SelectedItem::ToolBelt(tool));
            true
        } else {
            self.selected_item = None;
            false
        }
    }

    /// The selected tool-belt slot, if the selection is one.
    pub fn get_selected_tool(&self) -> (r: Option<usize>)
        ensures
            match self.selected_item {
                Some(SelectedItem::ToolBelt(idx)) => r == Some(idx),
                _ => r is None,
            },
    {
        match self.selected_item {
            Some(SelectedItem::ToolBelt(idx)) => Some(idx),
            _ => None,
        }
    }

    /// The item the current selection stands for, whichever kind of
    /// selection it is.
    pub fn get_selected_tool_or_item(&self) -> (r: Option<ItemType>)
        ensures
            r == self.spec_selected_tool_or_item(),
    {
        match self.selected_item {
            Some(SelectedItem::ToolBelt(idx)) => {
                if idx < 10 {
                    self.tool_belt[idx]
                } else {
                    None
                }
            },
            Some(SelectedItem::PlayerInventory(t)) => Some(t),
            Some(SelectedItem::StructInventory(_, t)) => Some(t),
            None => None,
        }
    }

    pub open spec fn spec_selected_tool_or_item(self) -> Option<ItemType> {
        match self.selected_item {
            Some(SelectedItem::ToolBelt(idx)) => if idx < 10 {
                self.tool_belt@[idx as int]
            } else {
                None
            },
            Some(SelectedItem::PlayerInventory(t)) => Some(t),
            Some(SelectedItem::StructInventory(_, t)) => Some(t),
            None => None,
        }
    }

    /// How many of each tool-belt slot's item the player holds; an empty
    /// slot counts zero.
    pub fn tool_inventory(&self) -> (r: Vec<u64>)
        requires
            self.wf(),
        ensures
            r@.len() == 10,
            forall|i: int|
                0 <= i < 10 ==> #[trigger] r@[i] as int == (match self.tool_belt@[i] {
                    Some(t) => self.player.inventory.spec_count(t),
                    None => 0,
                }),
    {
        let mut r: Vec<u64> = Vec::new();
        let mut i: usize = 0;
        while i < 10
            invariant
                self.wf(),
                0 <= i <= 10,
                r@.len() == i,
                forall|k: int|
                    0 <= k < i ==> #[trigger] r@[k] as int == (match self.tool_belt@[k] {
                        Some(t) => self.player.inventory.spec_count(t),
                        None => 0,
                    }),
            decreases 10 - i,
        {
            let c = match self.tool_belt[i] {
                Some(t) => self.player.inventory.count_item(t),
                None => 0,
            };
            r.push(c);
            i = i + 1;
        }
        r
    }

    /// The selected tool-belt item together with how many the player
    /// holds, when a tool-belt slot is selected.
    pub fn selected_tool(&self) -> (r: Option<(ItemType, u64)>)
        requires
            self.wf(),
        ensures
            match self.selected_item {
                Some(SelectedItem::ToolBelt(idx)) => if idx < 10 {
                    match self.tool_belt@[idx as int] {
                        Some(t) => r matches Some(pair) && pair.0 == t && pair.1 as int
                            == self.player.inventory.spec_count(t),
                        None => r is None,
                    }
                } else {
                    r is None
                },
                _ => r is None,
            },
    {
        match self.selected_item {
            Some(SelectedItem::ToolBelt(idx)) => {
                if idx < 10 {
                    match self.tool_belt[idx] {
                        Some(t) => Some((t, self.player.inventory.count_item(t))),
                        None => None,
                    }
                } else {
                    None
                }
            },
            _ => None,
        }
    }
}

/// Which inventory of a structure a panel interaction addresses.
#[derive(PartialEq, Eq, Structural, Clone, Copy, Debug)]
pub enum InventoryType {
    Input,
    Output,
    Burner,
}

/// Nothing moved: the player inventory and every arena slot keep their
/// values.
pub open spec fn panel_unmoved(pre: FactorishState, post: FactorishState) -> bool {
    &&& post.player == pre.player
    &&& post.structures.slots@ == pre.structures.slots@
}

/// `b` is `a` with every item of kind `t` taken out, all other kinds kept.
pub open spec fn inv_emptied_of(a: Inventory, b: Inventory, t: ItemType) -> bool {
    &&& b.spec_count(t) == 0
    &&& forall|t2: ItemType| t2 != t ==> #[trigger] b.spec_count(t2) == a.spec_count(t2)
}

/// `b` is `a` with `n` items of kind `t` poured in (capped), all other
/// kinds kept.
pub open spec fn inv_gained(a: Inventory, b: Inventory, t: ItemType, n: int) -> bool {
    &&& b.spec_count(t) == crate::items::cap_add(a.spec_count(t), n)
    &&& forall|t2: ItemType| t2 != t ==> #[trigger] b.spec_count(t2) == a.spec_count(t2)
}

/// What one panel move does, judged at the slot `k` holding the open
/// panel's structure: toward the player the whole stack of the addressed
/// kind leaves the structure and lands in the player inventory (capped);
/// toward the structure the player's whole stack of the selected kind
/// enters the structure's inventory (a burner takes fuel only); in every
/// case where the structure offers no such inventory, or the selection
/// does not address one, nothing moves and the result is `Ok(false)`.
pub open spec fn spec_panel_move(
    pre: FactorishState,
    post: FactorishState,
    k: int,
    pos: Position,
    to_player: bool,
    it: InventoryType,
    r: Result<bool, ()>,
) -> bool {
    let b = pre.structures.slots@[k].bundle.unwrap();
    match it {
        InventoryType::Burner => {
            if to_player {
                match b.components.burner {
                    Some(br) => if br.inventory.entries@.len() > 0 {
                        let t0 = br.inventory.entries@[0].0;
                        &&& inv_gained(
                            pre.player.inventory,
                            post.player.inventory,
                            t0,
                            br.inventory.spec_count(t0),
                        )
                        &&& post.structures.slots@[k].bundle matches Some(b2)
                            && b2.components.burner matches Some(br2) && inv_emptied_of(
                            br.inventory,
                            br2.inventory,
                            t0,
                        )
                        &&& r == Ok::<bool, ()>(true)
                    } else {
                        panel_unmoved(pre, post) && r == Ok::<bool, ()>(false)
                    },
                    None => panel_unmoved(pre, post) && r == Ok::<bool, ()>(false),
                }
            } else {
                match pre.selected_item {
                    Some(SelectedItem::PlayerInventory(t)) => if t == ItemType::CoalOre
                        && b.components.burner is Some {
                        let br = b.components.burner.unwrap();
                        &&& inv_emptied_of(pre.player.inventory, post.player.inventory, t)
                        &&& post.structures.slots@[k].bundle matches Some(b2)
                            && b2.components.burner matches Some(br2) && inv_gained(
                            br.inventory,
                            br2.inventory,
                            t,
                            pre.player.inventory.spec_count(t),
                        )
                        &&& r == Ok::<bool, ()>(pre.player.inventory.spec_count(t) > 0)
                    } else {
                        panel_unmoved(pre, post) && r == Ok::<bool, ()>(false)
                    },
                    _ => panel_unmoved(pre, post) && r == Ok::<bool, ()>(false),
                }
            }
        },
        _ => {
            let is_input = it == InventoryType::Input;
            if to_player {
                match pre.selected_item {
                    Some(SelectedItem::StructInventory(spos, t)) => if spos == pos {
                        match b.spec_inventory(is_input) {
                            Some(inv) => {
                                &&& inv_gained(
                                    pre.player.inventory,
                                    post.player.inventory,
                                    t,
                                    inv.spec_count(t),
                                )
                                &&& post.structures.slots@[k].bundle matches Some(b2)
                                    && b2.spec_inventory(is_input) matches Some(inv2)
                                    && inv_emptied_of(inv, inv2, t)
                                &&& r == Ok::<bool, ()>(inv.spec_count(t) > 0)
                            },
                            None => panel_unmoved(pre, post) && r == Ok::<bool, ()>(false),
                        }
                    } else {
                        panel_unmoved(pre, post) && r == Ok::<bool, ()>(false)
                    },
                    _ => panel_unmoved(pre, post) && r == Ok::<bool, ()>(false),
                }
            } else {
                match pre.selected_item {
                    Some(SelectedItem::PlayerInventory(t)) => {
                        match b.spec_inventory(is_input) {
                            Some(inv) => {
                                &&& inv_emptied_of(pre.player.inventory, post.player.inventory, t)
                                &&& post.structures.slots@[k].bundle matches Some(b2)
                                    && b2.spec_inventory(is_input) matches Some(inv2)
                                    && inv_gained(
                                    inv,
                                    inv2,
                                    t,
                                    pre.player.inventory.spec_count(t),
                                )
                                &&& r == Ok::<bool, ()>(pre.player.inventory.spec_count(t) > 0)
                            },
                            None => panel_unmoved(pre, post) && r == Ok::<bool, ()>(false),
                        }
                    },
                    _ => panel_unmoved(pre, post) && r == Ok::<bool, ()>(false),
                }
            }
        },
    }
}

impl FactorishState {
    /// Move the selected item between the player and the structure whose
    /// inventory panel is open.  Toward the player, every item of the
    /// selected kind leaves the structure; toward the structure, every
    /// item of the kind selected in the player inventory enters it (fuel
    /// only, for a burner).  Returns whether anything moved; fails when
    /// the open panel's structure no longer exists; with no panel open it
    /// is an inert no-op.
    pub fn move_selected_inventory_item(
        &mut self,
        to_player: bool,
        inventory_type: InventoryType,
    ) -> (r: Result<bool, ()>)
        requires
            old(self).wf(),
        ensures
            final(self).wf(),
            old(self).selected_structure_inventory is None ==> r == Ok::<bool, ()>(false)
                && *final(self) == *old(self),
            // the call fails exactly when the open panel's structure is gone
            r is Err <==> match old(self).selected_structure_inventory {
                Some(pos) => !old(self).occupied(pos),
                None => false,
            },
            r is Err ==> *final(self) == *old(self),
            final(self).width == old(self).width,
            final(self).height == old(self).height,
            final(self).board == old(self).board,
            final(self).power_wires == old(self).power_wires,
            final(self).power_networks == old(self).power_networks,
            final(self).sim_time == old(self).sim_time,
            final(self).selected_item == old(self).selected_item,
            final(self).selected_structure_inventory == old(self).selected_structure_inventory,
            final(self).structures.slots@.len() == old(self).structures.slots@.len(),
            // the whole effect, judged at the open panel's structure
            match old(self).selected_structure_inventory {
                Some(pos) => old(self).occupied(pos) ==> forall|k: int|
                    0 <= k < old(self).structures.slots@.len() && slot_at(
                        #[trigger] old(self).structures.slots@[k],
                        pos,
                    ) ==> spec_panel_move(
                        *old(self),
                        *final(self),
                        k,
                        pos,
                        to_player,
                        inventory_type,
                        r,
                    ),
                None => true,
            },
    {
        let pos = match self.selected_structure_inventory {
            Some(pos) => pos,
            None => {
                return Ok(false);
            },
        };
        let found = self.find_structure_tile(&pos);
        let i = match found {
            Some(i) => i,
            None => {
                return Err(());
            },
        };
        let ghost s0 = *self;
        let taken = self.structures.take_at(i);
        let mut bundle = match taken {
            Some(b) => b,
            None => {
                proof {
                    assert(false);
                }
                return Err(());
            },
        };
        let ghost b0 = bundle;
        let mut moved = false;
        match inventory_type {
            InventoryType::Burner => {
                if to_player {
                    let first = match &bundle.components.burner {
                        Some(burner) => {
                            if burner.inventory.entries.len() > 0 {
                                Some(burner.inventory.entries[0].0)
                            } else {
                                None
                            }
                        },
                        None => None,
                    };
                    if let Some(t) = first {
                        if let Some(burner) = &mut bundle.components.burner {
                            let n = match burner.inventory.remove(t) {
                                Some(n) => n,
                                None => 0,
                            };
                            if n > 0 {
                                self.player.inventory.add_items_capped(t, n);
                            }
                            moved = n > 0;
                        }
                    }
                } else {
                    if let Some(SelectedItem::PlayerInventory(t)) = self.selected_item {
                        let is_fuel = matches!(t, ItemType::CoalOre);
                        if is_fuel && bundle.components.burner.is_some() {
                            let n = match self.player.inventory.remove(t) {
                                Some(n) => n,
                                None => 0,
                            };
                            if let Some(burner) = &mut bundle.components.burner {
                                burner.inventory.add_items_capped(t, n);
                            }
                            moved = n > 0;
                        }
                    }
                }
            },
            _ => {
                let is_input = matches!(inventory_type, InventoryType::Input);
                if to_player {
                    let selected = match self.selected_item {
                        Some(SelectedItem::StructInventory(spos, t)) => {
                            if spos == pos {
                                Some(t)
                            } else {
                                None
                            }
                        },
                        _ => None,
                    };
                    if let Some(t) = selected {
                        let n = bundle.take_inventory_items(is_input, t);
                        if n > 0 {
                            self.player.inventory.add_items_capped(t, n);
                        }
                        moved = n > 0;
                    }
                } else {
                    if let Some(SelectedItem::PlayerInventory(t)) = self.selected_item {
                        let has_inventory = bundle.inventory(is_input).is_some();
                        if has_inventory {
                            let n = match self.player.inventory.remove(t) {
                                Some(n) => n,
                                None => 0,
                            };
                            bundle.add_inventory_items(is_input, t, n);
                            moved = n > 0;
                        }
                    }
                }
            },
        }
        self.structures.restore_at(i, bundle);
        proof {
            assert(b0.wf());
            assert(bundle.wf());
            assert(bundle.components.position == b0.components.position);
            assert forall|k: int|
                0 <= k < self.structures.slots@.len() && k != i implies self.structures.slots@[k]
                == s0.structures.slots@[k] by {}
            assert(self.structures.wf());
            assert(self.positions_set()) by {
                assert forall|k: int|
                    0 <= k < self.structures.slots@.len() implies match (
                #[trigger] self.structures.slots@[k]).bundle {
                    Some(bb) => bb.components.position is Some,
                    None => true,
                } by {
                    if k != i as int {
                        assert(self.structures.slots@[k] == s0.structures.slots@[k]);
                    }
                }
            }
            assert(self.positions_distinct()) by {
                assert forall|k1: int, k2: int|
                    0 <= k1 < self.structures.slots@.len() && 0 <= k2
                        < self.structures.slots@.len() && k1 != k2 implies match (
                    (#[trigger] self.structures.slots@[k1]).bundle,
                    (#[trigger] self.structures.slots@[k2]).bundle,
                ) {
                    (Some(b1), Some(b2)) => !(b1.components.position is Some
                        && b1.components.position == b2.components.position),
                    _ => true,
                } by {
                    if k1 != i as int && k2 != i as int {
                        assert(self.structures.slots@[k1] == s0.structures.slots@[k1]);
                        assert(self.structures.slots@[k2] == s0.structures.slots@[k2]);
                    }
                }
            }
            assert(self.wires_wf()) by {
                assert forall|k: int|
                    0 <= k < self.power_wires@.len() implies self.structures.valid_id(
                    (#[trigger] self.power_wires@[k]).0,
                ) && self.structures.valid_id(self.power_wires@[k].1) && self.power_wires@[k].0
                    != self.power_wires@[k].1 by {
                    assert(s0.structures.valid_id(self.power_wires@[k].0));
                    assert(s0.structures.valid_id(self.power_wires@[k].1));
                }
            }
            assert(self.wf());
            // the open panel's structure is unique, and the executed branch
            // is exactly the effect the contract states for it
            assert(slot_at(s0.structures.slots@[i as int], pos));
            assert forall|k: int|
                0 <= k < s0.structures.slots@.len() && slot_at(
                    #[trigger] s0.structures.slots@[k],
                    pos,
                ) implies spec_panel_move(
                s0,
                *self,
                k,
                pos,
                to_player,
                inventory_type,
                Ok::<bool, ()>(moved),
            ) by {
                if k != i as int {
                    assert(match (
                        s0.structures.slots@[k].bundle,
                        s0.structures.slots@[i as int].bundle,
                    ) {
                        (Some(b1), Some(b2)) => !(b1.components.position is Some
                            && b1.components.position == b2.components.position),
                        _ => true,
                    });
                    assert(false);
                } else {
                    assert(s0.structures.slots@[i as int].bundle == Some(b0));
                    assert(b0.wf());
                    assert(self.structures.slots@[i as int].bundle is Some);
                    match inventory_type {
                        InventoryType::Burner => {
                            if to_player {
                                match b0.components.burner {
                                    Some(br) => {
                                        if br.inventory.entries@.len() > 0 {
                                            crate::items::lemma_count_present(
                                                br.inventory.entries@,
                                                br.inventory.entries@[0].0,
                                                0,
                                            );
                                        } else {
                                            assert(self.structures.slots@
                                                =~= s0.structures.slots@);
                                        }
                                    },
                                    None => {
                                        assert(self.structures.slots@ =~= s0.structures.slots@);
                                    },
                                }
                            } else {
                                match s0.selected_item {
                                    Some(SelectedItem::PlayerInventory(t)) => {
                                        if t == ItemType::CoalOre && b0.components.burner is Some {
                                            crate::items::lemma_count_bounded(
                                                b0.components.burner.unwrap().inventory.entries@,
                                                t,
                                            );
                                        } else {
                                            assert(self.structures.slots@
                                                =~= s0.structures.slots@);
                                        }
                                    },
                                    _ => {
                                        assert(self.structures.slots@ =~= s0.structures.slots@);
                                    },
                                }
                            }
                        },
                        _ => {
                            let is_input = inventory_type == InventoryType::Input;
                            if to_player {
                                match s0.selected_item {
                                    Some(SelectedItem::StructInventory(spos, t)) => {
                                        if spos == pos {
                                            match b0.spec_inventory(is_input) {
                                                Some(inv) => {
                                                    crate::items::lemma_count_bounded(
                                                        s0.player.inventory.entries@,
                                                        t,
                                                    );
                                                    crate::items::lemma_count_nonneg(
                                                        inv.entries@,
                                                        t,
                                                    );
                                                },
                                                None => {
                                                    assert(self.structures.slots@
                                                        =~= s0.structures.slots@);
                                                },
                                            }
                                        } else {
                                            assert(self.structures.slots@
                                                =~= s0.structures.slots@);
                                        }
                                    },
                                    _ => {
                                        assert(self.structures.slots@ =~= s0.structures.slots@);
                                    },
                                }
                            } else {
                                match s0.selected_item {
                                    Some(SelectedItem::PlayerInventory(t)) => {
                                        match b0.spec_inventory(is_input) {
                                            Some(inv) => {
                                                crate::items::lemma_count_bounded(
                                                    inv.entries@,
                                                    t,
                                                );
                                            },
                                            None => {
                                                assert(self.structures.slots@
                                                    =~= s0.structures.slots@);
                                            },
                                        }
                                    },
                                    _ => {
                                        assert(self.structures.slots@ =~= s0.structures.slots@);
                                    },
                                }
                            }
                        },
                    }
                }
            }
        }
        Ok(moved)
    }
}

/// Between two values of one slot, every container link that does not
/// face the tile `pos` is unchanged.  (A slot without a live bundle on
/// either side makes no claim.)
pub open spec fn links_kept_away_from(e1: StructureEntry, e2: StructureEntry, pos: Position) -> bool {
    match (e1.bundle, e2.bundle) {
        (Some(b1), Some(b2)) => forall|bx: int, d: int|
            0 <= bx < b1.components.fluid_boxes@.len() && 0 <= d < 4 && (match b1.components.position {
                Some(pk) => spec_neighbor_index(pos, pk) != Some(d as u32),
                None => true,
            }) ==> #[trigger] b2.components.fluid_boxes@[bx].connect_to@[d]
                == b1.components.fluid_boxes@[bx].connect_to@[d],
        _ => true,
    }
}

/// Two live structures standing orthogonally adjacent, both exposing
/// containers, point at each other through the facing direction slots.
pub open spec fn pair_linked(slots: Seq<StructureEntry>, i: int, j: int) -> bool {
    match (slots[i].bundle, slots[j].bundle) {
        (Some(bi), Some(bj)) => match (bi.components.position, bj.components.position) {
            (Some(pi), Some(pj)) => match spec_neighbor_index(pi, pj) {
                Some(idx) => (bi.components.fluid_boxes@.len() > 0
                    && bj.components.fluid_boxes@.len() > 0) ==> (boxes_link(
                    bj,
                    idx as int,
                    Some(StructureId { id: i as u32, gen: slots[i].gen }),
                ) && boxes_link(
                    bi,
                    opposite_dir(idx as int),
                    Some(StructureId { id: j as u32, gen: slots[j].gen }),
                )),
                None => true,
            },
            _ => true,
        },
        _ => true,
    }
}

/// Mid-rescan bookkeeping: slot `j` has been processed against the
/// center bundle `a` taken out of slot `i`.
spec fn rescan_step_done(
    old_slots: Seq<StructureEntry>,
    cur_slots: Seq<StructureEntry>,
    a: StructureBundle,
    i: int,
    j: int,
    pos: Position,
) -> bool {
    match old_slots[j].bundle {
        Some(bj) => match bj.components.position {
            Some(pj) => match spec_neighbor_index(pos, pj) {
                Some(idx) => bj.components.fluid_boxes@.len() > 0 ==> linked_at(
                    cur_slots[j],
                    idx as int,
                    Some(StructureId { id: i as u32, gen: old_slots[i].gen }),
                ) && boxes_link(
                    a,
                    opposite_dir(idx as int),
                    Some(StructureId { id: j as u32, gen: old_slots[j].gen }),
                ),
                None => true,
            },
            None => true,
        },
        None => true,
    }
}

/// A link rescan touches nothing the state invariant depends on.
proof fn lemma_wf_link_frame(s1: FactorishState, s2: FactorishState)
    requires
        s1.wf(),
        s2.player == s1.player,
        s2.width == s1.width,
        s2.height == s1.height,
        s2.board@ == s1.board@,
        s2.power_wires@ == s1.power_wires@,
        s2.power_networks@ == s1.power_networks@,
        s2.structures.slots@.len() == s1.structures.slots@.len(),
        forall|k: int|
            0 <= k < s1.structures.slots@.len() ==> link_frame(
                #[trigger] s1.structures.slots@[k],
                s2.structures.slots@[k],
            ),
    ensures
        s2.wf(),
{
    assert forall|k: int| 0 <= k < s2.structures.slots@.len() implies match (
        #[trigger] s2.structures.slots@[k]).bundle {
        Some(b) => b.wf(),
        None => true,
    } by {
        assert(link_frame(s1.structures.slots@[k], s2.structures.slots@[k]));
        match (s1.structures.slots@[k].bundle, s2.structures.slots@[k].bundle) {
            (Some(b1), Some(b2)) => {
                assert(b1.wf());
                assert forall|j: int|
                    0 <= j < b2.components.fluid_boxes@.len() implies (
                #[trigger] b2.components.fluid_boxes@[j]).kind_wf()
                    && b2.components.fluid_boxes@[j].filter_ok() by {
                    assert(box_eq_mod_links(
                        b1.components.fluid_boxes@[j],
                        b2.components.fluid_boxes@[j],
                    ));
                    assert(b1.components.fluid_boxes@[j].kind_wf());
                    assert(b1.components.fluid_boxes@[j].filter_ok());
                }
            },
            _ => {},
        }
    }
    assert forall|k: int|
        0 <= k < s2.power_wires@.len() implies s2.structures.valid_id(
        (#[trigger] s2.power_wires@[k]).0,
    ) && s2.structures.valid_id(s2.power_wires@[k].1) && s2.power_wires@[k].0
        != s2.power_wires@[k].1 by {
        assert(link_frame(
            s1.structures.slots@[s2.power_wires@[k].0.id as int],
            s2.structures.slots@[s2.power_wires@[k].0.id as int],
        ));
        assert(link_frame(
            s1.structures.slots@[s2.power_wires@[k].1.id as int],
            s2.structures.slots@[s2.power_wires@[k].1.id as int],
        ));
    }
    assert forall|k: int| 0 <= k < s2.structures.slots@.len() implies match (
        #[trigger] s2.structures.slots@[k]).bundle {
        Some(b) => b.components.position is Some,
        None => true,
    } by {
        assert(link_frame(s1.structures.slots@[k], s2.structures.slots@[k]));
    }
    assert(s2.positions_set());
    assert forall|k1: int, k2: int|
        0 <= k1 < s2.structures.slots@.len() && 0 <= k2 < s2.structures.slots@.len() && k1
            != k2 implies match (
        (#[trigger] s2.structures.slots@[k1]).bundle,
        (#[trigger] s2.structures.slots@[k2]).bundle,
    ) {
        (Some(b1), Some(b2)) => !(b1.components.position is Some && b1.components.position
            == b2.components.position),
        _ => true,
    } by {
        assert(link_frame(s1.structures.slots@[k1], s2.structures.slots@[k1]));
        assert(link_frame(s1.structures.slots@[k2], s2.structures.slots@[k2]));
    }
    assert(s2.positions_distinct());
}

impl FactorishState {
    /// The first live structure at `tile` that exposes a fluid container.
    fn find_fluid_structure(&self, tile: &Position) -> (r: Option<usize>)
        ensures
            match r {
                Some(i) => i < self.structures.slots@.len() && fluid_slot_at(
                    self.structures.slots@[i as int],
                    *tile,
                ),
                None => forall|k: int|
                    0 <= k < self.structures.slots@.len() ==> !fluid_slot_at(
                        #[trigger] self.structures.slots@[k],
                        *tile,
                    ),
            },
    {
        let n = self.structures.len();
        let mut i: usize = 0;
        while i < n
            invariant
                n == self.structures.slots@.len(),
                0 <= i <= n,
                forall|k: int|
                    0 <= k < i ==> !fluid_slot_at(#[trigger] self.structures.slots@[k], *tile),
            decreases n - i,
        {
            let hit = match self.structures.get_at(i) {
                Some(e) => match &e.bundle {
                    Some(b) => b.contains(tile) && b.components.fluid_boxes.len() > 0,
                    None => false,
                },
                None => false,
            };
            if hit {
                return Some(i);
            }
            i = i + 1;
        }
        None
    }

    /// Rescan the four orthogonal neighbors of `position` and rebuild the
    /// directional fluid links there.  When a structure with fluid
    /// containers stands at `position`, it and each adjacent structure
    /// with containers point at each other; when none stands there (after
    /// a removal), every neighbor's slot toward `position` is cleared.
    /// Only `connect_to` fields change anywhere.
    pub fn update_fluid_connections(&mut self, position: &Position)
        requires
            old(self).wf(),
        ensures
            final(self).wf(),
            final(self).structures.slots@.len() == old(self).structures.slots@.len(),
            forall|k: int|
                0 <= k < old(self).structures.slots@.len() ==> link_frame(
                    #[trigger] old(self).structures.slots@[k],
                    final(self).structures.slots@[k],
                ),
            *final(self) == (FactorishState { structures: final(self).structures, ..*old(self) }),
            forall|i: int, j: int|
                0 <= i < old(self).structures.slots@.len() && 0 <= j < old(
                    self,
                ).structures.slots@.len() && j != i && fluid_slot_at(
                    old(self).structures.slots@[i],
                    *position,
                ) ==> #[trigger] link_established(
                    old(self).structures.slots@,
                    final(self).structures.slots@,
                    i,
                    j,
                    *position,
                ),
            (forall|k: int|
                0 <= k < old(self).structures.slots@.len() ==> !fluid_slot_at(
                    #[trigger] old(self).structures.slots@[k],
                    *position,
                )) ==> forall|j: int|
                0 <= j < old(self).structures.slots@.len() ==> #[trigger] link_cleared(
                    old(self).structures.slots@,
                    final(self).structures.slots@,
                    j,
                    *position,
                ),
            // every structure not standing at the tile keeps each link that
            // does not face the tile
            forall|k: int|
                0 <= k < old(self).structures.slots@.len() && !fluid_slot_at(
                    old(self).structures.slots@[k],
                    *position,
                ) ==> #[trigger] links_kept_away_from(
                    old(self).structures.slots@[k],
                    final(self).structures.slots@[k],
                    *position,
                ),
    {
        let found = self.find_fluid_structure(position);
        let n = self.structures.len();
        let ghost s1 = *self;
        match found {
            Some(i) => {
                let a_gen = match self.structures.get_at(i) {
                    Some(e) => e.gen,
                    None => 0,
                };
                let a_id = StructureId { id: i as u32, gen: a_gen };
                let ghost entry_slots = self.structures.slots@;
                let taken = self.structures.take_at(i);
                let mut a = match taken {
                    Some(a) => a,
                    None => {
                        proof {
                            assert(false);
                        }
                        return ;
                    },
                };
                let a_pos = match &a.components.position {
                    Some(p) => *p,
                    None => {
                        proof {
                            assert(false);
                        }
                        self.structures.restore_at(i, a);
                        return ;
                    },
                };
                proof {
                    assert(a_pos == *position);
                }
                let ghost a0 = a;
                let mut j: usize = 0;
                while j < n
                    invariant
                        *self == (FactorishState { structures: self.structures, ..s1 }),
                        s1 == *old(self),
                        s1.wf(),
                        entry_slots == s1.structures.slots@,
                        n == self.structures.slots@.len(),
                        n == entry_slots.len(),
                        0 <= j <= n,
                        i < n,
                        a_pos == *position,
                        a_id == (StructureId { id: i as u32, gen: entry_slots[i as int].gen }),
                        fluid_slot_at(entry_slots[i as int], *position),
                        self.structures.slots@[i as int].bundle is None,
                        self.structures.slots@[i as int].gen == entry_slots[i as int].gen,
                        forall|k: int|
                            0 <= k < n && k != i ==> link_frame(
                                #[trigger] entry_slots[k],
                                self.structures.slots@[k],
                            ),
                        forall|k: int|
                            0 <= k < n && k != i ==> links_kept_away_from(
                                #[trigger] entry_slots[k],
                                self.structures.slots@[k],
                                *position,
                            ),
                        link_frame(
                            StructureEntry { gen: 0, bundle: Some(a0) },
                            StructureEntry { gen: 0, bundle: Some(a) },
                        ),
                        forall|k: int|
                            0 <= k < n ==> (#[trigger] self.structures.slots@[k]).bundle is Some
                                == entry_slots[k].bundle is Some || k == i,
                        a.wf() <== a0.wf(),
                        forall|jj: int|
                            0 <= jj < j && jj != i ==> #[trigger] rescan_step_done(
                                entry_slots,
                                self.structures.slots@,
                                a,
                                i as int,
                                jj,
                                *position,
                            ),
                    decreases n - j,
                {
                    if j != i {
                        let b_gen = match self.structures.get_at(j) {
                            Some(e) => e.gen,
                            None => 0,
                        };
                        let ghost pre_slots = self.structures.slots@;
                        let ghost pre_a = a;
                        let taken_b = self.structures.take_at(j);
                        if let Some(mut b) = taken_b {
                            let ghost b0 = b;
                            let b_id = StructureId { id: j as u32, gen: b_gen };
                            let dir = match &b.components.position {
                                Some(bp) => a_pos.neighbor_index(bp),
                                None => None,
                            };
                            let has_boxes = b.components.fluid_boxes.len() > 0;
                            if let Some(idx) = dir {
                                if has_boxes {
                                    let ghost a_before = a;
                                    let d_self = ((idx as usize) + 2) % 4;
                                    set_links(&mut a, d_self, Some(b_id));
                                    set_links(&mut b, idx as usize, Some(a_id));
                                    proof {
                                        lemma_link_frame_trans(
                                            StructureEntry { gen: 0, bundle: Some(a0) },
                                            StructureEntry { gen: 0, bundle: Some(a_before) },
                                            StructureEntry { gen: 0, bundle: Some(a) },
                                        );
                                    }
                                }
                            }
                            let ghost mid_slots = self.structures.slots@;
                            self.structures.restore_at(j, b);
                            proof {
                                assert forall|k: int|
                                    0 <= k < n && k != i implies link_frame(
                                    #[trigger] entry_slots[k],
                                    self.structures.slots@[k],
                                ) by {
                                    if k == j as int {
                                        assert(link_frame(pre_slots[k], self.structures.slots@[k]));
                                        lemma_link_frame_trans(
                                            entry_slots[k],
                                            pre_slots[k],
                                            self.structures.slots@[k],
                                        );
                                    } else {
                                        assert(self.structures.slots@[k] == pre_slots[k]);
                                    }
                                }
                                assert forall|k: int|
                                    0 <= k < n && k != i implies links_kept_away_from(
                                    #[trigger] entry_slots[k],
                                    self.structures.slots@[k],
                                    *position,
                                ) by {
                                    if k == j as int {
                                        assert(links_kept_away_from(
                                            entry_slots[k],
                                            pre_slots[k],
                                            *position,
                                        ));
                                        assert(link_frame(entry_slots[k], pre_slots[k]));
                                        assert(link_frame(
                                            pre_slots[k],
                                            self.structures.slots@[k],
                                        ));
                                    } else {
                                        assert(self.structures.slots@[k] == pre_slots[k]);
                                    }
                                }
                                assert(link_frame(entry_slots[j as int], pre_slots[j as int]));
                                assert forall|jj: int|
                                    0 <= jj < j + 1 && jj != i implies #[trigger] rescan_step_done(
                                    entry_slots,
                                    self.structures.slots@,
                                    a,
                                    i as int,
                                    jj,
                                    *position,
                                ) by {
                                    let cur = self.structures.slots@;
                                    if jj == j as int {
                                        match entry_slots[jj].bundle {
                                            Some(bj) => {
                                                assert(bj.components.position
                                                    == b0.components.position);
                                                assert(bj.components.fluid_boxes@.len()
                                                    == b0.components.fluid_boxes@.len());
                                                match bj.components.position {
                                                    Some(pj) => {
                                                        match spec_neighbor_index(*position, pj) {
                                                            Some(idx2) => {
                                                                if bj.components.fluid_boxes@.len()
                                                                    > 0 {
                                                                    assert(opposite_dir(idx2 as int)
                                                                        == ((idx2 as int) + 2) % 4);
                                                                    assert(cur[jj].bundle is Some);
                                                                    assert(linked_at(
                                                                        cur[jj],
                                                                        idx2 as int,
                                                                        Some(a_id),
                                                                    ));
                                                                }
                                                            },
                                                            None => {},
                                                        }
                                                    },
                                                    None => {},
                                                }
                                            },
                                            None => {},
                                        }
                                    } else {
                                        assert(rescan_step_done(
                                            entry_slots,
                                            pre_slots,
                                            pre_a,
                                            i as int,
                                            jj,
                                            *position,
                                        ));
                                        assert(cur[jj] == pre_slots[jj]);
                                        match entry_slots[jj].bundle {
                                            Some(bjj) => match bjj.components.position {
                                                Some(pjj) => match spec_neighbor_index(
                                                    *position,
                                                    pjj,
                                                ) {
                                                    Some(idxjj) => {
                                                        if bjj.components.fluid_boxes@.len() > 0 {
                                                            // the directions of two distinct
                                                            // neighbors differ, so the new link
                                                            // does not disturb the old one
                                                            match entry_slots[j as int].bundle {
                                                                Some(bj) => {
                                                                    match bj.components.position {
                                                                        Some(pj) => {
                                                                            if spec_neighbor_index(
                                                                                *position,
                                                                                pj,
                                                                            ) == Some(idxjj) {
                                                                                assert(pj == pjj);
                                                                                assert(false);
                                                                            }
                                                                        },
                                                                        None => {},
                                                                    }
                                                                },
                                                                None => {},
                                                            }
                                                        }
                                                    },
                                                    None => {},
                                                },
                                                None => {},
                                            },
                                            None => {},
                                        }
                                    }
                                }
                            }
                        } else {
                            proof {
                                assert(self.structures.slots@ =~= pre_slots);
                                assert(entry_slots[j as int].bundle is None);
                                assert forall|jj: int|
                                    0 <= jj < j + 1 && jj != i implies #[trigger] rescan_step_done(
                                    entry_slots,
                                    self.structures.slots@,
                                    a,
                                    i as int,
                                    jj,
                                    *position,
                                ) by {}
                            }
                        }
                    } else {
                        proof {
                            assert forall|jj: int|
                                0 <= jj < j + 1 && jj != i implies #[trigger] rescan_step_done(
                                entry_slots,
                                self.structures.slots@,
                                a,
                                i as int,
                                jj,
                                *position,
                            ) by {}
                        }
                    }
                    j = j + 1;
                }
                let ghost before_restore = self.structures.slots@;
                self.structures.restore_at(i, a);
                proof {
                    assert forall|k: int|
                        0 <= k < n implies link_frame(
                        #[trigger] entry_slots[k],
                        self.structures.slots@[k],
                    ) by {
                        if k == i as int {
                            assert(entry_slots[k].bundle == Some(a0));
                        }
                    }
                    lemma_wf_link_frame(s1, *self);
                    // the found slot is the only fluid structure at the tile,
                    // so the per-neighbor bookkeeping yields the linking claim
                    let fs = self.structures.slots@;
                    assert forall|i2: int, j2: int|
                        0 <= i2 < n && 0 <= j2 < n && j2 != i2 && fluid_slot_at(
                            entry_slots[i2],
                            *position,
                        ) implies #[trigger] link_established(
                        entry_slots,
                        fs,
                        i2,
                        j2,
                        *position,
                    ) by {
                        if i2 != i as int {
                            assert(fluid_slot_at(entry_slots[i as int], *position));
                            assert(match (entry_slots[i2].bundle, entry_slots[i as int].bundle) {
                                (Some(b1), Some(b2)) => !(b1.components.position is Some
                                    && b1.components.position == b2.components.position),
                                _ => true,
                            });
                            assert(false);
                        } else {
                            assert(rescan_step_done(
                                entry_slots,
                                before_restore,
                                a,
                                i as int,
                                j2,
                                *position,
                            ));
                            assert(fs[j2] == before_restore[j2]);
                            assert(fs[i as int].bundle == Some(a));
                            match entry_slots[j2].bundle {
                                Some(bj) => match bj.components.position {
                                    Some(pj) => match spec_neighbor_index(*position, pj) {
                                        Some(idx) => {
                                            if bj.components.fluid_boxes@.len() > 0 {
                                                assert(linked_at(
                                                    fs[j2],
                                                    idx as int,
                                                    Some(
                                                        StructureId {
                                                            id: i2 as u32,
                                                            gen: entry_slots[i2].gen,
                                                        },
                                                    ),
                                                ));
                                                assert(boxes_link(
                                                    a,
                                                    opposite_dir(idx as int),
                                                    Some(
                                                        StructureId {
                                                            id: j2 as u32,
                                                            gen: entry_slots[j2].gen,
                                                        },
                                                    ),
                                                ));
                                                assert(linked_at(
                                                    fs[i2],
                                                    opposite_dir(idx as int),
                                                    Some(
                                                        StructureId {
                                                            id: j2 as u32,
                                                            gen: entry_slots[j2].gen,
                                                        },
                                                    ),
                                                ));
                                            }
                                        },
                                        None => {},
                                    },
                                    None => {},
                                },
                                None => {},
                            }
                        }
                    }
                    assert(fluid_slot_at(old(self).structures.slots@[i as int], *position));
                }
            },
            None => {
                let mut j: usize = 0;
                let ghost entry_slots = self.structures.slots@;
                while j < n
                    invariant
                        *self == (FactorishState { structures: self.structures, ..s1 }),
                        s1 == *old(self),
                        entry_slots == s1.structures.slots@,
                        n == self.structures.slots@.len(),
                        n == entry_slots.len(),
                        0 <= j <= n,
                        forall|k: int|
                            0 <= k < n ==> link_frame(
                                #[trigger] entry_slots[k],
                                self.structures.slots@[k],
                            ),
                        forall|k: int|
                            0 <= k < n ==> links_kept_away_from(
                                #[trigger] entry_slots[k],
                                self.structures.slots@[k],
                                *position,
                            ),
                        forall|jj: int|
                            0 <= jj < j ==> #[trigger] link_cleared(
                                entry_slots,
                                self.structures.slots@,
                                jj,
                                *position,
                            ),
                    decreases n - j,
                {
                    let ghost pre_slots = self.structures.slots@;
                    let taken_b = self.structures.take_at(j);
                    if let Some(mut b) = taken_b {
                        let ghost b0 = b;
                        let dir = match &b.components.position {
                            Some(bp) => position.neighbor_index(bp),
                            None => None,
                        };
                        if let Some(idx) = dir {
                            set_links(&mut b, idx as usize, None);
                        }
                        self.structures.restore_at(j, b);
                        proof {
                            assert forall|k: int|
                                0 <= k < n implies link_frame(
                                #[trigger] entry_slots[k],
                                self.structures.slots@[k],
                            ) by {
                                if k == j as int {
                                    assert(link_frame(pre_slots[k], self.structures.slots@[k]));
                                    lemma_link_frame_trans(
                                        entry_slots[k],
                                        pre_slots[k],
                                        self.structures.slots@[k],
                                    );
                                } else {
                                    assert(self.structures.slots@[k] == pre_slots[k]);
                                }
                            }
                            assert(link_frame(entry_slots[j as int], pre_slots[j as int]));
                            assert forall|k: int|
                                0 <= k < n implies links_kept_away_from(
                                #[trigger] entry_slots[k],
                                self.structures.slots@[k],
                                *position,
                            ) by {
                                if k == j as int {
                                    assert(links_kept_away_from(
                                        entry_slots[k],
                                        pre_slots[k],
                                        *position,
                                    ));
                                    assert(link_frame(entry_slots[k], pre_slots[k]));
                                    assert(link_frame(pre_slots[k], self.structures.slots@[k]));
                                } else {
                                    assert(self.structures.slots@[k] == pre_slots[k]);
                                }
                            }
                            assert forall|jj: int|
                                0 <= jj < j + 1 implies #[trigger] link_cleared(
                                entry_slots,
                                self.structures.slots@,
                                jj,
                                *position,
                            ) by {
                                if jj == j as int {
                                    match entry_slots[jj].bundle {
                                        Some(bj) => {
                                            assert(bj.components.position
                                                == b0.components.position);
                                        },
                                        None => {},
                                    }
                                } else {
                                    assert(link_cleared(entry_slots, pre_slots, jj, *position));
                                    assert(self.structures.slots@[jj] == pre_slots[jj]);
                                }
                            }
                        }
                    } else {
                        proof {
                            assert(self.structures.slots@ =~= pre_slots);
                            assert(entry_slots[j as int].bundle is None);
                            assert forall|jj: int|
                                0 <= jj < j + 1 implies #[trigger] link_cleared(
                                entry_slots,
                                self.structures.slots@,
                                jj,
                                *position,
                            ) by {}
                        }
                    }
                    j = j + 1;
                }
                proof {
                    lemma_wf_link_frame(s1, *self);
                    assert forall|i2: int, j2: int|
                        0 <= i2 < n && 0 <= j2 < n && j2 != i2 && fluid_slot_at(
                            entry_slots[i2],
                            *position,
                        ) implies #[trigger] link_established(
                        entry_slots,
                        self.structures.slots@,
                        i2,
                        j2,
                        *position,
                    ) by {
                        assert(!fluid_slot_at(entry_slots[i2], *position));
                    }
                }
            },
        }
    }
}


/// Whether the slot holds a live structure at `pos` that items cannot
/// rest on.
pub open spec fn slot_blocks_items(e: StructureEntry, pos: Position) -> bool {
    match e.bundle {
        Some(b) => b.components.position == Some(pos) && !crate::structure::spec_movable(b.dynamic),
        None => false,
    }
}

impl FactorishState {
    /// Why dropping an item at `pos` would be rejected, or nothing when
    /// it is allowed.  Checked in a fixed order: off the board, water, a
    /// structure items cannot rest on, an item already there.
    pub open spec fn new_object_verdict(self, pos: Position) -> Option<NewObjectErr> {
        if !self.spec_in_bounds(pos) {
            Some(NewObjectErr::OutOfMap)
        } else if self.spec_cell_at(pos).water {
            Some(NewObjectErr::OnWater)
        } else if exists|k: int|
            0 <= k < self.structures.slots@.len() && slot_blocks_items(
                #[trigger] self.structures.slots@[k],
                pos,
            ) {
            Some(NewObjectErr::BlockedByStructure)
        } else if item_at(self.drop_items@, pos) {
            Some(NewObjectErr::BlockedByItem)
        } else {
            None
        }
    }

    /// Drop an item of the given kind on the board.  The first free slot
    /// of the item list is reused under an advanced generation (so stale
    /// item handles are detected), or a fresh slot is appended at
    /// generation 0.  Each rejection comes exactly when
    /// `new_object_verdict` says so, and changes nothing.
    pub fn new_object(&mut self, pos: &Position, kind: ItemType) -> (r: Result<
        DropItemId,
        NewObjectErr,
    >)
        requires
            old(self).wf(),
            old(self).drop_items@.len() < u32::MAX,
        ensures
            final(self).wf(),
            *final(self) == (FactorishState { drop_items: final(self).drop_items, ..*old(self) }),
            match r {
                Err(e) => old(self).new_object_verdict(*pos) == Some(e) && final(self).drop_items
                    == old(self).drop_items,
                Ok(id) => {
                    &&& old(self).new_object_verdict(*pos) is None
                    &&& if (id.id as int) < old(self).drop_items@.len() {
                        &&& old(self).drop_items@[id.id as int].item is None
                        &&& (forall|j: int|
                            0 <= j < id.id as int ==> (#[trigger] old(
                                self,
                            ).drop_items@[j]).item is Some)
                        &&& id.gen == next_gen(old(self).drop_items@[id.id as int].gen)
                        &&& final(self).drop_items@ == old(self).drop_items@.update(
                            id.id as int,
                            DropItemEntry {
                                gen: id.gen,
                                item: Some(DropItem { type_: kind, position: *pos }),
                            },
                        )
                    } else {
                        &&& (forall|j: int|
                            0 <= j < old(self).drop_items@.len() ==> (#[trigger] old(
                                self,
                            ).drop_items@[j]).item is Some)
                        &&& id.id as int == old(self).drop_items@.len()
                        &&& id.gen == 0
                        &&& final(self).drop_items@ == old(self).drop_items@.push(
                            DropItemEntry {
                                gen: 0,
                                item: Some(DropItem { type_: kind, position: *pos }),
                            },
                        )
                    }
                },
            },
    {
        let cell = match self.tile_at(pos) {
            Some(c) => c,
            None => {
                return Err(NewObjectErr::OutOfMap);
            },
        };
        if cell.water {
            return Err(NewObjectErr::OnWater);
        }
        match self.find_structure_tile(pos) {
            Some(k) => {
                let blocks = match self.structures.get_at(k) {
                    Some(e) => match &e.bundle {
                        Some(b) => !b.dynamic.movable(),
                        None => false,
                    },
                    None => false,
                };
                if blocks {
                    proof {
                        assert(slot_blocks_items(self.structures.slots@[k as int], *pos));
                    }
                    return Err(NewObjectErr::BlockedByStructure);
                }
                proof {
                    // the only structure at the tile is passable, so no
                    // slot blocks the drop
                    assert(slot_at(self.structures.slots@[k as int], *pos));
                    assert forall|k2: int|
                        0 <= k2 < self.structures.slots@.len() implies !slot_blocks_items(
                        #[trigger] self.structures.slots@[k2],
                        *pos,
                    ) by {
                        if k2 != k as int {
                            assert(match (
                                self.structures.slots@[k2].bundle,
                                self.structures.slots@[k as int].bundle,
                            ) {
                                (Some(b1), Some(b2)) => !(b1.components.position is Some
                                    && b1.components.position == b2.components.position),
                                _ => true,
                            });
                        }
                    }
                }
            },
            None => {
                proof {
                    assert forall|k2: int|
                        0 <= k2 < self.structures.slots@.len() implies !slot_blocks_items(
                        #[trigger] self.structures.slots@[k2],
                        *pos,
                    ) by {
                        assert(!slot_at(self.structures.slots@[k2], *pos));
                    }
                }
            },
        }
        if self.find_item(pos) {
            return Err(NewObjectErr::BlockedByItem);
        }
        // first free slot, or a fresh one
        let item = DropItem { type_: kind, position: *pos };
        let n = self.drop_items.len();
        let mut q: usize = 0;
        let ghost s0 = *self;
        while q < n && self.drop_items[q].item.is_some()
            invariant
                *self == s0,
                n == self.drop_items@.len(),
                0 <= q <= n,
                forall|j: int| 0 <= j < q ==> (#[trigger] self.drop_items@[j]).item is Some,
            decreases n - q,
        {
            q = q + 1;
        }
        if q < n {
            let g = self.drop_items[q].gen;
            let g2 = if g == u32::MAX {
                0
            } else {
                g + 1
            };
            let e = &mut self.drop_items[q];
            e.gen = g2;
            e.item = Some(item);
            proof {
                assert(self.drop_items@ =~= s0.drop_items@.update(
                    q as int,
                    DropItemEntry { gen: g2, item: Some(item) },
                ));
            }
            Ok(DropItemId { id: q as u32, gen: g2 })
        } else {
            self.drop_items.push(DropItemEntry { gen: 0, item: Some(item) });
            Ok(DropItemId { id: n as u32, gen: 0 })
        }
    }
}

/// Whether two structures can be joined by a power wire: one must be a
/// power source and the other a power sink, and they must stand within
/// the smaller of their two wire reaches, by Chebyshev distance.
pub open spec fn wire_compat(a: StructureBundle, b: StructureBundle) -> bool {
    &&& (spec_power_sink(a.dynamic) && spec_power_source(b.dynamic)) || (spec_power_source(
        a.dynamic,
    ) && spec_power_sink(b.dynamic))
    &&& match (a.components.position, b.components.position) {
        (Some(pa), Some(pb)) => chebyshev_dist(pa, pb) <= (if spec_wire_reach(a.dynamic)
            < spec_wire_reach(b.dynamic) {
            spec_wire_reach(a.dynamic)
        } else {
            spec_wire_reach(b.dynamic)
        }),
        _ => false,
    }
}

fn abs_diff_i64_pos(a: i64, b: i64) -> (r: i64)
    requires
        i64::MIN / 2 < a < i64::MAX / 2,
        i64::MIN / 2 < b < i64::MAX / 2,
    ensures
        r == crate::geom::abs_diff(a as int, b as int),
{
    if a < b {
        b - a
    } else {
        a - b
    }
}

fn bundles_wire_compat(a: &StructureBundle, b: &StructureBundle) -> (r: bool)
    ensures
        r == wire_compat(*a, *b),
{
    let powered = (a.dynamic.power_sink() && b.dynamic.power_source()) || (a.dynamic.power_source()
        && b.dynamic.power_sink());
    if !powered {
        return false;
    }
    match (&a.components.position, &b.components.position) {
        (Some(pa), Some(pb)) => {
            let ra = a.dynamic.wire_reach();
            let rb = b.dynamic.wire_reach();
            let reach = if ra < rb {
                ra
            } else {
                rb
            };
            let dx: i64 = abs_diff_i64_pos(pa.x as i64, pb.x as i64);
            let dy: i64 = abs_diff_i64_pos(pa.y as i64, pb.y as i64);
            let d = if dx < dy {
                dy
            } else {
                dx
            };
            d <= reach as i64
        },
        _ => false,
    }
}

fn wires_contain(wires: &Vec<PowerWire>, w: PowerWire) -> (r: bool)
    ensures
        r == wires@.contains(w),
{
    let n = wires.len();
    let mut i: usize = 0;
    while i < n
        invariant
            n == wires@.len(),
            0 <= i <= n,
            forall|k: int| 0 <= k < i ==> wires@[k] != w,
        decreases n - i,
    {
        if wires[i] == w {
            proof {
                assert(wires@[i as int] == w);
            }
            return true;
        }
        i = i + 1;
    }
    false
}

impl FactorishState {
    /// Why a placement at `pos` would be rejected, or nothing when it is
    /// allowed.  Checked in a fixed order: unknown kind, off the board,
    /// wrong terrain (everything but an offshore pump needs land, the
    /// pump needs water), an existing structure, an existing item.
    pub open spec fn place_verdict(self, kind: ItemType, pos: Position) -> Option<NewObjectErr> {
        if !is_structure_kind(kind) {
            Some(NewObjectErr::NotAStructure)
        } else if !self.spec_in_bounds(pos) {
            Some(NewObjectErr::OutOfMap)
        } else if self.spec_cell_at(pos).water != (kind == ItemType::OffshorePump) {
            Some(NewObjectErr::OnWater)
        } else if self.occupied(pos) {
            Some(NewObjectErr::BlockedByStructure)
        } else if item_at(self.drop_items@, pos) {
            Some(NewObjectErr::BlockedByItem)
        } else {
            None
        }
    }

    /// Place a structure of the given kind at `pos`.  On success the new
    /// structure fills the first empty arena slot (or a fresh one), a
    /// power wire is created to every compatible structure within reach
    /// (not just the nearest), the networks are rebuilt from scratch, and
    /// the fluid links around the tile are rescanned.  Each rejection
    /// comes exactly when `place_verdict` says so, and leaves the state
    /// unchanged.
    pub fn place(&mut self, pos: &Position, kind: &ItemType, rotation: &Rotation) -> (r: Result<
        StructureId,
        NewObjectErr,
    >)
        requires
            old(self).wf(),
            old(self).structures.slots@.len() + 1 < u32::MAX,
        ensures
            final(self).wf(),
            match r {
                Err(e) => old(self).place_verdict(*kind, *pos) == Some(e) && *final(self) == *old(self),
                Ok(id) => {
                    &&& old(self).place_verdict(*kind, *pos) is None
                    &&& final(self).structures.valid_id(id)
                    &&& !old(self).structures.valid_id(id)
                    &&& final(self).structures.spec_get(id) matches Some(b) && bundle_of_kind(
                        *kind,
                        *pos,
                        *rotation,
                        b,
                    )
                    &&& forall|other: StructureId|
                        old(self).structures.valid_id(other) ==> #[trigger] final(self).structures.valid_id(other)
                    &&& final(self).power_wires@.len() >= old(self).power_wires@.len()
                    &&& forall|k: int|
                        0 <= k < old(self).power_wires@.len() ==> #[trigger] final(self).power_wires@[k] == old(self).power_wires@[k]
                    // every new wire joins the new structure to a live,
                    // compatible structure within reach, and no wire is
                    // duplicated: the new wires are exactly the compatible
                    // pairs
                    &&& forall|k: int|
                        old(self).power_wires@.len() <= k < final(self).power_wires@.len() ==> (
                        #[trigger] final(self).power_wires@[k]).0 == id && old(
                            self,
                        ).structures.valid_id(final(self).power_wires@[k].1) && (match (
                            final(self).structures.spec_get(id),
                            old(self).structures.spec_get(final(self).power_wires@[k].1),
                        ) {
                            (Some(nb), Some(ob)) => wire_compat(nb, ob),
                            _ => false,
                        })
                    &&& forall|k1: int, k2: int|
                        0 <= k1 < k2 < final(self).power_wires@.len() && old(
                            self,
                        ).power_wires@.len() <= k2 ==> #[trigger] final(self).power_wires@[k1]
                            != #[trigger] final(self).power_wires@[k2]
                    &&& forall|other: StructureId|
                        #[trigger] old(self).structures.valid_id(other) && (match (
                            final(self).structures.spec_get(id),
                            old(self).structures.spec_get(other),
                        ) {
                            (Some(nb), Some(ob)) => wire_compat(nb, ob),
                            _ => false,
                        }) ==> final(self).power_wires@.contains(PowerWire(id, other))
                },
            },
    {
        let bundle = match Self::new_structure(kind, pos, rotation) {
            Ok(b) => b,
            Err(e) => {
                return Err(e);
            },
        };
        let cell = match self.tile_at(pos) {
            Some(c) => c,
            None => {
                return Err(NewObjectErr::OutOfMap);
            },
        };
        let is_pump = matches!(kind, ItemType::OffshorePump);
        if cell.water != is_pump {
            return Err(NewObjectErr::OnWater);
        }
        if self.find_structure_tile(pos).is_some() {
            return Err(NewObjectErr::BlockedByStructure);
        }
        if self.find_item(pos) {
            return Err(NewObjectErr::BlockedByItem);
        }
        let ghost s0 = *self;
        let ghost placed = bundle;
        let id = self.structures.place(bundle);
        proof {
            assert forall|other: StructureId|
                s0.structures.valid_id(other) implies self.structures.valid_id(other)
                && #[trigger] self.structures.spec_get(other) == s0.structures.spec_get(other) by {
                assert(s0.structures.slots@[other.id as int].bundle is Some);
            }
            assert(!s0.structures.valid_id(id));
            assert forall|other: StructureId|
                #[trigger] self.structures.valid_id(other) implies s0.structures.valid_id(other)
                || other == id by {}
        }
        let ghost arena1 = self.structures;
        let n = self.structures.len();
        let mut k: usize = 0;
        let ghost wires0 = self.power_wires@;
        while k < n
            invariant
                self.structures == arena1,
                self.width == s0.width,
                self.height == s0.height,
                self.board == s0.board,
                self.player == s0.player,
                self.tool_rotation == s0.tool_rotation,
                self.selected_structure_inventory == s0.selected_structure_inventory,
                self.drop_items == s0.drop_items,
                self.sim_time == s0.sim_time,
                self.power_networks == s0.power_networks,
                n == self.structures.slots@.len(),
                n < u32::MAX,
                0 <= k <= n,
                self.structures.wf(),
                self.structures.valid_id(id),
                self.structures.spec_get(id) == Some(placed),
                forall|other: StructureId|
                    s0.structures.valid_id(other) ==> self.structures.valid_id(other)
                        && #[trigger] self.structures.spec_get(other) == s0.structures.spec_get(
                        other,
                    ),
                !s0.structures.valid_id(id),
                forall|other: StructureId|
                    #[trigger] self.structures.valid_id(other) ==> s0.structures.valid_id(other)
                        || other == id,
                self.power_wires@.len() >= wires0.len(),
                forall|j: int|
                    0 <= j < wires0.len() ==> #[trigger] self.power_wires@[j] == wires0[j],
                forall|j: int|
                    wires0.len() <= j < self.power_wires@.len() ==> (#[trigger] self.power_wires@[j]).0
                        == id && self.structures.valid_id(self.power_wires@[j].1)
                        && self.power_wires@[j].1 != id && s0.structures.valid_id(
                        self.power_wires@[j].1,
                    ) && (match s0.structures.spec_get(self.power_wires@[j].1) {
                        Some(ob) => wire_compat(placed, ob),
                        None => false,
                    }),
                forall|j1: int, j2: int|
                    0 <= j1 < j2 < self.power_wires@.len() && wires0.len() <= j2
                        ==> #[trigger] self.power_wires@[j1] != #[trigger] self.power_wires@[j2],
                forall|other: StructureId|
                    (other.id as int) < k && #[trigger] s0.structures.valid_id(other) && (match (
                        Some(placed),
                        s0.structures.spec_get(other),
                    ) {
                        (Some(nb), Some(ob)) => wire_compat(nb, ob),
                        _ => false,
                    }) ==> self.power_wires@.contains(PowerWire(id, other)),
            decreases n - k,
        {
            let ghost pre_wires = self.power_wires@;
            if k as u32 != id.id {
                let other_gen = match self.structures.get_at(k) {
                    Some(e) => e.gen,
                    None => 0,
                };
                let other_id = StructureId { id: k as u32, gen: other_gen };
                let compat = match (self.structures.get(id), self.structures.get(other_id)) {
                    (Some(nb), Some(ob)) => bundles_wire_compat(nb, ob),
                    _ => false,
                };
                if compat {
                    let w = PowerWire(id, other_id);
                    if !wires_contain(&self.power_wires, w) {
                        proof {
                            assert(self.structures.spec_get(id) == Some(placed));
                            assert(self.structures.spec_get(other_id) == s0.structures.spec_get(
                                other_id,
                            ));
                        }
                        self.power_wires.push(w);
                        proof {
                            assert forall|j1: int, j2: int|
                                0 <= j1 < j2 < self.power_wires@.len() && wires0.len()
                                    <= j2 implies #[trigger] self.power_wires@[j1]
                                != #[trigger] self.power_wires@[j2] by {
                                if j2 == self.power_wires@.len() - 1 {
                                    assert(self.power_wires@[j2] == w);
                                    assert(!pre_wires.contains(w));
                                    assert(self.power_wires@[j1] == pre_wires[j1]);
                                }
                            }
                        }
                    }
                }
            }
            proof {
                assert forall|other: StructureId|
                    (other.id as int) < k + 1 && #[trigger] s0.structures.valid_id(other) && (match (
                        Some(placed),
                        s0.structures.spec_get(other),
                    ) {
                        (Some(nb), Some(ob)) => wire_compat(nb, ob),
                        _ => false,
                    }) implies self.power_wires@.contains(PowerWire(id, other)) by {
                    if (other.id as int) < k {
                        assert(pre_wires.contains(PowerWire(id, other)));
                        let j = choose|j: int|
                            0 <= j < pre_wires.len() && pre_wires[j] == PowerWire(id, other);
                        assert(self.power_wires@[j] == PowerWire(id, other));
                    } else {
                        assert(other.id as int == k);
                        assert(other.id != id.id);
                        assert(self.structures.spec_get(other) == s0.structures.spec_get(other));
                        assert(other.gen == self.structures.slots@[k as int].gen);
                        if !pre_wires.contains(PowerWire(id, other)) {
                            assert(self.power_wires@[pre_wires.len() as int] == PowerWire(
                                id,
                                other,
                            ));
                        } else {
                            let j = choose|j: int|
                                0 <= j < pre_wires.len() && pre_wires[j] == PowerWire(id, other);
                            assert(self.power_wires@[j] == PowerWire(id, other));
                        }
                    }
                }
            }
            k = k + 1;
        }
        let nets = build_power_networks(&self.power_wires);
        self.power_networks = nets;
        let ghost s_before_links = *self;
        proof {
            assert(self.board@.len() == self.width * self.height);
            assert forall|kk: int|
                0 <= kk < self.power_wires@.len() implies self.structures.valid_id(
                (#[trigger] self.power_wires@[kk]).0,
            ) && self.structures.valid_id(self.power_wires@[kk].1) && self.power_wires@[kk].0
                != self.power_wires@[kk].1 by {
                if kk < wires0.len() {
                    assert(self.power_wires@[kk] == wires0[kk]);
                    assert(s0.structures.valid_id(wires0[kk].0));
                    assert(s0.structures.valid_id(wires0[kk].1));
                }
            }
            assert(self.wires_wf());
            assert(self.positions_set()) by {
                assert forall|kk: int|
                    0 <= kk < self.structures.slots@.len() implies match (
                #[trigger] self.structures.slots@[kk]).bundle {
                    Some(b) => b.components.position is Some,
                    None => true,
                } by {
                    if kk != id.id as int && kk < s0.structures.slots@.len() {
                        assert(self.structures.slots@[kk] == s0.structures.slots@[kk]);
                    } else {
                        assert(self.structures.slots@[kk].bundle == Some(placed));
                    }
                }
            }
            assert(self.positions_distinct()) by {
                assert forall|k1: int, k2: int|
                    0 <= k1 < self.structures.slots@.len() && 0 <= k2
                        < self.structures.slots@.len() && k1 != k2 implies match (
                    (#[trigger] self.structures.slots@[k1]).bundle,
                    (#[trigger] self.structures.slots@[k2]).bundle,
                ) {
                    (Some(b1), Some(b2)) => !(b1.components.position is Some
                        && b1.components.position == b2.components.position),
                    _ => true,
                } by {
                    if k1 != id.id as int && k2 != id.id as int {
                        assert(self.structures.slots@[k1] == s0.structures.slots@[k1]);
                        assert(self.structures.slots@[k2] == s0.structures.slots@[k2]);
                    } else if k1 == id.id as int {
                        assert(self.structures.slots@[k1].bundle == Some(placed));
                        if k2 < s0.structures.slots@.len() {
                            assert(self.structures.slots@[k2] == s0.structures.slots@[k2]);
                            assert(!slot_at(s0.structures.slots@[k2], *pos));
                        }
                    } else {
                        assert(self.structures.slots@[k2].bundle == Some(placed));
                        if k1 < s0.structures.slots@.len() {
                            assert(self.structures.slots@[k1] == s0.structures.slots@[k1]);
                            assert(!slot_at(s0.structures.slots@[k1], *pos));
                        }
                    }
                }
            }
            assert(self.wf());
        }
        self.update_fluid_connections(pos);
        proof {
            assert(link_frame(
                s_before_links.structures.slots@[id.id as int],
                self.structures.slots@[id.id as int],
            ));
            assert(self.structures.valid_id(id));
            // the link rescan keeps the new structure's kind and position,
            // so compatibility judged against it is unchanged
            assert forall|k: int|
                wires0.len() <= k < self.power_wires@.len() implies (match (
                self.structures.spec_get(id),
                s0.structures.spec_get((#[trigger] self.power_wires@[k]).1),
            ) {
                (Some(nb), Some(ob)) => wire_compat(nb, ob),
                _ => false,
            }) by {
                match (self.structures.spec_get(id), s0.structures.spec_get(
                    self.power_wires@[k].1,
                )) {
                    (Some(nb), Some(ob)) => {
                        assert(wire_compat(placed, ob));
                        assert(nb.dynamic == placed.dynamic);
                        assert(nb.components.position == placed.components.position);
                    },
                    _ => {},
                }
            }
            assert(self.structures.spec_get(id) matches Some(b) && bundle_of_kind(
                *kind,
                *pos,
                *rotation,
                b,
            )) by {
                assert(bundle_of_kind(*kind, *pos, *rotation, placed));
            }
            assert forall|other: StructureId|
                s0.structures.valid_id(other) implies #[trigger] self.structures.valid_id(
                other,
            ) by {
                assert(link_frame(
                    s_before_links.structures.slots@[other.id as int],
                    self.structures.slots@[other.id as int],
                ));
            }
        }
        Ok(id)
    }
}


/// Everything a harvested structure hands back: one item of the
/// structure's own kind, plus the contents of its behavior inventory (a
/// chest) or, failing that, its factory's input and output buffers.
/// Burner fuel is not recovered.  Counts cap at a slot's maximum.
pub open spec fn loot_count(b: StructureBundle, t: ItemType) -> int {
    let base: int = if t == crate::structure::spec_item_type(b.dynamic) {
        1
    } else {
        0
    };
    match b.dynamic {
        StructureDynamic::Chest { inventory } => crate::items::cap_add(
            base,
            inventory.spec_count(t),
        ),
        _ => match b.components.factory {
            Some(f) => crate::items::cap_add(
                crate::items::cap_add(base, f.input_inventory.spec_count(t)),
                f.output_inventory.spec_count(t),
            ),
            None => base,
        },
    }
}

/// A tick of the simulation touches nothing the state invariant depends
/// on beyond fluid amounts and kinds.
proof fn lemma_wf_fluid_frame(s1: FactorishState, s2: FactorishState)
    requires
        s1.wf(),
        s2.player == s1.player,
        s2.width == s1.width,
        s2.height == s1.height,
        s2.board@ == s1.board@,
        s2.power_wires@ == s1.power_wires@,
        s2.power_networks@ == s1.power_networks@,
        s2.structures.slots@.len() == s1.structures.slots@.len(),
        s2.structures.wf(),
        forall|k: int|
            0 <= k < s1.structures.slots@.len() ==> crate::flow::fluid_frame(
                #[trigger] s1.structures.slots@[k],
                s2.structures.slots@[k],
            ),
    ensures
        s2.wf(),
{
    assert forall|k: int| 0 <= k < s2.structures.slots@.len() implies match (
        #[trigger] s2.structures.slots@[k]).bundle {
        Some(b) => b.components.position is Some,
        None => true,
    } by {
        assert(crate::flow::fluid_frame(s1.structures.slots@[k], s2.structures.slots@[k]));
    }
    assert(s2.positions_set());
    assert forall|k1: int, k2: int|
        0 <= k1 < s2.structures.slots@.len() && 0 <= k2 < s2.structures.slots@.len() && k1
            != k2 implies match (
        (#[trigger] s2.structures.slots@[k1]).bundle,
        (#[trigger] s2.structures.slots@[k2]).bundle,
    ) {
        (Some(b1), Some(b2)) => !(b1.components.position is Some && b1.components.position
            == b2.components.position),
        _ => true,
    } by {
        assert(crate::flow::fluid_frame(s1.structures.slots@[k1], s2.structures.slots@[k1]));
        assert(crate::flow::fluid_frame(s1.structures.slots@[k2], s2.structures.slots@[k2]));
    }
    assert(s2.positions_distinct());
    assert forall|k: int|
        0 <= k < s2.power_wires@.len() implies s2.structures.valid_id(
        (#[trigger] s2.power_wires@[k]).0,
    ) && s2.structures.valid_id(s2.power_wires@[k].1) && s2.power_wires@[k].0
        != s2.power_wires@[k].1 by {
        assert(crate::flow::fluid_frame(
            s1.structures.slots@[s2.power_wires@[k].0.id as int],
            s2.structures.slots@[s2.power_wires@[k].0.id as int],
        ));
        assert(crate::flow::fluid_frame(
            s1.structures.slots@[s2.power_wires@[k].1.id as int],
            s2.structures.slots@[s2.power_wires@[k].1.id as int],
        ));
    }
}

impl FactorishState {
    /// Remove the structure standing at `position`, if any, and return
    /// what it hands back.  The slot's generation moves on so every
    /// handle to the structure goes stale; every wire touching it is
    /// pruned; the networks are rebuilt; and neighboring fluid links
    /// toward the tile are cleared.  With no structure there and
    /// `clear_item` set, a drop item at the tile is picked up instead.
    pub fn harvest(&mut self, position: &Position, clear_item: bool) -> (r: (bool, Inventory))
        requires
            old(self).wf(),
        ensures
            final(self).wf(),
            r.1.wf(),
            old(self).occupied(*position) ==> {
                &&& r.0 == true
                &&& exists|i: int|
                    {
                        &&& 0 <= i < old(self).structures.slots@.len()
                        &&& slot_at(#[trigger] old(self).structures.slots@[i], *position)
                        &&& final(self).structures.slots@.len() == old(self).structures.slots@.len()
                        &&& final(self).structures.slots@[i].bundle is None
                        &&& final(self).structures.slots@[i].gen == next_gen(
                            old(self).structures.slots@[i].gen,
                        )
                        &&& (forall|k: int|
                            0 <= k < old(self).structures.slots@.len() && k != i ==> link_frame(
                                #[trigger] old(self).structures.slots@[k],
                                final(self).structures.slots@[k],
                            ))
                        &&& (forall|t: ItemType|
                            #[trigger] r.1.spec_count(t) == loot_count(
                                old(self).structures.slots@[i].bundle.unwrap(),
                                t,
                            ))
                        // the wire list is the old one with every wire
                        // touching the removed slot filtered out, survivors
                        // in their order
                        &&& final(self).power_wires@ == old(self).power_wires@.filter(
                            |w: PowerWire| w.0.id != i && w.1.id != i,
                        )
                    }
            },
            !old(self).occupied(*position) ==> {
                &&& r.0 == (clear_item && item_at(old(self).drop_items@, *position))
                &&& final(self).structures == old(self).structures
                &&& final(self).power_wires == old(self).power_wires
                &&& (r.0 ==> {
                    // every item on the tile is picked up: its slot is
                    // cleared and its kind is credited to the returned loot
                    &&& (forall|t: ItemType|
                        #[trigger] r.1.spec_count(t) == items_at_count(
                            old(self).drop_items@,
                            *position,
                            t,
                        ))
                    &&& final(self).drop_items@.len() == old(self).drop_items@.len()
                    &&& (forall|k: int|
                        0 <= k < old(self).drop_items@.len()
                            ==> #[trigger] final(self).drop_items@[k] == (match (old(
                            self,
                        ).drop_items@[k]).item {
                            Some(it) => if it.position == *position {
                                DropItemEntry { gen: old(self).drop_items@[k].gen, item: None }
                            } else {
                                old(self).drop_items@[k]
                            },
                            None => old(self).drop_items@[k],
                        }))
                })
                &&& (!r.0 ==> final(self).drop_items == old(self).drop_items && (forall|
                    t: ItemType,
                |
                    #[trigger] r.1.spec_count(t) == 0))
            },
    {
        let found = self.find_structure_tile(position);
        match found {
            Some(i) => {
                let gen = match self.structures.get_at(i) {
                    Some(e) => e.gen,
                    None => 0,
                };
                let id = StructureId { id: i as u32, gen };
                let ghost s0 = *self;
                let removed = self.structures.remove(id);
                let bundle = match removed {
                    Some(b) => b,
                    None => {
                        proof {
                            assert(false);
                        }
                        return (false, Inventory::new());
                    },
                };
                let mut loot = Inventory::new();
                loot.add_items(bundle.dynamic.item_type(), 1);
                match &bundle.dynamic {
                    StructureDynamic::Chest { inventory } => {
                        loot.merge(inventory);
                    },
                    _ => {
                        if let Some(factory) = &bundle.components.factory {
                            loot.merge(&factory.input_inventory);
                            loot.merge(&factory.output_inventory);
                        }
                    },
                }
                // prune every wire touching the removed slot, keeping the
                // survivors in their order
                let ghost wires0 = self.power_wires@;
                let ghost keep = |w: PowerWire| w.0.id != i as int && w.1.id != i as int;
                let mut kept: Vec<PowerWire> = Vec::new();
                let nw = self.power_wires.len();
                let mut k: usize = 0;
                while k < nw
                    invariant
                        nw == wires0.len(),
                        self.power_wires@ == wires0,
                        0 <= k <= nw,
                        i < u32::MAX,
                        keep == (|w: PowerWire| w.0.id != i as int && w.1.id != i as int),
                        kept@ == wires0.subrange(0, k as int).filter(keep),
                        forall|j: int| 0 <= j < kept@.len() ==> wires0.contains(#[trigger] kept@[j]),
                    decreases nw - k,
                {
                    let w = self.power_wires[k];
                    let ghost kept0 = kept@;
                    if w.0.id != i as u32 && w.1.id != i as u32 {
                        kept.push(w);
                        proof {
                            assert(wires0[k as int] == w);
                            assert forall|j: int|
                                0 <= j < kept@.len() implies wires0.contains(
                                #[trigger] kept@[j],
                            ) by {
                                if j < kept0.len() {
                                    assert(kept@[j] == kept0[j]);
                                } else {
                                    assert(kept@[j] == wires0[k as int]);
                                }
                            }
                        }
                    }
                    proof {
                        reveal(Seq::filter);
                        assert(wires0.subrange(0, k + 1).drop_last() =~= wires0.subrange(
                            0,
                            k as int,
                        ));
                        assert(wires0.subrange(0, k + 1).last() == wires0[k as int]);
                        assert(kept@ == wires0.subrange(0, k + 1).filter(keep));
                    }
                    k = k + 1;
                }
                proof {
                    assert(wires0.subrange(0, nw as int) =~= wires0);
                }
                self.power_wires = kept;
                let nets = build_power_networks(&self.power_wires);
                self.power_networks = nets;
                let ghost s_mid = *self;
                proof {
                    assert forall|kk: int|
                        0 <= kk < self.power_wires@.len() implies self.structures.valid_id(
                        (#[trigger] self.power_wires@[kk]).0,
                    ) && self.structures.valid_id(self.power_wires@[kk].1) && self.power_wires@[kk].0
                        != self.power_wires@[kk].1 by {
                        assert(wires0.contains(self.power_wires@[kk]));
                        let j = choose|j: int|
                            0 <= j < wires0.len() && wires0[j] == self.power_wires@[kk];
                        assert(s0.structures.valid_id(wires0[j].0));
                        assert(s0.structures.valid_id(wires0[j].1));
                        assert(self.structures.slots@[wires0[j].0.id as int] == s0.structures.slots@[wires0[j].0.id as int]);
                        assert(self.structures.slots@[wires0[j].1.id as int] == s0.structures.slots@[wires0[j].1.id as int]);
                    }
                    assert(self.wires_wf());
                    assert(self.positions_set()) by {
                        assert forall|kk: int|
                            0 <= kk < self.structures.slots@.len() implies match (
                        #[trigger] self.structures.slots@[kk]).bundle {
                            Some(b) => b.components.position is Some,
                            None => true,
                        } by {
                            if kk != i as int {
                                assert(self.structures.slots@[kk] == s0.structures.slots@[kk]);
                            }
                        }
                    }
                    assert(self.positions_distinct()) by {
                        assert forall|k1: int, k2: int|
                            0 <= k1 < self.structures.slots@.len() && 0 <= k2
                                < self.structures.slots@.len() && k1 != k2 implies match (
                            (#[trigger] self.structures.slots@[k1]).bundle,
                            (#[trigger] self.structures.slots@[k2]).bundle,
                        ) {
                            (Some(b1), Some(b2)) => !(b1.components.position is Some
                                && b1.components.position == b2.components.position),
                            _ => true,
                        } by {
                            if k1 != i as int && k2 != i as int {
                                assert(self.structures.slots@[k1] == s0.structures.slots@[k1]);
                                assert(self.structures.slots@[k2] == s0.structures.slots@[k2]);
                            }
                        }
                    }
                    assert(self.wf());
                }
                self.update_fluid_connections(position);
                proof {
                    assert forall|kk: int|
                        0 <= kk < old(self).structures.slots@.len() && kk != i as int implies link_frame(
                        #[trigger] old(self).structures.slots@[kk],
                        self.structures.slots@[kk],
                    ) by {
                        assert(s_mid.structures.slots@[kk] == s0.structures.slots@[kk]);
                        assert(link_frame(s_mid.structures.slots@[kk], self.structures.slots@[kk]));
                    }
                    assert(link_frame(
                        s_mid.structures.slots@[i as int],
                        self.structures.slots@[i as int],
                    ));
                    assert(self.structures.slots@[i as int].bundle is None);
                    assert(slot_at(s0.structures.slots@[i as int], *position));
                }
                (true, loot)
            },
            None => {
                let mut had_item = false;
                let mut loot = Inventory::new();
                if clear_item {
                    had_item = self.find_item(position);
                    if had_item {
                        let ghost s_pre = *self;
                        let ghost items0 = self.drop_items@;
                        let n = self.drop_items.len();
                        let mut k: usize = 0;
                        while k < n
                            invariant
                                *self == (FactorishState { drop_items: self.drop_items, ..s_pre }),
                                s_pre.wf(),
                                n == self.drop_items@.len(),
                                n == items0.len(),
                                0 <= k <= n,
                                loot.wf(),
                                forall|t: ItemType|
                                    #[trigger] loot.spec_count(t) == items_at_count(
                                        items0.subrange(0, k as int),
                                        *position,
                                        t,
                                    ),
                                forall|t: ItemType| #[trigger] loot.spec_count(t) <= k,
                                forall|q: int|
                                    0 <= q < n ==> #[trigger] self.drop_items@[q] == (if q < k {
                                        match (items0[q]).item {
                                            Some(it) => if it.position == *position {
                                                DropItemEntry { gen: items0[q].gen, item: None }
                                            } else {
                                                items0[q]
                                            },
                                            None => items0[q],
                                        }
                                    } else {
                                        items0[q]
                                    }),
                            decreases n - k,
                        {
                            let ghost pre_items = self.drop_items@;
                            let picked = match &self.drop_items[k].item {
                                Some(it) => {
                                    if it.position.x == position.x && it.position.y == position.y {
                                        Some(it.type_)
                                    } else {
                                        None
                                    }
                                },
                                None => None,
                            };
                            if let Some(t) = picked {
                                let e = &mut self.drop_items[k];
                                e.item = None;
                                loot.add_items(t, 1);
                            }
                            proof {
                                lemma_items_count_push(
                                    items0.subrange(0, k as int),
                                    items0[k as int],
                                    *position,
                                );
                                assert(items0.subrange(0, k + 1) =~= items0.subrange(
                                    0,
                                    k as int,
                                ).push(items0[k as int]));
                            }
                            k = k + 1;
                        }
                        proof {
                            assert(items0.subrange(0, n as int) =~= items0);
                        }
                    }
                }
                (had_item, loot)
            },
        }
    }

    /// Advance the world by one tick: every structure's fluid containers
    /// push and pull across their links, in arena order — the fluid
    /// contents afterwards are exactly the fold `spec_fluid_tick` of the
    /// per-link step over every structure, container and link.  The total
    /// amount of fluid in the world is exactly conserved, and nothing
    /// outside container amounts and kinds changes.
    pub fn simulate(&mut self, delta_time: u64)
        requires
            old(self).wf(),
        ensures
            final(self).wf(),
            final(self).sim_time == crate::items::cap_add(
                old(self).sim_time as int,
                delta_time as int,
            ),
            crate::flow::views_of(final(self).structures.slots@) == crate::flow::spec_fluid_tick(
                crate::flow::slot_gens(old(self).structures.slots@),
                crate::flow::slot_live(old(self).structures.slots@),
                crate::flow::views_of(old(self).structures.slots@),
                old(self).structures.slots@.len() as int,
            ),
            crate::flow::arena_total(final(self).structures.slots@) == crate::flow::arena_total(
                old(self).structures.slots@,
            ),
            final(self).structures.slots@.len() == old(self).structures.slots@.len(),
            forall|k: int|
                0 <= k < old(self).structures.slots@.len() ==> crate::flow::fluid_frame(
                    #[trigger] old(self).structures.slots@[k],
                    final(self).structures.slots@[k],
                ),
            final(self).power_wires == old(self).power_wires,
            final(self).power_networks == old(self).power_networks,
            final(self).player == old(self).player,
    {
        let room = u64::MAX - self.sim_time;
        if delta_time <= room {
            self.sim_time = self.sim_time + delta_time;
        } else {
            self.sim_time = u64::MAX;
        }
        let ghost s0 = *self;
        fluid_simulate(&mut self.structures);
        proof {
            lemma_wf_fluid_frame(s0, *self);
        }
    }

    /// Rotate the structure standing at `pos` a quarter turn; only
    /// structures carrying a rotation component support it.
    pub fn rotate(&mut self, pos: &Position) -> (r: Result<(), crate::structure::RotateErr>)
        requires
            old(self).wf(),
        ensures
            final(self).wf(),
            !old(self).occupied(*pos) ==> r == Err::<(), crate::structure::RotateErr>(
                crate::structure::RotateErr::NotFound,
            ) && *final(self) == *old(self),
            forall|k: int|
                0 <= k < old(self).structures.slots@.len() && slot_at(
                    #[trigger] old(self).structures.slots@[k],
                    *pos,
                ) ==> {
                    let b = old(self).structures.slots@[k].bundle.unwrap();
                    match b.components.rotation {
                        Some(rot) => {
                            &&& r is Ok
                            &&& final(self).structures.slots@[k].bundle matches Some(b2)
                                && b2.dynamic == b.dynamic && b2.components
                                == (crate::structure::StructureComponents {
                                rotation: Some(rot.spec_next()),
                                ..b.components
                            })
                        },
                        None => r == Err::<(), crate::structure::RotateErr>(
                            crate::structure::RotateErr::NotSupported,
                        ) && final(self).structures.slots@[k] == old(self).structures.slots@[k],
                    }
                },
    {
        let found = self.find_structure_tile(pos);
        match found {
            Some(i) => {
                let ghost s0 = *self;
                let taken = self.structures.take_at(i);
                match taken {
                    Some(mut b) => {
                        let ghost b0 = b;
                        let res = b.rotate();
                        self.structures.restore_at(i, b);
                        proof {
                            assert(b0.wf());
                            assert(b.wf());
                            assert(b.components.position == b0.components.position);
                            assert forall|k: int|
                                0 <= k < self.structures.slots@.len() && k != i implies
                                self.structures.slots@[k] == s0.structures.slots@[k] by {}
                            assert(self.structures.wf());
                            assert(self.positions_set()) by {
                                assert forall|k: int|
                                    0 <= k < self.structures.slots@.len() implies match (
                                #[trigger] self.structures.slots@[k]).bundle {
                                    Some(bb) => bb.components.position is Some,
                                    None => true,
                                } by {
                                    if k != i as int {
                                        assert(self.structures.slots@[k]
                                            == s0.structures.slots@[k]);
                                    }
                                }
                            }
                            assert(self.positions_distinct()) by {
                                assert forall|k1: int, k2: int|
                                    0 <= k1 < self.structures.slots@.len() && 0 <= k2
                                        < self.structures.slots@.len() && k1 != k2 implies match (
                                    (#[trigger] self.structures.slots@[k1]).bundle,
                                    (#[trigger] self.structures.slots@[k2]).bundle,
                                ) {
                                    (Some(b1), Some(b2)) => !(b1.components.position is Some
                                        && b1.components.position == b2.components.position),
                                    _ => true,
                                } by {
                                    if k1 != i as int && k2 != i as int {
                                        assert(self.structures.slots@[k1]
                                            == s0.structures.slots@[k1]);
                                        assert(self.structures.slots@[k2]
                                            == s0.structures.slots@[k2]);
                                    }
                                }
                            }
                            assert(self.wires_wf()) by {
                                assert forall|k: int|
                                    0 <= k < self.power_wires@.len() implies self.structures.valid_id(
                                    (#[trigger] self.power_wires@[k]).0,
                                ) && self.structures.valid_id(self.power_wires@[k].1)
                                    && self.power_wires@[k].0 != self.power_wires@[k].1 by {
                                    assert(s0.structures.valid_id(self.power_wires@[k].0));
                                    assert(s0.structures.valid_id(self.power_wires@[k].1));
                                }
                            }
                            assert(self.wf());
                            assert forall|k: int|
                                0 <= k < s0.structures.slots@.len() && slot_at(
                                    #[trigger] s0.structures.slots@[k],
                                    *pos,
                                ) implies k == i as int by {
                                if k != i as int {
                                    assert(slot_at(s0.structures.slots@[i as int], *pos));
                                    assert(match (
                                        s0.structures.slots@[k].bundle,
                                        s0.structures.slots@[i as int].bundle,
                                    ) {
                                        (Some(b1), Some(b2)) => !(b1.components.position is Some
                                            && b1.components.position == b2.components.position),
                                        _ => true,
                                    });
                                }
                            }
                        }
                        res
                    },
                    None => {
                        proof {
                            assert(self.structures.slots@ =~= s0.structures.slots@);
                        }
                        Err(crate::structure::RotateErr::NotFound)
                    },
                }
            },
            None => Err(crate::structure::RotateErr::NotFound),
        }
    }
}

} // verus!
