//! Saving and loading: the compacted save document.
//!
//! On save, only live arena slots are written, in arena order, and every
//! power wire is remapped onto the compacted indices.  On load the
//! structures are re-inserted in save order starting at generation 0,
//! wires are rehydrated against the new indices, and any wire whose
//! endpoints do not name two distinct loaded structures is silently
//! dropped.  Fluid neighbor links are derived state: they are not part of
//! the document and are rebuilt after loading.  A document whose version
//! is too old or whose shape is wrong aborts the whole load and leaves
//! the state untouched.

use vstd::prelude::*;

use crate::arena::{StructureArena, StructureEntry};
use crate::fluid::FluidBox;
use crate::items::{count_in_seq, Inventory, ItemType};
use crate::power::{build_power_networks, PowerWire};
use crate::geom::{lemma_neighbor_index_sym, opposite_dir, spec_neighbor_index, Position};
use crate::state::{
    boxes_link, fluid_slot_at, link_established, link_frame, links_kept_away_from, pair_linked,
    slot_at, Cell, DropItem, DropItemEntry, FactorishState,
};
use crate::structure::{
    Burner, Factory, Recipe, StructureBundle, StructureComponents, StructureDynamic, StructureId,
};

verus! {

/// The save format version this crate writes and accepts.
pub const SAVE_VERSION: u32 = 5;

/// The in-memory save document.  Its textual shape is the embedding
/// layer's concern; the remapping rule lives here.
pub struct SaveGame {
    pub version: u32,
    pub sim_time: u64,
    pub width: u32,
    pub height: u32,
    pub board: Vec<Cell>,
    pub player_inventory: Vec<(ItemType, u64)>,
    pub tool_belt: [Option<ItemType>; 10],
    pub structures: Vec<StructureBundle>,
    pub power_wires: Vec<(u32, u32)>,
    pub items: Vec<DropItem>,
}


#[derive(PartialEq, Eq, Structural, Clone, Copy, Debug)]
pub enum LoadErr {
    /// The document's version predates what this crate can read.
    VersionTooOld,
    /// A field does not have the shape the document promises.
    BadShape,
}

/// Inventories hold the same items.
pub open spec fn inv_eq(a: Inventory, b: Inventory) -> bool {
    forall|t: ItemType| #[trigger] a.spec_count(t) == b.spec_count(t)
}

/// Recipes agree entry for entry.
pub open spec fn recipe_eq(a: Recipe, b: Recipe) -> bool {
    &&& inv_eq(a.input, b.input)
    &&& inv_eq(a.output, b.output)
    &&& a.input_fluid == b.input_fluid
    &&& a.output_fluid == b.output_fluid
    &&& a.power_cost == b.power_cost
    &&& a.recipe_time == b.recipe_time
}

pub open spec fn factory_eq(a: Factory, b: Factory) -> bool {
    &&& match (a.recipe, b.recipe) {
        (Some(ra), Some(rb)) => recipe_eq(ra, rb),
        (None, None) => true,
        _ => false,
    }
    &&& inv_eq(a.input_inventory, b.input_inventory)
    &&& inv_eq(a.output_inventory, b.output_inventory)
}

pub open spec fn dynamic_eq(a: StructureDynamic, b: StructureDynamic) -> bool {
    match (a, b) {
        (StructureDynamic::Chest { inventory: ia }, StructureDynamic::Chest { inventory: ib }) =>
            inv_eq(ia, ib),
        _ => a == b,
    }
}

/// Two bundles describe the same structure, fluid neighbor links aside.
/// Links are derived state and are rebuilt on load.
pub open spec fn bundle_eq_mod_links(a: StructureBundle, b: StructureBundle) -> bool {
    &&& dynamic_eq(a.dynamic, b.dynamic)
    &&& a.components.position == b.components.position
    &&& a.components.rotation == b.components.rotation
    &&& match (a.components.burner, b.components.burner) {
        (Some(ba), Some(bb)) => inv_eq(ba.inventory, bb.inventory),
        (None, None) => true,
        _ => false,
    }
    &&& a.components.energy == b.components.energy
    &&& match (a.components.factory, b.components.factory) {
        (Some(fa), Some(fb)) => factory_eq(fa, fb),
        (None, None) => true,
        _ => false,
    }
    &&& a.components.fluid_boxes@.len() == b.components.fluid_boxes@.len()
    &&& forall|k: int|
        0 <= k < a.components.fluid_boxes@.len() ==> crate::state::box_eq_mod_links(
            #[trigger] a.components.fluid_boxes@[k],
            b.components.fluid_boxes@[k],
        )
}

/// The number of live slots among the first `upto` arena slots: the
/// compacted save index of slot `upto`.
pub open spec fn live_count(slots: Seq<StructureEntry>, upto: int) -> int
    decreases upto,
{
    if upto <= 0 {
        0
    } else {
        live_count(slots, upto - 1) + (if slots[upto - 1].bundle is Some {
            1int
        } else {
            0int
        })
    }
}

/// The live drop items among the first `upto` item slots, in order.
pub open spec fn live_items_upto(items: Seq<DropItemEntry>, upto: int) -> Seq<DropItem>
    decreases upto,
{
    if upto <= 0 {
        Seq::empty()
    } else {
        match items[upto - 1].item {
            Some(it) => live_items_upto(items, upto - 1).push(it),
            None => live_items_upto(items, upto - 1),
        }
    }
}

/// The live bundles among the first `upto` slots, in arena order.
pub open spec fn compact_upto(slots: Seq<StructureEntry>, upto: int) -> Seq<StructureBundle>
    decreases upto,
{
    if upto <= 0 {
        Seq::empty()
    } else {
        match slots[upto - 1].bundle {
            Some(b) => compact_upto(slots, upto - 1).push(b),
            None => compact_upto(slots, upto - 1),
        }
    }
}

pub proof fn lemma_compact_len(slots: Seq<StructureEntry>, upto: int)
    ensures
        compact_upto(slots, upto).len() == live_count(slots, upto),
    decreases upto,
{
    if upto > 0 {
        lemma_compact_len(slots, upto - 1);
    }
}

fn copy_cells(v: &Vec<Cell>) -> (r: Vec<Cell>)
    ensures
        r@ == v@,
{
    let mut r: Vec<Cell> = Vec::new();
    let n = v.len();
    let mut i: usize = 0;
    while i < n
        invariant
            n == v@.len(),
            0 <= i <= n,
            r@ == v@.subrange(0, i as int),
        decreases n - i,
    {
        r.push(v[i]);
        proof {
            assert(r@ =~= v@.subrange(0, i + 1));
        }
        i = i + 1;
    }
    proof {
        assert(v@.subrange(0, n as int) =~= v@);
    }
    r
}

fn copy_entries(v: &Vec<(ItemType, u64)>) -> (r: Vec<(ItemType, u64)>)
    ensures
        r@ == v@,
{
    let mut r: Vec<(ItemType, u64)> = Vec::new();
    let n = v.len();
    let mut i: usize = 0;
    while i < n
        invariant
            n == v@.len(),
            0 <= i <= n,
            r@ == v@.subrange(0, i as int),
        decreases n - i,
    {
        r.push(v[i]);
        proof {
            assert(r@ =~= v@.subrange(0, i + 1));
        }
        i = i + 1;
    }
    proof {
        assert(v@.subrange(0, n as int) =~= v@);
    }
    r
}

fn copy_boxes(v: &Vec<FluidBox>) -> (r: Vec<FluidBox>)
    ensures
        r@ == v@,
{
    let mut r: Vec<FluidBox> = Vec::new();
    let n = v.len();
    let mut i: usize = 0;
    while i < n
        invariant
            n == v@.len(),
            0 <= i <= n,
            r@ == v@.subrange(0, i as int),
        decreases n - i,
    {
        r.push(v[i]);
        proof {
            assert(r@ =~= v@.subrange(0, i + 1));
        }
        i = i + 1;
    }
    proof {
        assert(v@.subrange(0, n as int) =~= v@);
    }
    r
}

fn copy_inventory(v: &Inventory) -> (r: Inventory)
    ensures
        r.entries@ == v.entries@,
        inv_eq(*v, r),
{
    Inventory { entries: copy_entries(&v.entries) }
}

fn copy_recipe(v: &Recipe) -> (r: Recipe)
    ensures
        recipe_eq(*v, r),
        r.input.entries@ == v.input.entries@,
        r.output.entries@ == v.output.entries@,
{
    Recipe {
        input: copy_inventory(&v.input),
        input_fluid: v.input_fluid,
        output: copy_inventory(&v.output),
        output_fluid: v.output_fluid,
        power_cost: v.power_cost,
        recipe_time: v.recipe_time,
    }
}

fn copy_factory(v: &Factory) -> (r: Factory)
    ensures
        factory_eq(*v, r),
        r.input_inventory.entries@ == v.input_inventory.entries@,
        r.output_inventory.entries@ == v.output_inventory.entries@,
        match (v.recipe, r.recipe) {
            (Some(ra), Some(rb)) => rb.input.entries@ == ra.input.entries@ && rb.output.entries@
                == ra.output.entries@,
            (None, None) => true,
            _ => false,
        },
{
    Factory {
        recipe: match &v.recipe {
            Some(recipe) => Some(copy_recipe(recipe)),
            None => None,
        },
        input_inventory: copy_inventory(&v.input_inventory),
        output_inventory: copy_inventory(&v.output_inventory),
    }
}

fn copy_bundle(v: &StructureBundle) -> (r: StructureBundle)
    ensures
        bundle_eq_mod_links(*v, r),
        r.wf() <== v.wf(),
{
    let dynamic = match &v.dynamic {
        StructureDynamic::Chest { inventory } => StructureDynamic::Chest {
            inventory: copy_inventory(inventory),
        },
        StructureDynamic::TransportBelt => StructureDynamic::TransportBelt,
        StructureDynamic::Inserter => StructureDynamic::Inserter,
        StructureDynamic::Splitter => StructureDynamic::Splitter,
        StructureDynamic::OreMine => StructureDynamic::OreMine,
        StructureDynamic::Furnace => StructureDynamic::Furnace,
        StructureDynamic::Assembler => StructureDynamic::Assembler,
        StructureDynamic::Boiler => StructureDynamic::Boiler,
        StructureDynamic::WaterWell => StructureDynamic::WaterWell,
        StructureDynamic::OffshorePump => StructureDynamic::OffshorePump,
        StructureDynamic::Pipe => StructureDynamic::Pipe,
        StructureDynamic::SteamEngine => StructureDynamic::SteamEngine,
        StructureDynamic::ElectPole { power } => StructureDynamic::ElectPole { power: *power },
    };
    let r = StructureBundle {
        dynamic,
        components: StructureComponents {
            position: v.components.position,
            rotation: v.components.rotation,
            burner: match &v.components.burner {
                Some(b) => Some(Burner { inventory: copy_inventory(&b.inventory) }),
                None => None,
            },
            energy: v.components.energy,
            factory: match &v.components.factory {
                Some(f) => Some(copy_factory(f)),
                None => None,
            },
            fluid_boxes: copy_boxes(&v.components.fluid_boxes),
        },
    };
    proof {
        if v.wf() {
            assert forall|k: int|
                0 <= k < r.components.fluid_boxes@.len() implies (
            #[trigger] r.components.fluid_boxes@[k]).kind_wf()
                && r.components.fluid_boxes@[k].filter_ok() by {
                assert(r.components.fluid_boxes@[k] == v.components.fluid_boxes@[k]);
                assert(v.components.fluid_boxes@[k].kind_wf());
                assert(v.components.fluid_boxes@[k].filter_ok());
            }
            assert(r.wf());
        }
    }
    r
}

/// What `serialize_game` promises: the document holds exactly the live
/// structures in arena order and the wires remapped onto compacted
/// indices, beside the bookkeeping fields.
pub open spec fn serialized(s: FactorishState, r: SaveGame) -> bool {
    &&& r.version == SAVE_VERSION
    &&& r.sim_time == s.sim_time
    &&& r.width == s.width
    &&& r.height == s.height
    &&& r.board@ == s.board@
    &&& r.player_inventory@ == s.player.inventory.entries@
    &&& r.tool_belt == s.tool_belt
    &&& r.items@ == live_items_upto(s.drop_items@, s.drop_items@.len() as int)
    &&& r.structures@.len() == live_count(s.structures.slots@, s.structures.slots@.len() as int)
    &&& forall|k: int|
        0 <= k < r.structures@.len() ==> bundle_eq_mod_links(
            compact_upto(s.structures.slots@, s.structures.slots@.len() as int)[k],
            #[trigger] r.structures@[k],
        ) && r.structures@[k].wf()
    &&& r.power_wires@.len() == s.power_wires@.len()
    &&& forall|k: int|
        0 <= k < s.power_wires@.len() ==> #[trigger] r.power_wires@[k] == (
            live_count(s.structures.slots@, (#[trigger] s.power_wires@[k]).0.id as int) as u32,
            live_count(s.structures.slots@, s.power_wires@[k].1.id as int) as u32,
        )
}

/// What a successful `deserialize_game` promises: the arena holds the
/// saved structures in order at generation 0, normalized; the wires are
/// exactly the sound saved wires at generation 0.
pub open spec fn loaded(save: SaveGame, s: FactorishState) -> bool {
    &&& s.width == save.width
    &&& s.height == save.height
    &&& s.sim_time == save.sim_time
    &&& s.board@ == save.board@
    &&& s.drop_items@.len() == save.items@.len()
    &&& forall|k: int|
        0 <= k < save.items@.len() ==> #[trigger] s.drop_items@[k] == (DropItemEntry {
            gen: 0,
            item: Some(save.items@[k]),
        })
    &&& s.player.inventory.wf()
    &&& forall|t: ItemType|
        #[trigger] s.player.inventory.spec_count(t) == clamp_count(
            count_in_seq(save.player_inventory@, t),
        )
    &&& s.tool_belt == save.tool_belt
    &&& s.structures.slots@.len() == save.structures@.len()
    &&& forall|k: int|
        0 <= k < save.structures@.len() ==> slot_norm(
            #[trigger] s.structures.slots@[k],
            save.structures@[k],
        )
    &&& forall|k: int|
        0 <= k < save.power_wires@.len() && ((#[trigger] save.power_wires@[k]).0 as int)
            < save.structures@.len() && (save.power_wires@[k].1 as int) < save.structures@.len()
            && save.power_wires@[k].0 != save.power_wires@[k].1 ==> s.power_wires@.contains(
            PowerWire(
                StructureId { id: save.power_wires@[k].0, gen: 0 },
                StructureId { id: save.power_wires@[k].1, gen: 0 },
            ),
        )
    &&& wires_from_save(s.power_wires@, save.power_wires@)
}

impl FactorishState {
    /// Write the whole world into a save document: exactly the live
    /// structures, in arena order, and every wire remapped onto the
    /// compacted indices.  Under the state invariant every wire's
    /// endpoints are live, so no wire is dropped by saving.
    pub fn serialize_game(&self) -> (r: SaveGame)
        requires
            self.wf(),
        ensures
            serialized(*self, r),
    {
        let n = self.structures.len();
        // compacted live structures, and the slot -> save-index map
        let mut structures: Vec<StructureBundle> = Vec::new();
        let mut save_index: Vec<u32> = Vec::new();
        let mut i: usize = 0;
        while i < n
            invariant
                self.wf(),
                n == self.structures.slots@.len(),
                n < u32::MAX,
                0 <= i <= n,
                structures@.len() == live_count(self.structures.slots@, i as int),
                structures@.len() <= i,
                forall|k: int|
                    0 <= k < structures@.len() ==> bundle_eq_mod_links(
                        compact_upto(self.structures.slots@, i as int)[k],
                        #[trigger] structures@[k],
                    ) && structures@[k].wf(),
                save_index@.len() == i,
                forall|k: int|
                    0 <= k < i ==> #[trigger] save_index@[k] == live_count(
                        self.structures.slots@,
                        k,
                    ),
            decreases n - i,
        {
            proof {
                lemma_compact_len(self.structures.slots@, i as int);
            }
            let cnt = structures.len() as u32;
            save_index.push(cnt);
            let ghost pre = structures@;
            match self.structures.get_at(i) {
                Some(e) => match &e.bundle {
                    Some(b) => {
                        proof {
                            assert(match (#[trigger] self.structures.slots@[i as int]).bundle {
                                Some(bb) => bb.wf(),
                                None => true,
                            });
                            assert(b.wf());
                        }
                        structures.push(copy_bundle(b));
                        proof {
                            assert(compact_upto(self.structures.slots@, i + 1)
                                =~= compact_upto(self.structures.slots@, i as int).push(
                                self.structures.slots@[i as int].bundle.unwrap(),
                            ));
                            assert forall|k: int|
                                0 <= k < structures@.len() implies bundle_eq_mod_links(
                                compact_upto(self.structures.slots@, i + 1)[k],
                                #[trigger] structures@[k],
                            ) by {
                                if k < pre.len() {
                                    assert(structures@[k] == pre[k]);
                                    assert(compact_upto(self.structures.slots@, i + 1)[k]
                                        == compact_upto(self.structures.slots@, i as int)[k]);
                                }
                            }
                        }
                    },
                    None => {
                        proof {
                            assert(compact_upto(self.structures.slots@, i + 1) =~= compact_upto(
                                self.structures.slots@,
                                i as int,
                            ));
                        }
                    },
                },
                None => {
                    proof {
                        assert(false);
                    }
                },
            }
            i = i + 1;
        }
        // wires, remapped onto compacted indices
        let mut power_wires: Vec<(u32, u32)> = Vec::new();
        let nw = self.power_wires.len();
        let mut k: usize = 0;
        while k < nw
            invariant
                nw == self.power_wires@.len(),
                n == self.structures.slots@.len(),
                save_index@.len() == n,
                forall|j: int|
                    0 <= j < n ==> #[trigger] save_index@[j] == live_count(
                        self.structures.slots@,
                        j,
                    ),
                self.wf(),
                0 <= k <= nw,
                power_wires@.len() == k,
                forall|j: int|
                    0 <= j < k ==> #[trigger] power_wires@[j] == (
                        live_count(
                            self.structures.slots@,
                            (#[trigger] self.power_wires@[j]).0.id as int,
                        ) as u32,
                        live_count(self.structures.slots@, self.power_wires@[j].1.id as int) as u32,
                    ),
            decreases nw - k,
        {
            let w = self.power_wires[k];
            proof {
                assert(self.structures.valid_id(self.power_wires@[k as int].0));
                assert(self.structures.valid_id(self.power_wires@[k as int].1));
            }
            let a = save_index[w.0.id as usize];
            let b = save_index[w.1.id as usize];
            power_wires.push((a, b));
            k = k + 1;
        }
        // the live drop items, compacted in order
        let mut items: Vec<DropItem> = Vec::new();
        let ni = self.drop_items.len();
        let mut q: usize = 0;
        while q < ni
            invariant
                ni == self.drop_items@.len(),
                0 <= q <= ni,
                items@ == live_items_upto(self.drop_items@, q as int),
            decreases ni - q,
        {
            match &self.drop_items[q].item {
                Some(it) => {
                    items.push(*it);
                },
                None => {},
            }
            q = q + 1;
        }
        SaveGame {
            version: SAVE_VERSION,
            sim_time: self.sim_time,
            width: self.width,
            height: self.height,
            board: copy_cells(&self.board),
            player_inventory: copy_entries(&self.player.inventory.entries),
            tool_belt: self.tool_belt,
            structures,
            power_wires,
            items,
        }
    }
}


/// A count clamped to what one inventory slot can hold.
pub open spec fn clamp_count(x: int) -> int {
    if x <= u64::MAX {
        x
    } else {
        u64::MAX as int
    }
}

/// Rebuild an inventory from a raw entry list.  Entries of one kind are
/// summed (capped), so the result is always well formed; a well-formed
/// list comes back with exactly its own counts.
fn normalize_inventory(v: &Vec<(ItemType, u64)>) -> (r: Inventory)
    ensures
        r.wf(),
        forall|t: ItemType| #[trigger] r.spec_count(t) == clamp_count(count_in_seq(v@, t)),
{
    let mut r = Inventory::new();
    let n = v.len();
    let mut i: usize = 0;
    while i < n
        invariant
            n == v@.len(),
            0 <= i <= n,
            r.wf(),
            forall|t: ItemType|
                #[trigger] r.spec_count(t) == clamp_count(count_in_seq(v@.subrange(0, i as int), t)),
        decreases n - i,
    {
        let (t, c) = v[i];
        let ghost pre = r;
        r.add_items_capped(t, c);
        proof {
            assert forall|t2: ItemType| true implies #[trigger] r.spec_count(t2) == clamp_count(
                count_in_seq(v@.subrange(0, i + 1), t2),
            ) by {
                assert(v@.subrange(0, i + 1) =~= v@.subrange(0, i as int).push(v@[i as int]));
                crate::items::lemma_count_push(v@.subrange(0, i as int), v@[i as int], t2);
                crate::items::lemma_count_nonneg(v@.subrange(0, i as int), t2);
            }
        }
        i = i + 1;
    }
    proof {
        assert(v@.subrange(0, n as int) =~= v@);
    }
    r
}

/// If the list was already well formed, normalizing it keeps every count.
pub proof fn lemma_normalize_wf(v: Seq<(ItemType, u64)>, t: ItemType)
    requires
        crate::items::entries_wf(v),
    ensures
        clamp_count(count_in_seq(v, t)) == count_in_seq(v, t),
{
    crate::items::lemma_count_bounded(v, t);
}

/// A loaded container against its saved form: kind, capacity, valves and
/// filter carry over, links are dropped, and contents that contradict the
/// container's invariants are discarded.
pub open spec fn box_norm_rel(ab: FluidBox, bb: FluidBox) -> bool {
    &&& bb.kind_wf()
    &&& bb.filter_ok()
    &&& bb.type_ == ab.type_
    &&& bb.max_amount == ab.max_amount
    &&& bb.input_enable == ab.input_enable
    &&& bb.output_enable == ab.output_enable
    &&& bb.filter == ab.filter
    &&& ((ab.kind_wf() && ab.filter_ok()) ==> bb.amount == ab.amount)
}

/// Rebuild a fluid container from saved fields: neighbor links are
/// dropped (they are derived), and contents that contradict the
/// container's own invariants — a kind of `None` with fluid in it, or
/// fluid of a kind its filter forbids — are discarded.
fn normalize_box(v: &FluidBox) -> (r: FluidBox)
    ensures
        r.kind_wf(),
        r.filter_ok(),
        r.type_ == v.type_,
        r.max_amount == v.max_amount,
        r.input_enable == v.input_enable,
        r.output_enable == v.output_enable,
        r.filter == v.filter,
        forall|d: int| 0 <= d < 4 ==> (#[trigger] r.connect_to@[d]) is None,
        (v.kind_wf() && v.filter_ok()) ==> r.amount == v.amount,
{
    let kind_ok = v.type_.is_some() || v.amount == 0;
    let filter_matches = match &v.filter {
        Some(_) => {
            match (&v.filter, &v.type_) {
                (Some(f), Some(t)) => *f == *t,
                _ => false,
            }
        },
        None => true,
    };
    let filter_ok = v.amount == 0 || filter_matches;
    FluidBox {
        type_: v.type_,
        amount: if kind_ok && filter_ok {
            v.amount
        } else {
            0
        },
        max_amount: v.max_amount,
        input_enable: v.input_enable,
        output_enable: v.output_enable,
        connect_to: [None, None, None, None],
        filter: v.filter,
    }
}

/// A loaded bundle against its saved form: inventories are normalized,
/// containers are normalized, everything else carries over.
pub open spec fn bundle_norm(a: StructureBundle, b: StructureBundle) -> bool {
    &&& match (a.dynamic, b.dynamic) {
        (StructureDynamic::Chest { inventory: ia }, StructureDynamic::Chest { inventory: ib }) => {
            &&& ib.wf()
            &&& forall|t: ItemType|
                #[trigger] ib.spec_count(t) == clamp_count(count_in_seq(ia.entries@, t))
        },
        _ => a.dynamic == b.dynamic,
    }
    &&& a.components.position == b.components.position
    &&& a.components.rotation == b.components.rotation
    &&& match (a.components.burner, b.components.burner) {
        (Some(ba), Some(bb)) => bb.inventory.wf() && forall|t: ItemType|
            #[trigger] bb.inventory.spec_count(t) == clamp_count(
                count_in_seq(ba.inventory.entries@, t),
            ),
        (None, None) => true,
        _ => false,
    }
    &&& a.components.energy == b.components.energy
    &&& match (a.components.factory, b.components.factory) {
        (Some(fa), Some(fb)) => {
            &&& match (fa.recipe, fb.recipe) {
                (Some(ra), Some(rb)) => {
                    &&& ra.input_fluid == rb.input_fluid
                    &&& ra.output_fluid == rb.output_fluid
                    &&& ra.power_cost == rb.power_cost
                    &&& ra.recipe_time == rb.recipe_time
                    &&& rb.input.wf()
                    &&& forall|t: ItemType|
                        #[trigger] rb.input.spec_count(t) == clamp_count(
                            count_in_seq(ra.input.entries@, t),
                        )
                    &&& rb.output.wf()
                    &&& forall|t: ItemType|
                        #[trigger] rb.output.spec_count(t) == clamp_count(
                            count_in_seq(ra.output.entries@, t),
                        )
                },
                (None, None) => true,
                _ => false,
            }
            &&& fb.input_inventory.wf()
            &&& forall|t: ItemType|
                #[trigger] fb.input_inventory.spec_count(t) == clamp_count(
                    count_in_seq(fa.input_inventory.entries@, t),
                )
            &&& fb.output_inventory.wf()
            &&& forall|t: ItemType|
                #[trigger] fb.output_inventory.spec_count(t) == clamp_count(
                    count_in_seq(fa.output_inventory.entries@, t),
                )
        },
        (None, None) => true,
        _ => false,
    }
    &&& a.components.fluid_boxes@.len() == b.components.fluid_boxes@.len()
    &&& forall|k: int|
        0 <= k < a.components.fluid_boxes@.len() ==> box_norm_rel(
            #[trigger] a.components.fluid_boxes@[k],
            b.components.fluid_boxes@[k],
        )
}

/// Normalizing a well-formed bundle reproduces it, links aside.
pub proof fn lemma_bundle_norm_wf(a: StructureBundle, b: StructureBundle)
    requires
        a.wf(),
        bundle_norm(a, b),
    ensures
        bundle_eq_mod_links(a, b),
{
    match (a.dynamic, b.dynamic) {
        (StructureDynamic::Chest { inventory: ia }, StructureDynamic::Chest { inventory: ib }) => {
            assert(ia.wf());
            assert forall|t: ItemType| true implies #[trigger] ib.spec_count(t) == ia.spec_count(
                t,
            ) by {
                lemma_normalize_wf(ia.entries@, t);
            }
        },
        _ => {},
    }
    match (a.components.burner, b.components.burner) {
        (Some(ba), Some(bb)) => {
            assert forall|t: ItemType| true implies #[trigger] bb.inventory.spec_count(t)
                == ba.inventory.spec_count(t) by {
                lemma_normalize_wf(ba.inventory.entries@, t);
            }
        },
        _ => {},
    }
    match (a.components.factory, b.components.factory) {
        (Some(fa), Some(fb)) => {
            assert forall|t: ItemType| true implies #[trigger] fb.input_inventory.spec_count(t)
                == fa.input_inventory.spec_count(t) by {
                lemma_normalize_wf(fa.input_inventory.entries@, t);
            }
            assert forall|t: ItemType| true implies #[trigger] fb.output_inventory.spec_count(t)
                == fa.output_inventory.spec_count(t) by {
                lemma_normalize_wf(fa.output_inventory.entries@, t);
            }
            match (fa.recipe, fb.recipe) {
                (Some(ra), Some(rb)) => {
                    assert forall|t: ItemType| true implies #[trigger] rb.input.spec_count(t)
                        == ra.input.spec_count(t) by {
                        lemma_normalize_wf(ra.input.entries@, t);
                    }
                    assert forall|t: ItemType| true implies #[trigger] rb.output.spec_count(t)
                        == ra.output.spec_count(t) by {
                        lemma_normalize_wf(ra.output.entries@, t);
                    }
                },
                _ => {},
            }
        },
        _ => {},
    }
}

fn normalize_bundle(v: &StructureBundle) -> (r: StructureBundle)
    ensures
        bundle_norm(*v, r),
        r.wf(),
{
    let dynamic = match &v.dynamic {
        StructureDynamic::Chest { inventory } => StructureDynamic::Chest {
            inventory: normalize_inventory(&inventory.entries),
        },
        StructureDynamic::TransportBelt => StructureDynamic::TransportBelt,
        StructureDynamic::Inserter => StructureDynamic::Inserter,
        StructureDynamic::Splitter => StructureDynamic::Splitter,
        StructureDynamic::OreMine => StructureDynamic::OreMine,
        StructureDynamic::Furnace => StructureDynamic::Furnace,
        StructureDynamic::Assembler => StructureDynamic::Assembler,
        StructureDynamic::Boiler => StructureDynamic::Boiler,
        StructureDynamic::WaterWell => StructureDynamic::WaterWell,
        StructureDynamic::OffshorePump => StructureDynamic::OffshorePump,
        StructureDynamic::Pipe => StructureDynamic::Pipe,
        StructureDynamic::SteamEngine => StructureDynamic::SteamEngine,
        StructureDynamic::ElectPole { power } => StructureDynamic::ElectPole { power: *power },
    };
    let nb = v.components.fluid_boxes.len();
    let mut boxes: Vec<FluidBox> = Vec::new();
    let mut k: usize = 0;
    while k < nb
        invariant
            nb == v.components.fluid_boxes@.len(),
            0 <= k <= nb,
            boxes@.len() == k,
            forall|j: int|
                0 <= j < k ==> box_norm_rel(
                    #[trigger] v.components.fluid_boxes@[j],
                    boxes@[j],
                ),
        decreases nb - k,
    {
        boxes.push(normalize_box(&v.components.fluid_boxes[k]));
        k = k + 1;
    }
    let r = StructureBundle {
        dynamic,
        components: StructureComponents {
            position: v.components.position,
            rotation: v.components.rotation,
            burner: match &v.components.burner {
                Some(b) => Some(Burner { inventory: normalize_inventory(&b.inventory.entries) }),
                None => None,
            },
            energy: v.components.energy,
            factory: match &v.components.factory {
                Some(f) => Some(
                    Factory {
                        recipe: match &f.recipe {
                            Some(recipe) => Some(
                                Recipe {
                                    input: normalize_inventory(&recipe.input.entries),
                                    input_fluid: recipe.input_fluid,
                                    output: normalize_inventory(&recipe.output.entries),
                                    output_fluid: recipe.output_fluid,
                                    power_cost: recipe.power_cost,
                                    recipe_time: recipe.recipe_time,
                                },
                            ),
                            None => None,
                        },
                        input_inventory: normalize_inventory(&f.input_inventory.entries),
                        output_inventory: normalize_inventory(&f.output_inventory.entries),
                    },
                ),
                None => None,
            },
            fluid_boxes: boxes,
        },
    };
    proof {
        assert forall|k: int|
            0 <= k < r.components.fluid_boxes@.len() implies (
        #[trigger] r.components.fluid_boxes@[k]).kind_wf()
            && r.components.fluid_boxes@[k].filter_ok() by {
            assert(box_norm_rel(v.components.fluid_boxes@[k], boxes@[k]));
        }
        assert(r.wf());
    }
    r
}


/// Every saved structure knows its tile, and no two share one.
pub open spec fn saved_positions_ok(v: Seq<StructureBundle>) -> bool {
    &&& forall|k: int| 0 <= k < v.len() ==> (#[trigger] v[k]).components.position is Some
    &&& forall|k1: int, k2: int|
        0 <= k1 < v.len() && 0 <= k2 < v.len() && k1 != k2 ==> !((#[trigger] v[k1]).components.position is Some
            && v[k1].components.position == (#[trigger] v[k2]).components.position)
}

fn check_positions(v: &Vec<StructureBundle>) -> (r: bool)
    ensures
        r == saved_positions_ok(v@),
{
    let n = v.len();
    let mut i: usize = 0;
    while i < n
        invariant
            n == v@.len(),
            0 <= i <= n,
            forall|k: int| 0 <= k < i ==> (#[trigger] v@[k]).components.position is Some,
            forall|k1: int, k2: int|
                0 <= k1 < i && 0 <= k2 < i && k1 != k2 ==> !((#[trigger] v@[k1]).components.position is Some
                    && v@[k1].components.position == (#[trigger] v@[k2]).components.position),
        decreases n - i,
    {
        let pi = match &v[i].components.position {
            Some(p) => *p,
            None => {
                return false;
            },
        };
        let mut j: usize = 0;
        while j < i
            invariant
                n == v@.len(),
                0 <= j <= i < n,
                v@[i as int].components.position == Some(pi),
                forall|k: int| 0 <= k < i ==> (#[trigger] v@[k]).components.position is Some,
                forall|k1: int, k2: int|
                    0 <= k1 < i && 0 <= k2 < i && k1 != k2 ==> !((#[trigger] v@[k1]).components.position is Some
                        && v@[k1].components.position == (#[trigger] v@[k2]).components.position),
                forall|k: int|
                    0 <= k < j ==> (#[trigger] v@[k]).components.position != Some(pi),
            decreases i - j,
        {
            let same = match &v[j].components.position {
                Some(p) => p.x == pi.x && p.y == pi.y,
                None => false,
            };
            if same {
                proof {
                    assert(v@[j as int].components.position == Some(pi));
                }
                return false;
            }
            j = j + 1;
        }
        i = i + 1;
    }
    true
}

/// A loaded slot against its saved structure: generation 0, live, and
/// normalized from the saved bundle.
pub open spec fn slot_norm(e: StructureEntry, saved: StructureBundle) -> bool {
    &&& e.gen == 0
    &&& e.bundle matches Some(b) && bundle_norm(saved, b)
}

/// The wire was rehydrated from some entry of the saved wire list.
pub open spec fn wire_from_save(w: PowerWire, saved: Seq<(u32, u32)>) -> bool {
    &&& w.0.gen == 0
    &&& w.1.gen == 0
    &&& exists|k: int| 0 <= k < saved.len() && #[trigger] saved[k] == (w.0.id, w.1.id)
}

/// Every wire of the list was rehydrated from the saved wire list.
pub open spec fn wires_from_save(ws: Seq<PowerWire>, saved: Seq<(u32, u32)>) -> bool {
    forall|j: int| 0 <= j < ws.len() ==> wire_from_save(#[trigger] ws[j], saved)
}

/// Why a load would be rejected, or nothing when the document is sound.
pub open spec fn load_verdict(save: SaveGame) -> Option<LoadErr> {
    if save.version < SAVE_VERSION {
        Some(LoadErr::VersionTooOld)
    } else if save.board@.len() != save.width * save.height {
        Some(LoadErr::BadShape)
    } else if save.structures@.len() >= u32::MAX {
        Some(LoadErr::BadShape)
    } else if !saved_positions_ok(save.structures@) {
        Some(LoadErr::BadShape)
    } else {
        None
    }
}

impl FactorishState {
    /// Load a save document, replacing the whole world.  Structures are
    /// re-inserted in save order at generation 0; wires are rehydrated
    /// against the new indices, silently dropping any wire that does not
    /// join two distinct loaded structures; the networks are rebuilt and
    /// the fluid links rescanned.  A document that is too old or
    /// malformed aborts the whole load: the state is left untouched.
    pub fn deserialize_game(&mut self, save: &SaveGame) -> (r: Result<(), LoadErr>)
        requires
            old(self).wf(),
        ensures
            final(self).wf(),
            match r {
                Err(e) => load_verdict(*save) == Some(e) && *final(self) == *old(self),
                Ok(()) => {
                    &&& load_verdict(*save) is None
                    &&& final(self).width == save.width
                    &&& final(self).height == save.height
                    &&& final(self).sim_time == save.sim_time
                    &&& final(self).board@ == save.board@
                    &&& final(self).drop_items@.len() == save.items@.len()
                    &&& forall|k: int|
                        0 <= k < save.items@.len() ==> #[trigger] final(self).drop_items@[k] == (
                        DropItemEntry { gen: 0, item: Some(save.items@[k]) })
                    &&& final(self).player.inventory.wf()
                    &&& forall|t: ItemType|
                        #[trigger] final(self).player.inventory.spec_count(t) == clamp_count(
                            count_in_seq(save.player_inventory@, t),
                        )
                    &&& final(self).tool_belt == save.tool_belt
                    &&& final(self).structures.slots@.len() == save.structures@.len()
                    &&& forall|k: int|
                        0 <= k < save.structures@.len() ==> slot_norm(
                            #[trigger] final(self).structures.slots@[k],
                            save.structures@[k],
                        )
                    &&& forall|k: int|
                        0 <= k < save.power_wires@.len() && ((#[trigger] save.power_wires@[k]).0
                            as int) < save.structures@.len() && (save.power_wires@[k].1 as int)
                            < save.structures@.len() && save.power_wires@[k].0
                            != save.power_wires@[k].1 ==> final(self).power_wires@.contains(
                            PowerWire(
                                StructureId { id: save.power_wires@[k].0, gen: 0 },
                                StructureId { id: save.power_wires@[k].1, gen: 0 },
                            ),
                        )
                    &&& wires_from_save(final(self).power_wires@, save.power_wires@)
                },
            },
    {
        if save.version < SAVE_VERSION {
            return Err(LoadErr::VersionTooOld);
        }
        proof {
            assert((save.width as int) * (save.height as int) < u64::MAX) by (nonlinear_arith)
                requires
                    0 <= save.width <= u32::MAX,
                    0 <= save.height <= u32::MAX,
            ;
        }
        let wh = (save.width as u64) * (save.height as u64);
        if (save.board.len() as u64) != wh {
            return Err(LoadErr::BadShape);
        }
        let n = save.structures.len();
        if n >= u32::MAX as usize {
            return Err(LoadErr::BadShape);
        }
        if !check_positions(&save.structures) {
            return Err(LoadErr::BadShape);
        }
        // structures, in save order, at generation 0
        let mut arena = StructureArena::new();
        let mut i: usize = 0;
        while i < n
            invariant
                n == save.structures@.len(),
                0 <= i <= n,
                arena.slots@.len() == i,
                forall|k: int|
                    0 <= k < i ==> slot_norm(#[trigger] arena.slots@[k], save.structures@[k]),
                forall|k: int|
                    0 <= k < i ==> match (#[trigger] arena.slots@[k]).bundle {
                        Some(b) => b.wf(),
                        None => false,
                    },
            decreases n - i,
        {
            let b = normalize_bundle(&save.structures[i]);
            arena.slots.push(StructureEntry { gen: 0, bundle: Some(b) });
            i = i + 1;
        }
        // wires, against the new indices; ill-formed ones drop silently
        let mut wires: Vec<PowerWire> = Vec::new();
        let nw = save.power_wires.len();
        let mut k: usize = 0;
        while k < nw
            invariant
                nw == save.power_wires@.len(),
                n == save.structures@.len(),
                n < u32::MAX as usize,
                0 <= k <= nw,
                forall|j: int|
                    0 <= j < k && ((#[trigger] save.power_wires@[j]).0 as int) < n
                        && (save.power_wires@[j].1 as int) < n && save.power_wires@[j].0
                        != save.power_wires@[j].1 ==> wires@.contains(
                        PowerWire(
                            StructureId { id: save.power_wires@[j].0, gen: 0 },
                            StructureId { id: save.power_wires@[j].1, gen: 0 },
                        ),
                    ),
                wires_from_save(wires@, save.power_wires@),
                forall|j: int|
                    0 <= j < wires@.len() ==> ((#[trigger] wires@[j]).0.id as int) < n
                        && (wires@[j].1.id as int) < n && wires@[j].0.gen == 0 && wires@[j].1.gen
                        == 0 && wires@[j].0 != wires@[j].1,
            decreases nw - k,
        {
            let (a, b) = save.power_wires[k];
            let ghost pre_wires = wires@;
            if (a as usize) < n && (b as usize) < n && a != b {
                let w = PowerWire(
                    StructureId { id: a, gen: 0 },
                    StructureId { id: b, gen: 0 },
                );
                wires.push(w);
                proof {
                    assert(wires@[pre_wires.len() as int] == w);
                    assert(save.power_wires@[k as int] == (w.0.id, w.1.id));
                    assert(wire_from_save(w, save.power_wires@));
                    assert forall|j2: int|
                        0 <= j2 < wires@.len() implies wire_from_save(
                        #[trigger] wires@[j2],
                        save.power_wires@,
                    ) by {
                        if j2 < pre_wires.len() {
                            assert(wires@[j2] == pre_wires[j2]);
                        }
                    }
                    assert forall|j: int|
                        0 <= j < k + 1 && ((#[trigger] save.power_wires@[j]).0 as int) < n
                            && (save.power_wires@[j].1 as int) < n && save.power_wires@[j].0
                            != save.power_wires@[j].1 implies wires@.contains(
                        PowerWire(
                            StructureId { id: save.power_wires@[j].0, gen: 0 },
                            StructureId { id: save.power_wires@[j].1, gen: 0 },
                        ),
                    ) by {
                        if j < k {
                            let w2 = PowerWire(
                                StructureId { id: save.power_wires@[j].0, gen: 0 },
                                StructureId { id: save.power_wires@[j].1, gen: 0 },
                            );
                            assert(pre_wires.contains(w2));
                            let jj = choose|jj: int| 0 <= jj < pre_wires.len() && pre_wires[jj] == w2;
                            assert(wires@[jj] == w2);
                        }
                    }
                }
            }
            k = k + 1;
        }
        let networks = build_power_networks(&wires);
        self.width = save.width;
        self.height = save.height;
        self.sim_time = save.sim_time;
        self.board = copy_cells(&save.board);
        self.player = crate::state::Player { inventory: normalize_inventory(&save.player_inventory) };
        self.tool_belt = save.tool_belt;
        let mut drop_items: Vec<DropItemEntry> = Vec::new();
        let nitems = save.items.len();
        let mut q: usize = 0;
        while q < nitems
            invariant
                nitems == save.items@.len(),
                0 <= q <= nitems,
                drop_items@.len() == q,
                forall|k: int|
                    0 <= k < q ==> #[trigger] drop_items@[k] == (DropItemEntry {
                        gen: 0,
                        item: Some(save.items@[k]),
                    }),
            decreases nitems - q,
        {
            drop_items.push(DropItemEntry { gen: 0, item: Some(save.items[q]) });
            q = q + 1;
        }
        self.drop_items = drop_items;
        self.selected_structure_inventory = None;
        self.structures = arena;
        self.power_wires = wires;
        self.power_networks = networks;
        proof {
            assert(self.wf()) by {
                assert(self.board@.len() == self.width * self.height);
                assert(self.structures.wf());
                assert(self.positions_set()) by {
                    assert forall|kk: int|
                        0 <= kk < self.structures.slots@.len() implies match (
                    #[trigger] self.structures.slots@[kk]).bundle {
                        Some(b) => b.components.position is Some,
                        None => true,
                    } by {
                        assert(save.structures@[kk].components.position is Some);
                    }
                }
                assert(self.positions_distinct()) by {
                    assert forall|k1: int, k2: int|
                        0 <= k1 < self.structures.slots@.len() && 0 <= k2
                            < self.structures.slots@.len() && k1 != k2 implies match (
                        (#[trigger] self.structures.slots@[k1]).bundle,
                        (#[trigger] self.structures.slots@[k2]).bundle,
                    ) {
                        (Some(b1), Some(b2)) => !(b1.components.position is Some
                            && b1.components.position == b2.components.position),
                        _ => true,
                    } by {
                        assert(save.structures@[k1].components.position is Some);
                        assert(save.structures@[k2].components.position is Some);
                    }
                }
                assert(self.wires_wf());
            }
        }
        // rebuild the derived fluid links around every structure
        let ghost loaded = *self;
        let mut li: usize = 0;
        while li < n
            invariant
                n == save.structures@.len(),
                0 <= li <= n,
                self.wf(),
                self.width == loaded.width,
                self.height == loaded.height,
                self.sim_time == loaded.sim_time,
                self.board == loaded.board,
                self.player == loaded.player,
                self.tool_belt == loaded.tool_belt,
                self.drop_items == loaded.drop_items,
                self.power_wires == loaded.power_wires,
                self.power_networks == loaded.power_networks,
                self.tool_rotation == loaded.tool_rotation,
                self.selected_structure_inventory == loaded.selected_structure_inventory,
                self.structures.slots@.len() == n,
                forall|kk: int|
                    0 <= kk < n ==> slot_norm(
                        #[trigger] self.structures.slots@[kk],
                        save.structures@[kk],
                    ),
                saved_positions_ok(save.structures@),
                forall|i2: int, j2: int|
                    0 <= i2 < n && 0 <= j2 < n && i2 != j2 && (i2 < li || j2 < li)
                        ==> #[trigger] crate::state::pair_linked(
                        self.structures.slots@,
                        i2,
                        j2,
                    ),
            decreases n - li,
        {
            let pos = match self.structures.get_at(li) {
                Some(e) => match &e.bundle {
                    Some(b) => match &b.components.position {
                        Some(p) => Some(*p),
                        None => None,
                    },
                    None => None,
                },
                None => None,
            };
            proof {
                assert(save.structures@[li as int].components.position is Some);
                assert(pos is Some);
            }
            if let Some(p) = pos {
                let ghost pre = *self;
                self.update_fluid_connections(&p);
                proof {
                    assert(crate::state::slot_at(pre.structures.slots@[li as int], p));
                    assert forall|kk: int|
                        0 <= kk < n implies slot_norm(
                        #[trigger] self.structures.slots@[kk],
                        save.structures@[kk],
                    ) by {
                        assert(link_frame(pre.structures.slots@[kk], self.structures.slots@[kk]));
                        match (pre.structures.slots@[kk].bundle, self.structures.slots@[kk].bundle) {
                            (Some(b1), Some(b2)) => {
                                assert(bundle_norm(save.structures@[kk], b1));
                                assert forall|bk: int|
                                    0 <= bk < save.structures@[kk].components.fluid_boxes@.len() implies box_norm_rel(
                                    #[trigger] save.structures@[kk].components.fluid_boxes@[bk],
                                    b2.components.fluid_boxes@[bk],
                                ) by {
                                    assert(box_norm_rel(
                                        save.structures@[kk].components.fluid_boxes@[bk],
                                        b1.components.fluid_boxes@[bk],
                                    ));
                                    assert(crate::state::box_eq_mod_links(
                                        b1.components.fluid_boxes@[bk],
                                        b2.components.fluid_boxes@[bk],
                                    ));
                                }
                            },
                            _ => {},
                        }
                    }
                    let cur = self.structures.slots@;
                    assert forall|i2: int, j2: int|
                        0 <= i2 < n && 0 <= j2 < n && i2 != j2 && (i2 < li + 1 || j2 < li + 1)
                            implies #[trigger] crate::state::pair_linked(cur, i2, j2) by {
                        lemma_pair_step(pre.structures.slots@, cur, li as int, p, i2, j2);
                    }
                }
            }
            li = li + 1;
        }
        proof {
            assert(self.power_wires@ == wires@);
            assert(wires_from_save(self.power_wires@, save.power_wires@));
        }
        Ok(())
    }
}


/// One link-rescan call, applied at the tile of the structure in slot
/// `li`, establishes that structure's pairs and preserves every pair
/// already established between other slots.
proof fn lemma_pair_step(
    pre: Seq<StructureEntry>,
    cur: Seq<StructureEntry>,
    li: int,
    p: Position,
    i2: int,
    j2: int,
)
    requires
        pre.len() == cur.len(),
        0 <= li < pre.len(),
        slot_at(pre[li], p),
        forall|k1: int, k2: int|
            0 <= k1 < pre.len() && 0 <= k2 < pre.len() && k1 != k2 ==> match (
                (#[trigger] pre[k1]).bundle,
                (#[trigger] pre[k2]).bundle,
            ) {
                (Some(b1), Some(b2)) => !(b1.components.position is Some && b1.components.position
                    == b2.components.position),
                _ => true,
            },
        forall|k: int| 0 <= k < pre.len() ==> link_frame(#[trigger] pre[k], cur[k]),
        forall|i: int, j: int|
            0 <= i < pre.len() && 0 <= j < pre.len() && j != i && fluid_slot_at(pre[i], p)
                ==> #[trigger] link_established(pre, cur, i, j, p),
        forall|k: int|
            0 <= k < pre.len() && !fluid_slot_at(pre[k], p) ==> #[trigger] links_kept_away_from(
                pre[k],
                cur[k],
                p,
            ),
        forall|a: int, b: int|
            0 <= a < pre.len() && 0 <= b < pre.len() && a != b && (a < li || b < li)
                ==> #[trigger] pair_linked(pre, a, b),
        0 <= i2 < pre.len(),
        0 <= j2 < pre.len(),
        i2 != j2,
        i2 < li + 1 || j2 < li + 1,
    ensures
        pair_linked(cur, i2, j2),
{
    assert(link_frame(pre[i2], cur[i2]));
    assert(link_frame(pre[j2], cur[j2]));
    match (pre[i2].bundle, pre[j2].bundle, cur[i2].bundle, cur[j2].bundle) {
        (Some(pbi), Some(pbj), Some(cbi), Some(cbj)) => {
            match (cbi.components.position, cbj.components.position) {
                (Some(pi), Some(pj)) => {
                    assert(pbi.components.position == Some(pi));
                    assert(pbj.components.position == Some(pj));
                    match spec_neighbor_index(pi, pj) {
                        Some(idx) => {
                            if cbi.components.fluid_boxes@.len() > 0
                                && cbj.components.fluid_boxes@.len() > 0 {
                                assert(pbi.components.fluid_boxes@.len() > 0);
                                assert(pbj.components.fluid_boxes@.len() > 0);
                                if i2 == li {
                                    assert(pi == p);
                                    assert(fluid_slot_at(pre[li], p));
                                    assert(link_established(pre, cur, li, j2, p));
                                    assert(cur[j2].gen == pre[j2].gen);
                                    assert(cur[i2].gen == pre[i2].gen);
                                } else if j2 == li {
                                    assert(pj == p);
                                    assert(fluid_slot_at(pre[li], p));
                                    assert(link_established(pre, cur, li, i2, p));
                                    lemma_neighbor_index_sym(pi, pj);
                                    assert(spec_neighbor_index(p, pi) == Some(
                                        opposite_dir(idx as int) as u32,
                                    ));
                                    assert(opposite_dir(opposite_dir(idx as int)) == idx as int);
                                    assert(cur[j2].gen == pre[j2].gen);
                                    assert(cur[i2].gen == pre[i2].gen);
                                } else {
                                    // a pair away from the rescanned tile:
                                    // already linked, and the rescan does not
                                    // touch the two facing direction slots
                                    assert(pair_linked(pre, i2, j2));
                                    assert(match (pre[i2].bundle, pre[li].bundle) {
                                        (Some(b1), Some(b2)) => !(b1.components.position is Some
                                            && b1.components.position == b2.components.position),
                                        _ => true,
                                    });
                                    assert(match (pre[j2].bundle, pre[li].bundle) {
                                        (Some(b1), Some(b2)) => !(b1.components.position is Some
                                            && b1.components.position == b2.components.position),
                                        _ => true,
                                    });
                                    assert(pi != p);
                                    assert(pj != p);
                                    assert(!fluid_slot_at(pre[i2], p));
                                    assert(!fluid_slot_at(pre[j2], p));
                                    assert(links_kept_away_from(pre[i2], cur[i2], p));
                                    assert(links_kept_away_from(pre[j2], cur[j2], p));
                                    assert(spec_neighbor_index(p, pj) != Some(idx as u32)) by {
                                        if spec_neighbor_index(p, pj) == Some(idx as u32) {
                                            assert(p == pi);
                                        }
                                    }
                                    assert(spec_neighbor_index(p, pi) != Some(
                                        opposite_dir(idx as int) as u32,
                                    )) by {
                                        if spec_neighbor_index(p, pi) == Some(
                                            opposite_dir(idx as int) as u32,
                                        ) {
                                            lemma_neighbor_index_sym(pi, pj);
                                            assert(p == pj);
                                        }
                                    }
                                    let id_i = StructureId { id: i2 as u32, gen: pre[i2].gen };
                                    let id_j = StructureId { id: j2 as u32, gen: pre[j2].gen };
                                    assert(boxes_link(pbj, idx as int, Some(id_i)));
                                    assert(boxes_link(pbi, opposite_dir(idx as int), Some(id_j)));
                                    assert forall|bx: int|
                                        0 <= bx < cbj.components.fluid_boxes@.len() implies (
                                    #[trigger] cbj.components.fluid_boxes@[bx]).connect_to@[idx as int]
                                        == Some(id_i) by {
                                        assert(pbj.components.fluid_boxes@[bx].connect_to@[idx as int]
                                            == Some(id_i));
                                    }
                                    assert forall|bx: int|
                                        0 <= bx < cbi.components.fluid_boxes@.len() implies (
                                    #[trigger] cbi.components.fluid_boxes@[bx]).connect_to@[opposite_dir(
                                        idx as int,
                                    )] == Some(id_j) by {
                                        assert(pbi.components.fluid_boxes@[bx].connect_to@[opposite_dir(
                                            idx as int,
                                        )] == Some(id_j));
                                    }
                                    assert(cur[j2].gen == pre[j2].gen);
                                    assert(cur[i2].gen == pre[i2].gen);
                                }
                            }
                        },
                        None => {},
                    }
                },
                _ => {},
            }
        },
        _ => {},
    }
}

pub proof fn lemma_live_count_le(slots: Seq<StructureEntry>, upto: int)
    requires
        0 <= upto,
    ensures
        0 <= live_count(slots, upto) <= upto,
    decreases upto,
{
    if upto > 0 {
        lemma_live_count_le(slots, upto - 1);
    }
}

pub proof fn lemma_live_count_mono(slots: Seq<StructureEntry>, a: int, b: int)
    requires
        0 <= a <= b,
    ensures
        live_count(slots, a) <= live_count(slots, b),
    decreases b - a,
{
    if a < b {
        lemma_live_count_mono(slots, a, b - 1);
    }
}

/// The compacted index of a live slot is strictly below the compacted
/// index of any later live slot, and below the total live count.
pub proof fn lemma_live_count_strict(slots: Seq<StructureEntry>, i: int, upto: int)
    requires
        0 <= i < upto <= slots.len(),
        slots[i].bundle is Some,
    ensures
        live_count(slots, i) < live_count(slots, upto),
{
    assert(live_count(slots, i + 1) == live_count(slots, i) + 1);
    lemma_live_count_mono(slots, i + 1, upto);
}

/// The `k`-th compacted entry is the bundle of the live slot whose
/// compacted index is `k`.
pub open spec fn provenance_at(
    slots: Seq<StructureEntry>,
    upto: int,
    c: StructureBundle,
    k: int,
) -> bool {
    exists|i: int|
        0 <= i < upto && (#[trigger] slots[i]).bundle == Some(c) && live_count(slots, i) == k
}

/// Every compacted entry is the bundle of the live slot whose compacted
/// index it sits at.
pub proof fn lemma_compact_provenance(slots: Seq<StructureEntry>, upto: int)
    requires
        0 <= upto <= slots.len(),
    ensures
        forall|k: int|
            0 <= k < compact_upto(slots, upto).len() ==> provenance_at(
                slots,
                upto,
                #[trigger] compact_upto(slots, upto)[k],
                k,
            ),
    decreases upto,
{
    if upto > 0 {
        lemma_compact_provenance(slots, upto - 1);
        lemma_compact_len(slots, upto - 1);
        assert forall|k: int|
            0 <= k < compact_upto(slots, upto).len() implies provenance_at(
            slots,
            upto,
            #[trigger] compact_upto(slots, upto)[k],
            k,
        ) by {
            match slots[upto - 1].bundle {
                Some(b) => {
                    if k < compact_upto(slots, upto - 1).len() {
                        assert(compact_upto(slots, upto)[k] == compact_upto(slots, upto - 1)[k]);
                        assert(provenance_at(slots, upto - 1, compact_upto(slots, upto - 1)[k], k));
                        let i = choose|i: int|
                            0 <= i < upto - 1 && (#[trigger] slots[i]).bundle == Some(
                                compact_upto(slots, upto - 1)[k],
                            ) && live_count(slots, i) == k;
                        assert(slots[i].bundle == Some(compact_upto(slots, upto)[k]));
                    } else {
                        assert(compact_upto(slots, upto)[k] == b);
                        assert(k == live_count(slots, upto - 1));
                        assert(slots[upto - 1].bundle == Some(compact_upto(slots, upto)[k]));
                    }
                },
                None => {
                    assert(compact_upto(slots, upto)[k] == compact_upto(slots, upto - 1)[k]);
                    assert(provenance_at(slots, upto - 1, compact_upto(slots, upto - 1)[k], k));
                    let i = choose|i: int|
                        0 <= i < upto - 1 && (#[trigger] slots[i]).bundle == Some(
                            compact_upto(slots, upto - 1)[k],
                        ) && live_count(slots, i) == k;
                    assert(slots[i].bundle == Some(compact_upto(slots, upto)[k]));
                },
            }
        }
    }
}

/// Equivalence of bundles modulo links is transitive.
pub proof fn lemma_bundle_eq_trans(a: StructureBundle, b: StructureBundle, c: StructureBundle)
    requires
        bundle_eq_mod_links(a, b),
        bundle_eq_mod_links(b, c),
    ensures
        bundle_eq_mod_links(a, c),
{
    assert forall|k: int|
        0 <= k < a.components.fluid_boxes@.len() implies crate::state::box_eq_mod_links(
        #[trigger] a.components.fluid_boxes@[k],
        c.components.fluid_boxes@[k],
    ) by {
        assert(crate::state::box_eq_mod_links(
            a.components.fluid_boxes@[k],
            b.components.fluid_boxes@[k],
        ));
        assert(crate::state::box_eq_mod_links(
            b.components.fluid_boxes@[k],
            c.components.fluid_boxes@[k],
        ));
    }
}

/// A document written from a well-formed world always loads: saving never
/// produces something `deserialize_game` would refuse.
pub proof fn lemma_saved_game_loads(s1: FactorishState, doc: SaveGame)
    requires
        s1.wf(),
        serialized(s1, doc),
    ensures
        load_verdict(doc) is None,
{
    let slots = s1.structures.slots@;
    let n = slots.len() as int;
    lemma_live_count_le(slots, n);
    lemma_compact_provenance(slots, n);
    lemma_compact_len(slots, n);
    assert(doc.board@.len() == doc.width * doc.height);
    assert forall|k: int|
        0 <= k < doc.structures@.len() implies (#[trigger] doc.structures@[k]).components.position is Some by {
        let c = compact_upto(slots, n)[k];
        assert(provenance_at(slots, n, c, k));
        let i = choose|i: int|
            0 <= i < n && (#[trigger] slots[i]).bundle == Some(c) && live_count(slots, i) == k;
        assert(match slots[i].bundle {
            Some(b) => b.components.position is Some,
            None => true,
        });
        assert(bundle_eq_mod_links(c, doc.structures@[k]));
    }
    assert forall|k1: int, k2: int|
        0 <= k1 < doc.structures@.len() && 0 <= k2 < doc.structures@.len() && k1
            != k2 implies !((#[trigger] doc.structures@[k1]).components.position is Some
        && doc.structures@[k1].components.position == (
    #[trigger] doc.structures@[k2]).components.position) by {
        let c1 = compact_upto(slots, n)[k1];
        let c2 = compact_upto(slots, n)[k2];
        assert(provenance_at(slots, n, c1, k1));
        assert(provenance_at(slots, n, c2, k2));
        let i1 = choose|i: int|
            0 <= i < n && (#[trigger] slots[i]).bundle == Some(c1) && live_count(slots, i) == k1;
        let i2 = choose|i: int|
            0 <= i < n && (#[trigger] slots[i]).bundle == Some(c2) && live_count(slots, i) == k2;
        assert(i1 != i2);
        assert(match (slots[i1].bundle, slots[i2].bundle) {
            (Some(b1), Some(b2)) => !(b1.components.position is Some && b1.components.position
                == b2.components.position),
            _ => true,
        });
        assert(bundle_eq_mod_links(c1, doc.structures@[k1]));
        assert(bundle_eq_mod_links(c2, doc.structures@[k2]));
    }
    assert(saved_positions_ok(doc.structures@));
}

/// The slot holds a live bundle equivalent (links aside) to `b`.
pub open spec fn slot_holds(e: StructureEntry, b: StructureBundle) -> bool {
    e.bundle matches Some(b2) && bundle_eq_mod_links(b, b2)
}

/// The wire a saved wire becomes after the handle remap: both endpoints
/// at their compacted indices, at generation 0.
pub open spec fn remap_wire(slots: Seq<StructureEntry>, w: PowerWire) -> PowerWire {
    PowerWire(
        StructureId { id: live_count(slots, w.0.id as int) as u32, gen: 0 },
        StructureId { id: live_count(slots, w.1.id as int) as u32, gen: 0 },
    )
}

/// The wire is the remap of some wire of the world that was saved.
pub open spec fn wire_remapped(
    slots: Seq<StructureEntry>,
    ws1: Seq<PowerWire>,
    w: PowerWire,
) -> bool {
    exists|k: int| 0 <= k < ws1.len() && w == remap_wire(slots, #[trigger] ws1[k])
}

/// Serialization round trip: loading a saved world reproduces an
/// equivalent one.  The loaded arena holds, in order, exactly the live
/// structures of the world that was saved (same kinds, positions and
/// component values; fluid links are derived and rebuilt), and the
/// loaded wire set is exactly the saved world's wire graph with both
/// endpoints remapped onto the compacted indices — the same connectivity
/// under the index map.
pub proof fn lemma_save_round_trip(s1: FactorishState, doc: SaveGame, s2: FactorishState)
    requires
        s1.wf(),
        serialized(s1, doc),
        loaded(doc, s2),
    ensures
        s2.structures.slots@.len() == live_count(
            s1.structures.slots@,
            s1.structures.slots@.len() as int,
        ),
        forall|k: int|
            0 <= k < s2.structures.slots@.len() ==> slot_holds(
                #[trigger] s2.structures.slots@[k],
                compact_upto(s1.structures.slots@, s1.structures.slots@.len() as int)[k],
            ),
        forall|k: int|
            0 <= k < s1.power_wires@.len() ==> s2.power_wires@.contains(
                remap_wire(s1.structures.slots@, #[trigger] s1.power_wires@[k]),
            ),
        forall|j: int|
            0 <= j < s2.power_wires@.len() ==> wire_remapped(
                s1.structures.slots@,
                s1.power_wires@,
                #[trigger] s2.power_wires@[j],
            ),
        s2.width == s1.width,
        s2.height == s1.height,
        s2.sim_time == s1.sim_time,
        s2.board@ == s1.board@,
        s2.tool_belt == s1.tool_belt,
        s2.drop_items@.len() == live_items_upto(s1.drop_items@, s1.drop_items@.len() as int).len(),
        forall|k: int|
            0 <= k < s2.drop_items@.len() ==> #[trigger] s2.drop_items@[k] == (DropItemEntry {
                gen: 0,
                item: Some(live_items_upto(s1.drop_items@, s1.drop_items@.len() as int)[k]),
            }),
        forall|t: ItemType|
            #[trigger] s2.player.inventory.spec_count(t) == s1.player.inventory.spec_count(t),
{
    let slots = s1.structures.slots@;
    let n = slots.len() as int;
    lemma_compact_len(slots, n);
    lemma_live_count_le(slots, n);
    // structures
    assert forall|k: int|
        0 <= k < s2.structures.slots@.len() implies slot_holds(
        #[trigger] s2.structures.slots@[k],
        compact_upto(slots, n)[k],
    ) by {
        assert(slot_norm(s2.structures.slots@[k], doc.structures@[k]));
        match s2.structures.slots@[k].bundle {
            Some(b) => {
                assert(bundle_norm(doc.structures@[k], b));
                assert(doc.structures@[k].wf());
                lemma_bundle_norm_wf(doc.structures@[k], b);
                assert(bundle_eq_mod_links(compact_upto(slots, n)[k], doc.structures@[k]));
                lemma_bundle_eq_trans(compact_upto(slots, n)[k], doc.structures@[k], b);
            },
            None => {
                assert(false);
            },
        }
    }
    // wires, forward
    assert forall|k: int|
        0 <= k < s1.power_wires@.len() implies s2.power_wires@.contains(
        remap_wire(slots, #[trigger] s1.power_wires@[k]),
    ) by {
        let w = s1.power_wires@[k];
        assert(s1.structures.valid_id(w.0) && s1.structures.valid_id(w.1) && w.0 != w.1);
        assert(w.0.id != w.1.id) by {
            if w.0.id == w.1.id {
                assert(w.0.gen == slots[w.0.id as int].gen);
                assert(w.1.gen == slots[w.1.id as int].gen);
            }
        }
        lemma_live_count_strict(slots, w.0.id as int, n);
        lemma_live_count_strict(slots, w.1.id as int, n);
        assert(live_count(slots, w.0.id as int) != live_count(slots, w.1.id as int)) by {
            if w.0.id < w.1.id {
                lemma_live_count_strict(slots, w.0.id as int, w.1.id as int);
            } else {
                lemma_live_count_strict(slots, w.1.id as int, w.0.id as int);
            }
        }
        lemma_live_count_le(slots, w.0.id as int);
        lemma_live_count_le(slots, w.1.id as int);
        assert(doc.power_wires@[k] == (
            live_count(slots, w.0.id as int) as u32,
            live_count(slots, w.1.id as int) as u32,
        ));
        assert(((doc.power_wires@[k].0) as int) < doc.structures@.len());
        assert(((doc.power_wires@[k].1) as int) < doc.structures@.len());
        assert(doc.power_wires@[k].0 != doc.power_wires@[k].1);
        assert(s2.power_wires@.contains(
            PowerWire(
                StructureId { id: doc.power_wires@[k].0, gen: 0 },
                StructureId { id: doc.power_wires@[k].1, gen: 0 },
            ),
        ));
        assert(PowerWire(
            StructureId { id: doc.power_wires@[k].0, gen: 0 },
            StructureId { id: doc.power_wires@[k].1, gen: 0 },
        ) == remap_wire(slots, w));
    }
    // wires, backward
    assert forall|j: int|
        0 <= j < s2.power_wires@.len() implies wire_remapped(
        slots,
        s1.power_wires@,
        #[trigger] s2.power_wires@[j],
    ) by {
        assert(wire_from_save(s2.power_wires@[j], doc.power_wires@));
        let kk = choose|kk: int|
            0 <= kk < doc.power_wires@.len() && #[trigger] doc.power_wires@[kk] == (
                s2.power_wires@[j].0.id,
                s2.power_wires@[j].1.id,
            );
        assert(doc.power_wires@[kk] == (
            live_count(slots, s1.power_wires@[kk].0.id as int) as u32,
            live_count(slots, s1.power_wires@[kk].1.id as int) as u32,
        ));
        assert(s2.power_wires@[j] == remap_wire(slots, s1.power_wires@[kk]));
        assert(wire_remapped(slots, s1.power_wires@, s2.power_wires@[j]));
    }
    // player inventory
    assert forall|t: ItemType| true implies #[trigger] s2.player.inventory.spec_count(t)
        == s1.player.inventory.spec_count(t) by {
        lemma_normalize_wf(s1.player.inventory.entries@, t);
    }
}

} // verus!
