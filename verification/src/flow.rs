//! The fluid flow engine: per-tick diffusion across the arena.
//!
//! Each tick, every structure holding fluid pushes or pulls across each of
//! its containers' neighbor links, one link step at a time (see
//! `crate::fluid`).  The engine only moves fluid between containers, so
//! the total amount over the whole arena is conserved exactly.

use vstd::prelude::*;

use crate::arena::{StructureArena, StructureEntry};
use crate::fluid::{link_step, transfer, FluidBox};
use crate::structure::StructureBundle;

verus! {

/// Total fluid held by a list of containers.
pub open spec fn boxes_total(s: Seq<FluidBox>) -> int
    decreases s.len(),
{
    if s.len() == 0 {
        0
    } else {
        s[0].amount + boxes_total(s.drop_first())
    }
}

/// Total fluid held by one arena slot.
pub open spec fn entry_total(e: StructureEntry) -> int {
    match e.bundle {
        Some(b) => boxes_total(b.components.fluid_boxes@),
        None => 0,
    }
}

/// Total fluid held across the whole arena.
pub open spec fn arena_total(slots: Seq<StructureEntry>) -> int
    decreases slots.len(),
{
    if slots.len() == 0 {
        0
    } else {
        entry_total(slots[0]) + arena_total(slots.drop_first())
    }
}

pub proof fn lemma_boxes_total_update(s: Seq<FluidBox>, i: int, b: FluidBox)
    requires
        0 <= i < s.len(),
    ensures
        boxes_total(s.update(i, b)) == boxes_total(s) - s[i].amount + b.amount,
    decreases s.len(),
{
    if i == 0 {
        assert(s.update(0, b).drop_first() =~= s.drop_first());
    } else {
        assert(s.update(i, b).drop_first() =~= s.drop_first().update(i - 1, b));
        lemma_boxes_total_update(s.drop_first(), i - 1, b);
    }
}

pub proof fn lemma_arena_total_update(slots: Seq<StructureEntry>, i: int, e: StructureEntry)
    requires
        0 <= i < slots.len(),
    ensures
        arena_total(slots.update(i, e)) == arena_total(slots) - entry_total(slots[i]) + entry_total(
            e,
        ),
    decreases slots.len(),
{
    if i == 0 {
        assert(slots.update(0, e).drop_first() =~= slots.drop_first());
    } else {
        assert(slots.update(i, e).drop_first() =~= slots.drop_first().update(i - 1, e));
        lemma_arena_total_update(slots.drop_first(), i - 1, e);
    }
}

/// Everything about a container except its amount and its current kind:
/// capacity, valves, filter and links are untouched by flow.
pub open spec fn box_static_eq(b1: FluidBox, b2: FluidBox) -> bool {
    &&& b1.max_amount == b2.max_amount
    &&& b1.input_enable == b2.input_enable
    &&& b1.output_enable == b2.output_enable
    &&& b1.connect_to == b2.connect_to
    &&& b1.filter == b2.filter
}

/// What one tick of the flow engine may change in a slot: only the
/// amounts and kinds of the fluid containers of a live bundle.  The
/// generation, liveness, behavior and all other components stay.
pub open spec fn fluid_frame(e1: StructureEntry, e2: StructureEntry) -> bool {
    &&& e2.gen == e1.gen
    &&& match (e1.bundle, e2.bundle) {
        (Some(b1), Some(b2)) => {
            &&& b2.dynamic == b1.dynamic
            &&& b2.components.position == b1.components.position
            &&& b2.components.rotation == b1.components.rotation
            &&& b2.components.burner == b1.components.burner
            &&& b2.components.energy == b1.components.energy
            &&& b2.components.factory == b1.components.factory
            &&& b2.components.fluid_boxes@.len() == b1.components.fluid_boxes@.len()
            &&& forall|k: int|
                0 <= k < b1.components.fluid_boxes@.len() ==> box_static_eq(
                    #[trigger] b1.components.fluid_boxes@[k],
                    b2.components.fluid_boxes@[k],
                )
        },
        (None, None) => true,
        _ => false,
    }
}

/// The same frame for a bundle held outside the arena.
pub open spec fn bundle_fluid_frame(b1: StructureBundle, b2: StructureBundle) -> bool {
    fluid_frame(
        StructureEntry { gen: 0, bundle: Some(b1) },
        StructureEntry { gen: 0, bundle: Some(b2) },
    )
}

/// The fluid contents of one slot, as a plain list; an empty slot holds
/// no containers.
pub open spec fn slot_boxes(e: StructureEntry) -> Seq<FluidBox> {
    match e.bundle {
        Some(b) => b.components.fluid_boxes@,
        None => Seq::empty(),
    }
}

/// The arena's fluid contents, slot by slot.
pub open spec fn views_of(slots: Seq<StructureEntry>) -> Seq<Seq<FluidBox>> {
    Seq::new(slots.len(), |k: int| slot_boxes(slots[k]))
}

/// The arena's slot generations.
pub open spec fn slot_gens(slots: Seq<StructureEntry>) -> Seq<u32> {
    Seq::new(slots.len(), |k: int| slots[k].gen)
}

/// Which arena slots hold a live structure.
pub open spec fn slot_live(slots: Seq<StructureEntry>) -> Seq<bool> {
    Seq::new(slots.len(), |k: int| slots[k].bundle is Some)
}

/// The fold of the per-link step between one container and the first `m`
/// containers of its neighbor, in order: what one resolved link transfers.
pub open spec fn flow_boxes(sb: FluidBox, boxes: Seq<FluidBox>, m: int) -> (FluidBox, Seq<
    FluidBox,
>)
    decreases m,
{
    if m <= 0 {
        (sb, boxes)
    } else {
        let r1 = flow_boxes(sb, boxes, m - 1);
        let step = link_step(r1.0, r1.1[m - 1]);
        (step.0, r1.1.update(m - 1, step.1))
    }
}

/// One direction slot of one container: a link naming a live slot with a
/// matching generation flows against every container there, one link step
/// each; an absent, stale or dead link moves nothing.
pub open spec fn flow_dir(
    gens: Seq<u32>,
    live: Seq<bool>,
    v: Seq<Seq<FluidBox>>,
    sb: FluidBox,
    d: int,
) -> (FluidBox, Seq<Seq<FluidBox>>) {
    match sb.connect_to@[d] {
        Some(id) => {
            let j = id.id as int;
            if 0 <= j < live.len() && live[j] && gens[j] == id.gen {
                let r = flow_boxes(sb, v[j], v[j].len() as int);
                (r.0, v.update(j, r.1))
            } else {
                (sb, v)
            }
        },
        None => (sb, v),
    }
}

/// The fold of one container's first `d` direction slots.
pub open spec fn flow_dirs(
    gens: Seq<u32>,
    live: Seq<bool>,
    v: Seq<Seq<FluidBox>>,
    sb: FluidBox,
    d: int,
) -> (FluidBox, Seq<Seq<FluidBox>>)
    decreases d,
{
    if d <= 0 {
        (sb, v)
    } else {
        let r1 = flow_dirs(gens, live, v, sb, d - 1);
        flow_dir(gens, live, r1.1, r1.0, d - 1)
    }
}

/// One container's whole turn: an empty container, or one with both
/// valves closed, initiates nothing; any other applies its four links in
/// order.
pub open spec fn flow_one_box(
    gens: Seq<u32>,
    live: Seq<bool>,
    v: Seq<Seq<FluidBox>>,
    sb: FluidBox,
) -> (FluidBox, Seq<Seq<FluidBox>>) {
    if sb.amount == 0 || (!sb.input_enable && !sb.output_enable) {
        (sb, v)
    } else {
        flow_dirs(gens, live, v, sb, 4)
    }
}

/// The fold of one structure's first `m` containers against the rest of
/// the arena, whose fluid contents are `v`.
pub open spec fn flow_bundle_boxes(
    gens: Seq<u32>,
    live: Seq<bool>,
    v: Seq<Seq<FluidBox>>,
    a: Seq<FluidBox>,
    m: int,
) -> (Seq<FluidBox>, Seq<Seq<FluidBox>>)
    decreases m,
{
    if m <= 0 {
        (a, v)
    } else {
        let r1 = flow_bundle_boxes(gens, live, v, a, m - 1);
        let r2 = flow_one_box(gens, live, r1.1, r1.0[m - 1]);
        (r1.0.update(m - 1, r2.0), r2.1)
    }
}

/// What processing the structure in slot `i` does to the arena's fluid
/// contents: its bundle leaves the arena (so links back to `i` resolve to
/// nothing), each of its containers flows across its links in order, and
/// the bundle returns.
pub open spec fn tick_structure(
    gens: Seq<u32>,
    live: Seq<bool>,
    v: Seq<Seq<FluidBox>>,
    i: int,
) -> Seq<Seq<FluidBox>> {
    if 0 <= i < live.len() && live[i] {
        let r = flow_bundle_boxes(
            gens,
            live.update(i, false),
            v.update(i, Seq::empty()),
            v[i],
            v[i].len() as int,
        );
        r.1.update(i, r.0)
    } else {
        v
    }
}

/// The whole tick: the structures of the first `n` slots take their
/// turns in arena order.
pub open spec fn spec_fluid_tick(
    gens: Seq<u32>,
    live: Seq<bool>,
    v: Seq<Seq<FluidBox>>,
    n: int,
) -> Seq<Seq<FluidBox>>
    decreases n,
{
    if n <= 0 {
        v
    } else {
        tick_structure(gens, live, spec_fluid_tick(gens, live, v, n - 1), n - 1)
    }
}

/// All containers of the bundle are well formed.
pub open spec fn bundle_boxes_wf(b: StructureBundle) -> bool {
    forall|k: int|
        0 <= k < b.components.fluid_boxes@.len() ==> (#[trigger] b.components.fluid_boxes@[k]).kind_wf()
            && b.components.fluid_boxes@[k].filter_ok()
}

/// Apply one link step between `sb` and each container of `boxes` in
/// order: exactly the fold `flow_boxes`.  Conserves the total amount held
/// by `sb` and `boxes` together.
fn flow_against_all(sb: &mut FluidBox, boxes: &mut Vec<FluidBox>)
    requires
        old(sb).kind_wf(),
        old(sb).filter_ok(),
        forall|k: int|
            0 <= k < old(boxes)@.len() ==> (#[trigger] old(boxes)@[k]).kind_wf()
                && old(boxes)@[k].filter_ok(),
    ensures
        *final(sb) == flow_boxes(*old(sb), old(boxes)@, old(boxes)@.len() as int).0,
        final(boxes)@ == flow_boxes(*old(sb), old(boxes)@, old(boxes)@.len() as int).1,
        final(sb).kind_wf(),
        final(sb).filter_ok(),
        forall|k: int|
            0 <= k < final(boxes)@.len() ==> (#[trigger] final(boxes)@[k]).kind_wf()
                && final(boxes)@[k].filter_ok(),
        final(sb).amount + boxes_total(final(boxes)@) == old(sb).amount
            + boxes_total(old(boxes)@),
        box_static_eq(*old(sb), *final(sb)),
        final(boxes)@.len() == old(boxes)@.len(),
        forall|k: int|
            0 <= k < old(boxes)@.len() ==> box_static_eq(
                #[trigger] old(boxes)@[k],
                final(boxes)@[k],
            ),
{
    let n = boxes.len();
    let mut bj: usize = 0;
    while bj < n
        invariant
            n == boxes@.len(),
            n == old(boxes)@.len(),
            0 <= bj <= n,
            *sb == flow_boxes(*old(sb), old(boxes)@, bj as int).0,
            boxes@ == flow_boxes(*old(sb), old(boxes)@, bj as int).1,
            sb.kind_wf(),
            sb.filter_ok(),
            forall|k: int|
                0 <= k < boxes@.len() ==> (#[trigger] boxes@[k]).kind_wf() && boxes@[k].filter_ok(),
            sb.amount + boxes_total(boxes@) == old(sb).amount + boxes_total(old(boxes)@),
            box_static_eq(*old(sb), *sb),
            forall|k: int|
                0 <= k < old(boxes)@.len() ==> box_static_eq(
                    #[trigger] old(boxes)@[k],
                    boxes@[k],
                ),
        decreases n - bj,
    {
        let ghost pre_sb = *sb;
        let ghost pre_boxes = boxes@;
        let nb = &mut boxes[bj];
        proof {
            crate::fluid::lemma_link_respects_filter(pre_sb, pre_boxes[bj as int]);
        }
        transfer(sb, nb);
        proof {
            assert(boxes@ == pre_boxes.update(bj as int, boxes@[bj as int]));
            crate::fluid::lemma_link_conserves_fluid(pre_sb, pre_boxes[bj as int]);
            lemma_boxes_total_update(pre_boxes, bj as int, boxes@[bj as int]);
            assert((*sb, boxes@[bj as int]) == link_step(pre_sb, pre_boxes[bj as int]));
            assert(box_static_eq(pre_boxes[bj as int], boxes@[bj as int]));
            assert forall|k: int|
                0 <= k < old(boxes)@.len() implies box_static_eq(
                #[trigger] old(boxes)@[k],
                boxes@[k],
            ) by {
                if k != bj as int {
                    assert(boxes@[k] == pre_boxes[k]);
                }
            }
        }
        bj = bj + 1;
    }
}

pub proof fn lemma_fluid_frame_trans(e1: StructureEntry, e2: StructureEntry, e3: StructureEntry)
    requires
        fluid_frame(e1, e2),
        fluid_frame(e2, e3),
    ensures
        fluid_frame(e1, e3),
{
}

/// Flow each fluid container of `bundle` (the structure taken out of slot
/// `i`) against the containers of every linked neighbor still in the
/// arena: exactly the fold `flow_bundle_boxes`.  A link pointing at a
/// stale or empty slot, or at slot `i` itself, moves nothing.  Total
/// fluid in the arena and the bundle together is conserved.
fn flow_bundle_links(arena: &mut StructureArena, i: usize, bundle: &mut StructureBundle)
    requires
        old(arena).wf(),
        bundle_boxes_wf(*old(bundle)),
    ensures
        final(arena).wf(),
        bundle_boxes_wf(*final(bundle)),
        final(arena).slots@.len() == old(arena).slots@.len(),
        forall|k: int|
            0 <= k < old(arena).slots@.len() ==> fluid_frame(
                #[trigger] old(arena).slots@[k],
                final(arena).slots@[k],
            ),
        bundle_fluid_frame(*old(bundle), *final(bundle)),
        arena_total(final(arena).slots@) + boxes_total(final(bundle).components.fluid_boxes@)
            == arena_total(old(arena).slots@) + boxes_total(old(bundle).components.fluid_boxes@),
        final(bundle).components.fluid_boxes@ == flow_bundle_boxes(
            slot_gens(old(arena).slots@),
            slot_live(old(arena).slots@),
            views_of(old(arena).slots@),
            old(bundle).components.fluid_boxes@,
            old(bundle).components.fluid_boxes@.len() as int,
        ).0,
        views_of(final(arena).slots@) == flow_bundle_boxes(
            slot_gens(old(arena).slots@),
            slot_live(old(arena).slots@),
            views_of(old(arena).slots@),
            old(bundle).components.fluid_boxes@,
            old(bundle).components.fluid_boxes@.len() as int,
        ).1,
{
    let ghost gens0 = slot_gens(old(arena).slots@);
    let ghost live0 = slot_live(old(arena).slots@);
    let ghost views0 = views_of(old(arena).slots@);
    let ghost a0 = old(bundle).components.fluid_boxes@;
    let nboxes = bundle.components.fluid_boxes.len();
    let mut bi: usize = 0;
    while bi < nboxes
        invariant
            nboxes == bundle.components.fluid_boxes@.len(),
            nboxes == old(bundle).components.fluid_boxes@.len(),
            0 <= bi <= nboxes,
            gens0 == slot_gens(old(arena).slots@),
            live0 == slot_live(old(arena).slots@),
            views0 == views_of(old(arena).slots@),
            a0 == old(bundle).components.fluid_boxes@,
            arena.wf(),
            bundle_boxes_wf(*bundle),
            arena.slots@.len() == old(arena).slots@.len(),
            forall|k: int|
                0 <= k < old(arena).slots@.len() ==> fluid_frame(
                    #[trigger] old(arena).slots@[k],
                    arena.slots@[k],
                ),
            bundle_fluid_frame(*old(bundle), *bundle),
            arena_total(arena.slots@) + boxes_total(bundle.components.fluid_boxes@) == arena_total(
                old(arena).slots@,
            ) + boxes_total(old(bundle).components.fluid_boxes@),
            bundle.components.fluid_boxes@ == flow_bundle_boxes(
                gens0,
                live0,
                views0,
                a0,
                bi as int,
            ).0,
            views_of(arena.slots@) == flow_bundle_boxes(gens0, live0, views0, a0, bi as int).1,
        decreases nboxes - bi,
    {
        let ghost boxes_bi = bundle.components.fluid_boxes@;
        let ghost v_bi = views_of(arena.slots@);
        let ghost sb_bi = bundle.components.fluid_boxes@[bi as int];
        let skip = {
            let fb = &bundle.components.fluid_boxes[bi];
            fb.amount == 0 || (!fb.input_enable && !fb.output_enable)
        };
        if !skip {
            let mut d: usize = 0;
            while d < 4
                invariant
                    0 <= d <= 4,
                    bi < nboxes,
                    nboxes == bundle.components.fluid_boxes@.len(),
                    nboxes == old(bundle).components.fluid_boxes@.len(),
                    gens0 == slot_gens(old(arena).slots@),
                    live0 == slot_live(old(arena).slots@),
                    arena.wf(),
                    bundle_boxes_wf(*bundle),
                    arena.slots@.len() == old(arena).slots@.len(),
                    forall|k: int|
                        0 <= k < old(arena).slots@.len() ==> fluid_frame(
                            #[trigger] old(arena).slots@[k],
                            arena.slots@[k],
                        ),
                    bundle_fluid_frame(*old(bundle), *bundle),
                    arena_total(arena.slots@) + boxes_total(bundle.components.fluid_boxes@)
                        == arena_total(old(arena).slots@) + boxes_total(
                        old(bundle).components.fluid_boxes@,
                    ),
                    forall|k: int|
                        0 <= k < nboxes && k != bi ==> #[trigger] bundle.components.fluid_boxes@[k]
                            == boxes_bi[k],
                    bundle.components.fluid_boxes@[bi as int] == flow_dirs(
                        gens0,
                        live0,
                        v_bi,
                        sb_bi,
                        d as int,
                    ).0,
                    views_of(arena.slots@) == flow_dirs(gens0, live0, v_bi, sb_bi, d as int).1,
                decreases 4 - d,
            {
                let ghost sb_cur = bundle.components.fluid_boxes@[bi as int];
                let ghost v_cur = views_of(arena.slots@);
                let link = bundle.components.fluid_boxes[bi].connect_to[d];
                proof {
                    // the link slots never change across transfers, so the
                    // fold reads the same link the code just read
                    assert(box_static_eq(sb_bi, sb_cur)) by {
                        if d > 0 {
                            lemma_flow_dirs_static(gens0, live0, v_bi, sb_bi, d as int);
                        }
                    }
                    assert(sb_cur.connect_to@[d as int] == link);
                }
                if let Some(id) = link {
                    let idx = id.id as usize;
                    if idx < arena.len() {
                        let gen_ok = match arena.get_at(idx) {
                            Some(e) => e.gen == id.gen,
                            None => false,
                        };
                        proof {
                            assert(arena.slots@[idx as int].gen == old(arena).slots@[idx as int].gen);
                            assert(gens0[idx as int] == old(arena).slots@[idx as int].gen);
                            assert(gen_ok == (gens0[idx as int] == id.gen));
                        }
                        if gen_ok {
                            let ghost pre_slots = arena.slots@;
                            let ghost pre_bundle = *bundle;
                            let taken = arena.take_at(idx);
                            proof {
                                assert((taken is Some) == live0[idx as int]) by {
                                    assert(fluid_frame(
                                        old(arena).slots@[idx as int],
                                        pre_slots[idx as int],
                                    ));
                                }
                            }
                            if let Some(mut nb) = taken {
                                proof {
                                    lemma_arena_total_update(
                                        pre_slots,
                                        idx as int,
                                        arena.slots@[idx as int],
                                    );
                                    assert(nb.components.fluid_boxes@ == v_cur[idx as int]);
                                }
                                let sbox = &mut bundle.components.fluid_boxes[bi];
                                flow_against_all(sbox, &mut nb.components.fluid_boxes);
                                let ghost mid_slots = arena.slots@;
                                arena.restore_at(idx, nb);
                                proof {
                                    lemma_arena_total_update(
                                        mid_slots,
                                        idx as int,
                                        arena.slots@[idx as int],
                                    );
                                    lemma_boxes_total_update(
                                        pre_bundle.components.fluid_boxes@,
                                        bi as int,
                                        bundle.components.fluid_boxes@[bi as int],
                                    );
                                    assert forall|k: int|
                                        0 <= k < old(arena).slots@.len() implies fluid_frame(
                                        #[trigger] old(arena).slots@[k],
                                        arena.slots@[k],
                                    ) by {
                                        if k == idx as int {
                                            assert(fluid_frame(pre_slots[k], arena.slots@[k]));
                                            lemma_fluid_frame_trans(
                                                old(arena).slots@[k],
                                                pre_slots[k],
                                                arena.slots@[k],
                                            );
                                        } else {
                                            assert(arena.slots@[k] == pre_slots[k]);
                                        }
                                    }
                                    assert(bundle_fluid_frame(pre_bundle, *bundle));
                                    lemma_fluid_frame_trans(
                                        StructureEntry { gen: 0, bundle: Some(*old(bundle)) },
                                        StructureEntry { gen: 0, bundle: Some(pre_bundle) },
                                        StructureEntry { gen: 0, bundle: Some(*bundle) },
                                    );
                                    // the iteration is exactly one `flow_dir`
                                    let r = flow_boxes(
                                        sb_cur,
                                        v_cur[idx as int],
                                        v_cur[idx as int].len() as int,
                                    );
                                    assert(bundle.components.fluid_boxes@[bi as int] == r.0);
                                    assert(views_of(arena.slots@) =~= v_cur.update(
                                        idx as int,
                                        r.1,
                                    ));
                                    assert(flow_dir(gens0, live0, v_cur, sb_cur, d as int) == (
                                        r.0,
                                        v_cur.update(idx as int, r.1),
                                    ));
                                    assert forall|k: int|
                                        0 <= k < nboxes && k
                                            != bi implies #[trigger] bundle.components.fluid_boxes@[k]
                                        == boxes_bi[k] by {
                                        assert(bundle.components.fluid_boxes@[k]
                                            == pre_bundle.components.fluid_boxes@[k]);
                                    }
                                }
                            } else {
                                proof {
                                    assert(arena.slots@ =~= pre_slots);
                                    assert(flow_dir(gens0, live0, v_cur, sb_cur, d as int) == (
                                        sb_cur,
                                        v_cur,
                                    ));
                                }
                            }
                        } else {
                            proof {
                                assert(flow_dir(gens0, live0, v_cur, sb_cur, d as int) == (
                                    sb_cur,
                                    v_cur,
                                ));
                            }
                        }
                    } else {
                        proof {
                            assert(idx as int >= live0.len());
                            assert(flow_dir(gens0, live0, v_cur, sb_cur, d as int) == (
                                sb_cur,
                                v_cur,
                            ));
                        }
                    }
                } else {
                    proof {
                        assert(flow_dir(gens0, live0, v_cur, sb_cur, d as int) == (sb_cur, v_cur));
                    }
                }
                d = d + 1;
            }
            proof {
                assert(bundle.components.fluid_boxes@[bi as int] == flow_one_box(
                    gens0,
                    live0,
                    v_bi,
                    sb_bi,
                ).0);
                assert(views_of(arena.slots@) == flow_one_box(gens0, live0, v_bi, sb_bi).1);
            }
        } else {
            proof {
                assert(flow_one_box(gens0, live0, v_bi, sb_bi) == (sb_bi, v_bi));
            }
        }
        proof {
            assert(boxes_bi == flow_bundle_boxes(gens0, live0, views0, a0, bi as int).0);
            assert(bundle.components.fluid_boxes@ =~= boxes_bi.update(
                bi as int,
                bundle.components.fluid_boxes@[bi as int],
            ));
            assert(bundle.components.fluid_boxes@ == flow_bundle_boxes(
                gens0,
                live0,
                views0,
                a0,
                bi as int + 1,
            ).0);
            assert(views_of(arena.slots@) == flow_bundle_boxes(
                gens0,
                live0,
                views0,
                a0,
                bi as int + 1,
            ).1);
        }
        bi = bi + 1;
    }
}

/// Across the fold of a container's direction slots, everything but its
/// amount and kind stays: in particular its links.
proof fn lemma_flow_dirs_static(
    gens: Seq<u32>,
    live: Seq<bool>,
    v: Seq<Seq<FluidBox>>,
    sb: FluidBox,
    d: int,
)
    ensures
        box_static_eq(sb, flow_dirs(gens, live, v, sb, d).0),
    decreases d,
{
    if d > 0 {
        lemma_flow_dirs_static(gens, live, v, sb, d - 1);
        let r1 = flow_dirs(gens, live, v, sb, d - 1);
        assert forall|boxes: Seq<FluidBox>, m: int| box_static_eq(
            r1.0,
            #[trigger] flow_boxes(r1.0, boxes, m).0,
        ) by {
            lemma_flow_boxes_static_one(r1.0, boxes, m);
        }
    }
}

/// Across the fold of one link's box-by-box steps, the giver keeps its
/// static fields.
proof fn lemma_flow_boxes_static_one(sb: FluidBox, boxes: Seq<FluidBox>, m: int)
    ensures
        box_static_eq(sb, flow_boxes(sb, boxes, m).0),
    decreases m,
{
    if m > 0 {
        lemma_flow_boxes_static_one(sb, boxes, m - 1);
    }
}

/// One tick of the fluid flow engine: every structure, in arena order,
/// applies one link step across each of its containers' neighbor links —
/// the arena's fluid contents afterwards are exactly the fold
/// `spec_fluid_tick` of the per-link step over every structure, container
/// and link.  Fluid only moves between containers, so the total amount
/// over the arena is exactly conserved, and nothing but container amounts
/// and kinds changes.
pub fn fluid_simulate(arena: &mut StructureArena)
    requires
        old(arena).wf(),
    ensures
        final(arena).wf(),
        final(arena).slots@.len() == old(arena).slots@.len(),
        forall|k: int|
            0 <= k < old(arena).slots@.len() ==> fluid_frame(
                #[trigger] old(arena).slots@[k],
                final(arena).slots@[k],
            ),
        arena_total(final(arena).slots@) == arena_total(old(arena).slots@),
        views_of(final(arena).slots@) == spec_fluid_tick(
            slot_gens(old(arena).slots@),
            slot_live(old(arena).slots@),
            views_of(old(arena).slots@),
            old(arena).slots@.len() as int,
        ),
{
    let ghost gens0 = slot_gens(old(arena).slots@);
    let ghost live0 = slot_live(old(arena).slots@);
    let ghost v0 = views_of(old(arena).slots@);
    let n = arena.len();
    let mut i: usize = 0;
    while i < n
        invariant
            n == arena.slots@.len(),
            n == old(arena).slots@.len(),
            0 <= i <= n,
            gens0 == slot_gens(old(arena).slots@),
            live0 == slot_live(old(arena).slots@),
            v0 == views_of(old(arena).slots@),
            arena.wf(),
            forall|k: int|
                0 <= k < old(arena).slots@.len() ==> fluid_frame(
                    #[trigger] old(arena).slots@[k],
                    arena.slots@[k],
                ),
            arena_total(arena.slots@) == arena_total(old(arena).slots@),
            views_of(arena.slots@) == spec_fluid_tick(gens0, live0, v0, i as int),
        decreases n - i,
    {
        let ghost pre_slots = arena.slots@;
        let ghost v_cur = views_of(arena.slots@);
        let taken = arena.take_at(i);
        let ghost after_take = arena.slots@;
        if let Some(mut b) = taken {
            proof {
                lemma_arena_total_update(pre_slots, i as int, arena.slots@[i as int]);
                assert(bundle_boxes_wf(b));
                assert(fluid_frame(old(arena).slots@[i as int], pre_slots[i as int]));
                assert(live0[i as int]);
                // the processed arena seen by the links: same generations,
                // slot `i` empty
                assert(slot_gens(after_take) =~= gens0);
                assert(slot_live(after_take) =~= live0.update(i as int, false));
                assert(views_of(after_take) =~= v_cur.update(i as int, Seq::empty()));
                assert(v_cur[i as int] == b.components.fluid_boxes@);
            }
            flow_bundle_links(arena, i, &mut b);
            let ghost mid_slots = arena.slots@;
            arena.restore_at(i, b);
            proof {
                lemma_arena_total_update(mid_slots, i as int, arena.slots@[i as int]);
                assert forall|k: int|
                    0 <= k < old(arena).slots@.len() implies fluid_frame(
                    #[trigger] old(arena).slots@[k],
                    arena.slots@[k],
                ) by {
                    if k == i as int {
                        assert(fluid_frame(pre_slots[k], arena.slots@[k]));
                        lemma_fluid_frame_trans(
                            old(arena).slots@[k],
                            pre_slots[k],
                            arena.slots@[k],
                        );
                    } else {
                        assert(fluid_frame(after_take[k], mid_slots[k]));
                        assert(after_take[k] == pre_slots[k]);
                        lemma_fluid_frame_trans(
                            old(arena).slots@[k],
                            pre_slots[k],
                            mid_slots[k],
                        );
                        assert(arena.slots@[k] == mid_slots[k]);
                    }
                }
                // the iteration is exactly `tick_structure` at slot i
                let r = flow_bundle_boxes(
                    gens0,
                    live0.update(i as int, false),
                    v_cur.update(i as int, Seq::empty()),
                    v_cur[i as int],
                    v_cur[i as int].len() as int,
                );
                assert(b.components.fluid_boxes@ == r.0);
                assert(views_of(mid_slots) == r.1);
                assert(views_of(arena.slots@) =~= views_of(mid_slots).update(i as int, r.0));
                assert(views_of(arena.slots@) == tick_structure(gens0, live0, v_cur, i as int));
            }
        } else {
            proof {
                assert(arena.slots@ =~= pre_slots);
                assert(fluid_frame(old(arena).slots@[i as int], pre_slots[i as int]));
                assert(!live0[i as int]);
                assert(tick_structure(gens0, live0, v_cur, i as int) == v_cur);
            }
        }
        i = i + 1;
    }
}

} // verus!
