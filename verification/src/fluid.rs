//! Fluid containers and the per-link diffusion step.
//!
//! Each container holds one kind of fluid, up to four directional links to
//! neighboring containers, input/output valves and an optional kind filter.
//! Per tick and per link, a tenth of the pressure differential flows from
//! the richer container to the poorer one; fluids of different kinds never
//! mix, and a transfer happens only when the giver's output valve, the
//! receiver's input valve and the receiver's filter all permit it.
//! Amounts are integer fluid units, so conservation is exact.

use vstd::prelude::*;

use crate::structure::StructureId;

verus! {

/// The divisor applied to the pressure differential each tick: a transfer
/// moves one tenth of the difference between the two amounts.
pub const FLOW_RATE_DIVISOR: u64 = 10;

#[derive(PartialEq, Eq, Structural, Clone, Copy, Debug)]
pub enum FluidType {
    Water,
    Steam,
}

#[derive(Clone, Copy, Debug)]
pub struct FluidBox {
    /// The kind of fluid held; `None` only while the container is empty.
    pub type_: Option<FluidType>,
    /// Current contents, in fluid units.
    pub amount: u64,
    /// Nominal capacity, in fluid units.
    pub max_amount: u64,
    /// Whether fluid may flow in.
    pub input_enable: bool,
    /// Whether fluid may flow out.
    pub output_enable: bool,
    /// Neighbor links, indexed 0 = west, 1 = north, 2 = east, 3 = south.
    /// Derived state: rebuilt whenever adjacency changes.
    pub connect_to: [Option<StructureId>; 4],
    /// When set, only this kind may enter the container.
    pub filter: Option<FluidType>,
}

impl FluidBox {
    /// A container never reports a fluid kind without holding fluid's worth
    /// of bookkeeping: the kind is `None` only when the amount is zero.
    pub open spec fn kind_wf(self) -> bool {
        self.type_ is None ==> self.amount == 0
    }

    /// A filtered container holds only its filtered kind.
    pub open spec fn filter_ok(self) -> bool {
        self.filter is Some && self.amount > 0 ==> self.type_ == self.filter
    }

    pub fn new(input_enable: bool, output_enable: bool) -> (r: Self)
        ensures
            r == (FluidBox {
                type_: None,
                amount: 0,
                max_amount: 100,
                input_enable,
                output_enable,
                connect_to: [None, None, None, None],
                filter: None,
            }),
    {
        Self {
            type_: None,
            amount: 0,
            max_amount: 100,
            input_enable,
            output_enable,
            connect_to: [None, None, None, None],
            filter: None,
        }
    }

    /// The same container pre-charged with a kind.
    pub fn set_type(self, type_: &FluidType) -> (r: Self)
        ensures
            r == (FluidBox { type_: Some(*type_), ..self }),
    {
        Self { type_: Some(*type_), ..self }
    }
}

/// Fluids of different kinds do not mix: a link is skipped outright when
/// the neighbor holds a different kind than the container's own.
pub open spec fn mix_blocked(sb: FluidBox, nb: FluidBox) -> bool {
    nb.amount > 0 && nb.type_ != sb.type_ && nb.type_ is Some
}

/// Whether the valves and the receiver's filter permit this link's
/// transfer.  When the neighbor is poorer the container gives, which needs
/// its own output valve, the neighbor's input valve and the neighbor's
/// filter to agree; otherwise the neighbor gives, with the roles swapped.
pub open spec fn link_allowed(sb: FluidBox, nb: FluidBox) -> bool {
    &&& !mix_blocked(sb, nb)
    &&& if nb.amount < sb.amount {
        sb.output_enable && nb.input_enable && (nb.filter is Some ==> nb.filter == sb.type_)
    } else {
        sb.input_enable && nb.output_enable && (sb.filter is Some ==> sb.filter == nb.type_)
    }
}

/// The signed amount that enters `sb` over one link step: a tenth of the
/// pressure differential, negative when `sb` is the giver.
pub open spec fn spec_flow(sb: FluidBox, nb: FluidBox) -> int {
    if nb.amount < sb.amount {
        -(((sb.amount - nb.amount) as int) / (FLOW_RATE_DIVISOR as int))
    } else {
        ((nb.amount - sb.amount) as int) / (FLOW_RATE_DIVISOR as int)
    }
}

/// The result of applying one link step to the pair `(sb, nb)`: either the
/// pair unchanged (transfer not permitted) or the flow applied, with the
/// receiving side's kind set to the giving side's kind.
pub open spec fn link_step(sb: FluidBox, nb: FluidBox) -> (FluidBox, FluidBox) {
    if !link_allowed(sb, nb) {
        (sb, nb)
    } else {
        let f = spec_flow(sb, nb);
        if nb.amount < sb.amount {
            (
                FluidBox { amount: (sb.amount + f) as u64, ..sb },
                FluidBox { amount: (nb.amount - f) as u64, type_: sb.type_, ..nb },
            )
        } else {
            (
                FluidBox { amount: (sb.amount + f) as u64, type_: nb.type_, ..sb },
                FluidBox { amount: (nb.amount - f) as u64, ..nb },
            )
        }
    }
}

fn opt_fluid_eq(a: &Option<FluidType>, b: &Option<FluidType>) -> (r: bool)
    ensures
        r == (*a == *b),
{
    match (a, b) {
        (Some(x), Some(y)) => *x == *y,
        (None, None) => true,
        _ => false,
    }
}

/// Apply one link step between a container and one linked neighbor,
/// flowing a tenth of the pressure differential from the richer side to
/// the poorer side when the mixing rule, both valves and the receiver's
/// filter permit it.
pub fn transfer(sb: &mut FluidBox, nb: &mut FluidBox)
    requires
        old(sb).kind_wf(),
        old(nb).kind_wf(),
    ensures
        (*final(sb), *final(nb)) == link_step(*old(sb), *old(nb)),
        final(sb).kind_wf(),
        final(nb).kind_wf(),
{
    // Different kinds of fluids won't mix.
    if nb.amount > 0 && !opt_fluid_eq(&nb.type_, &sb.type_) && nb.type_.is_some() {
        return ;
    }
    if nb.amount < sb.amount {
        // This container gives; check its output valve, the neighbor's
        // input valve and the neighbor's filter.
        let permitted = sb.output_enable && nb.input_enable && (match nb.filter {
            Some(_) => opt_fluid_eq(&nb.filter, &sb.type_),
            None => true,
        });
        if !permitted {
            return ;
        }
        let d: u64 = (sb.amount - nb.amount) / FLOW_RATE_DIVISOR;
        sb.amount = sb.amount - d;
        nb.amount = nb.amount + d;
        nb.type_ = sb.type_;
    } else {
        // The neighbor gives; roles are swapped.
        let permitted = sb.input_enable && nb.output_enable && (match sb.filter {
            Some(_) => opt_fluid_eq(&sb.filter, &nb.type_),
            None => true,
        });
        if !permitted {
            return ;
        }
        let d: u64 = (nb.amount - sb.amount) / FLOW_RATE_DIVISOR;
        nb.amount = nb.amount - d;
        sb.amount = sb.amount + d;
        sb.type_ = nb.type_;
    }
}

/// Fluid conservation over one link step: flow only moves fluid between
/// the two containers, it never creates or destroys any.
pub proof fn lemma_link_conserves_fluid(sb: FluidBox, nb: FluidBox)
    ensures
        link_step(sb, nb).0.amount + link_step(sb, nb).1.amount == sb.amount + nb.amount,
{
}

/// Monotone equalization over one link step: the flow magnitude never
/// exceeds the pressure differential, the two amounts move toward each
/// other, their order is preserved, and neither leaves the interval the
/// old amounts spanned — no overshoot.
pub proof fn lemma_link_equalizes(sb: FluidBox, nb: FluidBox)
    ensures
        ({
            let (a, b) = link_step(sb, nb);
            let lo = if sb.amount < nb.amount {
                sb.amount
            } else {
                nb.amount
            };
            let hi = if sb.amount < nb.amount {
                nb.amount
            } else {
                sb.amount
            };
            &&& lo <= a.amount <= hi
            &&& lo <= b.amount <= hi
            &&& (sb.amount <= nb.amount ==> a.amount <= b.amount)
            &&& (nb.amount <= sb.amount ==> b.amount <= a.amount)
            &&& crate::geom::abs_diff(a.amount as int, b.amount as int) <= crate::geom::abs_diff(
                sb.amount as int,
                nb.amount as int,
            )
            &&& crate::geom::abs_diff(spec_flow(sb, nb), 0) <= crate::geom::abs_diff(
                sb.amount as int,
                nb.amount as int,
            )
        }),
{
    if nb.amount < sb.amount {
        let diff = sb.amount - nb.amount;
        let d = (diff as int) / 10;
        assert(0 <= d && 2 * d <= diff) by (nonlinear_arith)
            requires
                d == (diff as int) / 10,
                diff >= 0,
        ;
    } else {
        let diff = nb.amount - sb.amount;
        let d = (diff as int) / 10;
        assert(0 <= d && 2 * d <= diff) by (nonlinear_arith)
            requires
                d == (diff as int) / 10,
                diff >= 0,
        ;
    }
}

/// Filter enforcement over one link step: a filtered container that held
/// only its filtered kind still does; fluid of another kind never enters.
pub proof fn lemma_link_respects_filter(sb: FluidBox, nb: FluidBox)
    requires
        sb.kind_wf(),
        nb.kind_wf(),
        sb.filter_ok(),
        nb.filter_ok(),
    ensures
        link_step(sb, nb).0.filter_ok(),
        link_step(sb, nb).1.filter_ok(),
{
    if link_allowed(sb, nb) {
        if nb.amount < sb.amount {
            let diff = sb.amount - nb.amount;
            let d = (diff as int) / 10;
            assert(0 <= d <= diff) by (nonlinear_arith)
                requires
                    d == (diff as int) / 10,
                    diff >= 0,
            ;
        } else {
            let diff = nb.amount - sb.amount;
            let d = (diff as int) / 10;
            assert(0 <= d <= diff) by (nonlinear_arith)
                requires
                    d == (diff as int) / 10,
                    diff >= 0,
            ;
        }
    }
}

} // verus!
