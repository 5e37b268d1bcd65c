//! Power wires and the network builder.
//!
//! A wire is an undirected edge between two structure handles.  Whenever
//! the wire set changes the networks are rebuilt from scratch: the builder
//! partitions all wire endpoints into connected components, each holding
//! its member handles and exactly the wires whose endpoints lie in it.
//! Handles not touched by any wire belong to no network.  Components and
//! the wires within them keep the input wire list's order, so rebuilding
//! from the same wire list is deterministic.

use vstd::prelude::*;

use crate::structure::StructureId;

verus! {

/// An undirected power wire between two structure handles.
#[derive(PartialEq, Eq, Structural, Clone, Copy, Debug, Hash)]
pub struct PowerWire(pub StructureId, pub StructureId);

/// One connected component of the wire graph.
#[derive(Clone, Debug)]
pub struct PowerNetwork {
    pub wires: Vec<PowerWire>,
    pub members: Vec<StructureId>,
}

/// Whether the wire has `h` as one of its endpoints.
pub open spec fn wire_touches(w: PowerWire, h: StructureId) -> bool {
    w.0 == h || w.1 == h
}

/// Whether some wire in the list touches `h`.
pub open spec fn touched(ws: Seq<PowerWire>, h: StructureId) -> bool {
    exists|k: int| 0 <= k < ws.len() && wire_touches(#[trigger] ws[k], h)
}

/// Whether the wire joins `a` and `b`, in either orientation.
pub open spec fn wire_links(w: PowerWire, a: StructureId, b: StructureId) -> bool {
    (w.0 == a && w.1 == b) || (w.0 == b && w.1 == a)
}

/// Whether some wire joins `a` and `b` directly.
pub open spec fn adjacent(ws: Seq<PowerWire>, a: StructureId, b: StructureId) -> bool {
    exists|k: int| 0 <= k < ws.len() && wire_links(#[trigger] ws[k], a, b)
}

/// Whether consecutive entries of `p` are all joined by wires of `ws`.
pub open spec fn is_path(ws: Seq<PowerWire>, p: Seq<StructureId>) -> bool {
    forall|k: int| 0 <= k < p.len() - 1 ==> adjacent(ws, #[trigger] p[k], p[k + 1])
}

/// Whether a path of wires leads from `a` to `b`.  Every handle is
/// connected to itself by the empty path.
pub open spec fn connected(ws: Seq<PowerWire>, a: StructureId, b: StructureId) -> bool {
    exists|p: Seq<StructureId>|
        p.len() >= 1 && p[0] == a && p[p.len() - 1] == b && #[trigger] is_path(ws, p)
}

pub proof fn lemma_connected_refl(ws: Seq<PowerWire>, a: StructureId)
    ensures
        connected(ws, a, a),
{
    let p = seq![a];
    assert(is_path(ws, p));
    assert(p[0] == a && p[p.len() - 1] == a);
}

pub proof fn lemma_adjacent_connected(ws: Seq<PowerWire>, a: StructureId, b: StructureId)
    requires
        adjacent(ws, a, b),
    ensures
        connected(ws, a, b),
{
    let p = seq![a, b];
    assert(p[0] == a && p[p.len() - 1] == b);
    assert(is_path(ws, p));
}

pub proof fn lemma_connected_sym(ws: Seq<PowerWire>, a: StructureId, b: StructureId)
    requires
        connected(ws, a, b),
    ensures
        connected(ws, b, a),
{
    let p = choose|p: Seq<StructureId>|
        p.len() >= 1 && p[0] == a && p[p.len() - 1] == b && #[trigger] is_path(ws, p);
    let q = p.reverse();
    assert(q.len() == p.len());
    assert(q[0] == b && q[q.len() - 1] == a);
    assert forall|k: int| 0 <= k < q.len() - 1 implies adjacent(ws, #[trigger] q[k], q[k + 1]) by {
        let n = p.len();
        assert(q[k] == p[n - 1 - k]);
        assert(q[k + 1] == p[n - 1 - (k + 1)]);
        assert(adjacent(ws, p[n - 2 - k], p[n - 1 - k]));
    }
    assert(is_path(ws, q));
}

pub proof fn lemma_connected_trans(
    ws: Seq<PowerWire>,
    a: StructureId,
    b: StructureId,
    c: StructureId,
)
    requires
        connected(ws, a, b),
        connected(ws, b, c),
    ensures
        connected(ws, a, c),
{
    let p1 = choose|p: Seq<StructureId>|
        p.len() >= 1 && p[0] == a && p[p.len() - 1] == b && #[trigger] is_path(ws, p);
    let p2 = choose|p: Seq<StructureId>|
        p.len() >= 1 && p[0] == b && p[p.len() - 1] == c && #[trigger] is_path(ws, p);
    if p2.len() == 1 {
        assert(b == c);
        assert(connected(ws, a, c));
    } else {
        let p = p1 + p2.subrange(1, p2.len() as int);
        assert(p.len() == p1.len() + p2.len() - 1);
        assert(p[0] == a);
        assert(p[p.len() - 1] == p2[p2.len() - 1]);
        assert forall|k: int| 0 <= k < p.len() - 1 implies adjacent(ws, #[trigger] p[k], p[k + 1]) by {
            if k < p1.len() - 1 {
                assert(p[k] == p1[k]);
                assert(p[k + 1] == p1[k + 1]);
                assert(adjacent(ws, p1[k], p1[k + 1]));
            } else if k == p1.len() - 1 {
                assert(p[k] == p1[k]);
                assert(p1[k] == b);
                assert(p[k + 1] == p2[1]);
                assert(adjacent(ws, p2[0], p2[1]));
            } else {
                let k2 = k - p1.len() + 1;
                assert(p[k] == p2[k2]);
                assert(p[k + 1] == p2[k2 + 1]);
                assert(adjacent(ws, p2[k2], p2[k2 + 1]));
            }
        }
        assert(is_path(ws, p));
    }
}

/// Adding one wire keeps every old connection.
pub proof fn lemma_connected_push(
    ws: Seq<PowerWire>,
    w: PowerWire,
    a: StructureId,
    b: StructureId,
)
    requires
        connected(ws, a, b),
    ensures
        connected(ws.push(w), a, b),
{
    let p = choose|p: Seq<StructureId>|
        p.len() >= 1 && p[0] == a && p[p.len() - 1] == b && #[trigger] is_path(ws, p);
    assert forall|k: int| 0 <= k < p.len() - 1 implies adjacent(ws.push(w), #[trigger] p[k], p[k + 1]) by {
        assert(adjacent(ws, p[k], p[k + 1]));
        let kk = choose|kk: int| 0 <= kk < ws.len() && wire_links(#[trigger] ws[kk], p[k], p[k + 1]);
        assert(ws.push(w)[kk] == ws[kk]);
    }
    assert(is_path(ws.push(w), p));
}

/// A set of handles closed under the wire list: every wire has both
/// endpoints in the set, or neither.
pub open spec fn closed_under(ws: Seq<PowerWire>, s: Set<StructureId>) -> bool {
    forall|k: int| 0 <= k < ws.len() ==> (s.contains((#[trigger] ws[k]).0) <==> s.contains(ws[k].1))
}

proof fn lemma_path_stays_in(ws: Seq<PowerWire>, s: Set<StructureId>, p: Seq<StructureId>)
    requires
        closed_under(ws, s),
        is_path(ws, p),
        p.len() >= 1,
        s.contains(p[0]),
    ensures
        s.contains(p[p.len() - 1]),
    decreases p.len(),
{
    if p.len() > 1 {
        assert(adjacent(ws, p[0], p[1]));
        let k = choose|k: int| 0 <= k < ws.len() && wire_links(#[trigger] ws[k], p[0], p[1]);
        assert(s.contains(p[1]));
        let q = p.subrange(1, p.len() as int);
        assert(q.len() == p.len() - 1);
        assert forall|k2: int| 0 <= k2 < q.len() - 1 implies adjacent(ws, #[trigger] q[k2], q[k2 + 1]) by {
            assert(q[k2] == p[k2 + 1]);
            assert(q[k2 + 1] == p[k2 + 2]);
            assert(adjacent(ws, p[k2 + 1], p[k2 + 2]));
        }
        assert(is_path(ws, q));
        lemma_path_stays_in(ws, s, q);
        assert(q[q.len() - 1] == p[p.len() - 1]);
    }
}

/// Nothing outside a closed set is connected to anything inside it.
pub proof fn lemma_connected_stays_in(
    ws: Seq<PowerWire>,
    s: Set<StructureId>,
    a: StructureId,
    b: StructureId,
)
    requires
        closed_under(ws, s),
        s.contains(a),
        connected(ws, a, b),
    ensures
        s.contains(b),
{
    let p = choose|p: Seq<StructureId>|
        p.len() >= 1 && p[0] == a && p[p.len() - 1] == b && #[trigger] is_path(ws, p);
    lemma_path_stays_in(ws, s, p);
}

/// All members of one network are pairwise connected by the wire list.
pub open spec fn net_members_connected(ws: Seq<PowerWire>, net: PowerNetwork) -> bool {
    forall|x: int, y: int|
        0 <= x < net.members@.len() && 0 <= y < net.members@.len() ==> connected(
            ws,
            #[trigger] net.members@[x],
            #[trigger] net.members@[y],
        )
}

/// Whether some network lists `h` as a member.
pub open spec fn member_of_some(nets: Seq<PowerNetwork>, h: StructureId) -> bool {
    exists|n: int| 0 <= n < nets.len() && (#[trigger] nets[n].members@.contains(h))
}

/// Every handle touched by a wire belongs to some network.
pub open spec fn inv_cover(ws: Seq<PowerWire>, nets: Seq<PowerNetwork>) -> bool {
    forall|h: StructureId| #[trigger] touched(ws, h) ==> member_of_some(nets, h)
}

/// Every network member is touched by some wire.
pub open spec fn inv_touched(ws: Seq<PowerWire>, nets: Seq<PowerNetwork>) -> bool {
    forall|n: int, j: int|
        0 <= n < nets.len() && 0 <= j < nets[n].members@.len() ==> touched(
            ws,
            #[trigger] nets[n].members@[j],
        )
}

/// Every handle appears in at most one member slot over all networks: the
/// networks are pairwise disjoint and list no member twice.
pub open spec fn inv_unique(nets: Seq<PowerNetwork>) -> bool {
    forall|n1: int, j1: int, n2: int, j2: int|
        0 <= n1 < nets.len() && 0 <= j1 < nets[n1].members@.len() && 0 <= n2 < nets.len() && 0 <= j2
            < nets[n2].members@.len() && #[trigger] nets[n1].members@[j1]
            == #[trigger] nets[n2].members@[j2] ==> n1 == n2 && j1 == j2
}

/// Every wire a network holds comes from the wire list and has both of
/// its endpoints among that network's members.
pub open spec fn inv_wires(ws: Seq<PowerWire>, nets: Seq<PowerNetwork>) -> bool {
    forall|n: int, k: int|
        0 <= n < nets.len() && 0 <= k < nets[n].wires@.len() ==> ws.contains(
            #[trigger] nets[n].wires@[k],
        ) && nets[n].members@.contains(nets[n].wires@[k].0) && nets[n].members@.contains(
            nets[n].wires@[k].1,
        )
}

/// Whether some network holds this wire.
pub open spec fn wire_in_some_net(nets: Seq<PowerNetwork>, w: PowerWire) -> bool {
    exists|n: int| 0 <= n < nets.len() && (#[trigger] nets[n].wires@.contains(w))
}

/// Every wire of the list is held by some network.
pub open spec fn inv_wire_cover(ws: Seq<PowerWire>, nets: Seq<PowerNetwork>) -> bool {
    forall|k: int| 0 <= k < ws.len() ==> wire_in_some_net(nets, #[trigger] ws[k])
}

/// The members of each network are pairwise connected by the wire list.
pub open spec fn inv_conn(ws: Seq<PowerWire>, nets: Seq<PowerNetwork>) -> bool {
    forall|n: int| 0 <= n < nets.len() ==> net_members_connected(ws, #[trigger] nets[n])
}

/// The invariant tying a network list to the wire list it was built from:
/// the members of the networks are exactly the handles touched by wires,
/// each appearing in exactly one network exactly once; every wire lies in
/// a network that contains both its endpoints; and the members of each
/// network are pairwise connected.
#[verifier::opaque]
pub open spec fn nets_inv(ws: Seq<PowerWire>, nets: Seq<PowerNetwork>) -> bool {
    &&& inv_cover(ws, nets)
    &&& inv_touched(ws, nets)
    &&& inv_unique(nets)
    &&& inv_wires(ws, nets)
    &&& inv_wire_cover(ws, nets)
    &&& inv_conn(ws, nets)
}

pub proof fn lemma_contains_push<T>(s: Seq<T>, e: T, x: T)
    ensures
        s.push(e).contains(x) <==> (s.contains(x) || x == e),
{
    if s.contains(x) {
        let k = choose|k: int| 0 <= k < s.len() && s[k] == x;
        assert(s.push(e)[k] == x);
    }
    if x == e {
        assert(s.push(e)[s.len() as int] == x);
    }
    if s.push(e).contains(x) {
        let k = choose|k: int| 0 <= k < s.push(e).len() && s.push(e)[k] == x;
        if k < s.len() {
            assert(s[k] == x);
        }
    }
}

pub proof fn lemma_contains_concat<T>(s1: Seq<T>, s2: Seq<T>, x: T)
    ensures
        (s1 + s2).contains(x) <==> (s1.contains(x) || s2.contains(x)),
{
    if s1.contains(x) {
        let k = choose|k: int| 0 <= k < s1.len() && s1[k] == x;
        assert((s1 + s2)[k] == x);
    }
    if s2.contains(x) {
        let k = choose|k: int| 0 <= k < s2.len() && s2[k] == x;
        assert((s1 + s2)[s1.len() + k] == x);
    }
    if (s1 + s2).contains(x) {
        let k = choose|k: int| 0 <= k < (s1 + s2).len() && (s1 + s2)[k] == x;
        if k < s1.len() {
            assert(s1[k] == x);
        } else {
            assert(s2[k - s1.len()] == x);
        }
    }
}

pub proof fn lemma_touched_push(ws: Seq<PowerWire>, w: PowerWire, h: StructureId)
    ensures
        touched(ws.push(w), h) <==> (touched(ws, h) || wire_touches(w, h)),
{
    if touched(ws, h) {
        let k = choose|k: int| 0 <= k < ws.len() && wire_touches(#[trigger] ws[k], h);
        assert(ws.push(w)[k] == ws[k]);
    }
    if wire_touches(w, h) {
        assert(ws.push(w)[ws.len() as int] == w);
    }
    if touched(ws.push(w), h) {
        let k = choose|k: int| 0 <= k < ws.push(w).len() && wire_touches(#[trigger] ws.push(w)[k], h);
        if k < ws.len() {
            assert(ws[k] == ws.push(w)[k]);
        }
    }
}

/// The new wire's endpoints are adjacent once it is appended.
pub proof fn lemma_adjacent_new_wire(ws: Seq<PowerWire>, w: PowerWire)
    ensures
        adjacent(ws.push(w), w.0, w.1),
{
    assert(ws.push(w)[ws.len() as int] == w);
    assert(wire_links(ws.push(w)[ws.len() as int], w.0, w.1));
}


// ---------------------------------------------------------------------
// Invariant maintenance, case: the new wire touches no existing network.
// A fresh network holding just this wire is appended.
// ---------------------------------------------------------------------

proof fn lemma_fresh_cover(ws: Seq<PowerWire>, w: PowerWire, nets: Seq<PowerNetwork>, fresh: PowerNetwork)
    requires
        inv_cover(ws, nets),
        fresh.members@.contains(w.0),
        fresh.members@.contains(w.1),
    ensures
        inv_cover(ws.push(w), nets.push(fresh)),
{
    let ws2 = ws.push(w);
    let nets2 = nets.push(fresh);
    assert forall|h: StructureId| #[trigger] touched(ws2, h) implies member_of_some(nets2, h) by {
        lemma_touched_push(ws, w, h);
        if touched(ws, h) {
            let n = choose|n: int| 0 <= n < nets.len() && (#[trigger] nets[n].members@.contains(h));
            assert(nets2[n].members@.contains(h));
        } else {
            assert(wire_touches(w, h));
            assert(nets2[nets.len() as int].members@.contains(h));
        }
    }
}

proof fn lemma_fresh_touched(ws: Seq<PowerWire>, w: PowerWire, nets: Seq<PowerNetwork>, fresh: PowerNetwork)
    requires
        inv_touched(ws, nets),
        forall|j: int| 0 <= j < fresh.members@.len() ==> wire_touches(w, #[trigger] fresh.members@[j]),
    ensures
        inv_touched(ws.push(w), nets.push(fresh)),
{
    let ws2 = ws.push(w);
    let nets2 = nets.push(fresh);
    assert forall|n: int, j: int|
        0 <= n < nets2.len() && 0 <= j < nets2[n].members@.len() implies touched(
        ws2,
        #[trigger] nets2[n].members@[j],
    ) by {
        if n < nets.len() {
            assert(nets2[n] == nets[n]);
            lemma_touched_push(ws, w, nets[n].members@[j]);
        } else {
            assert(nets2[n] == fresh);
            lemma_touched_push(ws, w, fresh.members@[j]);
        }
    }
}

proof fn lemma_fresh_unique(w: PowerWire, nets: Seq<PowerNetwork>, fresh: PowerNetwork)
    requires
        inv_unique(nets),
        forall|n: int| 0 <= n < nets.len() ==> !(#[trigger] nets[n].members@.contains(w.0)),
        forall|n: int| 0 <= n < nets.len() ==> !(#[trigger] nets[n].members@.contains(w.1)),
        fresh.members@ == if w.0 == w.1 {
            seq![w.0]
        } else {
            seq![w.0, w.1]
        },
    ensures
        inv_unique(nets.push(fresh)),
{
    let nets2 = nets.push(fresh);
    assert forall|n1: int, j1: int, n2: int, j2: int|
        0 <= n1 < nets2.len() && 0 <= j1 < nets2[n1].members@.len() && 0 <= n2 < nets2.len() && 0
            <= j2 < nets2[n2].members@.len() && #[trigger] nets2[n1].members@[j1]
            == #[trigger] nets2[n2].members@[j2] implies n1 == n2 && j1 == j2 by {
        if n1 < nets.len() && n2 == nets.len() {
            assert(nets2[n1] == nets[n1]);
            assert(nets[n1].members@.contains(nets[n1].members@[j1]));
        }
        if n2 < nets.len() && n1 == nets.len() {
            assert(nets2[n2] == nets[n2]);
            assert(nets[n2].members@.contains(nets[n2].members@[j2]));
        }
        if n1 < nets.len() && n2 < nets.len() {
            assert(nets2[n1] == nets[n1] && nets2[n2] == nets[n2]);
        }
    }
}

proof fn lemma_fresh_wires(ws: Seq<PowerWire>, w: PowerWire, nets: Seq<PowerNetwork>, fresh: PowerNetwork)
    requires
        inv_wires(ws, nets),
        fresh.wires@ == seq![w],
        fresh.members@.contains(w.0),
        fresh.members@.contains(w.1),
    ensures
        inv_wires(ws.push(w), nets.push(fresh)),
{
    let ws2 = ws.push(w);
    let nets2 = nets.push(fresh);
    assert forall|n: int, k: int|
        0 <= n < nets2.len() && 0 <= k < nets2[n].wires@.len() implies ws2.contains(
        #[trigger] nets2[n].wires@[k],
    ) && nets2[n].members@.contains(nets2[n].wires@[k].0) && nets2[n].members@.contains(
        nets2[n].wires@[k].1,
    ) by {
        if n < nets.len() {
            assert(nets2[n] == nets[n]);
            lemma_contains_push(ws, w, nets[n].wires@[k]);
        } else {
            assert(nets2[n] == fresh);
            assert(fresh.wires@[k] == w);
            lemma_contains_push(ws, w, w);
        }
    }
}

proof fn lemma_fresh_wire_cover(ws: Seq<PowerWire>, w: PowerWire, nets: Seq<PowerNetwork>, fresh: PowerNetwork)
    requires
        inv_wire_cover(ws, nets),
        fresh.wires@ == seq![w],
    ensures
        inv_wire_cover(ws.push(w), nets.push(fresh)),
{
    let ws2 = ws.push(w);
    let nets2 = nets.push(fresh);
    assert forall|k: int| 0 <= k < ws2.len() implies wire_in_some_net(nets2, #[trigger] ws2[k]) by {
        if k < ws.len() {
            assert(ws2[k] == ws[k]);
            let n = choose|n: int| 0 <= n < nets.len() && (#[trigger] nets[n].wires@.contains(ws[k]));
            assert(nets2[n] == nets[n]);
            assert(nets2[n].wires@.contains(ws2[k]));
        } else {
            assert(ws2[k] == w);
            assert(fresh.wires@[0] == w);
            assert(nets2[nets.len() as int] == fresh);
            assert(nets2[nets.len() as int].wires@.contains(ws2[k]));
        }
    }
}

proof fn lemma_fresh_conn(ws: Seq<PowerWire>, w: PowerWire, nets: Seq<PowerNetwork>, fresh: PowerNetwork)
    requires
        inv_conn(ws, nets),
        fresh.members@ == if w.0 == w.1 {
            seq![w.0]
        } else {
            seq![w.0, w.1]
        },
    ensures
        inv_conn(ws.push(w), nets.push(fresh)),
{
    let ws2 = ws.push(w);
    let nets2 = nets.push(fresh);
    lemma_adjacent_new_wire(ws, w);
    assert forall|n: int| 0 <= n < nets2.len() implies net_members_connected(ws2, #[trigger] nets2[n]) by {
        if n < nets.len() {
            assert(nets2[n] == nets[n]);
            assert(net_members_connected(ws, nets[n]));
            assert forall|x: int, y: int|
                0 <= x < nets2[n].members@.len() && 0 <= y < nets2[n].members@.len() implies connected(
                ws2,
                #[trigger] nets2[n].members@[x],
                #[trigger] nets2[n].members@[y],
            ) by {
                assert(connected(ws, nets[n].members@[x], nets[n].members@[y]));
                lemma_connected_push(ws, w, nets[n].members@[x], nets[n].members@[y]);
            }
        } else {
            assert(nets2[n] == fresh);
            assert forall|x: int, y: int|
                0 <= x < nets2[n].members@.len() && 0 <= y < nets2[n].members@.len() implies connected(
                ws2,
                #[trigger] nets2[n].members@[x],
                #[trigger] nets2[n].members@[y],
            ) by {
                lemma_connected_refl(ws2, fresh.members@[x]);
                lemma_adjacent_connected(ws2, w.0, w.1);
                lemma_connected_sym(ws2, w.0, w.1);
            }
        }
    }
}

/// Invariant maintenance: neither endpoint known, append a fresh network.
proof fn lemma_inv_fresh(ws: Seq<PowerWire>, w: PowerWire, nets: Seq<PowerNetwork>, fresh: PowerNetwork)
    requires
        nets_inv(ws, nets),
        forall|n: int| 0 <= n < nets.len() ==> !(#[trigger] nets[n].members@.contains(w.0)),
        forall|n: int| 0 <= n < nets.len() ==> !(#[trigger] nets[n].members@.contains(w.1)),
        fresh.wires@ == seq![w],
        fresh.members@ == if w.0 == w.1 {
            seq![w.0]
        } else {
            seq![w.0, w.1]
        },
    ensures
        nets_inv(ws.push(w), nets.push(fresh)),
{
    reveal(nets_inv);
    if w.0 == w.1 {
        assert(fresh.members@[0] == w.0);
    } else {
        assert(fresh.members@[0] == w.0);
        assert(fresh.members@[1] == w.1);
    }
    assert(fresh.members@.contains(w.0));
    assert(fresh.members@.contains(w.1));
    assert forall|j: int| 0 <= j < fresh.members@.len() implies wire_touches(w, #[trigger] fresh.members@[j]) by {}
    lemma_fresh_cover(ws, w, nets, fresh);
    lemma_fresh_touched(ws, w, nets, fresh);
    lemma_fresh_unique(w, nets, fresh);
    lemma_fresh_wires(ws, w, nets, fresh);
    lemma_fresh_wire_cover(ws, w, nets, fresh);
    lemma_fresh_conn(ws, w, nets, fresh);
}




// ---------------------------------------------------------------------
// Invariant maintenance, case: one endpoint lies in network `i`, the
// other is new.  Network `i` gains the new endpoint and the wire.
// ---------------------------------------------------------------------

proof fn lemma_extend_cover(
    ws: Seq<PowerWire>,
    w: PowerWire,
    nets: Seq<PowerNetwork>,
    i: int,
    ext: PowerNetwork,
    b: StructureId,
)
    requires
        inv_cover(ws, nets),
        0 <= i < nets.len(),
        wire_touches(w, b) || nets[i].members@.contains(b),
        ext.members@ == nets[i].members@.push(b),
        forall|h: StructureId| nets[i].members@.contains(h) ==> #[trigger] ext.members@.contains(h),
        ext.members@.contains(w.0) || member_of_some(nets.update(i, ext), w.0),
        ext.members@.contains(w.1) || member_of_some(nets.update(i, ext), w.1),
    ensures
        inv_cover(ws.push(w), nets.update(i, ext)),
{
    let ws2 = ws.push(w);
    let nets2 = nets.update(i, ext);
    assert(nets2[i] == ext);
    assert forall|h: StructureId| #[trigger] touched(ws2, h) implies member_of_some(nets2, h) by {
        lemma_touched_push(ws, w, h);
        if touched(ws, h) {
            let n = choose|n: int| 0 <= n < nets.len() && (#[trigger] nets[n].members@.contains(h));
            if n == i {
                assert(ext.members@.contains(h));
                assert(nets2[i].members@.contains(h));
            } else {
                assert(nets2[n].members@.contains(h));
            }
        } else {
            assert(wire_touches(w, h));
            if h == w.0 {
                if ext.members@.contains(w.0) {
                    assert(nets2[i].members@.contains(h));
                }
            } else {
                if ext.members@.contains(w.1) {
                    assert(nets2[i].members@.contains(h));
                }
            }
        }
    }
}

proof fn lemma_extend_touched(
    ws: Seq<PowerWire>,
    w: PowerWire,
    nets: Seq<PowerNetwork>,
    i: int,
    ext: PowerNetwork,
    b: StructureId,
)
    requires
        inv_touched(ws, nets),
        0 <= i < nets.len(),
        wire_touches(w, b),
        ext.members@ == nets[i].members@.push(b),
    ensures
        inv_touched(ws.push(w), nets.update(i, ext)),
{
    let ws2 = ws.push(w);
    let nets2 = nets.update(i, ext);
    assert forall|n: int, j: int|
        0 <= n < nets2.len() && 0 <= j < nets2[n].members@.len() implies touched(
        ws2,
        #[trigger] nets2[n].members@[j],
    ) by {
        if n == i {
            if j < nets[i].members@.len() {
                assert(nets2[n].members@[j] == nets[i].members@[j]);
                lemma_touched_push(ws, w, nets[i].members@[j]);
            } else {
                assert(nets2[n].members@[j] == b);
                lemma_touched_push(ws, w, b);
            }
        } else {
            assert(nets2[n] == nets[n]);
            lemma_touched_push(ws, w, nets[n].members@[j]);
        }
    }
}

proof fn lemma_extend_unique(
    nets: Seq<PowerNetwork>,
    i: int,
    ext: PowerNetwork,
    b: StructureId,
)
    requires
        inv_unique(nets),
        0 <= i < nets.len(),
        ext.members@ == nets[i].members@.push(b),
        forall|n: int| 0 <= n < nets.len() ==> !(#[trigger] nets[n].members@.contains(b)),
    ensures
        inv_unique(nets.update(i, ext)),
{
    let nets2 = nets.update(i, ext);
    let oldlen = nets[i].members@.len() as int;
    assert forall|n1: int, j1: int, n2: int, j2: int|
        0 <= n1 < nets2.len() && 0 <= j1 < nets2[n1].members@.len() && 0 <= n2 < nets2.len() && 0
            <= j2 < nets2[n2].members@.len() && #[trigger] nets2[n1].members@[j1]
            == #[trigger] nets2[n2].members@[j2] implies n1 == n2 && j1 == j2 by {
        let h = nets2[n1].members@[j1];
        if n1 == i && j1 == oldlen {
            assert(h == b);
            if n2 != i || j2 != oldlen {
                if n2 == i {
                    assert(nets[i].members@[j2] == b);
                    assert(nets[i].members@.contains(b));
                } else {
                    assert(nets[n2].members@[j2] == b);
                    assert(nets[n2].members@.contains(b));
                }
                assert(false);
            }
        } else if n2 == i && j2 == oldlen {
            assert(h == b);
            if n1 == i {
                assert(nets[i].members@[j1] == b);
                assert(nets[i].members@.contains(b));
            } else {
                assert(nets[n1].members@[j1] == b);
                assert(nets[n1].members@.contains(b));
            }
            assert(false);
        } else {
            let m1 = if n1 == i { nets[i].members@[j1] } else { nets[n1].members@[j1] };
            assert(nets[n1].members@[j1] == nets[n2].members@[j2]);
        }
    }
}

proof fn lemma_extend_wires(
    ws: Seq<PowerWire>,
    w: PowerWire,
    nets: Seq<PowerNetwork>,
    i: int,
    ext: PowerNetwork,
)
    requires
        inv_wires(ws, nets),
        0 <= i < nets.len(),
        ext.wires@ == nets[i].wires@.push(w),
        forall|h: StructureId| nets[i].members@.contains(h) ==> #[trigger] ext.members@.contains(h),
        ext.members@.contains(w.0),
        ext.members@.contains(w.1),
    ensures
        inv_wires(ws.push(w), nets.update(i, ext)),
{
    let ws2 = ws.push(w);
    let nets2 = nets.update(i, ext);
    assert forall|n: int, k: int|
        0 <= n < nets2.len() && 0 <= k < nets2[n].wires@.len() implies ws2.contains(
        #[trigger] nets2[n].wires@[k],
    ) && nets2[n].members@.contains(nets2[n].wires@[k].0) && nets2[n].members@.contains(
        nets2[n].wires@[k].1,
    ) by {
        if n == i {
            if k < nets[i].wires@.len() {
                assert(nets2[n].wires@[k] == nets[i].wires@[k]);
                lemma_contains_push(ws, w, nets[i].wires@[k]);
            } else {
                assert(nets2[n].wires@[k] == w);
                lemma_contains_push(ws, w, w);
            }
        } else {
            assert(nets2[n] == nets[n]);
            lemma_contains_push(ws, w, nets[n].wires@[k]);
        }
    }
}

proof fn lemma_extend_wire_cover(
    ws: Seq<PowerWire>,
    w: PowerWire,
    nets: Seq<PowerNetwork>,
    i: int,
    ext: PowerNetwork,
)
    requires
        inv_wire_cover(ws, nets),
        0 <= i < nets.len(),
        ext.wires@ == nets[i].wires@.push(w),
    ensures
        inv_wire_cover(ws.push(w), nets.update(i, ext)),
{
    let ws2 = ws.push(w);
    let nets2 = nets.update(i, ext);
    assert forall|k: int| 0 <= k < ws2.len() implies wire_in_some_net(nets2, #[trigger] ws2[k]) by {
        if k < ws.len() {
            assert(ws2[k] == ws[k]);
            let n = choose|n: int| 0 <= n < nets.len() && (#[trigger] nets[n].wires@.contains(ws[k]));
            if n == i {
                let kk = choose|kk: int| 0 <= kk < nets[i].wires@.len() && nets[i].wires@[kk] == ws[k];
                assert(nets2[i].wires@[kk] == ws[k]);
                assert(nets2[i].wires@.contains(ws2[k]));
            } else {
                assert(nets2[n] == nets[n]);
                assert(nets2[n].wires@.contains(ws2[k]));
            }
        } else {
            assert(ws2[k] == w);
            assert(nets2[i].wires@[nets[i].wires@.len() as int] == w);
            assert(nets2[i].wires@.contains(ws2[k]));
        }
    }
}

proof fn lemma_extend_conn(
    ws: Seq<PowerWire>,
    w: PowerWire,
    nets: Seq<PowerNetwork>,
    i: int,
    ext: PowerNetwork,
    a: StructureId,
    b: StructureId,
)
    requires
        inv_conn(ws, nets),
        0 <= i < nets.len(),
        wire_links(w, a, b),
        nets[i].members@.contains(a),
        ext.members@ == nets[i].members@.push(b),
    ensures
        inv_conn(ws.push(w), nets.update(i, ext)),
{
    let ws2 = ws.push(w);
    let nets2 = nets.update(i, ext);
    lemma_adjacent_new_wire(ws, w);
    assert(adjacent(ws2, a, b));
    lemma_adjacent_connected(ws2, a, b);
    let ja = choose|ja: int| 0 <= ja < nets[i].members@.len() && nets[i].members@[ja] == a;
    assert forall|n: int| 0 <= n < nets2.len() implies net_members_connected(ws2, #[trigger] nets2[n]) by {
        if n == i {
            assert forall|x: int, y: int|
                0 <= x < nets2[n].members@.len() && 0 <= y < nets2[n].members@.len() implies connected(
                ws2,
                #[trigger] nets2[n].members@[x],
                #[trigger] nets2[n].members@[y],
            ) by {
                let oldlen = nets[i].members@.len() as int;
                let mx = nets2[n].members@[x];
                let my = nets2[n].members@[y];
                if x < oldlen && y < oldlen {
                    assert(connected(ws, nets[i].members@[x], nets[i].members@[y]));
                    lemma_connected_push(ws, w, nets[i].members@[x], nets[i].members@[y]);
                } else if x < oldlen && y == oldlen {
                    assert(my == b);
                    assert(connected(ws, nets[i].members@[x], a));
                    lemma_connected_push(ws, w, nets[i].members@[x], a);
                    lemma_connected_trans(ws2, mx, a, b);
                } else if x == oldlen && y < oldlen {
                    assert(mx == b);
                    assert(connected(ws, a, nets[i].members@[y]));
                    lemma_connected_push(ws, w, a, nets[i].members@[y]);
                    lemma_connected_sym(ws2, a, b);
                    lemma_connected_trans(ws2, b, a, my);
                } else {
                    lemma_connected_refl(ws2, b);
                }
            }
        } else {
            assert(nets2[n] == nets[n]);
            assert forall|x: int, y: int|
                0 <= x < nets2[n].members@.len() && 0 <= y < nets2[n].members@.len() implies connected(
                ws2,
                #[trigger] nets2[n].members@[x],
                #[trigger] nets2[n].members@[y],
            ) by {
                assert(connected(ws, nets[n].members@[x], nets[n].members@[y]));
                lemma_connected_push(ws, w, nets[n].members@[x], nets[n].members@[y]);
            }
        }
    }
}

/// Invariant maintenance: endpoint `a` lies in network `i`, endpoint `b`
/// lies in none; network `i` gains member `b` and the wire.
proof fn lemma_inv_extend(
    ws: Seq<PowerWire>,
    w: PowerWire,
    nets: Seq<PowerNetwork>,
    i: int,
    ext: PowerNetwork,
    a: StructureId,
    b: StructureId,
)
    requires
        nets_inv(ws, nets),
        0 <= i < nets.len(),
        wire_links(w, a, b),
        nets[i].members@.contains(a),
        forall|n: int| 0 <= n < nets.len() ==> !(#[trigger] nets[n].members@.contains(b)),
        ext.members@ == nets[i].members@.push(b),
        ext.wires@ == nets[i].wires@.push(w),
    ensures
        nets_inv(ws.push(w), nets.update(i, ext)),
{
    reveal(nets_inv);
    assert(ext.members@[nets[i].members@.len() as int] == b);
    assert(ext.members@.contains(b));
    assert forall|h: StructureId| nets[i].members@.contains(h) implies #[trigger] ext.members@.contains(h) by {
        let j = choose|j: int| 0 <= j < nets[i].members@.len() && nets[i].members@[j] == h;
        assert(ext.members@[j] == h);
    }
    assert(ext.members@.contains(a));
    assert(ext.members@.contains(w.0) && ext.members@.contains(w.1));
    lemma_extend_cover(ws, w, nets, i, ext, b);
    lemma_extend_touched(ws, w, nets, i, ext, b);
    lemma_extend_unique(nets, i, ext, b);
    lemma_extend_wires(ws, w, nets, i, ext);
    lemma_extend_wire_cover(ws, w, nets, i, ext);
    lemma_extend_conn(ws, w, nets, i, ext, a, b);
}

// ---------------------------------------------------------------------
// Invariant maintenance, case: both endpoints already lie in the same
// network `i`, which simply gains the wire.
// ---------------------------------------------------------------------

proof fn lemma_same_cover(
    ws: Seq<PowerWire>,
    w: PowerWire,
    nets: Seq<PowerNetwork>,
    i: int,
    ext: PowerNetwork,
)
    requires
        inv_cover(ws, nets),
        0 <= i < nets.len(),
        ext.members@ == nets[i].members@,
        nets[i].members@.contains(w.0),
        nets[i].members@.contains(w.1),
    ensures
        inv_cover(ws.push(w), nets.update(i, ext)),
{
    let ws2 = ws.push(w);
    let nets2 = nets.update(i, ext);
    assert forall|h: StructureId| #[trigger] touched(ws2, h) implies member_of_some(nets2, h) by {
        lemma_touched_push(ws, w, h);
        if touched(ws, h) {
            let n = choose|n: int| 0 <= n < nets.len() && (#[trigger] nets[n].members@.contains(h));
            assert(nets2[n].members@.contains(h));
        } else {
            assert(nets2[i].members@.contains(h));
        }
    }
}

proof fn lemma_same_touched(
    ws: Seq<PowerWire>,
    w: PowerWire,
    nets: Seq<PowerNetwork>,
    i: int,
    ext: PowerNetwork,
)
    requires
        inv_touched(ws, nets),
        0 <= i < nets.len(),
        ext.members@ == nets[i].members@,
    ensures
        inv_touched(ws.push(w), nets.update(i, ext)),
{
    let ws2 = ws.push(w);
    let nets2 = nets.update(i, ext);
    assert forall|n: int, j: int|
        0 <= n < nets2.len() && 0 <= j < nets2[n].members@.len() implies touched(
        ws2,
        #[trigger] nets2[n].members@[j],
    ) by {
        assert(nets2[n].members@ == nets[n].members@);
        lemma_touched_push(ws, w, nets[n].members@[j]);
    }
}

proof fn lemma_same_unique(nets: Seq<PowerNetwork>, i: int, ext: PowerNetwork)
    requires
        inv_unique(nets),
        0 <= i < nets.len(),
        ext.members@ == nets[i].members@,
    ensures
        inv_unique(nets.update(i, ext)),
{
    let nets2 = nets.update(i, ext);
    assert forall|n1: int, j1: int, n2: int, j2: int|
        0 <= n1 < nets2.len() && 0 <= j1 < nets2[n1].members@.len() && 0 <= n2 < nets2.len() && 0
            <= j2 < nets2[n2].members@.len() && #[trigger] nets2[n1].members@[j1]
            == #[trigger] nets2[n2].members@[j2] implies n1 == n2 && j1 == j2 by {
        assert(nets2[n1].members@ == nets[n1].members@);
        assert(nets2[n2].members@ == nets[n2].members@);
    }
}

proof fn lemma_same_wires(
    ws: Seq<PowerWire>,
    w: PowerWire,
    nets: Seq<PowerNetwork>,
    i: int,
    ext: PowerNetwork,
)
    requires
        inv_wires(ws, nets),
        0 <= i < nets.len(),
        ext.members@ == nets[i].members@,
        ext.wires@ == nets[i].wires@.push(w),
        nets[i].members@.contains(w.0),
        nets[i].members@.contains(w.1),
    ensures
        inv_wires(ws.push(w), nets.update(i, ext)),
{
    let ws2 = ws.push(w);
    let nets2 = nets.update(i, ext);
    assert forall|n: int, k: int|
        0 <= n < nets2.len() && 0 <= k < nets2[n].wires@.len() implies ws2.contains(
        #[trigger] nets2[n].wires@[k],
    ) && nets2[n].members@.contains(nets2[n].wires@[k].0) && nets2[n].members@.contains(
        nets2[n].wires@[k].1,
    ) by {
        if n == i {
            if k < nets[i].wires@.len() {
                assert(nets2[n].wires@[k] == nets[i].wires@[k]);
                lemma_contains_push(ws, w, nets[i].wires@[k]);
            } else {
                assert(nets2[n].wires@[k] == w);
                lemma_contains_push(ws, w, w);
            }
        } else {
            assert(nets2[n] == nets[n]);
            lemma_contains_push(ws, w, nets[n].wires@[k]);
        }
    }
}

proof fn lemma_same_wire_cover(
    ws: Seq<PowerWire>,
    w: PowerWire,
    nets: Seq<PowerNetwork>,
    i: int,
    ext: PowerNetwork,
)
    requires
        inv_wire_cover(ws, nets),
        0 <= i < nets.len(),
        ext.wires@ == nets[i].wires@.push(w),
    ensures
        inv_wire_cover(ws.push(w), nets.update(i, ext)),
{
    let ws2 = ws.push(w);
    let nets2 = nets.update(i, ext);
    assert forall|k: int| 0 <= k < ws2.len() implies wire_in_some_net(nets2, #[trigger] ws2[k]) by {
        if k < ws.len() {
            assert(ws2[k] == ws[k]);
            let n = choose|n: int| 0 <= n < nets.len() && (#[trigger] nets[n].wires@.contains(ws[k]));
            if n == i {
                let kk = choose|kk: int| 0 <= kk < nets[i].wires@.len() && nets[i].wires@[kk] == ws[k];
                assert(nets2[i].wires@[kk] == ws[k]);
                assert(nets2[i].wires@.contains(ws2[k]));
            } else {
                assert(nets2[n] == nets[n]);
                assert(nets2[n].wires@.contains(ws2[k]));
            }
        } else {
            assert(ws2[k] == w);
            assert(nets2[i].wires@[nets[i].wires@.len() as int] == w);
            assert(nets2[i].wires@.contains(ws2[k]));
        }
    }
}

proof fn lemma_same_conn(
    ws: Seq<PowerWire>,
    w: PowerWire,
    nets: Seq<PowerNetwork>,
    i: int,
    ext: PowerNetwork,
)
    requires
        inv_conn(ws, nets),
        0 <= i < nets.len(),
        ext.members@ == nets[i].members@,
    ensures
        inv_conn(ws.push(w), nets.update(i, ext)),
{
    let ws2 = ws.push(w);
    let nets2 = nets.update(i, ext);
    assert forall|n: int| 0 <= n < nets2.len() implies net_members_connected(ws2, #[trigger] nets2[n]) by {
        assert(nets2[n].members@ == nets[n].members@);
        assert(net_members_connected(ws, nets[n]));
        assert forall|x: int, y: int|
            0 <= x < nets2[n].members@.len() && 0 <= y < nets2[n].members@.len() implies connected(
            ws2,
            #[trigger] nets2[n].members@[x],
            #[trigger] nets2[n].members@[y],
        ) by {
            assert(connected(ws, nets[n].members@[x], nets[n].members@[y]));
            lemma_connected_push(ws, w, nets[n].members@[x], nets[n].members@[y]);
        }
    }
}

/// Invariant maintenance: both endpoints lie in network `i` already; the
/// network gains the wire and nothing else changes.
proof fn lemma_inv_same(
    ws: Seq<PowerWire>,
    w: PowerWire,
    nets: Seq<PowerNetwork>,
    i: int,
    ext: PowerNetwork,
)
    requires
        nets_inv(ws, nets),
        0 <= i < nets.len(),
        nets[i].members@.contains(w.0),
        nets[i].members@.contains(w.1),
        ext.members@ == nets[i].members@,
        ext.wires@ == nets[i].wires@.push(w),
    ensures
        nets_inv(ws.push(w), nets.update(i, ext)),
{
    reveal(nets_inv);
    lemma_same_cover(ws, w, nets, i, ext);
    lemma_same_touched(ws, w, nets, i, ext);
    lemma_same_unique(nets, i, ext);
    lemma_same_wires(ws, w, nets, i, ext);
    lemma_same_wire_cover(ws, w, nets, i, ext);
    lemma_same_conn(ws, w, nets, i, ext);
}

// ---------------------------------------------------------------------
// Invariant maintenance, case: the endpoints lie in two distinct
// networks, which merge into the lower-indexed one.
// ---------------------------------------------------------------------

/// How indices map across `update(lo, merged).remove(hi)`.
proof fn lemma_merge_index(
    nets: Seq<PowerNetwork>,
    lo: int,
    hi: int,
    merged: PowerNetwork,
)
    requires
        0 <= lo < hi < nets.len(),
    ensures
        nets.update(lo, merged).remove(hi).len() == nets.len() - 1,
        forall|n: int|
            0 <= n < nets.len() - 1 ==> #[trigger] nets.update(lo, merged).remove(hi)[n] == (if n
                == lo {
                merged
            } else if n < hi {
                nets[n]
            } else {
                nets[n + 1]
            }),
{
    nets.update(lo, merged).remove_ensures(hi);
}

proof fn lemma_merge_cover(
    ws: Seq<PowerWire>,
    w: PowerWire,
    nets: Seq<PowerNetwork>,
    lo: int,
    hi: int,
    merged: PowerNetwork,
)
    requires
        inv_cover(ws, nets),
        0 <= lo < hi < nets.len(),
        merged.members@ == nets[lo].members@ + nets[hi].members@,
        nets[lo].members@.contains(w.0) || nets[hi].members@.contains(w.0),
        nets[lo].members@.contains(w.1) || nets[hi].members@.contains(w.1),
    ensures
        inv_cover(ws.push(w), nets.update(lo, merged).remove(hi)),
{
    let ws2 = ws.push(w);
    let nets2 = nets.update(lo, merged).remove(hi);
    lemma_merge_index(nets, lo, hi, merged);
    assert forall|h: StructureId|
        nets[lo].members@.contains(h) || nets[hi].members@.contains(h) implies #[trigger] merged.members@.contains(h) by {
        lemma_contains_concat(nets[lo].members@, nets[hi].members@, h);
    }
    assert forall|h: StructureId| #[trigger] touched(ws2, h) implies member_of_some(nets2, h) by {
        lemma_touched_push(ws, w, h);
        if touched(ws, h) {
            let n = choose|n: int| 0 <= n < nets.len() && (#[trigger] nets[n].members@.contains(h));
            if n == lo || n == hi {
                assert(merged.members@.contains(h));
                assert(nets2[lo].members@.contains(h));
            } else if n < hi {
                assert(nets2[n].members@.contains(h));
            } else {
                assert(nets2[n - 1].members@.contains(h));
            }
        } else {
            assert(merged.members@.contains(h));
            assert(nets2[lo].members@.contains(h));
        }
    }
}

proof fn lemma_merge_touched(
    ws: Seq<PowerWire>,
    w: PowerWire,
    nets: Seq<PowerNetwork>,
    lo: int,
    hi: int,
    merged: PowerNetwork,
)
    requires
        inv_touched(ws, nets),
        0 <= lo < hi < nets.len(),
        merged.members@ == nets[lo].members@ + nets[hi].members@,
    ensures
        inv_touched(ws.push(w), nets.update(lo, merged).remove(hi)),
{
    let ws2 = ws.push(w);
    let nets2 = nets.update(lo, merged).remove(hi);
    lemma_merge_index(nets, lo, hi, merged);
    assert forall|n: int, j: int|
        0 <= n < nets2.len() && 0 <= j < nets2[n].members@.len() implies touched(
        ws2,
        #[trigger] nets2[n].members@[j],
    ) by {
        if n == lo {
            let lolen = nets[lo].members@.len() as int;
            if j < lolen {
                assert(nets2[n].members@[j] == nets[lo].members@[j]);
                lemma_touched_push(ws, w, nets[lo].members@[j]);
            } else {
                assert(nets2[n].members@[j] == nets[hi].members@[j - lolen]);
                lemma_touched_push(ws, w, nets[hi].members@[j - lolen]);
            }
        } else if n < hi {
            assert(nets2[n] == nets[n]);
            lemma_touched_push(ws, w, nets[n].members@[j]);
        } else {
            assert(nets2[n] == nets[n + 1]);
            lemma_touched_push(ws, w, nets[n + 1].members@[j]);
        }
    }
}

proof fn lemma_merge_unique(
    nets: Seq<PowerNetwork>,
    lo: int,
    hi: int,
    merged: PowerNetwork,
)
    requires
        inv_unique(nets),
        0 <= lo < hi < nets.len(),
        merged.members@ == nets[lo].members@ + nets[hi].members@,
    ensures
        inv_unique(nets.update(lo, merged).remove(hi)),
{
    let nets2 = nets.update(lo, merged).remove(hi);
    lemma_merge_index(nets, lo, hi, merged);
    // every new slot (n, j) maps to an old slot (o, oj) holding the same handle
    let oldof = |n: int, j: int|
        {
            if n == lo {
                if j < nets[lo].members@.len() {
                    (lo, j)
                } else {
                    (hi, j - nets[lo].members@.len())
                }
            } else if n < hi {
                (n, j)
            } else {
                (n + 1, j)
            }
        };
    assert forall|n1: int, j1: int, n2: int, j2: int|
        0 <= n1 < nets2.len() && 0 <= j1 < nets2[n1].members@.len() && 0 <= n2 < nets2.len() && 0
            <= j2 < nets2[n2].members@.len() && #[trigger] nets2[n1].members@[j1]
            == #[trigger] nets2[n2].members@[j2] implies n1 == n2 && j1 == j2 by {
        let (o1, oj1) = oldof(n1, j1);
        let (o2, oj2) = oldof(n2, j2);
        assert(nets2[n1].members@[j1] == nets[o1].members@[oj1]);
        assert(nets2[n2].members@[j2] == nets[o2].members@[oj2]);
        assert(o1 == o2 && oj1 == oj2);
    }
}

proof fn lemma_merge_wires(
    ws: Seq<PowerWire>,
    w: PowerWire,
    nets: Seq<PowerNetwork>,
    lo: int,
    hi: int,
    merged: PowerNetwork,
)
    requires
        inv_wires(ws, nets),
        0 <= lo < hi < nets.len(),
        merged.members@ == nets[lo].members@ + nets[hi].members@,
        merged.wires@ == nets[lo].wires@ + nets[hi].wires@ + seq![w],
        nets[lo].members@.contains(w.0) || nets[hi].members@.contains(w.0),
        nets[lo].members@.contains(w.1) || nets[hi].members@.contains(w.1),
    ensures
        inv_wires(ws.push(w), nets.update(lo, merged).remove(hi)),
{
    let ws2 = ws.push(w);
    let nets2 = nets.update(lo, merged).remove(hi);
    lemma_merge_index(nets, lo, hi, merged);
    assert forall|h: StructureId|
        nets[lo].members@.contains(h) || nets[hi].members@.contains(h) implies #[trigger] merged.members@.contains(h) by {
        lemma_contains_concat(nets[lo].members@, nets[hi].members@, h);
    }
    assert forall|n: int, k: int|
        0 <= n < nets2.len() && 0 <= k < nets2[n].wires@.len() implies ws2.contains(
        #[trigger] nets2[n].wires@[k],
    ) && nets2[n].members@.contains(nets2[n].wires@[k].0) && nets2[n].members@.contains(
        nets2[n].wires@[k].1,
    ) by {
        if n == lo {
            let lw = nets[lo].wires@.len() as int;
            let hw = nets[hi].wires@.len() as int;
            if k < lw {
                assert(nets2[n].wires@[k] == nets[lo].wires@[k]);
                lemma_contains_push(ws, w, nets[lo].wires@[k]);
            } else if k < lw + hw {
                assert(nets2[n].wires@[k] == nets[hi].wires@[k - lw]);
                lemma_contains_push(ws, w, nets[hi].wires@[k - lw]);
            } else {
                assert(nets2[n].wires@[k] == w);
                lemma_contains_push(ws, w, w);
            }
        } else if n < hi {
            assert(nets2[n] == nets[n]);
            lemma_contains_push(ws, w, nets[n].wires@[k]);
        } else {
            assert(nets2[n] == nets[n + 1]);
            lemma_contains_push(ws, w, nets[n + 1].wires@[k]);
        }
    }
}

proof fn lemma_merge_wire_cover(
    ws: Seq<PowerWire>,
    w: PowerWire,
    nets: Seq<PowerNetwork>,
    lo: int,
    hi: int,
    merged: PowerNetwork,
)
    requires
        inv_wire_cover(ws, nets),
        0 <= lo < hi < nets.len(),
        merged.wires@ == nets[lo].wires@ + nets[hi].wires@ + seq![w],
    ensures
        inv_wire_cover(ws.push(w), nets.update(lo, merged).remove(hi)),
{
    let ws2 = ws.push(w);
    let nets2 = nets.update(lo, merged).remove(hi);
    lemma_merge_index(nets, lo, hi, merged);
    assert forall|x: PowerWire|
        nets[lo].wires@.contains(x) || nets[hi].wires@.contains(x) || x == w implies #[trigger] merged.wires@.contains(x) by {
        lemma_contains_concat(nets[lo].wires@ + nets[hi].wires@, seq![w], x);
        lemma_contains_concat(nets[lo].wires@, nets[hi].wires@, x);
        assert(seq![w][0] == w);
    }
    assert forall|k: int| 0 <= k < ws2.len() implies wire_in_some_net(nets2, #[trigger] ws2[k]) by {
        if k < ws.len() {
            assert(ws2[k] == ws[k]);
            let n = choose|n: int| 0 <= n < nets.len() && (#[trigger] nets[n].wires@.contains(ws[k]));
            if n == lo || n == hi {
                assert(merged.wires@.contains(ws2[k]));
                assert(nets2[lo].wires@.contains(ws2[k]));
            } else if n < hi {
                assert(nets2[n].wires@.contains(ws2[k]));
            } else {
                assert(nets2[n - 1].wires@.contains(ws2[k]));
            }
        } else {
            assert(ws2[k] == w);
            assert(merged.wires@.contains(ws2[k]));
            assert(nets2[lo].wires@.contains(ws2[k]));
        }
    }
}

proof fn lemma_merge_conn(
    ws: Seq<PowerWire>,
    w: PowerWire,
    nets: Seq<PowerNetwork>,
    lo: int,
    hi: int,
    merged: PowerNetwork,
    a: StructureId,
    b: StructureId,
)
    requires
        inv_conn(ws, nets),
        0 <= lo < hi < nets.len(),
        merged.members@ == nets[lo].members@ + nets[hi].members@,
        wire_links(w, a, b),
        nets[lo].members@.contains(a),
        nets[hi].members@.contains(b),
    ensures
        inv_conn(ws.push(w), nets.update(lo, merged).remove(hi)),
{
    let ws2 = ws.push(w);
    let nets2 = nets.update(lo, merged).remove(hi);
    lemma_merge_index(nets, lo, hi, merged);
    lemma_adjacent_new_wire(ws, w);
    assert(adjacent(ws2, a, b));
    lemma_adjacent_connected(ws2, a, b);
    let lolen = nets[lo].members@.len() as int;
    // every member of the merged network connects to `a`
    assert forall|x: int|
        0 <= x < merged.members@.len() implies connected(ws2, #[trigger] merged.members@[x], a) by {
        if x < lolen {
            assert(merged.members@[x] == nets[lo].members@[x]);
            let ja = choose|j: int| 0 <= j < nets[lo].members@.len() && nets[lo].members@[j] == a;
            assert(connected(ws, nets[lo].members@[x], a));
            lemma_connected_push(ws, w, nets[lo].members@[x], a);
        } else {
            assert(merged.members@[x] == nets[hi].members@[x - lolen]);
            let jb = choose|j: int| 0 <= j < nets[hi].members@.len() && nets[hi].members@[j] == b;
            assert(connected(ws, nets[hi].members@[x - lolen], b));
            lemma_connected_push(ws, w, nets[hi].members@[x - lolen], b);
            lemma_connected_sym(ws2, a, b);
            lemma_connected_trans(ws2, merged.members@[x], b, a);
        }
    }
    assert forall|n: int| 0 <= n < nets2.len() implies net_members_connected(ws2, #[trigger] nets2[n]) by {
        if n == lo {
            assert forall|x: int, y: int|
                0 <= x < nets2[n].members@.len() && 0 <= y < nets2[n].members@.len() implies connected(
                ws2,
                #[trigger] nets2[n].members@[x],
                #[trigger] nets2[n].members@[y],
            ) by {
                assert(connected(ws2, merged.members@[x], a));
                assert(connected(ws2, merged.members@[y], a));
                lemma_connected_sym(ws2, merged.members@[y], a);
                lemma_connected_trans(ws2, merged.members@[x], a, merged.members@[y]);
            }
        } else {
            let o = if n < hi {
                n
            } else {
                n + 1
            };
            assert(nets2[n] == nets[o]);
            assert(net_members_connected(ws, nets[o]));
            assert forall|x: int, y: int|
                0 <= x < nets2[n].members@.len() && 0 <= y < nets2[n].members@.len() implies connected(
                ws2,
                #[trigger] nets2[n].members@[x],
                #[trigger] nets2[n].members@[y],
            ) by {
                assert(connected(ws, nets[o].members@[x], nets[o].members@[y]));
                lemma_connected_push(ws, w, nets[o].members@[x], nets[o].members@[y]);
            }
        }
    }
}

/// Invariant maintenance: the endpoints lie in distinct networks `lo` and
/// `hi`; the two networks merge into index `lo` and gain the wire.
proof fn lemma_inv_merge(
    ws: Seq<PowerWire>,
    w: PowerWire,
    nets: Seq<PowerNetwork>,
    lo: int,
    hi: int,
    merged: PowerNetwork,
    a: StructureId,
    b: StructureId,
)
    requires
        nets_inv(ws, nets),
        0 <= lo < hi < nets.len(),
        wire_links(w, a, b),
        nets[lo].members@.contains(a),
        nets[hi].members@.contains(b),
        merged.members@ == nets[lo].members@ + nets[hi].members@,
        merged.wires@ == nets[lo].wires@ + nets[hi].wires@ + seq![w],
    ensures
        nets_inv(ws.push(w), nets.update(lo, merged).remove(hi)),
{
    reveal(nets_inv);
    assert(nets[lo].members@.contains(w.0) || nets[hi].members@.contains(w.0));
    assert(nets[lo].members@.contains(w.1) || nets[hi].members@.contains(w.1));
    lemma_merge_cover(ws, w, nets, lo, hi, merged);
    lemma_merge_touched(ws, w, nets, lo, hi, merged);
    lemma_merge_unique(nets, lo, hi, merged);
    lemma_merge_wires(ws, w, nets, lo, hi, merged);
    lemma_merge_wire_cover(ws, w, nets, lo, hi, merged);
    lemma_merge_conn(ws, w, nets, lo, hi, merged, a, b);
}

/// Connected handles never end up in different networks: together with
/// `inv_conn`, members of one network are exactly one connected component.
pub open spec fn nets_separate(ws: Seq<PowerWire>, nets: Seq<PowerNetwork>) -> bool {
    forall|n1: int, j1: int, n2: int, j2: int|
        0 <= n1 < nets.len() && 0 <= j1 < nets[n1].members@.len() && 0 <= n2 < nets.len() && 0 <= j2
            < nets[n2].members@.len() && #[trigger] connected(
            ws,
            nets[n1].members@[j1],
            nets[n2].members@[j2],
        ) ==> n1 == n2
}

/// Each network's member set is closed under the wire list: every wire
/// lies in one network together with both endpoints, and networks share
/// no members.
proof fn lemma_member_set_closed(ws: Seq<PowerWire>, nets: Seq<PowerNetwork>, n1: int)
    requires
        inv_unique(nets),
        inv_wires(ws, nets),
        inv_wire_cover(ws, nets),
        0 <= n1 < nets.len(),
    ensures
        closed_under(ws, Set::new(|h: StructureId| nets[n1].members@.contains(h))),
{
    let s = Set::new(|h: StructureId| nets[n1].members@.contains(h));
    assert forall|k: int| 0 <= k < ws.len() implies (s.contains((#[trigger] ws[k]).0)
        <==> s.contains(ws[k].1)) by {
        assert(wire_in_some_net(nets, ws[k]));
        let m = choose|m: int| 0 <= m < nets.len() && (#[trigger] nets[m].wires@.contains(ws[k]));
        let kk = choose|kk: int| 0 <= kk < nets[m].wires@.len() && nets[m].wires@[kk] == ws[k];
        assert(nets[m].members@.contains(ws[k].0));
        assert(nets[m].members@.contains(ws[k].1));
        if s.contains(ws[k].0) {
            let ja = choose|j: int| 0 <= j < nets[n1].members@.len() && nets[n1].members@[j] == ws[k].0;
            let jm = choose|j: int| 0 <= j < nets[m].members@.len() && nets[m].members@[j] == ws[k].0;
            assert(nets[n1].members@[ja] == nets[m].members@[jm]);
            assert(m == n1);
            assert(s.contains(ws[k].1));
        }
        if s.contains(ws[k].1) {
            let ja = choose|j: int| 0 <= j < nets[n1].members@.len() && nets[n1].members@[j] == ws[k].1;
            let jm = choose|j: int| 0 <= j < nets[m].members@.len() && nets[m].members@[j] == ws[k].1;
            assert(nets[n1].members@[ja] == nets[m].members@[jm]);
            assert(m == n1);
            assert(s.contains(ws[k].0));
        }
    }
}

/// The separation half of the partition property follows from the
/// invariant: each network's member set is closed under the wire list, so
/// a path can never leave it.
pub proof fn lemma_nets_separate(ws: Seq<PowerWire>, nets: Seq<PowerNetwork>)
    requires
        inv_unique(nets),
        inv_wires(ws, nets),
        inv_wire_cover(ws, nets),
    ensures
        nets_separate(ws, nets),
{
    assert forall|n1: int, j1: int, n2: int, j2: int|
        0 <= n1 < nets.len() && 0 <= j1 < nets[n1].members@.len() && 0 <= n2 < nets.len() && 0 <= j2
            < nets[n2].members@.len() && #[trigger] connected(
            ws,
            nets[n1].members@[j1],
            nets[n2].members@[j2],
        ) implies n1 == n2 by {
        let a = nets[n1].members@[j1];
        let b = nets[n2].members@[j2];
        let s = Set::new(|h: StructureId| nets[n1].members@.contains(h));
        lemma_member_set_closed(ws, nets, n1);
        assert(s.contains(a));
        lemma_connected_stays_in(ws, s, a, b);
        let jb = choose|j: int| 0 <= j < nets[n1].members@.len() && nets[n1].members@[j] == b;
        assert(nets[n1].members@[jb] == nets[n2].members@[j2]);
    }
}

fn contains_id(v: &Vec<StructureId>, h: StructureId) -> (r: bool)
    ensures
        r == v@.contains(h),
{
    let mut i: usize = 0;
    while i < v.len()
        invariant
            0 <= i <= v@.len(),
            forall|j: int| 0 <= j < i ==> v@[j] != h,
        decreases v@.len() - i,
    {
        if v[i].id == h.id && v[i].gen == h.gen {
            assert(v@[i as int] == h);
            return true;
        }
        i = i + 1;
    }
    false
}

fn find_network(nets: &Vec<PowerNetwork>, h: StructureId) -> (r: Option<usize>)
    ensures
        match r {
            Some(i) => i < nets@.len() && nets@[i as int].members@.contains(h),
            None => forall|n: int| 0 <= n < nets@.len() ==> !(#[trigger] nets@[n].members@.contains(h)),
        },
{
    let mut i: usize = 0;
    while i < nets.len()
        invariant
            0 <= i <= nets@.len(),
            forall|n: int| 0 <= n < i ==> !(#[trigger] nets@[n].members@.contains(h)),
        decreases nets@.len() - i,
    {
        if contains_id(&nets[i].members, h) {
            return Some(i);
        }
        i = i + 1;
    }
    None
}


/// An empty network list satisfies the invariant for an empty wire list.
proof fn lemma_inv_empty()
    ensures
        nets_inv(Seq::<PowerWire>::empty(), Seq::<PowerNetwork>::empty()),
{
    reveal(nets_inv);
    assert forall|h: StructureId| #[trigger] touched(Seq::<PowerWire>::empty(), h) implies member_of_some(
        Seq::<PowerNetwork>::empty(),
        h,
    ) by {}
}

/// The full partition property, packaged from the invariant.
pub proof fn lemma_separation(ws: Seq<PowerWire>, nets: Seq<PowerNetwork>)
    requires
        nets_inv(ws, nets),
    ensures
        nets_separate(ws, nets),
{
    reveal(nets_inv);
    lemma_nets_separate(ws, nets);
}

/// Rebuild the power networks from a wire list: partition all wire
/// endpoints into connected components.  The result satisfies the network
/// partition property: its members are exactly the handles touched by
/// wires, each belonging to exactly one network; two handles share a
/// network exactly when a path of wires connects them; and each network
/// holds exactly the wires lying within it.  The algorithm is
/// deterministic in the input order, so rebuilding from an equal wire
/// list gives equal networks.
pub fn build_power_networks(power_wires: &Vec<PowerWire>) -> (r: Vec<PowerNetwork>)
    ensures
        nets_inv(power_wires@, r@),
        nets_separate(power_wires@, r@),
{
    let mut nets: Vec<PowerNetwork> = Vec::new();
    proof {
        lemma_inv_empty();
        assert(power_wires@.subrange(0, 0) =~= Seq::<PowerWire>::empty());
        assert(nets@ =~= Seq::<PowerNetwork>::empty());
    }
    let mut t: usize = 0;
    let n = power_wires.len();
    while t < n
        invariant
            n == power_wires@.len(),
            0 <= t <= n,
            nets_inv(power_wires@.subrange(0, t as int), nets@),
        decreases n - t,
    {
        let w = power_wires[t];
        let ghost pre_ws = power_wires@.subrange(0, t as int);
        let ghost pre_nets = nets@;
        proof {
            assert(power_wires@.subrange(0, t as int + 1) =~= pre_ws.push(w));
        }
        let fa = find_network(&nets, w.0);
        let fb = find_network(&nets, w.1);
        match (fa, fb) {
            (None, None) => {
                let mut wires: Vec<PowerWire> = Vec::new();
                wires.push(w);
                let mut members: Vec<StructureId> = Vec::new();
                members.push(w.0);
                if !(w.1 == w.0) {
                    members.push(w.1);
                }
                let fresh = PowerNetwork { wires, members };
                proof {
                    assert(fresh.wires@ =~= seq![w]);
                    if w.0 == w.1 {
                        assert(fresh.members@ =~= seq![w.0]);
                    } else {
                        assert(fresh.members@ =~= seq![w.0, w.1]);
                    }
                    lemma_inv_fresh(pre_ws, w, pre_nets, fresh);
                }
                nets.push(fresh);
            },
            (Some(i), None) => {
                let net = &mut nets[i];
                net.members.push(w.1);
                net.wires.push(w);
                proof {
                    assert(nets@ =~= pre_nets.update(i as int, nets@[i as int]));
                    lemma_inv_extend(pre_ws, w, pre_nets, i as int, nets@[i as int], w.0, w.1);
                }
            },
            (None, Some(j)) => {
                let net = &mut nets[j];
                net.members.push(w.0);
                net.wires.push(w);
                proof {
                    assert(nets@ =~= pre_nets.update(j as int, nets@[j as int]));
                    assert(wire_links(w, w.1, w.0));
                    lemma_inv_extend(pre_ws, w, pre_nets, j as int, nets@[j as int], w.1, w.0);
                }
            },
            (Some(i), Some(j)) => {
                if i == j {
                    let net = &mut nets[i];
                    net.wires.push(w);
                    proof {
                        assert(nets@ =~= pre_nets.update(i as int, nets@[i as int]));
                        lemma_inv_same(pre_ws, w, pre_nets, i as int, nets@[i as int]);
                    }
                } else {
                    let lo = if i < j {
                        i
                    } else {
                        j
                    };
                    let hi = if i < j {
                        j
                    } else {
                        i
                    };
                    let hi_net = nets.remove(hi);
                    let mut hi_wires = hi_net.wires;
                    let mut hi_members = hi_net.members;
                    let net = &mut nets[lo];
                    net.wires.append(&mut hi_wires);
                    net.wires.push(w);
                    net.members.append(&mut hi_members);
                    proof {
                        let merged = nets@[lo as int];
                        assert(merged.members@ =~= pre_nets[lo as int].members@
                            + pre_nets[hi as int].members@);
                        assert(merged.wires@ =~= pre_nets[lo as int].wires@
                            + pre_nets[hi as int].wires@ + seq![w]);
                        assert(nets@ =~= pre_nets.update(lo as int, merged).remove(hi as int));
                        if i < j {
                            lemma_inv_merge(
                                pre_ws,
                                w,
                                pre_nets,
                                lo as int,
                                hi as int,
                                merged,
                                w.0,
                                w.1,
                            );
                        } else {
                            assert(wire_links(w, w.1, w.0));
                            lemma_inv_merge(
                                pre_ws,
                                w,
                                pre_nets,
                                lo as int,
                                hi as int,
                                merged,
                                w.1,
                                w.0,
                            );
                        }
                    }
                }
            },
        }
        t = t + 1;
    }
    proof {
        assert(power_wires@.subrange(0, n as int) =~= power_wires@);
        lemma_separation(power_wires@, nets@);
    }
    nets
}

} // verus!
