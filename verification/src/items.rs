//! Item kinds and inventories.
//!
//! An `Inventory` is a multiset of items kept as a list of
//! `(kind, count)` entries with no duplicate kinds and no zero counts.
//! Its mathematical model is the function `spec_count`, the number of
//! items of each kind it holds.

use vstd::prelude::*;

verus! {

#[derive(PartialEq, Eq, Structural, Clone, Copy, Debug, Hash)]
pub enum ItemType {
    IronOre,
    CoalOre,
    CopperOre,
    StoneOre,
    IronPlate,
    CopperPlate,
    Gear,
    CopperWire,
    Circuit,
    TransportBelt,
    Inserter,
    Splitter,
    OreMine,
    Chest,
    Furnace,
    Assembler,
    Boiler,
    WaterWell,
    OffshorePump,
    Pipe,
    SteamEngine,
    ElectPole,
}

/// Addition capped at the largest count an inventory slot can hold.
pub open spec fn cap_add(a: int, b: int) -> int {
    if a + b <= u64::MAX {
        a + b
    } else {
        u64::MAX as int
    }
}

/// Total number of items of kind `t` in the entry list `s`.
pub open spec fn count_in_seq(s: Seq<(ItemType, u64)>, t: ItemType) -> int
    decreases s.len(),
{
    if s.len() == 0 {
        0
    } else {
        (if s[0].0 == t {
            s[0].1 as int
        } else {
            0
        }) + count_in_seq(s.drop_first(), t)
    }
}

/// Entry lists are well formed when no kind repeats and no count is zero.
pub open spec fn entries_wf(s: Seq<(ItemType, u64)>) -> bool {
    &&& forall|i: int, j: int| 0 <= i < j < s.len() ==> (#[trigger] s[i]).0 != (#[trigger] s[j]).0
    &&& forall|i: int| 0 <= i < s.len() ==> (#[trigger] s[i]).1 > 0
}

pub proof fn lemma_count_push(s: Seq<(ItemType, u64)>, e: (ItemType, u64), t: ItemType)
    ensures
        count_in_seq(s.push(e), t) == count_in_seq(s, t) + (if e.0 == t {
            e.1 as int
        } else {
            0
        }),
    decreases s.len(),
{
    assert(s.push(e).len() == s.len() + 1);
    assert(s.push(e)[0] == if s.len() == 0 {
        e
    } else {
        s[0]
    });
    if s.len() == 0 {
        assert(s.push(e).drop_first() =~= Seq::<(ItemType, u64)>::empty());
        assert(count_in_seq(s.push(e), t) == (if e.0 == t {
            e.1 as int
        } else {
            0
        }) + count_in_seq(s.push(e).drop_first(), t));
    } else {
        assert(s.push(e).drop_first() =~= s.drop_first().push(e));
        lemma_count_push(s.drop_first(), e, t);
        assert(count_in_seq(s.push(e), t) == (if s[0].0 == t {
            s[0].1 as int
        } else {
            0
        }) + count_in_seq(s.push(e).drop_first(), t));
    }
}

/// Counts are sums of unsigned entries, so never negative.
pub proof fn lemma_count_nonneg(s: Seq<(ItemType, u64)>, t: ItemType)
    ensures
        count_in_seq(s, t) >= 0,
    decreases s.len(),
{
    if s.len() > 0 {
        lemma_count_nonneg(s.drop_first(), t);
    }
}

/// In a well-formed list the count of a kind present at index `i` is that
/// entry's count.
pub proof fn lemma_count_present(s: Seq<(ItemType, u64)>, t: ItemType, i: int)
    requires
        entries_wf(s),
        0 <= i < s.len(),
        s[i].0 == t,
    ensures
        count_in_seq(s, t) == s[i].1 as int,
    decreases s.len(),
{
    if i == 0 {
        lemma_count_absent(s.drop_first(), t);
    } else {
        assert(s[0].0 != t);
        lemma_count_present(s.drop_first(), t, i - 1);
    }
}

/// In a well-formed list every count fits a slot.
pub proof fn lemma_count_bounded(s: Seq<(ItemType, u64)>, t: ItemType)
    requires
        entries_wf(s),
    ensures
        0 <= count_in_seq(s, t) <= u64::MAX,
    decreases s.len(),
{
    if s.len() == 0 {
    } else if s[0].0 == t {
        assert forall|i: int| 0 <= i < s.drop_first().len() implies (#[trigger] s.drop_first()[i]).0
            != t by {
            assert(s.drop_first()[i] == s[i + 1]);
        }
        lemma_count_absent(s.drop_first(), t);
    } else {
        assert(entries_wf(s.drop_first())) by {
            assert forall|i: int, j: int|
                0 <= i < j < s.drop_first().len() implies (#[trigger] s.drop_first()[i]).0 != (
            #[trigger] s.drop_first()[j]).0 by {
                assert(s.drop_first()[i] == s[i + 1]);
                assert(s.drop_first()[j] == s[j + 1]);
            }
            assert forall|i: int| 0 <= i < s.drop_first().len() implies (#[trigger] s.drop_first()[i]).1
                > 0 by {
                assert(s.drop_first()[i] == s[i + 1]);
            }
        }
        lemma_count_bounded(s.drop_first(), t);
    }
}

/// A kind that appears in no entry has count zero.
pub proof fn lemma_count_absent(s: Seq<(ItemType, u64)>, t: ItemType)
    requires
        forall|i: int| 0 <= i < s.len() ==> (#[trigger] s[i]).0 != t,
    ensures
        count_in_seq(s, t) == 0,
    decreases s.len(),
{
    if s.len() > 0 {
        lemma_count_absent(s.drop_first(), t);
    }
}

#[derive(Clone, Debug)]
pub struct Inventory {
    pub entries: Vec<(ItemType, u64)>,
}

impl Inventory {
    pub open spec fn wf(self) -> bool {
        entries_wf(self.entries@)
    }

    /// The number of items of kind `t` held.
    pub open spec fn spec_count(self, t: ItemType) -> int {
        count_in_seq(self.entries@, t)
    }

    /// Two inventories hold the same items, entry order aside.
    pub open spec fn same_items(self, other: Inventory) -> bool {
        forall|t: ItemType| #[trigger] self.spec_count(t) == other.spec_count(t)
    }

    pub open spec fn spec_len(self) -> int {
        self.entries@.len() as int
    }

    pub fn new() -> (r: Inventory)
        ensures
            r.wf(),
            forall|t: ItemType| #[trigger] r.spec_count(t) == 0,
            r.spec_len() == 0,
    {
        let r = Inventory { entries: Vec::new() };
        proof {
            assert forall|t: ItemType| #[trigger] r.spec_count(t) == 0 by {
                lemma_count_absent(r.entries@, t);
            }
        }
        r
    }

    /// The index of the entry of kind `t`, scanning in order.
    fn find(&self, t: ItemType) -> (r: Option<usize>)
        ensures
            match r {
                Some(i) => 0 <= i < self.entries@.len() && self.entries@[i as int].0 == t,
                None => forall|i: int|
                    0 <= i < self.entries@.len() ==> (#[trigger] self.entries@[i]).0 != t,
            },
    {
        let mut i: usize = 0;
        while i < self.entries.len()
            invariant
                0 <= i <= self.entries@.len(),
                forall|j: int| 0 <= j < i ==> (#[trigger] self.entries@[j]).0 != t,
            decreases self.entries@.len() - i,
        {
            if self.entries[i].0 == t {
                return Some(i);
            }
            i = i + 1;
        }
        None
    }

    pub fn count_item(&self, t: ItemType) -> (r: u64)
        requires
            self.wf(),
        ensures
            r as int == self.spec_count(t),
    {
        match self.find(t) {
            Some(i) => {
                proof {
                    lemma_count_present(self.entries@, t, i as int);
                }
                self.entries[i].1
            },
            None => {
                proof {
                    lemma_count_absent(self.entries@, t);
                }
                0
            },
        }
    }

    /// Add `count` items of kind `t`.
    pub fn add_items(&mut self, t: ItemType, count: u64)
        requires
            old(self).wf(),
            old(self).spec_count(t) + count <= u64::MAX,
        ensures
            final(self).wf(),
            final(self).spec_count(t) == old(self).spec_count(t) + count,
            forall|t2: ItemType|
                t2 != t ==> #[trigger] final(self).spec_count(t2) == old(self).spec_count(t2),
    {
        if count == 0 {
            return ;
        }
        match self.find(t) {
            Some(i) => {
                proof {
                    lemma_count_present(self.entries@, t, i as int);
                }
                let cur = self.entries[i].1;
                self.entries[i] = (t, cur + count);
                proof {
                    let s = self.entries@;
                    lemma_count_present(s, t, i as int);
                    assert forall|t2: ItemType|
                        t2 != t implies #[trigger] count_in_seq(s, t2) == count_in_seq(
                        old(self).entries@,
                        t2,
                    ) by {
                        lemma_count_update_other(old(self).entries@, i as int, (t, (cur + count) as u64), t2);
                    }
                }
            },
            None => {
                self.entries.push((t, count));
                proof {
                    let s0 = old(self).entries@;
                    assert forall|t2: ItemType| true implies #[trigger] count_in_seq(
                        s0.push((t, count)),
                        t2,
                    ) == count_in_seq(s0, t2) + (if t2 == t {
                        count as int
                    } else {
                        0
                    }) by {
                        lemma_count_push(s0, (t, count), t2);
                    }
                    lemma_count_absent(s0, t);
                }
            },
        }
    }

    pub fn add_item(&mut self, t: ItemType)
        requires
            old(self).wf(),
            old(self).spec_count(t) + 1 <= u64::MAX,
        ensures
            final(self).wf(),
            final(self).spec_count(t) == old(self).spec_count(t) + 1,
            forall|t2: ItemType|
                t2 != t ==> #[trigger] final(self).spec_count(t2) == old(self).spec_count(t2),
    {
        self.add_items(t, 1);
    }

    /// Remove up to `count` items of kind `t`; removes what is there when
    /// fewer are held.
    pub fn remove_items(&mut self, t: ItemType, count: u64)
        requires
            old(self).wf(),
        ensures
            final(self).wf(),
            final(self).spec_count(t) == old(self).spec_count(t) - (if count
                <= old(self).spec_count(t) {
                count as int
            } else {
                old(self).spec_count(t)
            }),
            forall|t2: ItemType|
                t2 != t ==> #[trigger] final(self).spec_count(t2) == old(self).spec_count(t2),
    {
        proof {
            lemma_count_nonneg(self.entries@, t);
        }
        if count == 0 {
            return ;
        }
        match self.find(t) {
            Some(i) => {
                proof {
                    lemma_count_present(self.entries@, t, i as int);
                }
                let cur = self.entries[i].1;
                if count < cur {
                    self.entries[i] = (t, cur - count);
                    proof {
                        lemma_count_present(self.entries@, t, i as int);
                        assert forall|t2: ItemType|
                            t2 != t implies #[trigger] count_in_seq(self.entries@, t2)
                            == count_in_seq(old(self).entries@, t2) by {
                            lemma_count_update_other(
                                old(self).entries@,
                                i as int,
                                (t, (cur - count) as u64),
                                t2,
                            );
                        }
                    }
                } else {
                    self.entries.remove(i);
                    proof {
                        lemma_count_remove(old(self).entries@, i as int, t);
                        assert forall|t2: ItemType|
                            t2 != t implies #[trigger] count_in_seq(self.entries@, t2)
                            == count_in_seq(old(self).entries@, t2) by {
                            lemma_count_remove(old(self).entries@, i as int, t2);
                            lemma_count_present(old(self).entries@, t, i as int);
                        }
                        lemma_count_absent_after_remove(old(self).entries@, i as int, t);
                    }
                }
            },
            None => {
                proof {
                    lemma_count_absent(self.entries@, t);
                }
            },
        }
    }

    /// Take every item of kind `t` out; `None` when none are held.
    pub fn remove(&mut self, t: ItemType) -> (r: Option<u64>)
        requires
            old(self).wf(),
        ensures
            final(self).wf(),
            final(self).spec_count(t) == 0,
            match r {
                Some(n) => n as int == old(self).spec_count(t) && n > 0,
                None => old(self).spec_count(t) == 0,
            },
            forall|t2: ItemType|
                t2 != t ==> #[trigger] final(self).spec_count(t2) == old(self).spec_count(t2),
    {
        match self.find(t) {
            Some(i) => {
                proof {
                    lemma_count_present(self.entries@, t, i as int);
                }
                let (_, n) = self.entries.remove(i);
                proof {
                    assert forall|t2: ItemType|
                        t2 != t implies #[trigger] count_in_seq(self.entries@, t2) == count_in_seq(
                        old(self).entries@,
                        t2,
                    ) by {
                        lemma_count_remove(old(self).entries@, i as int, t2);
                        lemma_count_present(old(self).entries@, t, i as int);
                    }
                    lemma_count_absent_after_remove(old(self).entries@, i as int, t);
                }
                Some(n)
            },
            None => {
                proof {
                    lemma_count_absent(self.entries@, t);
                }
                None
            },
        }
    }

    /// Add `count` items of kind `t`, capping at the largest count a
    /// slot can hold.
    pub fn add_items_capped(&mut self, t: ItemType, count: u64)
        requires
            old(self).wf(),
        ensures
            final(self).wf(),
            final(self).spec_count(t) == cap_add(old(self).spec_count(t), count as int),
            forall|t2: ItemType|
                t2 != t ==> #[trigger] final(self).spec_count(t2) == old(self).spec_count(t2),
    {
        proof {
            lemma_count_nonneg(self.entries@, t);
        }
        let have = self.count_item(t);
        let room = u64::MAX - have;
        if count <= room {
            self.add_items(t, count);
        } else {
            self.add_items(t, room);
        }
    }

    /// Pour every item of `other` in, capping each kind at the largest
    /// count a slot can hold.
    pub fn merge(&mut self, other: &Inventory)
        requires
            old(self).wf(),
            other.wf(),
        ensures
            final(self).wf(),
            forall|t: ItemType|
                #[trigger] final(self).spec_count(t) == cap_add(
                    old(self).spec_count(t),
                    other.spec_count(t),
                ),
    {
        let n = other.entries.len();
        let mut i: usize = 0;
        while i < n
            invariant
                old(self).wf(),
                other.wf(),
                self.wf(),
                n == other.entries@.len(),
                0 <= i <= n,
                forall|t: ItemType|
                    #[trigger] self.spec_count(t) == (if exists|j: int|
                        0 <= j < i && (#[trigger] other.entries@[j]).0 == t {
                        cap_add(old(self).spec_count(t), other.spec_count(t))
                    } else {
                        old(self).spec_count(t)
                    }),
            decreases n - i,
        {
            let (t, c) = other.entries[i];
            proof {
                lemma_count_present(other.entries@, t, i as int);
                assert(forall|j: int| 0 <= j < i ==> (#[trigger] other.entries@[j]).0 != t);
            }
            self.add_items_capped(t, c);
            proof {
                assert forall|t2: ItemType| true implies #[trigger] self.spec_count(t2) == (
                if exists|j: int| 0 <= j < i + 1 && (#[trigger] other.entries@[j]).0 == t2 {
                    cap_add(old(self).spec_count(t2), other.spec_count(t2))
                } else {
                    old(self).spec_count(t2)
                }) by {
                    if t2 == t {
                        assert(other.entries@[i as int].0 == t2);
                    } else {
                        if exists|j: int| 0 <= j < i + 1 && (#[trigger] other.entries@[j]).0 == t2 {
                            let j = choose|j: int|
                                0 <= j < i + 1 && (#[trigger] other.entries@[j]).0 == t2;
                            assert(j < i);
                        }
                    }
                }
            }
            i = i + 1;
        }
        proof {
            assert forall|t: ItemType| true implies #[trigger] self.spec_count(t) == cap_add(
                old(self).spec_count(t),
                other.spec_count(t),
            ) by {
                if exists|j: int| 0 <= j < n && (#[trigger] other.entries@[j]).0 == t {
                } else {
                    lemma_count_absent(other.entries@, t);
                    lemma_count_bounded(old(self).entries@, t);
                }
            }
        }
    }

    /// The entry list, for display layers.
    pub fn entries(&self) -> (r: &Vec<(ItemType, u64)>)
        ensures
            r@ == self.entries@,
    {
        &self.entries
    }
}

/// Updating the entry at `i` leaves the counts of all other kinds alone,
/// provided the kind at `i` does not change.
proof fn lemma_count_update_other(s: Seq<(ItemType, u64)>, i: int, e: (ItemType, u64), t2: ItemType)
    requires
        0 <= i < s.len(),
        s[i].0 == e.0,
        t2 != e.0,
    ensures
        count_in_seq(s.update(i, e), t2) == count_in_seq(s, t2),
    decreases s.len(),
{
    if i == 0 {
        assert(s.update(0, e).drop_first() =~= s.drop_first());
    } else {
        assert(s.update(i, e).drop_first() =~= s.drop_first().update(i - 1, e));
        lemma_count_update_other(s.drop_first(), i - 1, e, t2);
    }
}

/// Removing the entry at `i` subtracts exactly that entry's contribution.
proof fn lemma_count_remove(s: Seq<(ItemType, u64)>, i: int, t: ItemType)
    requires
        0 <= i < s.len(),
    ensures
        count_in_seq(s.remove(i), t) == count_in_seq(s, t) - (if s[i].0 == t {
            s[i].1 as int
        } else {
            0
        }),
    decreases s.len(),
{
    if i == 0 {
        assert(s.remove(0) =~= s.drop_first());
    } else {
        assert(s.remove(i).drop_first() =~= s.drop_first().remove(i - 1));
        lemma_count_remove(s.drop_first(), i - 1, t);
    }
}

/// After removing the only entry of kind `t` from a well-formed list, the
/// count of `t` is zero.
proof fn lemma_count_absent_after_remove(s: Seq<(ItemType, u64)>, i: int, t: ItemType)
    requires
        entries_wf(s),
        0 <= i < s.len(),
        s[i].0 == t,
    ensures
        count_in_seq(s.remove(i), t) == 0,
{
    lemma_count_remove(s, i, t);
    lemma_count_present(s, t, i);
}

} // verus!
