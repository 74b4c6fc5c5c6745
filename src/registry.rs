use vstd::prelude::*;
use crate::connection::{desired_interest, Connection, Interest};

verus! {

/// The identifier bound to the listening socket for good; no connection gets it.
pub const LISTENER: usize = 0;

/// What became of a frame handed to `Registry::deliver`.
#[derive(PartialEq, Eq, Structural, Clone, Copy, Debug)]
pub enum Delivery {
    /// No live connection has that identifier; the frame is dropped.
    Dropped,
    /// Queued on a connection that was already registered for writing.
    Queued,
    /// Queued; the connection must now be reregistered with this interest.
    Reregister(Interest),
}

/// Live connections by slot identifier. Identifier `i` names position `i - 1`
/// of the table; slots freed by a teardown wait on a free list and are handed
/// out again before the table grows.
pub struct Registry<S> {
    slots: Vec<Option<Connection<S>>>,
    free: Vec<usize>,
}

impl<S> Registry<S> {
    pub closed spec fn spec_slots(&self) -> Seq<Option<Connection<S>>> {
        self.slots@
    }

    pub closed spec fn spec_free(&self) -> Seq<usize> {
        self.free@
    }

    /// `id` names a slot that holds a connection.
    pub open spec fn live(&self, id: usize) -> bool {
        1 <= id <= self.spec_slots().len() && self.spec_slots()[id - 1] is Some
    }

    /// The free list names each empty slot once, and nothing else.
    pub open spec fn wf(&self) -> bool {
        &&& self.spec_slots().len() < usize::MAX
        &&& self.spec_free().no_duplicates()
        &&& forall|i: int|
            0 <= i < self.spec_free().len() ==> {
                &&& 1 <= #[trigger] self.spec_free()[i] <= self.spec_slots().len()
                &&& self.spec_slots()[self.spec_free()[i] - 1] is None
            }
        &&& forall|k: int|
            0 <= k < self.spec_slots().len() && (#[trigger] self.spec_slots()[k]) is None
                ==> self.spec_free().contains((k + 1) as usize)
    }

    /// The identifier that the next insertion hands out.
    pub open spec fn next_id(&self) -> usize {
        if self.spec_free().len() > 0 {
            self.spec_free().last()
        } else {
            (self.spec_slots().len() + 1) as usize
        }
    }

    /// `after` is `before` with `conn` inserted under `id`.
    pub open spec fn inserted(before: Self, conn: Connection<S>, after: Self, id: usize) -> bool {
        &&& id == before.next_id()
        &&& if before.spec_free().len() > 0 {
            &&& after.spec_slots() == before.spec_slots().update(id - 1, Some(conn))
            &&& after.spec_free() == before.spec_free().drop_last()
        } else {
            &&& after.spec_slots() == before.spec_slots().push(Some(conn))
            &&& after.spec_free() == before.spec_free()
        }
    }

    /// `after` is `before` with the connection under `id` taken out.
    pub open spec fn removed(before: Self, id: usize, after: Self) -> bool {
        &&& after.spec_slots() == before.spec_slots().update(id - 1, None)
        &&& after.spec_free() == before.spec_free().push(id)
    }

    /// An empty registry.
    pub fn new() -> (r: Self)
        ensures
            r.wf(),
            r.spec_slots() == Seq::<Option<Connection<S>>>::empty(),
            r.spec_free() == Seq::<usize>::empty(),
    {
        Registry { slots: Vec::new(), free: Vec::new() }
    }

    /// Number of slots in the table, live or free.
    pub fn slot_count(&self) -> (r: usize)
        ensures
            r == self.spec_slots().len(),
    {
        self.slots.len()
    }

    /// An insertion can be made without the identifiers running out.
    pub fn has_room(&self) -> (r: bool)
        ensures
            r == (self.spec_free().len() > 0 || self.spec_slots().len() + 1 < usize::MAX),
    {
        self.free.len() > 0 || self.slots.len() < usize::MAX - 1
    }

    /// Whether `id` names a live connection.
    pub fn is_live(&self, id: usize) -> (r: bool)
        ensures
            r == self.live(id),
    {
        id >= 1 && id <= self.slots.len() && self.slots[id - 1].is_some()
    }

    /// Stores `conn` under a freed identifier, the one freed last, or else
    /// under a new one at the end of the table.
    pub fn insert(&mut self, conn: Connection<S>) -> (id: usize)
        requires
            old(self).wf(),
            old(self).spec_free().len() > 0 || old(self).spec_slots().len() + 1 < usize::MAX,
        ensures
            final(self).wf(),
            id != LISTENER,
            final(self).live(id),
            Self::inserted(*old(self), conn, *final(self), id),
    {
        if let Some(id) = self.free.pop() {
            proof {
                assert(old(self).spec_free()[old(self).spec_free().len() - 1] == id);
            }
            self.slots.set(id - 1, Some(conn));
            proof {
                let f = self.spec_free();
                let of = old(self).spec_free();
                assert forall|i: int| 0 <= i < f.len() implies f[i] != id by {
                    assert(f[i] == of[i]);
                    assert(of[of.len() - 1] == id);
                }
                assert forall|k: int|
                    0 <= k < self.spec_slots().len() && (#[trigger] self.spec_slots()[k]) is None
                        implies f.contains((k + 1) as usize) by {
                    assert(old(self).spec_slots()[k] is None);
                    assert(of.contains((k + 1) as usize));
                    let j = choose|j: int| 0 <= j < of.len() && of[j] == (k + 1) as usize;
                    assert(j != of.len() - 1);
                    assert(f[j] == of[j]);
                }
            }
            id
        } else {
            self.slots.push(Some(conn));
            proof {
                let s = self.spec_slots();
                assert forall|k: int|
                    0 <= k < s.len() && (#[trigger] s[k]) is None
                        implies self.spec_free().contains((k + 1) as usize) by {
                    assert(old(self).spec_slots()[k] is None);
                }
            }
            self.slots.len()
        }
    }

    /// Takes the connection under `id` out and puts `id` on the free list.
    pub fn remove(&mut self, id: usize) -> (r: Connection<S>)
        requires
            old(self).wf(),
            old(self).live(id),
        ensures
            final(self).wf(),
            Some(r) == old(self).spec_slots()[id - 1],
            Self::removed(*old(self), id, *final(self)),
    {
        let taken = self.slots[id - 1].take();
        self.free.push(id);
        proof {
            let s = self.spec_slots();
            let f = self.spec_free();
            let of = old(self).spec_free();
            assert(!of.contains(id));
            assert forall|i: int| 0 <= i < f.len() implies {
                &&& 1 <= #[trigger] f[i] <= s.len()
                &&& s[f[i] - 1] is None
            } by {
                if i < of.len() {
                    assert(f[i] == of[i]);
                }
            }
            assert forall|k: int| 0 <= k < s.len() && (#[trigger] s[k]) is None implies f.contains(
                (k + 1) as usize,
            ) by {
                if k == id - 1 {
                    assert(f[f.len() - 1] == id);
                } else {
                    assert(old(self).spec_slots()[k] is None);
                    let j = choose|j: int| 0 <= j < of.len() && of[j] == (k + 1) as usize;
                    assert(f[j] == of[j]);
                }
            }
        }
        match taken {
            Some(c) => c,
            None => unreached(),
        }
    }

    /// The connection under `id`.
    pub fn get(&self, id: usize) -> (r: &Connection<S>)
        requires
            self.live(id),
        ensures
            Some(*r) == self.spec_slots()[id - 1],
    {
        match &self.slots[id - 1] {
            Some(c) => c,
            None => unreached(),
        }
    }

    /// The connection under `id`, to work on in place.
    pub fn get_mut(&mut self, id: usize) -> (r: &mut Connection<S>)
        requires
            old(self).wf(),
            old(self).live(id),
        ensures
            final(self).wf(),
            Some(*r) == old(self).spec_slots()[id - 1],
            final(self).spec_slots() == old(self).spec_slots().update(id - 1, Some(*final(r))),
            final(self).spec_free() == old(self).spec_free(),
    {
        match &mut self.slots[id - 1] {
            Some(c) => c,
            None => unreached(),
        }
    }

    /// Queues `frame` on the outbound buffer of the connection under `target`
    /// and brings its interest in line (reading and writing, once anything is
    /// pending); a frame for an identifier that is not
    /// live is dropped.
    pub fn deliver(&mut self, target: usize, frame: &Vec<u8>) -> (r: Delivery)
        requires
            old(self).wf(),
        ensures
            final(self).wf(),
            final(self).spec_free() == old(self).spec_free(),
            !old(self).live(target) ==> r == Delivery::Dropped && *final(self) == *old(self),
            old(self).live(target) ==> {
                let c = old(self).spec_slots()[target - 1]->Some_0;
                let d = final(self).spec_slots()[target - 1]->Some_0;
                &&& final(self).spec_slots().len() == old(self).spec_slots().len()
                &&& forall|k: int|
                    0 <= k < old(self).spec_slots().len() && k != target - 1
                        ==> #[trigger] final(self).spec_slots()[k] == old(self).spec_slots()[k]
                &&& final(self).spec_slots()[target - 1] is Some
                &&& d.spec_socket() == c.spec_socket()
                &&& d.spec_inbound() == c.spec_inbound()
                &&& d.spec_outbound() == c.spec_outbound() + frame@
                &&& d.spec_interest() == desired_interest(c.spec_outbound() + frame@)
                &&& r == if c.spec_interest() == desired_interest(c.spec_outbound() + frame@) {
                    Delivery::Queued
                } else {
                    Delivery::Reregister(desired_interest(c.spec_outbound() + frame@))
                }
            },
    {
        if !self.is_live(target) {
            return Delivery::Dropped;
        }
        let conn = self.get_mut(target);
        conn.push_message(frame);
        let change = conn.sync_interest();
        match change {
            Some(i) => Delivery::Reregister(i),
            None => Delivery::Queued,
        }
    }
}

/// Slot reuse: inserting, removing and inserting again hands out the freed
/// identifier again, and the table does not grow.
pub proof fn lemma_slot_reuse<S>(
    r0: Registry<S>,
    c1: Connection<S>,
    r1: Registry<S>,
    id1: usize,
    r2: Registry<S>,
    c2: Connection<S>,
    r3: Registry<S>,
    id2: usize,
)
    requires
        r0.wf(),
        Registry::inserted(r0, c1, r1, id1),
        Registry::removed(r1, id1, r2),
        Registry::inserted(r2, c2, r3, id2),
    ensures
        id2 == id1,
        r3.spec_slots().len() == r1.spec_slots().len(),
        r3.spec_free() == r1.spec_free(),
{
    assert(r2.spec_free().len() > 0);
    assert(r3.spec_free() =~= r1.spec_free());
}

} // verus!
