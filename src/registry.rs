//! The live-connection registry: which participants are reachable in which
//! rooms, each through one connection handle.
use vstd::prelude::*;

use crate::grid::Uid;

verus! {

/// One live connection: a participant reachable in a room through `handle`.
pub struct Connection<H> {
    pub room: String,
    pub participant: String,
    pub handle: H,
}

/// A registry of live connections, at most one per (room, participant).
///
/// Its view maps each room that has at least one connection to the handles of
/// its participants: a room whose last participant leaves is no longer a key.
pub struct Registry<H> {
    entries: Vec<Connection<H>>,
    model: Ghost<Map<Uid, Map<Uid, H>>>,
}

/// The participants of room `r` in `m`, none if the room is absent.
pub open spec fn members_of<H>(m: Map<Uid, Map<Uid, H>>, r: Uid) -> Map<Uid, H> {
    if m.contains_key(r) {
        m[r]
    } else {
        Map::empty()
    }
}

/// The registry after `register(r, p, h)`: the handle of `p` in `r` is `h`,
/// replacing any earlier one.
pub open spec fn registered<H>(m: Map<Uid, Map<Uid, H>>, r: Uid, p: Uid, h: H) -> Map<
    Uid,
    Map<Uid, H>,
> {
    m.insert(r, members_of(m, r).insert(p, h))
}

/// The registry after `unregister(r, p)`: `p` leaves `r`, and `r` itself goes
/// when nobody is left in it.
pub open spec fn unregistered<H>(m: Map<Uid, Map<Uid, H>>, r: Uid, p: Uid) -> Map<
    Uid,
    Map<Uid, H>,
> {
    if !m.contains_key(r) {
        m
    } else if m[r].remove(p) == Map::<Uid, H>::empty() {
        m.remove(r)
    } else {
        m.insert(r, m[r].remove(p))
    }
}

impl<H> View for Registry<H> {
    type V = Map<Uid, Map<Uid, H>>;

    closed spec fn view(&self) -> Map<Uid, Map<Uid, H>> {
        self.model@
    }
}

/// The (room, participant) pair a connection is recorded under.
pub open spec fn key_of<H>(c: Connection<H>) -> (Uid, Uid) {
    (c.room@, c.participant@)
}

/// `entries` are unique per key and are exactly what `m` holds.
spec fn holds<H>(entries: Seq<Connection<H>>, m: Map<Uid, Map<Uid, H>>) -> bool {
    &&& forall|i: int, j: int|
        0 <= i < j < entries.len() ==> key_of(entries[i]) != key_of(entries[j])
    &&& forall|i: int|
        0 <= i < entries.len() ==> {
            let (r, p) = #[trigger] key_of(entries[i]);
            &&& m.contains_key(r)
            &&& m[r].contains_key(p)
            &&& m[r][p] == entries[i].handle
        }
    &&& forall|r: Uid, p: Uid|
        #![trigger m[r].contains_key(p)]
        m.contains_key(r) && m[r].contains_key(p) ==> exists|i: int|
            0 <= i < entries.len() && key_of(entries[i]) == (r, p)
    &&& forall|r: Uid| #[trigger] m.contains_key(r) ==> exists|p: Uid| m[r].contains_key(p)
}

proof fn lemma_register_replace<H>(
    old_e: Seq<Connection<H>>,
    m: Map<Uid, Map<Uid, H>>,
    i: int,
    e: Connection<H>,
)
    requires
        holds(old_e, m),
        0 <= i < old_e.len(),
        key_of(old_e[i]) == key_of(e),
    ensures
        holds(old_e.update(i, e), registered(m, e.room@, e.participant@, e.handle)),
{
    let ne = old_e.update(i, e);
    let m2 = registered(m, e.room@, e.participant@, e.handle);
    assert forall|k: int| 0 <= k < ne.len() implies {
        let (r, p) = #[trigger] key_of(ne[k]);
        &&& m2.contains_key(r)
        &&& m2[r].contains_key(p)
        &&& m2[r][p] == ne[k].handle
    } by {
        if k != i {
            assert(key_of(old_e[k]) != key_of(old_e[i]));
            let (r, p) = key_of(old_e[k]);
            assert(m.contains_key(r) && m[r].contains_key(p));
        }
    }
    assert forall|r: Uid, p: Uid| m2.contains_key(r) && #[trigger] m2[r].contains_key(p) implies exists|
        j: int,
    | 0 <= j < ne.len() && key_of(ne[j]) == (r, p) by {
        if (r, p) == key_of(e) {
            assert(key_of(ne[i]) == (r, p));
        } else {
            assert(m.contains_key(r) && m[r].contains_key(p));
            let j = choose|j: int| 0 <= j < old_e.len() && key_of(old_e[j]) == (r, p);
            assert(key_of(ne[j]) == (r, p));
        }
    }
    assert forall|r: Uid| #[trigger] m2.contains_key(r) implies exists|p: Uid| m2[r].contains_key(p) by {
        if r == e.room@ {
            assert(m2[r].contains_key(e.participant@));
        } else {
            let p = choose|p: Uid| m[r].contains_key(p);
            assert(m2[r].contains_key(p));
        }
    }
}

proof fn lemma_register_add<H>(old_e: Seq<Connection<H>>, m: Map<Uid, Map<Uid, H>>, e: Connection<H>)
    requires
        holds(old_e, m),
        forall|k: int| 0 <= k < old_e.len() ==> key_of(old_e[k]) != key_of(e),
    ensures
        holds(old_e.push(e), registered(m, e.room@, e.participant@, e.handle)),
{
    let ne = old_e.push(e);
    let m2 = registered(m, e.room@, e.participant@, e.handle);
    assert forall|k: int| 0 <= k < ne.len() implies {
        let (r, p) = #[trigger] key_of(ne[k]);
        &&& m2.contains_key(r)
        &&& m2[r].contains_key(p)
        &&& m2[r][p] == ne[k].handle
    } by {
        if k < old_e.len() {
            assert(key_of(old_e[k]) != key_of(e));
            let (r, p) = key_of(old_e[k]);
            assert(m.contains_key(r) && m[r].contains_key(p));
        }
    }
    assert forall|r: Uid, p: Uid| m2.contains_key(r) && #[trigger] m2[r].contains_key(p) implies exists|
        j: int,
    | 0 <= j < ne.len() && key_of(ne[j]) == (r, p) by {
        if (r, p) == key_of(e) {
            assert(key_of(ne[old_e.len() as int]) == (r, p));
        } else {
            assert(m.contains_key(r) && m[r].contains_key(p));
            let j = choose|j: int| 0 <= j < old_e.len() && key_of(old_e[j]) == (r, p);
            assert(key_of(ne[j]) == (r, p));
        }
    }
    assert forall|r: Uid| #[trigger] m2.contains_key(r) implies exists|p: Uid| m2[r].contains_key(p) by {
        if r == e.room@ {
            assert(m2[r].contains_key(e.participant@));
        } else {
            let p = choose|p: Uid| m[r].contains_key(p);
            assert(m2[r].contains_key(p));
        }
    }
}

proof fn lemma_unregister_remove<H>(old_e: Seq<Connection<H>>, m: Map<Uid, Map<Uid, H>>, i: int)
    requires
        holds(old_e, m),
        0 <= i < old_e.len(),
    ensures
        holds(old_e.remove(i), unregistered(m, old_e[i].room@, old_e[i].participant@)),
{
    let ne = old_e.remove(i);
    let (r0, p0) = key_of(old_e[i]);
    let m2 = unregistered(m, r0, p0);
    assert forall|a: int, b: int| 0 <= a < b < ne.len() implies key_of(ne[a]) != key_of(ne[b]) by {
        let a1 = if a < i { a } else { a + 1 };
        let b1 = if b < i { b } else { b + 1 };
        assert(ne[a] == old_e[a1] && ne[b] == old_e[b1]);
    }
    assert forall|k: int| 0 <= k < ne.len() implies {
        let (r, p) = #[trigger] key_of(ne[k]);
        &&& m2.contains_key(r)
        &&& m2[r].contains_key(p)
        &&& m2[r][p] == ne[k].handle
    } by {
        let k1 = if k < i { k } else { k + 1 };
        assert(ne[k] == old_e[k1]);
        assert(key_of(old_e[k1]) != key_of(old_e[i]));
        let (r, p) = key_of(old_e[k1]);
        assert(m.contains_key(r) && m[r].contains_key(p));
        if r == r0 {
            assert(m[r0].remove(p0).contains_key(p));
        }
    }
    assert forall|r: Uid, p: Uid| m2.contains_key(r) && #[trigger] m2[r].contains_key(p) implies exists|
        j: int,
    | 0 <= j < ne.len() && key_of(ne[j]) == (r, p) by {
        assert(m.contains_key(r) && m[r].contains_key(p));
        assert((r, p) != (r0, p0));
        let j = choose|j: int| 0 <= j < old_e.len() && key_of(old_e[j]) == (r, p);
        assert(j != i);
        let k = if j < i { j } else { j - 1 };
        assert(ne[k] == old_e[j]);
    }
    assert forall|r: Uid| #[trigger] m2.contains_key(r) implies exists|p: Uid| m2[r].contains_key(p) by {
        if r == r0 {
            assert(m[r0].remove(p0) != Map::<Uid, H>::empty());
            if !(exists|p: Uid| m[r0].remove(p0).contains_key(p)) {
                assert(m[r0].remove(p0) =~= Map::<Uid, H>::empty());
            }
            assert(m2[r] == m[r0].remove(p0));
        } else {
            let p = choose|p: Uid| m[r].contains_key(p);
            assert(m2[r].contains_key(p));
        }
    }
}

impl<H> Registry<H> {

    /// The connections are unique per (room, participant) and are exactly
    /// what the view holds.
    pub closed spec fn wf(&self) -> bool {
        holds(self.entries@, self.model@)
    }

    /// An empty registry.
    pub fn new() -> (r: Self)
        ensures
            r.wf(),
            r@ == Map::<Uid, Map<Uid, H>>::empty(),
    {
        Registry { entries: Vec::new(), model: Ghost(Map::empty()) }
    }

    /// The position of the connection of `participant` in `room`, if any.
    fn find(&self, room: &String, participant: &String) -> (r: Option<usize>)
        requires
            self.wf(),
        ensures
            r matches Some(i) ==> i < self.entries@.len() && key_of(self.entries@[i as int]) == (
                room@,
                participant@,
            ),
            r is None ==> forall|i: int|
                0 <= i < self.entries@.len() ==> key_of(self.entries@[i]) != (room@, participant@),
    {
        let mut i: usize = 0;
        while i < self.entries.len()
            invariant
                i <= self.entries@.len(),
                forall|j: int| 0 <= j < i ==> key_of(self.entries@[j]) != (room@, participant@),
            decreases self.entries.len() - i,
        {
            let e = &self.entries[i];
            if e.room == *room && e.participant == *participant {
                return Some(i);
            }
            i = i + 1;
        }
        None
    }

    /// Records `handle` as the live connection of `participant` in `room`,
    /// replacing the one it had there.
    pub fn register(&mut self, room: &str, participant: &str, handle: H)
        requires
            old(self).wf(),
        ensures
            final(self).wf(),
            final(self)@ == registered(old(self)@, room@, participant@, handle),
    {
        let room = room.to_owned();
        let participant = participant.to_owned();
        let found = self.find(&room, &participant);
        let ghost old_e = self.entries@;
        let ghost m = self.model@;
        let c = Connection { room, participant, handle };
        match found {
            Some(i) => {
                proof {
                    lemma_register_replace(old_e, m, i as int, c);
                }
                self.entries.set(i, c);
            },
            None => {
                proof {
                    lemma_register_add(old_e, m, c);
                }
                self.entries.push(c);
            },
        }
        self.model = Ghost(registered(m, room@, participant@, handle));
    }

    /// Forgets the connection of `participant` in `room`; the room goes with
    /// its last participant. Nothing changes if there was no such connection.
    pub fn unregister(&mut self, room: &str, participant: &str)
        requires
            old(self).wf(),
        ensures
            final(self).wf(),
            final(self)@ == unregistered(old(self)@, room@, participant@),
    {
        let room = room.to_owned();
        let participant = participant.to_owned();
        let found = self.find(&room, &participant);
        let ghost old_e = self.entries@;
        let ghost m = self.model@;
        match found {
            Some(i) => {
                proof {
                    lemma_unregister_remove(old_e, m, i as int);
                }
                self.entries.remove(i);
                self.model = Ghost(unregistered(m, room@, participant@));
            },
            None => {
                assert(unregistered(m, room@, participant@) == m) by {
                    if m.contains_key(room@) {
                        assert(!m[room@].contains_key(participant@));
                        assert(m[room@].remove(participant@) =~= m[room@]);
                        assert(m.insert(room@, m[room@]) =~= m);
                        if m[room@] == Map::<Uid, H>::empty() {
                            let p = choose|p: Uid| m[room@].contains_key(p);
                        }
                    }
                }
            },
        }
    }

    /// Whether anybody is connected in `room`.
    pub fn contains_room(&self, room: &str) -> (r: bool)
        requires
            self.wf(),
        ensures
            r == self@.contains_key(room@),
    {
        let wanted = room.to_owned();
        let mut i: usize = 0;
        while i < self.entries.len()
            invariant
                self.wf(),
                wanted@ == room@,
                i <= self.entries@.len(),
                forall|j: int| 0 <= j < i ==> self.entries@[j].room@ != room@,
            decreases self.entries.len() - i,
        {
            if self.entries[i].room == wanted {
                proof {
                    let k = key_of(self.entries@[i as int]);
                    assert(self.model@.contains_key(k.0));
                }
                return true;
            }
            i = i + 1;
        }
        proof {
            if self@.contains_key(room@) {
                let p = choose|p: Uid| self.model@[room@].contains_key(p);
                assert(self.model@[room@].contains_key(p));
            }
        }
        false
    }
}

impl<H: Clone> Registry<H> {
    /// The participants connected in `room`, each with a clone of its handle,
    /// for a fan-out made after the registry is released. Empty for a room
    /// that nobody is connected to.
    pub fn snapshot(&self, room: &str) -> (r: Vec<(String, H)>)
        requires
            self.wf(),
        ensures
            forall|k: int|
                #![trigger r@[k]]
                0 <= k < r@.len() ==> {
                    &&& members_of(self@, room@).contains_key(r@[k].0@)
                    &&& cloned(members_of(self@, room@)[r@[k].0@], r@[k].1)
                },
            forall|p: Uid|
                #[trigger] members_of(self@, room@).contains_key(p) ==> exists|k: int|
                    0 <= k < r@.len() && r@[k].0@ == p,
            forall|a: int, b: int| 0 <= a < b < r@.len() ==> r@[a].0@ != r@[b].0@,
    {
        let wanted = room.to_owned();
        let ghost m = self.model@;
        let ghost es = self.entries@;
        let mut out: Vec<(String, H)> = Vec::new();
        let ghost mut idx: Seq<int> = Seq::empty();
        let mut i: usize = 0;
        while i < self.entries.len()
            invariant
                self.wf(),
                wanted@ == room@,
                m == self.model@,
                es == self.entries@,
                i <= es.len(),
                idx.len() == out@.len(),
                forall|k: int|
                    0 <= k < idx.len() ==> {
                        &&& 0 <= #[trigger] idx[k] < i
                        &&& key_of(es[idx[k]]) == (room@, out@[k].0@)
                        &&& cloned(es[idx[k]].handle, out@[k].1)
                    },
                forall|a: int, b: int| 0 <= a < b < idx.len() ==> idx[a] < idx[b],
                forall|j: int|
                    0 <= j < i && es[j].room@ == room@ ==> exists|k: int|
                        0 <= k < idx.len() && #[trigger] idx[k] == j,
            decreases es.len() - i,
        {
            let e = &self.entries[i];
            if e.room == wanted {
                let h = e.handle.clone();
                out.push((e.participant.clone(), h));
                proof {
                    let old_idx = idx;
                    idx = idx.push(i as int);
                    assert(idx[idx.len() - 1] == i);
                    assert forall|j: int|
                        0 <= j < i && es[j].room@ == room@ implies exists|k: int|
                            0 <= k < idx.len() && #[trigger] idx[k] == j by {
                        let k = choose|k: int| 0 <= k < old_idx.len() && #[trigger] old_idx[k] == j;
                        assert(idx[k] == j);
                    }
                }
            }
            i = i + 1;
        }
        assert forall|k: int|
            #![trigger out@[k]]
            0 <= k < out@.len() implies {
            &&& members_of(m, room@).contains_key(out@[k].0@)
            &&& cloned(members_of(m, room@)[out@[k].0@], out@[k].1)
        } by {
            let j = idx[k];
            assert(key_of(es[j]) == (room@, out@[k].0@));
        }
        assert forall|p: Uid| #[trigger] members_of(m, room@).contains_key(p) implies exists|k: int|
            0 <= k < out@.len() && out@[k].0@ == p by {
            assert(m.contains_key(room@) && m[room@].contains_key(p));
            let j = choose|j: int| 0 <= j < es.len() && key_of(es[j]) == (room@, p);
            let k = choose|k: int| 0 <= k < idx.len() && #[trigger] idx[k] == j;
            assert(out@[k].0@ == p);
        }
        assert forall|a: int, b: int| 0 <= a < b < out@.len() implies out@[a].0@ != out@[b].0@ by {
            assert(idx[a] < idx[b]);
            assert(key_of(es[idx[a]]) != key_of(es[idx[b]]));
        }
        out
    }
}

/// After `register(r, p, h)` and then `unregister(r, p)`, `p` is no longer
/// connected in `r`; and if `p` was the only one there, `r` is gone entirely.
pub proof fn lemma_register_then_unregister<H>(m: Map<Uid, Map<Uid, H>>, r: Uid, p: Uid, h: H)
    ensures
        !members_of(unregistered(registered(m, r, p, h), r, p), r).contains_key(p),
        members_of(m, r).remove(p) == Map::<Uid, H>::empty() ==> !unregistered(
            registered(m, r, p, h),
            r,
            p,
        ).contains_key(r),
{
    let m1 = registered(m, r, p, h);
    assert(m1[r].remove(p) =~= members_of(m, r).remove(p));
}

} // verus!
