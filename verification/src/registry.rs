//! The room registry: the one shared, mutable mapping from room id to
//! room log. Room ids are fixed at startup; a lookup for an unknown id is
//! an error, never an implicit creation. All access is serialized by the
//! caller (one lock around the whole registry).

use vstd::prelude::*;
use crate::room::{read_from_spec, render_from, Room};
use crate::text::str_eq;

verus! {

/// Why a room operation failed: the room id is not provisioned.
#[derive(Debug, Clone, Copy, PartialEq, Eq, Structural)]
pub enum RoomError {
    NotFound,
}

/// Whether the registry view holds a room with this id.
pub open spec fn reg_has(rv: Seq<(Seq<char>, Seq<(Seq<char>, Seq<char>)>)>, id: Seq<char>) -> bool {
    exists|i: int| 0 <= i < rv.len() && rv[i].0 == id
}

/// The index of the room with this id (meaningful under `reg_wf`).
pub open spec fn reg_idx(rv: Seq<(Seq<char>, Seq<(Seq<char>, Seq<char>)>)>, id: Seq<char>) -> int {
    choose|i: int| 0 <= i < rv.len() && rv[i].0 == id
}

/// The log of the room with this id.
pub open spec fn reg_log(rv: Seq<(Seq<char>, Seq<(Seq<char>, Seq<char>)>)>, id: Seq<char>) -> Seq<
    (Seq<char>, Seq<char>),
> {
    rv[reg_idx(rv, id)].1
}

/// Room ids are pairwise distinct.
pub open spec fn reg_wf(rv: Seq<(Seq<char>, Seq<(Seq<char>, Seq<char>)>)>) -> bool {
    forall|i: int, j: int| 0 <= i < j < rv.len() ==> rv[i].0 != rv[j].0
}

/// Under `reg_wf`, the id at any index resolves back to that index.
pub proof fn lemma_reg_idx(rv: Seq<(Seq<char>, Seq<(Seq<char>, Seq<char>)>)>, i: int)
    requires
        reg_wf(rv),
        0 <= i < rv.len(),
    ensures
        reg_has(rv, rv[i].0),
        reg_idx(rv, rv[i].0) == i,
{
    assert(reg_has(rv, rv[i].0));
    let j = reg_idx(rv, rv[i].0);
    if j != i {
        if i < j {
            assert(rv[i].0 != rv[j].0);
        } else {
            assert(rv[j].0 != rv[i].0);
        }
    }
}

/// The registry: a fixed set of rooms, each with its own log.
pub struct Registry {
    ids: Vec<String>,
    rooms: Vec<Room>,
}

impl View for Registry {
    type V = Seq<(Seq<char>, Seq<(Seq<char>, Seq<char>)>)>;

    closed spec fn view(&self) -> Seq<(Seq<char>, Seq<(Seq<char>, Seq<char>)>)> {
        Seq::new(self.ids@.len(), |i: int| (self.ids@[i]@, self.rooms@[i]@))
    }
}

impl Registry {
    /// The registry is well formed: one room per id, ids distinct.
    pub closed spec fn wf(&self) -> bool {
        self.ids@.len() == self.rooms@.len() && reg_wf(self@)
    }

    /// Provisions one empty room per id; a repeated id keeps the room
    /// made for its first occurrence.
    pub fn new(ids: Vec<String>) -> (r: Registry)
        ensures
            r.wf(),
            forall|i: int| 0 <= i < ids@.len() ==> reg_has(r@, ids@[i]@),
            forall|id: Seq<char>|
                reg_has(r@, id) ==> exists|i: int| 0 <= i < ids@.len() && ids@[i]@ == id,
            forall|id: Seq<char>| reg_has(r@, id) ==> reg_log(r@, id).len() == 0,
    {
        let mut r = Registry { ids: Vec::new(), rooms: Vec::new() };
        let n = ids.len();
        let mut k: usize = 0;
        while k < n
            invariant
                n == ids@.len(),
                k <= n,
                r.wf(),
                forall|i: int| 0 <= i < k ==> reg_has(r@, ids@[i]@),
                forall|id: Seq<char>|
                    reg_has(r@, id) ==> exists|i: int| 0 <= i < k && ids@[i]@ == id,
                forall|id: Seq<char>| reg_has(r@, id) ==> reg_log(r@, id).len() == 0,
            decreases n - k,
        {
            let ghost rpre = r@;
            let id = ids[k].clone();
            let present = r.has_room(id.as_str());
            if !present {
                r.ids.push(id);
                r.rooms.push(Room::new());
                proof {
                    assert(r@ =~= rpre.push((ids@[k as int]@, Seq::empty())));
                    assert forall|id2: Seq<char>| reg_has(rpre, id2) implies reg_has(
                        r@,
                        id2,
                    ) by {
                        let i = choose|i: int| 0 <= i < rpre.len() && rpre[i].0 == id2;
                        assert(r@[i].0 == id2);
                    }
                    assert(r@[rpre.len() as int].0 == ids@[k as int]@);
                    assert(reg_has(r@, ids@[k as int]@));
                    assert forall|id2: Seq<char>| reg_has(r@, id2) implies reg_has(
                        rpre,
                        id2,
                    ) || id2 == ids@[k as int]@ by {
                        let i = choose|i: int| 0 <= i < r@.len() && r@[i].0 == id2;
                        if i < rpre.len() {
                            assert(rpre[i].0 == id2);
                        }
                    }
                    assert forall|id2: Seq<char>| reg_has(r@, id2) implies reg_log(
                        r@,
                        id2,
                    ).len() == 0 by {
                        let i = reg_idx(r@, id2);
                        if i < rpre.len() {
                            assert(rpre[i].0 == id2);
                            assert(reg_has(rpre, id2));
                            lemma_reg_idx(rpre, reg_idx(rpre, id2));
                            assert(rpre[reg_idx(rpre, id2)].1.len() == 0);
                            lemma_reg_idx(r@, i);
                        }
                    }
                }
            }
            proof {
                if present {
                    assert(r@ == rpre);
                    assert(reg_has(r@, ids@[k as int]@));
                }
                assert forall|id2: Seq<char>| reg_has(r@, id2) implies exists|i: int|
                    0 <= i < k + 1 && ids@[i]@ == id2 by {
                    if reg_has(rpre, id2) {
                        assert(exists|i: int| 0 <= i < k && ids@[i]@ == id2);
                        let i = choose|i: int| 0 <= i < k && ids@[i]@ == id2;
                        assert(0 <= i < k + 1 && ids@[i]@ == id2);
                    } else {
                        assert(id2 == ids@[k as int]@);
                        assert(0 <= k < k + 1 && ids@[k as int]@ == id2);
                    }
                }
            }
            k = k + 1;
        }
        r
    }

    /// The position of a room id, if it is provisioned.
    fn find(&self, id: &str) -> (r: Option<usize>)
        requires
            self.wf(),
        ensures
            r matches Some(i) ==> i < self@.len() && self@[i as int].0 == id@,
            r is None ==> !reg_has(self@, id@),
    {
        let n = self.ids.len();
        let mut k: usize = 0;
        while k < n
            invariant
                self.wf(),
                n == self.ids@.len(),
                k <= n,
                forall|j: int| 0 <= j < k ==> self@[j].0 != id@,
            decreases n - k,
        {
            if str_eq(self.ids[k].as_str(), id) {
                return Some(k);
            }
            k = k + 1;
        }
        None
    }

    /// Whether a room id is among the provisioned set.
    pub fn has_room(&self, id: &str) -> (r: bool)
        requires
            self.wf(),
        ensures
            r == reg_has(self@, id@),
    {
        match self.find(id) {
            Some(i) => {
                proof {
                    lemma_reg_idx(self@, i as int);
                }
                true
            },
            None => false,
        }
    }

    /// Appends one entry to the named room's log. Succeeds exactly when
    /// the room is provisioned; every other room's log, and the id set,
    /// are left as they were.
    pub fn append_to(&mut self, id: &str, author: String, text: String) -> (r: Result<
        (),
        RoomError,
    >)
        requires
            old(self).wf(),
        ensures
            final(self).wf(),
            final(self)@.len() == old(self)@.len(),
            forall|i: int| 0 <= i < old(self)@.len() ==> final(self)@[i].0 == old(self)@[i].0,
            r matches Ok(u) ==> reg_has(old(self)@, id@) && reg_log(final(self)@, id@) == reg_log(
                old(self)@,
                id@,
            ).push((author@, text@)),
            r is Ok ==> final(self)@ == old(self)@.update(
                reg_idx(old(self)@, id@),
                (id@, reg_log(old(self)@, id@).push((author@, text@))),
            ),
            r is Ok ==> forall|id2: Seq<char>|
                reg_has(old(self)@, id2) && id2 != id@ ==> reg_log(final(self)@, id2) == reg_log(
                    old(self)@,
                    id2,
                ),
            r is Err ==> !reg_has(old(self)@, id@) && final(self)@ == old(self)@,
    {
        let ghost prev = self@;
        match self.find(id) {
            Some(i) => {
                let mut room = self.rooms.remove(i);
                room.append(author, text);
                self.rooms.insert(i, room);
                proof {
                    assert(self@ =~= prev.update(i as int, (id@, prev[i as int].1.push((author@, text@)))));
                    lemma_reg_idx(prev, i as int);
                    assert(reg_wf(self@)) by {
                        assert(forall|a: int| 0 <= a < self@.len() ==> self@[a].0 == prev[a].0);
                    }
                    lemma_reg_idx(self@, i as int);
                    assert forall|id2: Seq<char>|
                        reg_has(prev, id2) && id2 != id@ implies reg_log(self@, id2) == reg_log(
                        prev,
                        id2,
                    ) by {
                        lemma_reg_idx(prev, reg_idx(prev, id2));
                        let j = reg_idx(prev, id2);
                        assert(self@[j].0 == id2);
                        lemma_reg_idx(self@, j);
                        assert(j != i);
                    }
                }
                Ok(())
            },
            None => Err(RoomError::NotFound),
        }
    }

    /// The named room's log length, for the new client cursor.
    pub fn room_len(&self, id: &str) -> (r: Result<usize, RoomError>)
        requires
            self.wf(),
        ensures
            r matches Ok(n) ==> reg_has(self@, id@) && n == reg_log(self@, id@).len(),
            r is Err ==> !reg_has(self@, id@),
    {
        match self.find(id) {
            Some(i) => {
                proof {
                    lemma_reg_idx(self@, i as int);
                }
                Ok(self.rooms[i].len())
            },
            None => Err(RoomError::NotFound),
        }
    }

    /// The catch-up text of the named room from `offset`, with the log
    /// length at the time of the read (the client's next cursor).
    pub fn catch_up(&self, id: &str, offset: usize) -> (r: Result<(String, usize), RoomError>)
        requires
            self.wf(),
        ensures
            r matches Ok(p) ==> reg_has(self@, id@) && p.0@ == render_from(
                reg_log(self@, id@),
                offset as int,
            ) && p.1 == reg_log(self@, id@).len(),
            r is Err ==> !reg_has(self@, id@),
    {
        match self.find(id) {
            Some(i) => {
                proof {
                    lemma_reg_idx(self@, i as int);
                }
                let msg = self.rooms[i].render_from(offset);
                Ok((msg, self.rooms[i].len()))
            },
            None => Err(RoomError::NotFound),
        }
    }

    /// The entries of the named room at or past `offset`.
    pub fn read_room(&self, id: &str, offset: usize) -> (r: Result<
        Vec<(String, String)>,
        RoomError,
    >)
        requires
            self.wf(),
        ensures
            r matches Ok(v) ==> reg_has(self@, id@) && crate::room::entries_view(v@)
                == read_from_spec(reg_log(self@, id@), offset as int),
            r is Err ==> !reg_has(self@, id@),
    {
        match self.find(id) {
            Some(i) => {
                proof {
                    lemma_reg_idx(self@, i as int);
                }
                Ok(self.rooms[i].read_from(offset))
            },
            None => Err(RoomError::NotFound),
        }
    }
}

} // verus!
