//! The per-room message log: an ordered, append-only sequence of
//! (author, text) entries, read back from a client-held offset.

use vstd::prelude::*;
use vstd::string::StringExecFns;

verus! {

/// The (author, text) view of a sequence of owned entries.
pub open spec fn entries_view(s: Seq<(String, String)>) -> Seq<(Seq<char>, Seq<char>)> {
    Seq::new(s.len(), |i: int| (s[i].0@, s[i].1@))
}

/// The entries of a log with index at or past `k`; empty when `k` is at
/// or past the end.
pub open spec fn read_from_spec(log: Seq<(Seq<char>, Seq<char>)>, k: int) -> Seq<
    (Seq<char>, Seq<char>),
> {
    if 0 <= k <= log.len() {
        log.subrange(k, log.len() as int)
    } else {
        Seq::empty()
    }
}

/// One entry rendered as `author: text, `.
pub open spec fn render_entry(e: (Seq<char>, Seq<char>)) -> Seq<char> {
    e.0 + ": "@ + e.1 + ", "@
}

/// All entries rendered in order and glued into one message.
pub open spec fn render_entries(log: Seq<(Seq<char>, Seq<char>)>) -> Seq<char>
    decreases log.len(),
{
    if log.len() == 0 {
        Seq::empty()
    } else {
        render_entries(log.drop_last()) + render_entry(log.last())
    }
}

/// The catch-up text for a log and an offset.
pub open spec fn render_from(log: Seq<(Seq<char>, Seq<char>)>, k: int) -> Seq<char> {
    render_entries(read_from_spec(log, k))
}

/// An isolated chat channel's log. Entries are only ever appended; an
/// entry's index and content never change once assigned.
pub struct Room {
    entries: Vec<(String, String)>,
}

impl View for Room {
    type V = Seq<(Seq<char>, Seq<char>)>;

    closed spec fn view(&self) -> Seq<(Seq<char>, Seq<char>)> {
        entries_view(self.entries@)
    }
}

impl Room {
    /// A fresh room with an empty log.
    pub fn new() -> (r: Room)
        ensures
            r@ == Seq::<(Seq<char>, Seq<char>)>::empty(),
    {
        let r = Room { entries: Vec::new() };
        proof {
            assert(r@ =~= Seq::<(Seq<char>, Seq<char>)>::empty());
        }
        r
    }

    /// The number of entries in the log.
    pub fn len(&self) -> (n: usize)
        ensures
            n == self@.len(),
    {
        self.entries.len()
    }

    /// Appends one entry at the next sequence index; never fails and
    /// never touches earlier entries.
    pub fn append(&mut self, author: String, text: String)
        ensures
            final(self)@ == old(self)@.push((author@, text@)),
    {
        let ghost prev = self@;
        let ghost a = author@;
        let ghost t = text@;
        self.entries.push((author, text));
        proof {
            assert(self@ =~= prev.push((a, t)));
        }
    }

    /// The ordered sub-sequence of entries with index at or past `offset`;
    /// empty exactly when `offset` is at or past the current length.
    pub fn read_from(&self, offset: usize) -> (r: Vec<(String, String)>)
        ensures
            entries_view(r@) == read_from_spec(self@, offset as int),
    {
        let len = self.entries.len();
        let mut out: Vec<(String, String)> = Vec::new();
        if offset >= len {
            proof {
                assert(entries_view(out@) =~= read_from_spec(self@, offset as int));
            }
            return out;
        }
        let mut i: usize = offset;
        while i < len
            invariant
                len == self.entries@.len(),
                offset <= i <= len,
                entries_view(out@) =~= self@.subrange(offset as int, i as int),
            decreases len - i,
        {
            let author = self.entries[i].0.clone();
            let text = self.entries[i].1.clone();
            let ghost before = out@;
            out.push((author, text));
            proof {
                let sub = self@.subrange(offset as int, i + 1);
                assert(entries_view(before).len() == before.len());
                assert(before.len() == i - offset);
                assert(out@.len() == i + 1 - offset);
                assert forall|j: int| 0 <= j < out@.len() implies entries_view(out@)[j] == sub[j] by {
                    if j < out@.len() - 1 {
                        assert(out@[j] == before[j]);
                        assert(entries_view(before)[j] == self@.subrange(
                            offset as int,
                            i as int,
                        )[j]);
                        assert(sub[j] == self@[offset + j]);
                    } else {
                        assert(out@[j] == (author, text));
                        assert(sub[j] == self@[i as int]);
                        assert(self@[i as int] == (self.entries@[i as int].0@, self.entries@[i as int].1@));
                    }
                }
                assert(entries_view(out@) =~= sub);
            }
            i = i + 1;
        }
        proof {
            assert(entries_view(out@) =~= read_from_spec(self@, offset as int));
        }
        out
    }

    /// The catch-up text from `offset`: every entry at or past it,
    /// rendered `author: text, ` in log order.
    pub fn render_from(&self, offset: usize) -> (msg: String)
        ensures
            msg@ == render_from(self@, offset as int),
    {
        let len = self.entries.len();
        let mut msg = String::new();
        if offset >= len {
            proof {
                assert(read_from_spec(self@, offset as int).len() == 0);
                assert(read_from_spec(self@, offset as int) =~= Seq::<
                    (Seq<char>, Seq<char>),
                >::empty());
            }
            return msg;
        }
        let mut i: usize = offset;
        while i < len
            invariant
                len == self.entries@.len(),
                offset <= i <= len,
                msg@ == render_entries(self@.subrange(offset as int, i as int)),
            decreases len - i,
        {
            msg.append(self.entries[i].0.as_str());
            msg.append(": ");
            msg.append(self.entries[i].1.as_str());
            msg.append(", ");
            proof {
                let sub = self@.subrange(offset as int, i + 1);
                assert(sub.drop_last() =~= self@.subrange(offset as int, i as int));
                assert(sub.last() == self@[i as int]);
            }
            i = i + 1;
        }
        proof {
            assert(self@.subrange(offset as int, len as int) =~= read_from_spec(
                self@,
                offset as int,
            ));
        }
        msg
    }
}

/// Appends one entry to a room's log; kept under the name the request
/// handler for `/send` goes by.
pub fn send_handl(room: &mut Room, msg: String, name: String)
    ensures
        final(room)@ == old(room)@.push((name@, msg@)),
{
    room.append(name, msg);
}

/// Renders the catch-up text for every entry at or past `last_msg`; the
/// room itself is left untouched.
pub fn receive_handl(room: &mut Room, last_msg: usize) -> (msg: String)
    ensures
        *final(room) == *old(room),
        msg@ == render_from(old(room)@, last_msg as int),
{
    room.render_from(last_msg)
}

/// A log after a batch of appends, one at a time in batch order.
pub open spec fn append_all(
    log: Seq<(Seq<char>, Seq<char>)>,
    batch: Seq<(Seq<char>, Seq<char>)>,
) -> Seq<(Seq<char>, Seq<char>)>
    decreases batch.len(),
{
    if batch.len() == 0 {
        log
    } else {
        append_all(log, batch.drop_last()).push(batch.last())
    }
}

/// Append ordering: a batch of appends, serialized in some order, grows
/// the log by exactly the batch length, never touches existing entries,
/// and assigns each new entry the next index in serialization order.
pub proof fn lemma_append_ordering(
    log: Seq<(Seq<char>, Seq<char>)>,
    batch: Seq<(Seq<char>, Seq<char>)>,
)
    ensures
        append_all(log, batch).len() == log.len() + batch.len(),
        forall|i: int| 0 <= i < log.len() ==> append_all(log, batch)[i] == log[i],
        forall|j: int|
            0 <= j < batch.len() ==> append_all(log, batch)[log.len() + j] == batch[j],
    decreases batch.len(),
{
    if batch.len() > 0 {
        lemma_append_ordering(log, batch.drop_last());
        let a = append_all(log, batch);
        let b = append_all(log, batch.drop_last());
        assert(a == b.push(batch.last()));
        assert forall|j: int| 0 <= j < batch.len() implies a[log.len() + j] == batch[j] by {
            if j < batch.len() - 1 {
                assert(a[log.len() + j] == b[log.len() + j]);
                assert(batch.drop_last()[j] == batch[j]);
            } else {
                assert(a[log.len() + j] == batch.last());
            }
        }
    }
}

/// Catch-up completeness: for any offset within the log, `read_from`
/// yields exactly the entries with index in `[k, len)`, and yields
/// nothing exactly when the offset equals the length.
pub proof fn lemma_catch_up(log: Seq<(Seq<char>, Seq<char>)>, k: int)
    requires
        0 <= k <= log.len(),
    ensures
        read_from_spec(log, k) == log.subrange(k, log.len() as int),
        read_from_spec(log, k).len() == log.len() - k,
        read_from_spec(log, k).len() == 0 <==> k == log.len(),
        forall|j: int| 0 <= j < log.len() - k ==> read_from_spec(log, k)[j] == log[k + j],
{
}

/// Idempotent read: two reads at the same offset with no intervening
/// append see the same entries.
pub proof fn lemma_read_idempotent(
    log: Seq<(Seq<char>, Seq<char>)>,
    k: int,
    r1: Seq<(Seq<char>, Seq<char>)>,
    r2: Seq<(Seq<char>, Seq<char>)>,
)
    requires
        r1 == read_from_spec(log, k),
        r2 == read_from_spec(log, k),
    ensures
        r1 == r2,
{
}

} // verus!
