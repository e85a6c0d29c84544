use crate::playback::{apply_all, broadcasts, lemma_last_broadcast_is_final, Command, PlaybackState};
use crate::session::Broadcast;
use vstd::prelude::*;

verus! {

/// The queue after `s` is offered to it: appended while there is room,
/// otherwise the oldest pending state is dropped to make room.
pub open spec fn enqueue_latest(q: Seq<PlaybackState>, capacity: nat, s: PlaybackState) -> Seq<PlaybackState> {
    if q.len() < capacity {
        q.push(s)
    } else {
        q.drop_first().push(s)
    }
}

/// The queue after each of `states` is offered to it in order.
pub open spec fn enqueue_all(q: Seq<PlaybackState>, capacity: nat, states: Seq<PlaybackState>) -> Seq<PlaybackState>
    decreases states.len(),
{
    if states.len() == 0 {
        q
    } else {
        let n = (states.len() - 1) as int;
        enqueue_latest(enqueue_all(q, capacity, states.take(n)), capacity, states[n])
    }
}

/// What a client shows once it has taken every pending state from its queue:
/// the newest of them, or what it showed before when none was pending.
pub open spec fn shown_after_drain(shown: PlaybackState, q: Seq<PlaybackState>) -> PlaybackState {
    if q.len() == 0 {
        shown
    } else {
        q.last()
    }
}

/// The bounded queue of states waiting to be sent to one connection.
/// It never blocks the sender: when full, the oldest pending state goes.
#[derive(Debug)]
pub struct Outbox {
    pending: Vec<PlaybackState>,
    capacity: usize,
}

impl View for Outbox {
    type V = Seq<PlaybackState>;

    closed spec fn view(&self) -> Seq<PlaybackState> {
        self.pending@
    }
}

impl Outbox {
    pub closed spec fn spec_capacity(&self) -> nat {
        self.capacity as nat
    }

    /// Room for at least one state, and never more than the capacity pending.
    pub open spec fn wf(&self) -> bool {
        &&& self.spec_capacity() >= 1
        &&& self@.len() <= self.spec_capacity()
    }

    /// An empty queue holding at most `capacity` states.
    pub fn new(capacity: usize) -> (r: Outbox)
        requires
            capacity >= 1,
        ensures
            r.wf(),
            r@ == Seq::<PlaybackState>::empty(),
            r.spec_capacity() == capacity,
    {
        Outbox { pending: Vec::new(), capacity }
    }

    pub fn capacity(&self) -> (r: usize)
        ensures
            r == self.spec_capacity(),
    {
        self.capacity
    }

    pub fn len(&self) -> (r: usize)
        ensures
            r == self@.len(),
    {
        self.pending.len()
    }

    /// Offers a new state; drops the oldest pending one if the queue is full.
    pub fn offer(&mut self, s: PlaybackState)
        requires
            old(self).wf(),
        ensures
            final(self).wf(),
            final(self).spec_capacity() == old(self).spec_capacity(),
            final(self)@ == enqueue_latest(old(self)@, old(self).spec_capacity(), s),
    {
        if self.pending.len() >= self.capacity {
            self.pending.remove(0);
        }
        self.pending.push(s);
        proof {
            assert(self.pending@ =~= enqueue_latest(old(self)@, old(self).spec_capacity(), s));
        }
    }

    /// Takes the oldest pending state, if any.
    pub fn take_next(&mut self) -> (r: Option<PlaybackState>)
        requires
            old(self).wf(),
        ensures
            final(self).wf(),
            final(self).spec_capacity() == old(self).spec_capacity(),
            old(self)@.len() == 0 ==> r is None && final(self)@ == old(self)@,
            old(self)@.len() > 0 ==> r == Some(old(self)@[0]) && final(self)@ == old(self)@.drop_first(),
    {
        if self.pending.len() == 0 {
            None
        } else {
            let s = self.pending.remove(0);
            proof {
                assert(self.pending@ =~= old(self)@.drop_first());
            }
            Some(s)
        }
    }

    /// The newest pending state, if any.
    pub fn latest(&self) -> (r: Option<PlaybackState>)
        ensures
            self@.len() == 0 ==> r is None,
            self@.len() > 0 ==> r == Some(self@.last()),
    {
        if self.pending.len() == 0 {
            None
        } else {
            Some(self.pending[self.pending.len() - 1])
        }
    }
}

/// However full a queue is, offering states keeps it within its capacity and
/// leaves the last state offered as the newest pending one.
pub proof fn lemma_newest_survives(q: Seq<PlaybackState>, capacity: nat, states: Seq<PlaybackState>)
    requires
        capacity >= 1,
        q.len() <= capacity,
    ensures
        enqueue_all(q, capacity, states).len() <= capacity,
        states.len() > 0 ==> enqueue_all(q, capacity, states).last() == states.last(),
    decreases states.len(),
{
    if states.len() > 0 {
        let n = (states.len() - 1) as int;
        lemma_newest_survives(q, capacity, states.take(n));
    }
}

/// Every connection that was up to date with a session before a run of
/// commands, whatever its queue's capacity and whatever it still had
/// pending, shows the session's final state once the states broadcast
/// during the run have been offered to it and it has drained its queue.
/// So all joined connections converge on one `(position, status)`.
pub proof fn lemma_connections_converge(
    start: PlaybackState,
    cmds: Seq<Command>,
    times: Seq<u64>,
    shown: PlaybackState,
    pending: Seq<PlaybackState>,
    capacity: nat,
)
    requires
        times.len() >= cmds.len(),
        capacity >= 1,
        pending.len() <= capacity,
        shown_after_drain(shown, pending) == start,
    ensures
        shown_after_drain(shown, enqueue_all(pending, capacity, broadcasts(start, cmds, times)))
            == apply_all(start, cmds, times),
{
    let sent = broadcasts(start, cmds, times);
    lemma_last_broadcast_is_final(start, cmds, times);
    lemma_newest_survives(pending, capacity, sent);
    if sent.len() > 0 {
        assert(enqueue_all(pending, capacity, sent).len() > 0);
    }
}

/// One connection's outbound queue, under the connection's identifier.
#[derive(Debug)]
pub struct Link {
    pub id: u64,
    pub outbox: Outbox,
}

/// The outbound queues of all connections, at most one per identifier.
#[derive(Debug)]
pub struct Relay {
    links: Vec<Link>,
}

/// Whether `x` is among `v`.
fn holds_id(v: &Vec<u64>, x: u64) -> (r: bool)
    ensures
        r == v@.contains(x),
{
    let mut i: usize = 0;
    while i < v.len()
        invariant
            i <= v@.len(),
            forall|j: int| 0 <= j < i ==> v@[j] != x,
        decreases v@.len() - i,
    {
        if v[i] == x {
            assert(v@[i as int] == x);
            return true;
        }
        i = i + 1;
    }
    false
}

impl Relay {
    pub closed spec fn links(&self) -> Seq<Link> {
        self.links@
    }

    /// Every queue is well formed and no identifier has two queues.
    pub open spec fn wf(&self) -> bool {
        &&& forall|i: int| 0 <= i < self.links().len() ==> (#[trigger] self.links()[i]).outbox.wf()
        &&& forall|i: int, j: int|
            0 <= i < self.links().len() && 0 <= j < self.links().len() && i != j
                ==> #[trigger] self.links()[i].id != #[trigger] self.links()[j].id
    }

    pub open spec fn has_link(&self, id: u64) -> bool {
        exists|i: int| 0 <= i < self.links().len() && #[trigger] self.links()[i].id == id
    }

    pub fn new() -> (r: Relay)
        ensures
            r.wf(),
            r.links() == Seq::<Link>::empty(),
    {
        Relay { links: Vec::new() }
    }

    fn find(&self, id: u64) -> (r: Option<usize>)
        ensures
            r is None <==> !self.has_link(id),
            r matches Some(i) ==> i < self.links().len() && self.links()[i as int].id == id,
    {
        let mut i: usize = 0;
        while i < self.links.len()
            invariant
                i <= self.links@.len(),
                forall|j: int| 0 <= j < i ==> #[trigger] self.links()[j].id != id,
            decreases self.links@.len() - i,
        {
            if self.links[i].id == id {
                assert(self.links()[i as int].id == id);
                return Some(i);
            }
            i = i + 1;
        }
        None
    }

    /// Gives connection `id` an empty queue of the given capacity, unless it
    /// has one already; returns whether it did.
    pub fn register(&mut self, id: u64, capacity: usize) -> (r: bool)
        requires
            old(self).wf(),
            capacity >= 1,
        ensures
            final(self).wf(),
            r == !old(self).has_link(id),
            !r ==> final(self).links() == old(self).links(),
            r ==> final(self).links().len() == old(self).links().len() + 1
                && final(self).links().drop_last() == old(self).links()
                && final(self).links().last().id == id
                && final(self).links().last().outbox@ == Seq::<PlaybackState>::empty()
                && final(self).links().last().outbox.spec_capacity() == capacity,
    {
        if self.find(id).is_some() {
            return false;
        }
        self.links.push(Link { id, outbox: Outbox::new(capacity) });
        proof {
            assert(self.links().drop_last() =~= old(self).links());
            assert forall|i: int, j: int|
                0 <= i < self.links().len() && 0 <= j < self.links().len() && i != j
                    implies #[trigger] self.links()[i].id != #[trigger] self.links()[j].id by {
                let n = old(self).links().len() as int;
                if i == n {
                    assert(old(self).links()[j].id != id);
                } else if j == n {
                    assert(old(self).links()[i].id != id);
                } else {
                    assert(old(self).links()[i] == self.links()[i]);
                    assert(old(self).links()[j] == self.links()[j]);
                }
            }
            assert forall|i: int| 0 <= i < self.links().len() implies (#[trigger] self.links()[i]).outbox.wf() by {
                if i < old(self).links().len() {
                    assert(old(self).links()[i] == self.links()[i]);
                }
            }
        }
        true
    }

    /// Drops the queue of connection `id`; returns whether it had one.
    pub fn unregister(&mut self, id: u64) -> (r: bool)
        requires
            old(self).wf(),
        ensures
            final(self).wf(),
            r == old(self).has_link(id),
            !final(self).has_link(id),
            !r ==> final(self).links() == old(self).links(),
    {
        match self.find(id) {
            None => false,
            Some(i) => {
                self.links.remove(i);
                proof {
                    let before = old(self).links();
                    let after = self.links();
                    assert forall|j: int| 0 <= j < after.len() implies #[trigger] after[j]
                        == before[if j < i { j } else { j + 1 }] by {}
                    assert forall|j: int, k: int|
                        0 <= j < after.len() && 0 <= k < after.len() && j != k
                            implies #[trigger] after[j].id != #[trigger] after[k].id by {
                        let jj = if j < i { j } else { j + 1 };
                        let kk = if k < i { k } else { k + 1 };
                        assert(before[jj].id != before[kk].id);
                    }
                    assert forall|j: int| 0 <= j < after.len() implies (#[trigger] after[j]).outbox.wf() by {
                        let jj = if j < i { j } else { j + 1 };
                        assert(before[jj].outbox.wf());
                    }
                    if self.has_link(id) {
                        let j = choose|j: int| 0 <= j < after.len() && #[trigger] after[j].id == id;
                        let jj = if j < i { j } else { j + 1 };
                        assert(before[jj].id == id);
                    }
                }
                true
            },
        }
    }

    /// Offers the broadcast state to the queue of every listed recipient;
    /// other queues are left alone.
    pub fn deliver(&mut self, b: &Broadcast)
        requires
            old(self).wf(),
        ensures
            final(self).wf(),
            final(self).links().len() == old(self).links().len(),
            forall|i: int| 0 <= i < final(self).links().len() ==> {
                let before = #[trigger] old(self).links()[i];
                let after = final(self).links()[i];
                &&& after.id == before.id
                &&& after.outbox.spec_capacity() == before.outbox.spec_capacity()
                &&& after.outbox@ == if b.recipients@.contains(before.id) {
                    enqueue_latest(before.outbox@, before.outbox.spec_capacity(), b.state)
                } else {
                    before.outbox@
                }
            },
    {
        let mut i: usize = 0;
        while i < self.links.len()
            invariant
                self.links().len() == old(self).links().len(),
                i <= self.links().len(),
                forall|j: int| 0 <= j < self.links().len() ==> #[trigger] self.links()[j].id == old(self).links()[j].id,
                forall|j: int| 0 <= j < self.links().len() ==> (#[trigger] self.links()[j]).outbox.wf(),
                forall|j: int| 0 <= j < self.links().len() ==> (#[trigger] self.links()[j]).outbox.spec_capacity()
                    == old(self).links()[j].outbox.spec_capacity(),
                forall|j: int| i <= j < self.links().len() ==> #[trigger] self.links()[j] == old(self).links()[j],
                forall|j: int| 0 <= j < i ==> (#[trigger] self.links()[j]).outbox@ == if b.recipients@.contains(old(self).links()[j].id) {
                    enqueue_latest(old(self).links()[j].outbox@, old(self).links()[j].outbox.spec_capacity(), b.state)
                } else {
                    old(self).links()[j].outbox@
                },
                old(self).wf(),
            decreases self.links().len() - i,
        {
            let ghost mid = self.links();
            if holds_id(&b.recipients, self.links[i].id) {
                let mut link = self.links.remove(i);
                link.outbox.offer(b.state);
                self.links.insert(i, link);
                proof {
                    assert(self.links() =~= mid.update(i as int, link));
                }
            }
            i = i + 1;
        }
        proof {
            assert forall|j: int, k: int|
                0 <= j < self.links().len() && 0 <= k < self.links().len() && j != k
                    implies #[trigger] self.links()[j].id != #[trigger] self.links()[k].id by {
                assert(old(self).links()[j].id != old(self).links()[k].id);
            }
        }
    }

    /// Takes the oldest pending state of connection `id`'s queue, if any.
    pub fn take_next(&mut self, id: u64) -> (r: Option<PlaybackState>)
        requires
            old(self).wf(),
        ensures
            final(self).wf(),
            final(self).links().len() == old(self).links().len(),
            !old(self).has_link(id) ==> r is None && final(self).links() == old(self).links(),
            forall|i: int| 0 <= i < final(self).links().len() ==> {
                let before = #[trigger] old(self).links()[i];
                let after = final(self).links()[i];
                &&& after.id == before.id
                &&& after.outbox.spec_capacity() == before.outbox.spec_capacity()
                &&& (before.id != id ==> after.outbox@ == before.outbox@)
                &&& (before.id == id && before.outbox@.len() == 0 ==> r is None && after.outbox@ == before.outbox@)
                &&& (before.id == id && before.outbox@.len() > 0 ==> r == Some(before.outbox@[0])
                    && after.outbox@ == before.outbox@.drop_first())
            },
    {
        match self.find(id) {
            None => None,
            Some(i) => {
                proof {
                    assert(old(self).links()[i as int].outbox.wf());
                }
                let mut link = self.links.remove(i);
                let r = link.outbox.take_next();
                self.links.insert(i, link);
                proof {
                    assert(self.links() =~= old(self).links().update(i as int, link));
                    assert forall|j: int, k: int|
                        0 <= j < self.links().len() && 0 <= k < self.links().len() && j != k
                            implies #[trigger] self.links()[j].id != #[trigger] self.links()[k].id by {
                        assert(old(self).links()[j].id != old(self).links()[k].id);
                    }
                    assert forall|j: int| 0 <= j < self.links().len() implies (#[trigger] self.links()[j]).outbox.wf() by {
                        assert(old(self).links()[j].outbox.wf());
                    }
                    assert forall|j: int| 0 <= j < self.links().len() && j != i implies old(self).links()[j].id != id by {
                        assert(old(self).links()[j].id != old(self).links()[i as int].id);
                    }
                }
                r
            },
        }
    }
}

} // verus!
