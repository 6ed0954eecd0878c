//! The chat line bus: the process-wide broadcast point for incoming chat
//! lines. Every waiter receives every line that arrives after it began
//! waiting, in arrival order; there is no replay of earlier lines and no
//! work-stealing between waiters.

use vstd::prelude::*;

verus! {

/// The arrival log of chat lines. Lines are immutable once delivered; the
/// log only ever grows at the end.
pub struct ChatBus {
    log: Vec<Vec<char>>,
}

/// One waiter's view of the bus: the point at which it began waiting and a
/// cursor over the log, together with the ghost record of everything it has
/// received so far.
pub struct Waiter {
    start: usize,
    cursor: usize,
    received: Ghost<Seq<Seq<char>>>,
}

impl ChatBus {
    /// The lines delivered so far, in arrival order.
    pub closed spec fn log_seq(self) -> Seq<Seq<char>> {
        self.log@.map_values(|l: Vec<char>| l@)
    }

    pub fn new() -> (r: Self)
        ensures
            r.log_seq() == Seq::<Seq<char>>::empty(),
    {
        let r = ChatBus { log: Vec::new() };
        proof {
            assert(r.log_seq() =~= Seq::<Seq<char>>::empty());
        }
        r
    }

    /// Accepts one incoming chat line; it is appended to the arrival log and
    /// becomes visible to every current waiter, to each in the same order.
    pub fn deliver(&mut self, line: Vec<char>)
        ensures
            final(self).log_seq() == old(self).log_seq().push(line@),
    {
        let ghost l0 = self.log@;
        self.log.push(line);
        proof {
            assert(self.log_seq() =~= old(self).log_seq().push(line@));
        }
    }
}

impl Waiter {
    pub closed spec fn start_spec(self) -> int {
        self.start as int
    }

    pub closed spec fn cursor_spec(self) -> int {
        self.cursor as int
    }

    /// Everything this waiter has received, in the order it received it.
    pub closed spec fn received_seq(self) -> Seq<Seq<char>> {
        self.received@
    }

    /// The waiter is consistent with the bus: its cursor lies between its
    /// starting point and the end of the log, and what it has received is
    /// exactly the log segment its cursor has crossed.
    pub open spec fn wf(self, bus: ChatBus) -> bool {
        &&& 0 <= self.start_spec() <= self.cursor_spec() <= bus.log_seq().len()
        &&& self.received_seq() == bus.log_seq().subrange(self.start_spec(), self.cursor_spec())
    }

    /// Begins waiting: lines already in the log are never replayed, so the
    /// waiter starts at the current end of the log with nothing received.
    pub fn begin(bus: &ChatBus) -> (w: Waiter)
        ensures
            w.wf(*bus),
            w.start_spec() == bus.log_seq().len(),
            w.received_seq() == Seq::<Seq<char>>::empty(),
    {
        let n = bus.log.len();
        let w = Waiter { start: n, cursor: n, received: Ghost(Seq::empty()) };
        proof {
            assert(bus.log_seq().subrange(n as int, n as int) =~= Seq::<Seq<char>>::empty());
        }
        w
    }

    /// Takes the next line the waiter has not yet seen, if one has arrived.
    /// Each waiter advances independently of every other.
    pub fn poll(&mut self, bus: &ChatBus) -> (r: Option<Vec<char>>)
        requires
            old(self).wf(*bus),
        ensures
            final(self).wf(*bus),
            final(self).start_spec() == old(self).start_spec(),
            match r {
                Some(line) => {
                    &&& old(self).cursor_spec() < bus.log_seq().len()
                    &&& line@ == bus.log_seq()[old(self).cursor_spec()]
                    &&& final(self).cursor_spec() == old(self).cursor_spec() + 1
                    &&& final(self).received_seq() == old(self).received_seq().push(line@)
                },
                None => old(self).cursor_spec() == bus.log_seq().len() && *final(self) == *old(
                    self,
                ),
            },
    {
        if self.cursor < bus.log.len() {
            let entry = &bus.log[self.cursor];
            let line = crate::text::subvec(entry, 0, entry.len());
            proof {
                assert(bus.log_seq()[self.cursor as int] == entry@);
                assert(entry@.subrange(0, entry@.len() as int) =~= entry@);
                assert(bus.log_seq().subrange(self.start as int, self.cursor + 1) =~= bus
                    .log_seq().subrange(self.start as int, self.cursor as int).push(entry@));
            }
            self.received = Ghost(self.received@.push(line@));
            self.cursor = self.cursor + 1;
            Some(line)
        } else {
            None
        }
    }
}

/// New deliveries never disturb a waiter: a waiter consistent with the bus
/// stays consistent after any lines are appended to the log.
pub proof fn lemma_wf_preserved_by_delivery(w: Waiter, before: ChatBus, after: ChatBus)
    requires
        w.wf(before),
        before.log_seq().is_prefix_of(after.log_seq()),
    ensures
        w.wf(after),
{
    assert(after.log_seq().subrange(w.start_spec(), w.cursor_spec()) =~= before.log_seq()
        .subrange(w.start_spec(), w.cursor_spec()));
}

/// The delivery-order law of the bus: whatever a waiter has received is
/// exactly the arrival log between the point it began waiting and its
/// cursor — no line dropped, none reordered, none duplicated, and the k-th
/// line received is the k-th line that arrived after waiting began.
pub proof fn lemma_delivery_in_arrival_order(w: Waiter, bus: ChatBus)
    requires
        w.wf(bus),
    ensures
        w.received_seq() == bus.log_seq().subrange(w.start_spec(), w.cursor_spec()),
        w.received_seq().len() == w.cursor_spec() - w.start_spec(),
        forall|k: int| 0 <= k < w.received_seq().len() ==> w.received_seq()[k] == bus.log_seq()[
            w.start_spec() + k
        ],
{
}

} // verus!
