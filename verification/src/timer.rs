use crate::step::Step;
use min_max_heap::MinMaxHeap;
use vstd::multiset::Multiset;
use vstd::prelude::*;

verus! {

/// A timeout that is due at `timeval` for a step of a round of a height.
#[derive(Clone, Copy, Debug, PartialEq, Eq, Structural)]
pub struct TimeoutInfo {
    /// The deadline, in milliseconds on the timer's clock.
    pub timeval: u64,
    /// The height the timeout is for.
    pub height: u64,
    /// The round the timeout is for.
    pub round: u64,
    /// The step the timeout is for.
    pub step: Step,
}

/// A request to be woken after `delay` milliseconds for a step of a round
/// of a height.
#[derive(Clone, Copy, Debug, PartialEq, Eq, Structural)]
pub struct TimerRequest {
    /// How long to wait, in milliseconds.
    pub delay: u64,
    /// The height the timeout is for.
    pub height: u64,
    /// The round the timeout is for.
    pub round: u64,
    /// The step the timeout is for.
    pub step: Step,
}

impl TimerRequest {
    /// The timeout that the request asks for at time `now`: due `delay`
    /// milliseconds later, or at `u64::MAX` where the clock cannot count
    /// that far.
    pub fn due(&self, now: u64) -> (info: TimeoutInfo)
        ensures
            info.timeval == if now + self.delay > u64::MAX {
                u64::MAX as int
            } else {
                now + self.delay
            },
            info.height == self.height,
            info.round == self.round,
            info.step == self.step,
    {
        let timeval = if self.delay > u64::MAX - now {
            u64::MAX
        } else {
            now + self.delay
        };
        TimeoutInfo { timeval, height: self.height, round: self.round, step: self.step }
    }
}

/// A pending timeout as the heap holds it: the deadline, the number of
/// timeouts set before it, the height, the round and the step's place in a
/// round. The first two decide its place in the heap.
pub type Entry = (u64, u64, u64, u64, u8);

/// The order of tuples: by the first component in which two differ.
pub open spec fn entry_le(a: Entry, b: Entry) -> bool {
    if a.0 != b.0 {
        a.0 < b.0
    } else if a.1 != b.1 {
        a.1 < b.1
    } else if a.2 != b.2 {
        a.2 < b.2
    } else if a.3 != b.3 {
        a.3 < b.3
    } else {
        a.4 <= b.4
    }
}

/// The timeout that an entry stands for.
pub open spec fn entry_info(e: Entry) -> TimeoutInfo {
    TimeoutInfo { timeval: e.0, height: e.2, round: e.3, step: Step::of_rank(e.4) }
}

/// The timeouts that a sequence of entries stands for, in order.
pub open spec fn entry_infos(entries: Seq<Entry>) -> Seq<TimeoutInfo> {
    entries.map_values(|e: Entry| entry_info(e))
}

/// `min_max_heap::MinMaxHeap`: a double-ended priority queue. What it
/// holds is known through `heap_entries` alone.
#[verifier::external_type_specification]
#[verifier::external_body]
#[verifier::reject_recursive_types(T)]
pub struct ExMinMaxHeap<T>(MinMaxHeap<T>);

/// The entries that a heap holds, each as often as it was pushed and not
/// yet popped.
pub uninterp spec fn heap_entries(heap: MinMaxHeap<Entry>) -> Multiset<Entry>;

/// `MinMaxHeap::new`: a heap that holds nothing.
#[verifier::external_body]
fn heap_new() -> (heap: MinMaxHeap<Entry>)
    ensures
        heap_entries(heap) == Multiset::<Entry>::empty(),
{
    MinMaxHeap::new()
}

/// `MinMaxHeap::push`: the heap holds the entry once more, and the rest as
/// before.
#[verifier::external_body]
fn heap_push(heap: &mut MinMaxHeap<Entry>, entry: Entry)
    ensures
        heap_entries(*final(heap)) == heap_entries(*old(heap)).insert(entry),
{
    heap.push(entry)
}

/// `MinMaxHeap::peek_min`: nothing where the heap is empty, else an entry
/// of the heap that no other entry precedes in the order of tuples.
#[verifier::external_body]
fn heap_peek_min(heap: &MinMaxHeap<Entry>) -> (min: Option<Entry>)
    ensures
        match min {
            None => heap_entries(*heap).len() == 0,
            Some(e) => heap_entries(*heap).count(e) > 0 && forall|o: Entry|
                heap_entries(*heap).count(o) > 0 ==> entry_le(e, o),
        },
{
    heap.peek_min().copied()
}

/// `MinMaxHeap::pop_min`: nothing where the heap is empty, else an entry
/// of the heap that no other entry precedes in the order of tuples, which
/// the heap then holds once less.
#[verifier::external_body]
fn heap_pop_min(heap: &mut MinMaxHeap<Entry>) -> (min: Option<Entry>)
    ensures
        match min {
            None => heap_entries(*old(heap)).len() == 0 && heap_entries(*final(heap))
                == heap_entries(*old(heap)),
            Some(e) => heap_entries(*old(heap)).count(e) > 0 && (forall|o: Entry|
                heap_entries(*old(heap)).count(o) > 0 ==> entry_le(e, o)) && heap_entries(
                *final(heap),
            ) == heap_entries(*old(heap)).remove(e),
        },
{
    heap.pop_min()
}

/// Whether `e` comes before every entry of `pending`, and is none of them.
pub open spec fn precedes_all(e: Entry, pending: Multiset<Entry>) -> bool {
    forall|o: Entry| pending.count(o) > 0 ==> entry_le(e, o) && e != o
}

/// How long the timer waits for a request when nothing is pending, in
/// milliseconds.
pub const IDLE_WAIT: u64 = 100_000;

/// The pending timeouts of a node, nearest deadline first.
pub struct WaitTimer {
    heap: MinMaxHeap<Entry>,
    count: u64,
}

/// Whether `due` lists, in the order of tuples and each once, the entries
/// of `pending` whose deadline is not after `now`.
pub open spec fn is_due_order(pending: Multiset<Entry>, now: u64, due: Seq<Entry>) -> bool {
    &&& forall|i: int, j: int|
        #![trigger due[i], due[j]]
        0 <= i < j < due.len() ==> entry_le(due[i], due[j]) && due[i] != due[j]
    &&& forall|i: int| 0 <= i < due.len() ==> pending.count(#[trigger] due[i]) > 0 && due[i].0 <= now
    &&& forall|e: Entry| pending.count(e) > 0 && e.0 <= now ==> due.contains(e)
}

impl WaitTimer {
    /// The pending entries.
    pub closed spec fn pending(&self) -> Multiset<Entry> {
        heap_entries(self.heap)
    }

    /// The number of timeouts set so far.
    pub closed spec fn set_count(&self) -> u64 {
        self.count
    }

    /// No entry is pending twice, and each carries the number of timeouts
    /// that were set before it.
    pub open spec fn wf(&self) -> bool {
        &&& forall|e: Entry| self.pending().count(e) <= 1
        &&& forall|e: Entry| self.pending().count(e) > 0 ==> e.1 < self.set_count() && e.4 <= 5
        &&& forall|a: Entry, b: Entry|
            self.pending().count(a) > 0 && self.pending().count(b) > 0 && a.1 == b.1 ==> a == b
    }

    /// A timer with nothing pending.
    pub fn new() -> (timer: WaitTimer)
        ensures
            timer.wf(),
            timer.pending() == Multiset::<Entry>::empty(),
            timer.set_count() == 0,
    {
        WaitTimer { heap: heap_new(), count: 0 }
    }

    /// The number of timeouts set so far.
    pub fn count(&self) -> (count: u64)
        ensures
            count == self.set_count(),
    {
        self.count
    }

    /// Sets a timeout: it is pending from now on, behind those of the same
    /// deadline that were set before it.
    pub fn set(&mut self, info: TimeoutInfo)
        requires
            old(self).wf(),
            old(self).set_count() < u64::MAX,
        ensures
            final(self).wf(),
            final(self).set_count() == old(self).set_count() + 1,
            final(self).pending() == old(self).pending().insert(
                (info.timeval, old(self).set_count(), info.height, info.round, info.step.rank() as u8),
            ),
    {
        let entry: Entry = (info.timeval, self.count, info.height, info.round, info.step.code());
        let ghost before = self.pending();
        heap_push(&mut self.heap, entry);
        self.count = self.count + 1;
        proof {
            assert(before.count(entry) == 0) by {
                if before.count(entry) > 0 {
                    assert(entry.1 < old(self).set_count());
                }
            }
            assert forall|e: Entry| self.pending().count(e) <= 1 by {
                assert(before.count(e) <= 1);
            }
            assert forall|e: Entry| self.pending().count(e) > 0 implies e.1 < self.set_count()
                && e.4 <= 5 by {
                if e != entry {
                    assert(before.count(e) > 0);
                }
            }
            assert forall|a: Entry, b: Entry|
                self.pending().count(a) > 0 && self.pending().count(b) > 0 && a.1
                    == b.1 implies a == b by {
                if a != entry {
                    assert(before.count(a) > 0);
                }
                if b != entry {
                    assert(before.count(b) > 0);
                }
            }
        }
    }

    /// How long to wait for a request at time `now`, in milliseconds: until
    /// the nearest deadline, not at all where that has passed, and
    /// `IDLE_WAIT` where nothing is pending.
    pub fn wait(&self, now: u64) -> (wait: u64)
        requires
            self.wf(),
        ensures
            self.pending().len() == 0 ==> wait == IDLE_WAIT,
            self.pending().len() > 0 ==> exists|e: Entry|
                self.pending().count(e) > 0 && (forall|o: Entry|
                    self.pending().count(o) > 0 ==> e.0 <= o.0) && wait == if e.0 > now {
                    e.0 - now
                } else {
                    0
                },
    {
        match heap_peek_min(&self.heap) {
            None => IDLE_WAIT,
            Some(e) => {
                proof {
                    assert(self.pending().len() > 0) by {
                        if self.pending().len() == 0 {
                            vstd::multiset::lemma_multiset_empty_len(self.pending());
                        }
                    }
                    assert forall|o: Entry| self.pending().count(o) > 0 implies e.0 <= o.0 by {
                        assert(entry_le(e, o));
                    }
                }
                if e.0 > now {
                    e.0 - now
                } else {
                    0
                }
            },
        }
    }

    /// Takes out the timeouts that are due at time `now`: those whose
    /// deadline is not after `now`, nearest deadline first, and those of one
    /// deadline in the order in which they were set. The others stay.
    pub fn expire(&mut self, now: u64) -> (fired: Vec<TimeoutInfo>)
        requires
            old(self).wf(),
        ensures
            final(self).wf(),
            final(self).set_count() == old(self).set_count(),
            exists|due: Seq<Entry>|
                is_due_order(old(self).pending(), now, due) && fired@ == entry_infos(due),
            forall|e: Entry|
                final(self).pending().count(e) == if e.0 <= now {
                    0
                } else {
                    old(self).pending().count(e)
                },
            forall|i: int, j: int|
                0 <= i <= j < fired@.len() ==> fired@[i].timeval <= fired@[j].timeval,
            forall|i: int| 0 <= i < fired@.len() ==> fired@[i].timeval <= now,
    {
        let mut fired: Vec<TimeoutInfo> = Vec::new();
        let ghost mut due: Seq<Entry> = Seq::empty();
        let ghost start = self.pending();
        loop
            invariant
                self.wf(),
                start == old(self).pending(),
                old(self).wf(),
                self.set_count() == old(self).set_count(),
                fired@ == entry_infos(due),
                forall|i: int, j: int|
                    #![trigger due[i], due[j]]
                    0 <= i < j < due.len() ==> entry_le(due[i], due[j]) && due[i] != due[j],
                forall|i: int|
                    0 <= i < due.len() ==> start.count(#[trigger] due[i]) > 0 && due[i].0 <= now,
                forall|i: int| 0 <= i < due.len() ==> precedes_all(#[trigger] due[i], self.pending()),
                forall|e: Entry|
                    self.pending().count(e) == if due.contains(e) {
                        0
                    } else {
                        start.count(e)
                    },
            ensures
                self.wf(),
                self.set_count() == old(self).set_count(),
                fired@ == entry_infos(due),
                is_due_order(start, now, due),
                forall|e: Entry|
                    self.pending().count(e) == if e.0 <= now {
                        0
                    } else {
                        start.count(e)
                    },
            decreases self.pending().len(),
        {
            let next = heap_peek_min(&self.heap);
            let is_due = match next {
                Some(e) => e.0 <= now,
                None => false,
            };
            if !is_due {
                proof {
                    assert forall|e: Entry| start.count(e) > 0 && e.0 <= now implies due.contains(
                        e,
                    ) by {
                        if !due.contains(e) {
                            assert(self.pending().count(e) > 0);
                            match next {
                                Some(m) => {
                                    assert(entry_le(m, e));
                                },
                                None => {
                                    vstd::multiset::lemma_multiset_empty_len(self.pending());
                                },
                            }
                        }
                    }
                    assert forall|e: Entry|
                        self.pending().count(e) == if e.0 <= now {
                            0
                        } else {
                            start.count(e)
                        } by {
                        if due.contains(e) {
                            let i = choose|i: int| 0 <= i < due.len() && due[i] == e;
                            assert(due[i].0 <= now);
                        }
                    }
                }
                break ;
            }
            let ghost before = self.pending();
            let popped = heap_pop_min(&mut self.heap);
            match popped {
                None => {
                    proof {
                        assert(next is Some);
                        assert(before.count(next->0) > 0);
                        vstd::multiset::lemma_multiset_empty_len(before);
                        assert(false);
                    }
                },
                Some(e) => {
                    proof {
                        let m = next->0;
                        assert(entry_le(e, m) && entry_le(m, e));
                        assert(e == m);
                        assert(self.pending() == before.remove(e));
                        assert(before.count(e) == 1);
                        assert(!due.contains(e));
                        let grown = due.push(e);
                        assert forall|i: int, j: int| 0 <= i < j < grown.len() implies entry_le(
                            grown[i],
                            grown[j],
                        ) && grown[i] != grown[j] by {
                            if j == due.len() {
                                assert(grown[i] == due[i]);
                                assert(grown[j] == e);
                                assert(precedes_all(due[i], before));
                                assert(before.count(e) > 0);
                                assert(entry_le(due[i], e) && due[i] != e);
                            } else {
                                assert(grown[i] == due[i] && grown[j] == due[j]);
                                assert(entry_le(due[i], due[j]) && due[i] != due[j]);
                            }
                        }
                        assert forall|i: int| 0 <= i < grown.len() implies start.count(
                            #[trigger] grown[i],
                        ) > 0 && grown[i].0 <= now by {
                            if i < due.len() {
                                assert(grown[i] == due[i]);
                            }
                        }
                        assert forall|i: int| 0 <= i < grown.len() implies precedes_all(
                            #[trigger] grown[i],
                            self.pending(),
                        ) by {
                            assert forall|o: Entry| self.pending().count(o) > 0 implies entry_le(
                                grown[i],
                                o,
                            ) && grown[i] != o by {
                                assert(before.count(o) > 0);
                                if i < due.len() {
                                    assert(grown[i] == due[i]);
                                    assert(precedes_all(due[i], before));
                                } else {
                                    assert(entry_le(e, o));
                                }
                            }
                        }
                        assert forall|x: Entry|
                            self.pending().count(x) == if grown.contains(x) {
                                0
                            } else {
                                start.count(x)
                            } by {
                            if grown.contains(x) {
                                let i = choose|i: int| 0 <= i < grown.len() && grown[i] == x;
                                if i < due.len() {
                                    assert(due[i] == x);
                                    assert(due.contains(x));
                                }
                            } else {
                                if due.contains(x) {
                                    let i = choose|i: int| 0 <= i < due.len() && due[i] == x;
                                    assert(grown[i] == x);
                                }
                                assert(grown[due.len() as int] == e);
                                assert(x != e);
                            }
                        }
                        assert(entry_infos(grown) =~= entry_infos(due).push(entry_info(e)));
                        due = grown;
                    }
                    fired.push(TimeoutInfo {
                        timeval: e.0,
                        height: e.2,
                        round: e.3,
                        step: Step::from_code(e.4),
                    });
                },
            }
        }
        proof {
            assert forall|i: int, j: int| 0 <= i <= j < fired@.len() implies fired@[i].timeval
                <= fired@[j].timeval by {
                if i < j {
                    assert(entry_le(due[i], due[j]));
                }
            }
        }
        fired
    }

    /// One turn of the timer at time `now`: a request that has come in is
    /// set, then the timeouts that are due are taken out, as `expire` does.
    pub fn turn(&mut self, request: Option<TimeoutInfo>, now: u64) -> (fired: Vec<TimeoutInfo>)
        requires
            old(self).wf(),
            request is Some ==> old(self).set_count() < u64::MAX,
        ensures
            final(self).wf(),
            final(self).set_count() == old(self).set_count() + if request is Some {
                1int
            } else {
                0int
            },
            exists|due: Seq<Entry>|
                is_due_order(turn_pending(old(self).pending(), old(self).set_count(), request), now, due)
                    && fired@ == entry_infos(due),
            forall|e: Entry|
                final(self).pending().count(e) == if e.0 <= now {
                    0
                } else {
                    turn_pending(old(self).pending(), old(self).set_count(), request).count(e)
                },
            forall|i: int, j: int|
                0 <= i <= j < fired@.len() ==> fired@[i].timeval <= fired@[j].timeval,
    {
        match request {
            Some(info) => {
                self.set(info);
            },
            None => {},
        }
        let ghost mid = self.pending();
        let fired = self.expire(now);
        proof {
            assert(mid == turn_pending(old(self).pending(), old(self).set_count(), request));
            let due = choose|due: Seq<Entry>|
                is_due_order(mid, now, due) && fired@ == entry_infos(due);
            assert(is_due_order(
                turn_pending(old(self).pending(), old(self).set_count(), request),
                now,
                due,
            ) && fired@ == entry_infos(due));
        }
        fired
    }
}

/// What is pending once a request, if there is one, has been set as the
/// timeout number `count`.
pub open spec fn turn_pending(
    pending: Multiset<Entry>,
    count: u64,
    request: Option<TimeoutInfo>,
) -> Multiset<Entry> {
    match request {
        Some(info) => pending.insert(
            (info.timeval, count, info.height, info.round, info.step.rank() as u8),
        ),
        None => pending,
    }
}

/// What is taken out later comes due later: where `first` is what was due
/// at one time, and `second` what is due at a time, of what then stayed,
/// every timeout of `second` has a later deadline than every one of
/// `first`.
pub proof fn lemma_later_turn_is_later(
    pending: Multiset<Entry>,
    now: u64,
    first: Seq<Entry>,
    stayed: Multiset<Entry>,
    later: u64,
    second: Seq<Entry>,
)
    requires
        is_due_order(pending, now, first),
        forall|e: Entry|
            stayed.count(e) == if e.0 <= now {
                0
            } else {
                pending.count(e)
            },
        is_due_order(stayed, later, second),
    ensures
        forall|i: int, j: int|
            0 <= i < first.len() && 0 <= j < second.len() ==> (#[trigger] first[i]).0 < (
            #[trigger] second[j]).0,
{
    assert forall|i: int, j: int| 0 <= i < first.len() && 0 <= j < second.len() implies (
    #[trigger] first[i]).0 < (#[trigger] second[j]).0 by {
        assert(stayed.count(second[j]) > 0);
        assert(pending.count(first[i]) > 0 && first[i].0 <= now);
    }
}

} // verus!
