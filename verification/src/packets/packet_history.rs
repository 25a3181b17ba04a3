use vstd::prelude::*;
use lz_diet::Diet;
use crate::packets::diet::{
    diet_values, diet_new, diet_insert, diet_contains, diet_split, diet_intervals, spec_split,
};
use crate::packets::packet_number::{PacketNumber, MAX_PACKET_NUMBER};

verus! {

/// The packet numbers received on a connection: those seen, kept as ranges, and a bound up to
/// which all packet numbers are taken as already received.
pub struct PacketHistory {
    seen_packet_ranges: Diet<u64>,
    forgotten_up_to: Option<PacketNumber>,
}

/// What a packet history holds: the packet numbers seen and the bound up to which packet numbers
/// are forgotten.
pub struct PacketHistoryView {
    pub seen: Set<u64>,
    pub forgotten_up_to: Option<u64>,
}

impl View for PacketHistory {
    type V = PacketHistoryView;

    closed spec fn view(&self) -> PacketHistoryView {
        PacketHistoryView {
            seen: diet_values(self.seen_packet_ranges),
            forgotten_up_to: match self.forgotten_up_to {
                Some(f) => Some(f@),
                None => None,
            },
        }
    }
}

/// Whether a history takes a packet number as already received: it is at or below the bound, or
/// it was seen.
pub open spec fn spec_is_duplicate(history: PacketHistoryView, packet_number: u64) -> bool {
    (history.forgotten_up_to matches Some(f) && packet_number <= f) || history.seen.contains(packet_number)
}

/// The history after a packet number is pushed.
pub open spec fn spec_push(history: PacketHistoryView, packet_number: u64) -> PacketHistoryView {
    PacketHistoryView { seen: history.seen.insert(packet_number), forgotten_up_to: history.forgotten_up_to }
}

/// The history after the packet numbers up to `packet_number` are ignored: the bound rises to
/// `packet_number` if it is lower, and the seen packet numbers keep what the right side of
/// splitting them on `packet_number` gives (which is nothing when none is below it).
pub open spec fn spec_ignore(history: PacketHistoryView, packet_number: u64) -> PacketHistoryView {
    PacketHistoryView {
        seen: spec_split(history.seen, packet_number).1,
        forgotten_up_to: Some(
            match history.forgotten_up_to {
                Some(f) => if f < packet_number { packet_number } else { f },
                None => packet_number,
            },
        ),
    }
}

impl PacketHistory {
    #[verifier::type_invariant]
    spec fn valid(self) -> bool {
        forall|x: u64| diet_values(self.seen_packet_ranges).contains(x) ==> x <= MAX_PACKET_NUMBER
    }

    /// An empty history.
    pub fn new() -> (r: PacketHistory)
        ensures
            r@.seen == Set::<u64>::empty(),
            r@.forgotten_up_to is None,
    {
        PacketHistory { seen_packet_ranges: diet_new(), forgotten_up_to: None }
    }

    /// Attempts to push a `PacketNumber` returning whether the `PacketNumber` is new and was
    /// successfully pushed.
    ///
    /// The seen packet numbers are kept as ranges of `u64`s, so the largest packet number is kept
    /// like any other and is a duplicate once pushed. (Ranges of `PacketNumber`s, whose increment
    /// wraps the largest round to zero, would end the range of the largest at zero, before it
    /// starts, and such a range holds nothing.)
    ///
    /// # Returns
    /// Whether the packet was pushed successfully.
    pub fn push_packet_number(&mut self, packet_number: PacketNumber) -> (r: bool)
        ensures
            final(self)@ == spec_push(old(self)@, packet_number@),
            r == !old(self)@.seen.contains(packet_number@),
    {
        proof {
            use_type_invariant(&*self);
        }
        let value = packet_number.into_u64();
        let mut seen = diet_new();
        std::mem::swap(&mut seen, &mut self.seen_packet_ranges);
        let inserted = diet_insert(&mut seen, value);
        self.seen_packet_ranges = seen;
        inserted
    }

    /// Takes every packet number up to and including `packet_number` as received from now on,
    /// and drops the seen packet numbers that the split on it leaves on its left.
    pub fn ignore_packets_up_to_including(&mut self, packet_number: PacketNumber)
        ensures
            final(self)@ == spec_ignore(old(self)@, packet_number@),
    {
        proof {
            use_type_invariant(&*self);
        }
        let value = packet_number.into_u64();
        self.forgotten_up_to = Some(
            match self.forgotten_up_to {
                Some(f) => if f.into_u64() < value {
                    packet_number
                } else {
                    f
                },
                None => packet_number,
            },
        );
        let mut seen = diet_new();
        std::mem::swap(&mut seen, &mut self.seen_packet_ranges);
        let (_, greater) = diet_split(&mut seen, value);
        proof {
            assert forall|x: u64| diet_values(greater).contains(x) implies x <= MAX_PACKET_NUMBER by {
                assert(old(self)@.seen.contains(x));
            }
        }
        self.seen_packet_ranges = greater;
    }

    /// Whether the packet number is taken as already received: at or below the bound of an
    /// ignore, or seen (the largest packet number included; see `push_packet_number`).
    pub fn is_duplicate(&self, packet_number: PacketNumber) -> (r: bool)
        ensures
            r == spec_is_duplicate(self@, packet_number@),
    {
        let value = packet_number.into_u64();
        let forgotten = match self.forgotten_up_to {
            Some(f) => value <= f.into_u64(),
            None => false,
        };
        if forgotten {
            true
        } else {
            diet_contains(&self.seen_packet_ranges, value)
        }
    }

    /// The ranges of seen packet numbers in order, each as its first packet number and the one
    /// after its last.
    pub fn received_ranges(&self) -> (r: Vec<(u64, u64)>)
        ensures
            forall|i: int| 0 <= i < r@.len() ==> #[trigger] r@[i].0 < r@[i].1,
            forall|i: int, j: int| 0 <= i < j < r@.len() ==> #[trigger] r@[i].1 <= #[trigger] r@[j].0,
            forall|x: u64| #[trigger] self@.seen.contains(x) <==> exists|i: int|
                0 <= i < r@.len() && #[trigger] r@[i].0 <= x && x < r@[i].1,
    {
        diet_intervals(&self.seen_packet_ranges)
    }

    /// The range of the highest seen packet numbers, if any were seen.
    pub fn highest_range(&self) -> (r: Option<(u64, u64)>)
        ensures
            r is None <==> self@.seen.is_empty(),
            r matches Some(range) ==> range.0 < range.1 && self@.seen.contains(range.0)
                && self@.seen.contains((range.1 - 1) as u64) && !self@.seen.contains(range.1)
                && forall|x: u64| #[trigger] self@.seen.contains(x) && x >= range.0 ==> x < range.1,
    {
        let ranges = diet_intervals(&self.seen_packet_ranges);
        if ranges.len() == 0 {
            proof {
                assert forall|x: u64| !self@.seen.contains(x) by {}
                assert(self@.seen =~= Set::<u64>::empty());
            }
            None
        } else {
            let last = ranges[ranges.len() - 1];
            proof {
                let k = ranges@.len() - 1;
                assert(ranges@[k].0 <= ranges@[k].0 && ranges@[k].0 < ranges@[k].1);
                assert(self@.seen.contains(last.0));
                assert(self@.seen.contains((last.1 - 1) as u64));
                if self@.seen.contains(last.1) {
                    let i = choose|i: int| 0 <= i < ranges@.len() && #[trigger] ranges@[i].0 <= last.1 && last.1 < ranges@[i].1;
                    if i < k {
                        assert(ranges@[i].1 <= ranges@[k].0);
                    }
                }
                assert forall|x: u64| #[trigger] self@.seen.contains(x) && x >= last.0 implies x < last.1 by {
                    let i = choose|i: int| 0 <= i < ranges@.len() && #[trigger] ranges@[i].0 <= x && x < ranges@[i].1;
                    if i < k {
                        assert(ranges@[i].1 <= ranges@[k].0);
                    }
                }
                assert(!self@.seen.is_empty());
            }
            Some(last)
        }
    }
}

/// A pushed packet number is a duplicate.
pub proof fn lemma_pushed_is_duplicate(history: PacketHistoryView, packet_number: u64)
    ensures
        spec_is_duplicate(spec_push(history, packet_number), packet_number),
{
}

/// After ignoring the packet numbers up to one, each of them is a duplicate, and the bound never
/// falls: ignoring up to a lower packet number after a higher one changes which packet numbers
/// are taken as forgotten not at all.
pub proof fn lemma_ignored_are_duplicates(history: PacketHistoryView, bound: u64, packet_number: u64)
    requires
        packet_number <= bound,
    ensures
        spec_is_duplicate(spec_ignore(history, bound), packet_number),
        history.forgotten_up_to matches Some(f) ==> spec_ignore(history, bound).forgotten_up_to->0 >= f,
{
}

/// A seen packet number above the bound of an ignore stays a duplicate, as long as some seen
/// packet number lies below that bound.
pub proof fn lemma_ignore_keeps_seen_above(history: PacketHistoryView, bound: u64, packet_number: u64)
    requires
        history.seen.contains(packet_number),
        packet_number > bound,
        exists|x: u64| #[trigger] history.seen.contains(x) && x < bound,
    ensures
        spec_is_duplicate(spec_ignore(history, bound), packet_number),
{
    let below = history.seen.filter(|x: u64| x < bound);
    let above = history.seen.filter(|x: u64| x > bound);
    let x = choose|x: u64| #[trigger] history.seen.contains(x) && x < bound;
    assert(below.contains(x));
    assert(above.contains(packet_number));
}

/// A call that changes a packet history: pushing a packet number, or ignoring the packet numbers
/// up to and including one.
#[derive(Debug, Clone, Copy, PartialEq, Eq)]
pub enum HistoryEvent {
    Push(u64),
    Ignore(u64),
}

/// The history after one event.
pub open spec fn spec_apply(history: PacketHistoryView, event: HistoryEvent) -> PacketHistoryView {
    match event {
        HistoryEvent::Push(packet_number) => spec_push(history, packet_number),
        HistoryEvent::Ignore(bound) => spec_ignore(history, bound),
    }
}

/// The history after the events, one after another.
pub open spec fn spec_run(history: PacketHistoryView, events: Seq<HistoryEvent>) -> PacketHistoryView
    decreases events.len(),
{
    if events.len() == 0 {
        history
    } else {
        spec_apply(spec_run(history, events.drop_last()), events.last())
    }
}

/// The history of a new `PacketHistory`.
pub open spec fn spec_new_history() -> PacketHistoryView {
    PacketHistoryView { seen: Set::empty(), forgotten_up_to: None }
}

/// Whether one of the events pushes the packet number.
pub open spec fn spec_pushed(events: Seq<HistoryEvent>, packet_number: u64) -> bool {
    exists|i: int| 0 <= i < events.len() && #[trigger] events[i] == HistoryEvent::Push(packet_number)
}

/// Whether one of the events ignores packet numbers up to the packet number or beyond it.
pub open spec fn spec_ignored(events: Seq<HistoryEvent>, packet_number: u64) -> bool {
    exists|i: int| 0 <= i < events.len() && (#[trigger] events[i] matches HistoryEvent::Ignore(bound) && packet_number <= bound)
}

/// Whether one of the events pushes the packet number and only pushes come after it.
pub open spec fn spec_pushed_after_every_ignore(events: Seq<HistoryEvent>, packet_number: u64) -> bool {
    exists|i: int| 0 <= i < events.len() && #[trigger] events[i] == HistoryEvent::Push(packet_number)
        && forall|k: int| i < k < events.len() ==> #[trigger] events[k] is Push
}

/// What a history makes of any run of pushes and ignores from new. A packet number is taken as
/// received only if it was pushed or ignored; it is taken as received whenever it was ignored,
/// and whenever it was pushed after the last ignore. (A packet number pushed before an ignore
/// whose bound lies below it can be dropped by that ignore: when no seen packet number lies below
/// the bound, splitting on it leaves every seen one on the side that is dropped.)
pub proof fn lemma_history_run(events: Seq<HistoryEvent>, packet_number: u64)
    ensures
        spec_is_duplicate(spec_run(spec_new_history(), events), packet_number)
            ==> spec_pushed(events, packet_number) || spec_ignored(events, packet_number),
        spec_ignored(events, packet_number) ==> spec_is_duplicate(spec_run(spec_new_history(), events), packet_number),
        spec_pushed_after_every_ignore(events, packet_number)
            ==> spec_is_duplicate(spec_run(spec_new_history(), events), packet_number),
    decreases events.len(),
{
    let h = spec_run(spec_new_history(), events);
    if events.len() > 0 {
        let init = events.drop_last();
        let last = events.last();
        let n = events.len() - 1;
        lemma_history_run(init, packet_number);
        lemma_history_forgotten(init);
        let before = spec_run(spec_new_history(), init);
        assert(events[n] == last);
        assert forall|i: int| 0 <= i < init.len() implies #[trigger] init[i] == events[i] by {}
        if spec_pushed(init, packet_number) {
            let i = choose|i: int| 0 <= i < init.len() && #[trigger] init[i] == HistoryEvent::Push(packet_number);
            assert(events[i] == init[i]);
        }
        if spec_ignored(init, packet_number) {
            let i = choose|i: int| 0 <= i < init.len()
                && (#[trigger] init[i] matches HistoryEvent::Ignore(bound) && packet_number <= bound);
            assert(events[i] == init[i]);
        }
        if spec_ignored(events, packet_number) && !(last matches HistoryEvent::Ignore(bound) && packet_number <= bound) {
            let i = choose|i: int| 0 <= i < events.len()
                && (#[trigger] events[i] matches HistoryEvent::Ignore(bound) && packet_number <= bound);
            assert(i < n);
            assert(init[i] == events[i]);
        }
        if spec_pushed(events, packet_number) && last != HistoryEvent::Push(packet_number) {
            let i = choose|i: int| 0 <= i < events.len() && #[trigger] events[i] == HistoryEvent::Push(packet_number);
            assert(i < n);
            assert(init[i] == events[i]);
        }
        if spec_pushed_after_every_ignore(events, packet_number) && last != HistoryEvent::Push(packet_number) {
            let i = choose|i: int| 0 <= i < events.len() && #[trigger] events[i] == HistoryEvent::Push(packet_number)
                && forall|k: int| i < k < events.len() ==> #[trigger] events[k] is Push;
            assert(i < n);
            assert(events[n] is Push);
            assert(init[i] == events[i]);
            assert forall|k: int| i < k < init.len() implies #[trigger] init[k] is Push by {
                assert(init[k] == events[k]);
            }
        }
        match last {
            HistoryEvent::Push(p) => {},
            HistoryEvent::Ignore(bound) => {
                let below = before.seen.filter(|x: u64| x < bound);
                let above = before.seen.filter(|x: u64| x > bound);
                assert(h.seen.subset_of(before.seen)) by {
                    assert(below.subset_of(before.seen));
                    assert(above.subset_of(before.seen));
                }
            },
        }
    }
}

/// The bound of a run from new is there exactly when some event ignores, and then it is the
/// highest ignored bound.
proof fn lemma_history_forgotten(events: Seq<HistoryEvent>)
    ensures
        forall|packet_number: u64| (spec_run(spec_new_history(), events).forgotten_up_to matches Some(f) && packet_number <= f)
            <==> #[trigger] spec_ignored(events, packet_number),
    decreases events.len(),
{
    if events.len() > 0 {
        let init = events.drop_last();
        let n = events.len() - 1;
        lemma_history_forgotten(init);
        assert forall|packet_number: u64| (spec_run(spec_new_history(), events).forgotten_up_to matches Some(f) && packet_number <= f)
            <==> #[trigger] spec_ignored(events, packet_number) by {
            if spec_ignored(init, packet_number) {
                let i = choose|i: int| 0 <= i < init.len()
                    && (#[trigger] init[i] matches HistoryEvent::Ignore(bound) && packet_number <= bound);
                assert(events[i] == init[i]);
            }
            if spec_ignored(events, packet_number) && !(events[n] matches HistoryEvent::Ignore(bound) && packet_number <= bound) {
                let i = choose|i: int| 0 <= i < events.len()
                    && (#[trigger] events[i] matches HistoryEvent::Ignore(bound) && packet_number <= bound);
                assert(init[i] == events[i]);
            }
        }
    }
}

} // verus!
