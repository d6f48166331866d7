//! Keeping a buffer of events in the order of the time at which the
//! strategy sees them.
//!
//! A new event goes behind every event of the buffer that is not later than
//! it. Events with the same timestamp therefore stay in the order in which
//! they came: the buffer is what a stable sort of the arrivals would give.

use vstd::prelude::*;
use vstd::multiset::Multiset;
use vstd::seq_lib::*;
use crate::events::{events_view, Event, EventView};
use crate::types::Timestamp;

verus! {

/// Timestamps never go down along the sequence.
pub open spec fn sorted_by_timestamp(s: Seq<EventView>) -> bool {
    forall|i: int, j: int| 0 <= i <= j < s.len() ==> s[i].timestamp() <= s[j].timestamp()
}

/// Where an event of time `ts` goes in the buffer: behind the last event
/// that is not later than it.
pub open spec fn rank(buffer: Seq<EventView>, ts: Timestamp) -> int
    decreases buffer.len(),
{
    if buffer.len() == 0 {
        0
    } else if buffer.last().timestamp() > ts {
        rank(buffer.drop_last(), ts)
    } else {
        buffer.len() as int
    }
}

/// The buffer with one more event, at its rank.
pub open spec fn insert_by_timestamp(buffer: Seq<EventView>, event: EventView) -> Seq<EventView> {
    buffer.insert(rank(buffer, event.timestamp()), event)
}

/// The buffer with more events, each put at its rank, in the order given.
pub open spec fn merge_by_timestamp(buffer: Seq<EventView>, events: Seq<EventView>) -> Seq<
    EventView,
>
    decreases events.len(),
{
    if events.len() == 0 {
        buffer
    } else {
        insert_by_timestamp(merge_by_timestamp(buffer, events.drop_last()), events.last())
    }
}

/// The rank is a place in the buffer; every event from there on is later
/// than `ts`, and the event before it is not.
pub proof fn lemma_rank(buffer: Seq<EventView>, ts: Timestamp)
    ensures
        0 <= rank(buffer, ts) <= buffer.len(),
        forall|i: int| rank(buffer, ts) <= i < buffer.len() ==> buffer[i].timestamp() > ts,
        rank(buffer, ts) > 0 ==> buffer[rank(buffer, ts) - 1].timestamp() <= ts,
    decreases buffer.len(),
{
    if buffer.len() > 0 && buffer.last().timestamp() > ts {
        lemma_rank(buffer.drop_last(), ts);
        assert forall|i: int| rank(buffer, ts) <= i < buffer.len() implies buffer[i].timestamp()
            > ts by {
            if i < buffer.len() - 1 {
                assert(buffer.drop_last()[i] == buffer[i]);
            }
        }
        if rank(buffer, ts) > 0 {
            assert(buffer.drop_last()[rank(buffer, ts) - 1] == buffer[rank(buffer, ts) - 1]);
        }
    }
}

/// Putting an event at its rank keeps a sorted buffer sorted, adds that
/// event and nothing else, and puts it behind the events of its own time.
pub proof fn lemma_insert_by_timestamp(buffer: Seq<EventView>, event: EventView)
    requires
        sorted_by_timestamp(buffer),
    ensures
        sorted_by_timestamp(insert_by_timestamp(buffer, event)),
        insert_by_timestamp(buffer, event).to_multiset() == buffer.to_multiset().insert(event),
        insert_by_timestamp(buffer, event).len() == buffer.len() + 1,
        forall|i: int|
            0 <= i < rank(buffer, event.timestamp()) ==> buffer[i].timestamp()
                <= event.timestamp(),
{
    let k = rank(buffer, event.timestamp());
    lemma_rank(buffer, event.timestamp());
    let r = buffer.insert(k, event);
    assert forall|i: int, j: int| 0 <= i <= j < r.len() implies r[i].timestamp()
        <= r[j].timestamp() by {
        if k > 0 {
            assert(buffer[k - 1].timestamp() <= event.timestamp());
        }
        if i < k && j < k {
            assert(r[i] == buffer[i] && r[j] == buffer[j]);
        } else if i < k && j == k {
            assert(r[i] == buffer[i]);
            assert(buffer[i].timestamp() <= buffer[k - 1].timestamp());
        } else if i < k && j > k {
            assert(r[i] == buffer[i] && r[j] == buffer[j - 1]);
        } else if i == k && j > k {
            assert(r[j] == buffer[j - 1]);
        } else if i > k {
            assert(r[i] == buffer[i - 1] && r[j] == buffer[j - 1]);
        }
    }
    to_multiset_insert(buffer, k, event);
    assert forall|i: int| 0 <= i < k implies buffer[i].timestamp() <= event.timestamp() by {
        assert(buffer[i].timestamp() <= buffer[k - 1].timestamp());
    }
}

/// Merging events into a sorted buffer keeps it sorted and adds those
/// events and nothing else.
pub proof fn lemma_merge_by_timestamp(buffer: Seq<EventView>, events: Seq<EventView>)
    requires
        sorted_by_timestamp(buffer),
    ensures
        sorted_by_timestamp(merge_by_timestamp(buffer, events)),
        merge_by_timestamp(buffer, events).to_multiset() == buffer.to_multiset().add(
            events.to_multiset(),
        ),
        merge_by_timestamp(buffer, events).len() == buffer.len() + events.len(),
    decreases events.len(),
{
    broadcast use group_to_multiset_ensures;

    if events.len() == 0 {
        assert(events.to_multiset() =~= Multiset::empty());
        assert(buffer.to_multiset().add(events.to_multiset()) =~= buffer.to_multiset());
    } else {
        let before = merge_by_timestamp(buffer, events.drop_last());
        lemma_merge_by_timestamp(buffer, events.drop_last());
        lemma_insert_by_timestamp(before, events.last());
        assert(events.drop_last().push(events.last()) =~= events);
        assert(events.to_multiset() == events.drop_last().to_multiset().insert(events.last()));
        assert(merge_by_timestamp(buffer, events).to_multiset() =~= buffer.to_multiset().add(
            events.to_multiset(),
        ));
    }
}

/// Puts an event into the buffer at its rank.
pub fn insert_event(buffer: &mut Vec<Event>, event: Event)
    ensures
        events_view(final(buffer)@) == insert_by_timestamp(events_view(old(buffer)@), event@),
{
    let ts = event.timestamp();
    let ghost before = events_view(buffer@);
    let mut pos: usize = buffer.len();
    assert(before.take(pos as int) =~= before);
    while pos > 0 && buffer[pos - 1].timestamp() > ts
        invariant
            pos <= buffer.len(),
            before == events_view(buffer@),
            rank(before, ts) == rank(before.take(pos as int), ts),
        decreases pos,
    {
        assert(before.take(pos as int).last() == buffer[pos - 1]@);
        assert(before.take(pos as int).drop_last() =~= before.take(pos - 1));
        pos -= 1;
    }
    proof {
        if pos > 0 {
            assert(before.take(pos as int).last() == buffer[pos - 1]@);
        }
    }
    buffer.insert(pos, event);
    assert(events_view(buffer@) =~= before.insert(pos as int, event@));
}

} // verus!
