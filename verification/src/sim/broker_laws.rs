//! What holds of every simulated broker, proved of its model.

use vstd::prelude::*;
use crate::events::EventView;
use crate::decimal::{decimal, lemma_decimal_injective, parse_decimal};
use crate::gateway_router::{CancelOrderRequestView, ExchangeRequestView, NewOrderRequestView};
use crate::market_data::MarketDataEventView;
use crate::sim::broker_model::{
    due, fills, matched, next_id, on_book, position, resting, waiting, BookEntryView,
    BrokerState,
    InternalID, PendingRequestView,
};
use crate::types::{ts_add, ExecutionType, OrderStatus, OrderType, Timestamp};

verus! {

/// `position` finds the first entry with the given number, and finds none
/// only if there is none.
pub proof fn lemma_position(book: Seq<BookEntryView>, id: InternalID)
    ensures
        match position(book, id) {
            Some(i) => 0 <= i < book.len() && book[i].id == id && forall|j: int|
                0 <= j < i ==> book[j].id != id,
            None => forall|j: int| 0 <= j < book.len() ==> book[j].id != id,
        },
    decreases book.len(),
{
    if book.len() > 0 {
        lemma_position(book.drop_last(), id);
        match position(book.drop_last(), id) {
            Some(i) => {
                assert forall|j: int| 0 <= j < i implies book[j].id != id by {
                    assert(book.drop_last()[j].id != id);
                }
                assert(book.drop_last()[i] == book[i]);
            },
            None => {
                assert forall|j: int| 0 <= j < book.len() - 1 implies book[j].id != id by {
                    assert(book.drop_last()[j].id != id);
                }
            },
        }
    }
}

/// Executing a new-order request keeps the broker's state well formed, as
/// long as the order numbers are not used up.
pub proof fn lemma_new_order_keeps_wf(s: BrokerState, request: NewOrderRequestView, ack: Timestamp)
    requires
        s.wf(),
        s.order_ids.len() < u64::MAX,
    ensures
        s.on_new_order_request(request, ack).wf(),
{
    let r = s.on_new_order_request(request, ack);
    if r.order_ids != s.order_ids {
        let id = next_id(s.last_exchange_order_id);
        assert(r.order_ids == s.order_ids.push(request.client_order_id));
        assert(r.open_orders == s.open_orders.push(
            BookEntryView { id, order: s.booked_order(request, ack, id) },
        ));
        assert forall|i: int| 0 <= i < r.open_orders.len() implies (#[trigger] r.open_orders[i]).booked_in(
            r.order_ids,
        ) && r.open_orders[i].order.status == OrderStatus::NEW by {
            if i < s.open_orders.len() {
                assert(s.open_orders[i].booked_in(s.order_ids));
            }
        }
        assert forall|i: int, j: int| 0 <= i < j < r.open_orders.len() implies (
        #[trigger] r.open_orders[i]).id < (#[trigger] r.open_orders[j]).id by {
            assert(s.open_orders[i].booked_in(s.order_ids));
        }
        assert forall|i: int| 0 <= i < r.done_orders.len() implies (#[trigger] r.done_orders[i]).booked_in(
            r.order_ids,
        ) by {
            assert(s.done_orders[i].booked_in(s.order_ids));
        }
    }
}

/// Executing a cancel request keeps the broker's state well formed.
pub proof fn lemma_cancel_keeps_wf(s: BrokerState, request: CancelOrderRequestView, ack: Timestamp)
    requires
        s.wf(),
    ensures
        s.on_cancel_order_request(request, ack).wf(),
{
    let r = s.on_cancel_order_request(request, ack);
    match parse_decimal(request.exchange_order_id) {
        None => {},
        Some(id) => {
            lemma_position(s.open_orders, id);
            match position(s.open_orders, id) {
                None => {},
                Some(k) => {
                    assert(s.open_orders[k].booked_in(s.order_ids));
                    assert(r.open_orders == s.open_orders.remove(k));
                    assert forall|i: int| 0 <= i < r.open_orders.len() implies (
                    #[trigger] r.open_orders[i]).booked_in(r.order_ids)
                        && r.open_orders[i].order.status == OrderStatus::NEW by {
                        if i < k {
                            assert(s.open_orders[i].booked_in(s.order_ids));
                        } else {
                            assert(s.open_orders[i + 1].booked_in(s.order_ids));
                        }
                    }
                    assert forall|i: int, j: int| 0 <= i < j < r.open_orders.len() implies (
                    #[trigger] r.open_orders[i]).id < (#[trigger] r.open_orders[j]).id by {
                        let a = if i < k {
                            i
                        } else {
                            i + 1
                        };
                        let b = if j < k {
                            j
                        } else {
                            j + 1
                        };
                        assert(s.open_orders[a].id < s.open_orders[b].id);
                    }
                    assert forall|i: int| 0 <= i < r.done_orders.len() implies (
                    #[trigger] r.done_orders[i]).booked_in(r.order_ids) && (
                    r.done_orders[i].order.status == OrderStatus::FILLED
                        || r.done_orders[i].order.status == OrderStatus::CANCELED) by {
                        if i < s.done_orders.len() {
                            assert(s.done_orders[i].booked_in(s.order_ids));
                        }
                    }
                },
            }
        },
    }
}

/// Executing a new-order request keeps every order accounted for.
pub proof fn lemma_new_order_keeps_account(
    s: BrokerState,
    request: NewOrderRequestView,
    ack: Timestamp,
)
    requires
        s.wf(),
        s.accounted(),
        s.order_ids.len() < u64::MAX,
    ensures
        s.on_new_order_request(request, ack).accounted(),
{
    let r = s.on_new_order_request(request, ack);
    if r.order_ids != s.order_ids {
        let id = next_id(s.last_exchange_order_id);
        assert(r.open_orders == s.open_orders.push(
            BookEntryView { id, order: s.booked_order(request, ack, id) },
        ));
        assert forall|i: int, j: int|
            0 <= i < r.open_orders.len() && 0 <= j < r.done_orders.len() implies (
        #[trigger] r.open_orders[i]).id != (#[trigger] r.done_orders[j]).id by {
            assert(s.done_orders[j].booked_in(s.order_ids));
            if i < s.open_orders.len() {
                assert(s.open_orders[i].id != s.done_orders[j].id);
            }
        }
        assert forall|n: InternalID| 1 <= n <= r.last_exchange_order_id implies #[trigger] on_book(
            r.open_orders,
            n,
        ) || on_book(r.done_orders, n) by {
            if n == id {
                assert(r.open_orders[s.open_orders.len() as int].id == id);
            } else if on_book(s.open_orders, n) {
                let i = choose|i: int| 0 <= i < s.open_orders.len() && s.open_orders[i].id == n;
                assert(r.open_orders[i].id == n);
            }
        }
    }
}

/// Executing a cancel request keeps every order accounted for.
pub proof fn lemma_cancel_keeps_account(
    s: BrokerState,
    request: CancelOrderRequestView,
    ack: Timestamp,
)
    requires
        s.wf(),
        s.accounted(),
    ensures
        s.on_cancel_order_request(request, ack).accounted(),
{
    let r = s.on_cancel_order_request(request, ack);
    match parse_decimal(request.exchange_order_id) {
        None => {},
        Some(id) => {
            lemma_position(s.open_orders, id);
            match position(s.open_orders, id) {
                None => {},
                Some(k) => {
                    assert(r.open_orders == s.open_orders.remove(k));
                    assert forall|i: int, j: int| 0 <= i < j < r.done_orders.len() implies (
                    #[trigger] r.done_orders[i]).id != (#[trigger] r.done_orders[j]).id by {
                        if j == s.done_orders.len() {
                            assert(s.open_orders[k].id != s.done_orders[i].id);
                        } else {
                            assert(s.done_orders[i].id != s.done_orders[j].id);
                        }
                    }
                    assert forall|i: int, j: int|
                        0 <= i < r.open_orders.len() && 0 <= j < r.done_orders.len() implies (
                    #[trigger] r.open_orders[i]).id != (#[trigger] r.done_orders[j]).id by {
                        let a = if i < k {
                            i
                        } else {
                            i + 1
                        };
                        assert(r.open_orders[i] == s.open_orders[a]);
                        if j == s.done_orders.len() {
                            if a < k {
                                assert(s.open_orders[a].id < s.open_orders[k].id);
                            } else {
                                assert(s.open_orders[k].id < s.open_orders[a].id);
                            }
                        } else {
                            assert(s.open_orders[a].id != s.done_orders[j].id);
                        }
                    }
                    assert forall|n: InternalID|
                        1 <= n <= r.last_exchange_order_id implies #[trigger] on_book(
                        r.open_orders,
                        n,
                    ) || on_book(r.done_orders, n) by {
                        if n == id {
                            assert(r.done_orders[s.done_orders.len() as int].id == id);
                        } else if on_book(s.open_orders, n) {
                            let i = choose|i: int|
                                0 <= i < s.open_orders.len() && s.open_orders[i].id == n;
                            if i < k {
                                assert(r.open_orders[i].id == n);
                            } else {
                                assert(r.open_orders[i - 1].id == n);
                            }
                        } else {
                            assert(on_book(s.done_orders, n));
                            let j = choose|j: int|
                                0 <= j < s.done_orders.len() && s.done_orders[j].id == n;
                            assert(r.done_orders[j].id == n);
                        }
                    }
                },
            }
        },
    }
}

/// Matching the open orders against market data keeps every order
/// accounted for.
pub proof fn lemma_matching_keeps_account(s: BrokerState, md: MarketDataEventView)
    requires
        s.wf(),
        s.accounted(),
    ensures
        s.update_orders_on_md(md).accounted(),
{
    let strict = s.strict_execution;
    let start = BrokerState { open_orders: Seq::empty(), ..s };
    lemma_execute_limit_orders_outcome(start, md, s.open_orders);
    let r = s.update_orders_on_md(md);
    let rest = resting(s.open_orders, md, strict);
    let hit = matched(s.open_orders, md, strict);
    let filled = filled_entries(hit, md.exchange_timestamp());
    assert(r.open_orders =~= rest);
    assert(r.done_orders == s.done_orders + filled);
    lemma_partition(s.open_orders, md, strict);
    assert forall|i: int, j: int| 0 <= i < j < r.done_orders.len() implies (
    #[trigger] r.done_orders[i]).id != (#[trigger] r.done_orders[j]).id by {
        let n = s.done_orders.len();
        if j < n {
            assert(s.done_orders[i].id != s.done_orders[j].id);
        } else if i < n {
            assert(r.done_orders[j].id == hit[j - n].id);
            assert(s.open_orders.contains(hit[j - n]));
            let a = choose|a: int| 0 <= a < s.open_orders.len() && s.open_orders[a] == hit[j - n];
            assert(s.open_orders[a].id != s.done_orders[i].id);
        } else {
            assert(r.done_orders[i].id == hit[i - n].id);
            assert(r.done_orders[j].id == hit[j - n].id);
            assert(hit[i - n].id < hit[j - n].id);
        }
    }
    assert forall|i: int, j: int|
        0 <= i < r.open_orders.len() && 0 <= j < r.done_orders.len() implies (
    #[trigger] r.open_orders[i]).id != (#[trigger] r.done_orders[j]).id by {
        let n = s.done_orders.len();
        assert(s.open_orders.contains(rest[i]));
        let a = choose|a: int| 0 <= a < s.open_orders.len() && s.open_orders[a] == rest[i];
        if j < n {
            assert(s.open_orders[a].id != s.done_orders[j].id);
        } else {
            assert(r.done_orders[j].id == hit[j - n].id);
            assert(s.open_orders.contains(hit[j - n]));
            let b = choose|b: int| 0 <= b < s.open_orders.len() && s.open_orders[b] == hit[j - n];
            lemma_resting_and_matched(s.open_orders, md, strict, rest[i]);
            lemma_resting_and_matched(s.open_orders, md, strict, hit[j - n]);
            assert(rest.contains(rest[i]));
            assert(hit.contains(hit[j - n]));
            if a < b {
                assert(s.open_orders[a].id < s.open_orders[b].id);
            } else if b < a {
                assert(s.open_orders[b].id < s.open_orders[a].id);
            }
        }
    }
    assert forall|n: InternalID| 1 <= n <= r.last_exchange_order_id implies #[trigger] on_book(
        r.open_orders,
        n,
    ) || on_book(r.done_orders, n) by {
        if on_book(s.open_orders, n) {
            let a = choose|a: int| 0 <= a < s.open_orders.len() && s.open_orders[a].id == n;
            let entry = s.open_orders[a];
            assert(s.open_orders.contains(entry));
            lemma_resting_and_matched(s.open_orders, md, strict, entry);
            if fills(entry.order, md, strict) {
                let k = choose|k: int| 0 <= k < hit.len() && hit[k] == entry;
                assert(r.done_orders[s.done_orders.len() + k].id == n);
            } else {
                let k = choose|k: int| 0 <= k < rest.len() && rest[k] == entry;
                assert(r.open_orders[k].id == n);
            }
        } else {
            assert(on_book(s.done_orders, n));
            let j = choose|j: int| 0 <= j < s.done_orders.len() && s.done_orders[j].id == n;
            assert(r.done_orders[j].id == n);
        }
    }
}

/// The orders that market data fills and those that it leaves are orders of
/// the book, each group in the order of the book.
pub proof fn lemma_partition(book: Seq<BookEntryView>, md: MarketDataEventView, strict: bool)
    requires
        forall|i: int, j: int|
            0 <= i < j < book.len() ==> (#[trigger] book[i]).id < (#[trigger] book[j]).id,
    ensures
        forall|i: int|
            0 <= i < resting(book, md, strict).len() ==> book.contains(
                #[trigger] resting(book, md, strict)[i],
            ),
        forall|i: int|
            0 <= i < matched(book, md, strict).len() ==> book.contains(
                #[trigger] matched(book, md, strict)[i],
            ),
        forall|i: int, j: int|
            0 <= i < j < resting(book, md, strict).len() ==> (#[trigger] resting(
                book,
                md,
                strict,
            )[i]).id < (#[trigger] resting(book, md, strict)[j]).id,
        forall|i: int, j: int|
            0 <= i < j < matched(book, md, strict).len() ==> (#[trigger] matched(
                book,
                md,
                strict,
            )[i]).id < (#[trigger] matched(book, md, strict)[j]).id,
    decreases book.len(),
{
    if book.len() > 0 {
        let shorter = book.drop_last();
        assert forall|i: int, j: int| 0 <= i < j < shorter.len() implies (#[trigger] shorter[i]).id
            < (#[trigger] shorter[j]).id by {
            assert(book[i].id < book[j].id);
        }
        lemma_partition(shorter, md, strict);
        let rest = resting(book, md, strict);
        let rest0 = resting(shorter, md, strict);
        let hit = matched(book, md, strict);
        let hit0 = matched(shorter, md, strict);
        let last = book.len() - 1;
        assert(book[last] == book.last());
        assert forall|i: int| 0 <= i < rest.len() implies book.contains(#[trigger] rest[i]) by {
            if i < rest0.len() {
                assert(shorter.contains(rest0[i]));
                let a = choose|a: int| 0 <= a < shorter.len() && shorter[a] == rest0[i];
                assert(book[a] == rest[i]);
            }
        }
        assert forall|i: int| 0 <= i < hit.len() implies book.contains(#[trigger] hit[i]) by {
            if i < hit0.len() {
                assert(shorter.contains(hit0[i]));
                let a = choose|a: int| 0 <= a < shorter.len() && shorter[a] == hit0[i];
                assert(book[a] == hit[i]);
            }
        }
        assert forall|i: int, j: int| 0 <= i < j < rest.len() implies (#[trigger] rest[i]).id < (
        #[trigger] rest[j]).id by {
            if j < rest0.len() {
                assert(rest0[i].id < rest0[j].id);
            } else {
                assert(shorter.contains(rest0[i]));
                let a = choose|a: int| 0 <= a < shorter.len() && shorter[a] == rest0[i];
                assert(book[a].id < book[last].id);
            }
        }
        assert forall|i: int, j: int| 0 <= i < j < hit.len() implies (#[trigger] hit[i]).id < (
        #[trigger] hit[j]).id by {
            if j < hit0.len() {
                assert(hit0[i].id < hit0[j].id);
            } else {
                assert(shorter.contains(hit0[i]));
                let a = choose|a: int| 0 <= a < shorter.len() && shorter[a] == hit0[i];
                assert(book[a].id < book[last].id);
            }
        }
    }
}

/// Exactly one place. In a broker whose orders are accounted for, every
/// number from 1 to the number of the last order accepted is the number of
/// exactly one order, and that order is either open or done.
pub proof fn lemma_exactly_one_place(s: BrokerState, id: InternalID)
    requires
        s.wf(),
        s.accounted(),
        1 <= id <= s.last_exchange_order_id,
    ensures
        on_book(s.open_orders, id) != on_book(s.done_orders, id),
        forall|i: int, j: int|
            0 <= i < j < s.open_orders.len() ==> !(s.open_orders[i].id == id && s.open_orders[j].id
                == id),
        forall|i: int, j: int|
            0 <= i < j < s.done_orders.len() ==> !(s.done_orders[i].id == id && s.done_orders[j].id
                == id),
{
    if on_book(s.open_orders, id) && on_book(s.done_orders, id) {
        let i = choose|i: int| 0 <= i < s.open_orders.len() && s.open_orders[i].id == id;
        let j = choose|j: int| 0 <= j < s.done_orders.len() && s.done_orders[j].id == id;
        assert(s.open_orders[i].id != s.done_orders[j].id);
    }
    assert forall|i: int, j: int| 0 <= i < j < s.open_orders.len() implies !(s.open_orders[i].id
        == id && s.open_orders[j].id == id) by {
        assert(s.open_orders[i].id < s.open_orders[j].id);
    }
    assert forall|i: int, j: int| 0 <= i < j < s.done_orders.len() implies !(s.done_orders[i].id
        == id && s.done_orders[j].id == id) by {
        assert(s.done_orders[i].id != s.done_orders[j].id);
    }
}

/// Holding an order that was taken off the book against market data keeps
/// the broker's state well formed, if the order carries a number that the
/// broker gave out and that is larger than every number on the book.
pub proof fn lemma_execute_limit_order_keeps_wf(
    s: BrokerState,
    md: MarketDataEventView,
    entry: BookEntryView,
)
    requires
        s.wf(),
        entry.booked_in(s.order_ids),
        entry.order.status == OrderStatus::NEW,
        forall|i: int| 0 <= i < s.open_orders.len() ==> (#[trigger] s.open_orders[i]).id < entry.id,
    ensures
        s.execute_limit_order(md, entry).wf(),
        s.execute_limit_order(md, entry).order_ids == s.order_ids,
        forall|i: int|
            0 <= i < s.execute_limit_order(md, entry).open_orders.len() ==> (
            #[trigger] s.execute_limit_order(md, entry).open_orders[i]).id <= entry.id,
{
    let r = s.execute_limit_order(md, entry);
    if fills(entry.order, md, s.strict_execution) {
        assert(r.open_orders == s.open_orders);
        assert forall|i: int| 0 <= i < r.done_orders.len() implies (#[trigger] r.done_orders[i]).booked_in(
            r.order_ids,
        ) && (r.done_orders[i].order.status == OrderStatus::FILLED || r.done_orders[i].order.status
            == OrderStatus::CANCELED) by {
            if i < s.done_orders.len() {
                assert(s.done_orders[i].booked_in(s.order_ids));
            }
        }
    } else {
        assert(r.open_orders == s.open_orders.push(entry));
        assert forall|i: int| 0 <= i < r.open_orders.len() implies (#[trigger] r.open_orders[i]).booked_in(
            r.order_ids,
        ) && r.open_orders[i].order.status == OrderStatus::NEW by {
            if i < s.open_orders.len() {
                assert(s.open_orders[i].booked_in(s.order_ids));
            }
        }
        assert forall|i: int, j: int| 0 <= i < j < r.open_orders.len() implies (
        #[trigger] r.open_orders[i]).id < (#[trigger] r.open_orders[j]).id by {
            if j < s.open_orders.len() {
                assert(s.open_orders[i].id < s.open_orders[j].id);
            } else {
                assert(s.open_orders[i].id < entry.id);
            }
        }
    }
}

/// `later` extends `earlier` by events that are not market data.
pub open spec fn extends_with_answers(earlier: Seq<EventView>, later: Seq<EventView>) -> bool {
    &&& earlier.len() <= later.len()
    &&& forall|i: int| 0 <= i < earlier.len() ==> later[i] == earlier[i]
    &&& forall|i: int| earlier.len() <= i < later.len() ==> !(#[trigger] later[i]).is_market_data()
}

/// Executing a request adds answers and order updates to the buffer of
/// generated events, never market data, and leaves the rest of the buffer
/// and the broker's configuration as they were.
pub proof fn lemma_execute_adds_answers(s: BrokerState, pending: PendingRequestView)
    ensures
        extends_with_answers(s.generated_events, s.execute(pending).generated_events),
        s.execute(pending).same_venue(s),
{
    match pending.exchange_request {
        ExchangeRequestView::NewOrder(request) => {},
        ExchangeRequestView::CancelOrder(request) => {},
    }
}

/// Looking at the pending requests adds answers and order updates to the
/// buffer of generated events, never market data.
pub proof fn lemma_settle_all_adds_answers(
    s: BrokerState,
    requests: Seq<PendingRequestView>,
    ts: Timestamp,
)
    ensures
        extends_with_answers(s.generated_events, s.settle_all(requests, ts).generated_events),
        s.settle_all(requests, ts).same_venue(s),
    decreases requests.len(),
{
    if requests.len() > 0 {
        lemma_settle_all_adds_answers(s, requests.drop_last(), ts);
        lemma_execute_adds_answers(s.settle_all(requests.drop_last(), ts), requests.last());
    }
}

/// Taking requests in leaves the buffer of generated events and the
/// broker's configuration as they were.
pub proof fn lemma_enqueue_all_keeps_events(s: BrokerState, requests: Seq<ExchangeRequestView>)
    ensures
        s.enqueue_all(requests).generated_events == s.generated_events,
        s.enqueue_all(requests).same_venue(s),
        s.enqueue_all(requests).wf() == s.wf(),
    decreases requests.len(),
{
    if requests.len() > 0 {
        lemma_enqueue_all_keeps_events(s, requests.drop_last());
    }
}

/// Matching the open orders adds order updates to the buffer of generated
/// events, never market data.
pub proof fn lemma_execute_limit_orders_adds_answers(
    s: BrokerState,
    md: MarketDataEventView,
    entries: Seq<BookEntryView>,
)
    ensures
        extends_with_answers(
            s.generated_events,
            s.execute_limit_orders(md, entries).generated_events,
        ),
        s.execute_limit_orders(md, entries).same_venue(s),
    decreases entries.len(),
{
    if entries.len() > 0 {
        lemma_execute_limit_orders_adds_answers(s, md, entries.drop_last());
    }
}

/// A tick without market data hands out answers and order updates only.
pub proof fn lemma_timestamp_tick_events(
    s: BrokerState,
    incoming: Seq<ExchangeRequestView>,
    ts: Timestamp,
)
    ensures
        extends_with_answers(s.generated_events, s.after_timestamp(incoming, ts).generated_events),
        s.after_timestamp(incoming, ts).same_venue(s),
{
    let s0 = BrokerState { last_ts: ts, ..s };
    lemma_enqueue_all_keeps_events(s0, incoming);
    let s1 = s0.enqueue_all(incoming);
    lemma_settle_all_adds_answers(
        BrokerState { pending_requests: Seq::empty(), ..s1 },
        s1.pending_requests,
        ts,
    );
}

/// A tick with market data hands out the forwarded market data first, stamped
/// with the venue time plus the wire latency, and after it answers and
/// order updates only.
pub proof fn lemma_market_data_tick_events(
    s: BrokerState,
    incoming: Seq<ExchangeRequestView>,
    md: MarketDataEventView,
)
    ensures
        extends_with_answers(
            s.generated_events.push(s.forwarded(md)),
            s.after_market_data(incoming, md).generated_events,
        ),
        s.after_market_data(incoming, md).same_venue(s),
{
    let s0 = BrokerState { last_ts: md.exchange_timestamp(), ..s }.add_generated_event(
        s.forwarded(md),
    );
    lemma_enqueue_all_keeps_events(s0, incoming);
    let s1 = s0.enqueue_all(incoming);
    lemma_settle_all_adds_answers(
        BrokerState { pending_requests: Seq::empty(), ..s1 },
        s1.pending_requests,
        md.exchange_timestamp(),
    );
    let s2 = s1.execute_requests_after_ts(md.exchange_timestamp());
    lemma_execute_limit_orders_adds_answers(
        BrokerState { open_orders: Seq::empty(), ..s2 },
        md,
        s2.open_orders,
    );
}

/// Executing a request neither reads nor changes the queue of pending
/// requests.
pub proof fn lemma_execute_keeps_queue(
    s: BrokerState,
    pending: PendingRequestView,
    queue: Seq<PendingRequestView>,
)
    ensures
        s.execute(pending).pending_requests == s.pending_requests,
        (BrokerState { pending_requests: queue, ..s }).execute(pending) == (BrokerState {
            pending_requests: queue,
            ..s.execute(pending)
        }),
{
    match pending.exchange_request {
        ExchangeRequestView::NewOrder(request) => {},
        ExchangeRequestView::CancelOrder(request) => {},
    }
}

/// What looking at the pending requests comes to: the requests whose time
/// has come at `ts` are executed, in arrival order, and the others go to
/// the end of the queue, in arrival order.
pub proof fn lemma_settle_all_outcome(
    s: BrokerState,
    requests: Seq<PendingRequestView>,
    ts: Timestamp,
)
    ensures
        s.settle_all(requests, ts) == (BrokerState {
            pending_requests: s.pending_requests + waiting(requests, ts),
            ..s.execute_all(due(requests, ts))
        }),
    decreases requests.len(),
{
    if requests.len() == 0 {
        assert(s.pending_requests + waiting(requests, ts) =~= s.pending_requests);
    } else {
        let shorter = requests.drop_last();
        let last = requests.last();
        lemma_settle_all_outcome(s, shorter, ts);
        let executed = s.execute_all(due(shorter, ts));
        let queue = s.pending_requests + waiting(shorter, ts);
        let before = s.settle_all(shorter, ts);
        assert(before == (BrokerState { pending_requests: queue, ..executed }));
        lemma_execute_all_keeps_queue(s, due(shorter, ts));
        if last.ack_timestamp <= ts {
            lemma_execute_keeps_queue(executed, last, queue);
            assert(due(requests, ts).drop_last() =~= due(shorter, ts));
            assert(due(requests, ts).last() == last);
            assert(waiting(requests, ts) == waiting(shorter, ts));
        } else {
            assert(queue.push(last) =~= s.pending_requests + waiting(requests, ts));
        }
    }
}

/// Executing requests leaves the queue of pending requests as it is.
pub proof fn lemma_execute_all_keeps_queue(s: BrokerState, requests: Seq<PendingRequestView>)
    ensures
        s.execute_all(requests).pending_requests == s.pending_requests,
    decreases requests.len(),
{
    if requests.len() > 0 {
        lemma_execute_all_keeps_queue(s, requests.drop_last());
        lemma_execute_keeps_queue(
            s.execute_all(requests.drop_last()),
            requests.last(),
            Seq::empty(),
        );
    }
}

/// Requests wait for their time. At a tick of time `ts` the broker executes
/// the pending requests whose time has come, `due(.., ts)`, in arrival
/// order, and keeps the others, `waiting(.., ts)`, in arrival order: what
/// it generates is what executing the former generates.
pub proof fn lemma_requests_wait_for_their_time(s: BrokerState, ts: Timestamp)
    ensures
        s.execute_requests_after_ts(ts) == (BrokerState {
            pending_requests: waiting(s.pending_requests, ts),
            ..(BrokerState { pending_requests: Seq::empty(), ..s }).execute_all(
                due(s.pending_requests, ts),
            )
        }),
        s.execute_requests_after_ts(ts).pending_requests == waiting(s.pending_requests, ts),
{
    let base = BrokerState { pending_requests: Seq::empty(), ..s };
    lemma_settle_all_outcome(base, s.pending_requests, ts);
    assert(base.pending_requests + waiting(s.pending_requests, ts) =~= waiting(
        s.pending_requests,
        ts,
    ));
}

/// A pending request over one tick. A request that is pending when a tick
/// of time `ts` begins is still pending after the tick if its time has not
/// come, whatever arrives with the tick; if its time has come it is among
/// the requests that the tick executes. So a request is executed at the
/// first tick whose time is not before the request reached the venue.
pub proof fn lemma_pending_request_over_a_tick(
    s: BrokerState,
    incoming: Seq<ExchangeRequestView>,
    ts: Timestamp,
    request: PendingRequestView,
)
    requires
        s.pending_requests.contains(request),
    ensures
        ({
            let queue = (BrokerState { last_ts: ts, ..s }).enqueue_all(incoming).pending_requests;
            &&& queue.contains(request)
            &&& s.after_timestamp(incoming, ts).pending_requests == waiting(queue, ts)
            &&& request.ack_timestamp > ts ==> s.after_timestamp(
                incoming,
                ts,
            ).pending_requests.contains(request) && !due(queue, ts).contains(request)
            &&& request.ack_timestamp <= ts ==> due(queue, ts).contains(request)
        }),
{
    let s0 = BrokerState { last_ts: ts, ..s };
    lemma_enqueue_all_pending(s0, incoming);
    let s1 = s0.enqueue_all(incoming);
    let queue = s1.pending_requests;
    let i = choose|i: int| 0 <= i < s.pending_requests.len() && s.pending_requests[i] == request;
    assert(queue[i] == request);
    lemma_requests_wait_for_their_time(s1, ts);
    lemma_due_and_waiting(queue, ts, request);
}

/// A request is among those that wait at `ts` exactly if it is pending and
/// its time has not come, and among those that are due exactly if it is
/// pending and its time has come.
pub proof fn lemma_due_and_waiting(
    pending: Seq<PendingRequestView>,
    ts: Timestamp,
    request: PendingRequestView,
)
    ensures
        waiting(pending, ts).contains(request) <==> pending.contains(request)
            && request.ack_timestamp > ts,
        due(pending, ts).contains(request) <==> pending.contains(request) && request.ack_timestamp
            <= ts,
    decreases pending.len(),
{
    if pending.len() > 0 {
        lemma_due_and_waiting(pending.drop_last(), ts, request);
        let rest = waiting(pending, ts);
        let rest_before = waiting(pending.drop_last(), ts);
        let hit = due(pending, ts);
        let hit_before = due(pending.drop_last(), ts);
        if pending.contains(request) {
            let i = choose|i: int| 0 <= i < pending.len() && pending[i] == request;
            if i < pending.len() - 1 {
                assert(pending.drop_last()[i] == request);
            }
        }
        if pending.drop_last().contains(request) {
            let i = choose|i: int|
                0 <= i < pending.drop_last().len() && pending.drop_last()[i] == request;
            assert(pending[i] == request);
        }
        assert(pending[pending.len() - 1] == pending.last());
        if rest.contains(request) {
            let i = choose|i: int| 0 <= i < rest.len() && rest[i] == request;
            if i < rest_before.len() {
                assert(rest_before[i] == request);
            }
        }
        if rest_before.contains(request) {
            let i = choose|i: int| 0 <= i < rest_before.len() && rest_before[i] == request;
            assert(rest[i] == request);
        }
        if hit.contains(request) {
            let i = choose|i: int| 0 <= i < hit.len() && hit[i] == request;
            if i < hit_before.len() {
                assert(hit_before[i] == request);
            }
        }
        if hit_before.contains(request) {
            let i = choose|i: int| 0 <= i < hit_before.len() && hit_before[i] == request;
            assert(hit[i] == request);
        }
        if pending.last().ack_timestamp > ts {
            assert(rest[rest.len() - 1] == pending.last());
        } else {
            assert(hit[hit.len() - 1] == pending.last());
        }
    }
}

/// What a request is answered with is dated by the request: every event
/// that its execution generates carries the time at which the request
/// reached the venue plus the internal latency plus the wire latency.
pub proof fn lemma_execute_dates(s: BrokerState, pending: PendingRequestView, k: int)
    requires
        s.generated_events.len() <= k < s.execute(pending).generated_events.len(),
    ensures
        s.execute(pending).generated_events[k].timestamp() == s.visible_ts(
            s.venue_ts(pending.ack_timestamp),
        ),
{
    match pending.exchange_request {
        ExchangeRequestView::NewOrder(request) => {},
        ExchangeRequestView::CancelOrder(request) => {},
    }
}

/// Whether none of the requests whose time has come at `ts` is answered
/// with a date before `floor`.
pub open spec fn answered_from(
    s: BrokerState,
    requests: Seq<PendingRequestView>,
    ts: Timestamp,
    floor: Timestamp,
) -> bool {
    forall|j: int|
        0 <= j < requests.len() && (#[trigger] requests[j]).ack_timestamp <= ts ==> s.visible_ts(
            s.venue_ts(requests[j].ack_timestamp),
        ) >= floor
}

/// Whether every event from `from` on is dated at `floor` or later.
pub open spec fn events_dated_from(events: Seq<EventView>, from: int, floor: Timestamp) -> bool {
    forall|k: int| from <= k < events.len() ==> (#[trigger] events[k]).timestamp() >= floor
}

/// The dates of the answers. If none of the requests whose time has come is
/// answered with a date before `floor`, then nothing that the broker
/// generates while it looks at the requests is dated before `floor`.
pub proof fn lemma_settle_all_dates(
    s: BrokerState,
    requests: Seq<PendingRequestView>,
    ts: Timestamp,
    floor: Timestamp,
)
    requires
        answered_from(s, requests, ts, floor),
    ensures
        events_dated_from(
            s.settle_all(requests, ts).generated_events,
            s.generated_events.len() as int,
            floor,
        ),
    decreases requests.len(),
{
    if requests.len() > 0 {
        let before = s.settle_all(requests.drop_last(), ts);
        let after = s.settle_all(requests, ts);
        assert(answered_from(s, requests.drop_last(), ts, floor)) by {
            assert forall|j: int|
                0 <= j < requests.drop_last().len() && (
                #[trigger] requests.drop_last()[j]).ack_timestamp <= ts implies s.visible_ts(
                s.venue_ts(requests.drop_last()[j].ack_timestamp),
            ) >= floor by {
                assert(requests[j] == requests.drop_last()[j]);
            }
        }
        lemma_settle_all_dates(s, requests.drop_last(), ts, floor);
        lemma_settle_all_adds_answers(s, requests.drop_last(), ts);
        assert forall|k: int| s.generated_events.len() <= k < after.generated_events.len() implies (
        #[trigger] after.generated_events[k]).timestamp() >= floor by {
            if requests.last().ack_timestamp <= ts {
                lemma_execute_adds_answers(before, requests.last());
                if k >= before.generated_events.len() {
                    lemma_execute_dates(before, requests.last(), k);
                    assert(requests[requests.len() - 1] == requests.last());
                } else {
                    assert(after.generated_events[k] == before.generated_events[k]);
                }
            }
        }
    }
}

/// What taking requests in adds to the queue: each request in the order of
/// its arrival, due at its creation time plus the wire latency.
pub proof fn lemma_enqueue_all_pending(s: BrokerState, requests: Seq<ExchangeRequestView>)
    ensures
        s.enqueue_all(requests).pending_requests.len() == s.pending_requests.len() + requests.len(),
        forall|i: int|
            0 <= i < s.pending_requests.len() ==> s.enqueue_all(requests).pending_requests[i]
                == s.pending_requests[i],
        forall|i: int|
            0 <= i < requests.len() ==> (#[trigger] s.enqueue_all(
                requests,
            ).pending_requests[s.pending_requests.len() + i]).exchange_request == requests[i]
                && s.enqueue_all(requests).pending_requests[s.pending_requests.len()
                + i].ack_timestamp == ts_add(requests[i].creation_ts(), s.wire_latency),
    decreases requests.len(),
{
    if requests.len() > 0 {
        lemma_enqueue_all_pending(s, requests.drop_last());
        lemma_enqueue_all_keeps_events(s, requests.drop_last());
        let before = s.enqueue_all(requests.drop_last());
        let after = s.enqueue_all(requests);
        assert forall|i: int| 0 <= i < requests.len() implies (
        #[trigger] after.pending_requests[s.pending_requests.len() + i]).exchange_request
            == requests[i] && after.pending_requests[s.pending_requests.len() + i].ack_timestamp
            == ts_add(requests[i].creation_ts(), s.wire_latency) by {
            if i < requests.len() - 1 {
                assert(after.pending_requests[s.pending_requests.len() + i]
                    == before.pending_requests[s.pending_requests.len() + i]);
                assert(requests.drop_last()[i] == requests[i]);
            }
        }
    }
}

/// The dates of a tick. Let `floor` be no later than the time at which the
/// strategy sees the market data of the tick, and let no request that is
/// executed at the tick, whether it waited at the broker or arrives with
/// the tick, be answered with a date before `floor`: its creation time
/// plus the wire latency, the internal latency and the wire latency again.
/// Then nothing that the tick generates is dated before `floor`.
pub proof fn lemma_market_data_tick_dates(
    s: BrokerState,
    incoming: Seq<ExchangeRequestView>,
    md: MarketDataEventView,
    floor: Timestamp,
)
    requires
        s.market_data_timestamp(md) >= floor,
        answered_from(s, s.pending_requests, md.exchange_timestamp(), floor),
        forall|i: int|
            0 <= i < incoming.len() && ts_add(
                (#[trigger] incoming[i]).creation_ts(),
                s.wire_latency,
            ) <= md.exchange_timestamp() ==> s.visible_ts(
                s.venue_ts(ts_add(incoming[i].creation_ts(), s.wire_latency)),
            ) >= floor,
    ensures
        events_dated_from(
            s.after_market_data(incoming, md).generated_events,
            s.generated_events.len() as int,
            floor,
        ),
{
    let ts = md.exchange_timestamp();
    let s0 = BrokerState { last_ts: ts, ..s }.add_generated_event(s.forwarded(md));
    lemma_enqueue_all_keeps_events(s0, incoming);
    lemma_enqueue_all_pending(s0, incoming);
    let s1 = s0.enqueue_all(incoming);
    let base = BrokerState { pending_requests: Seq::empty(), ..s1 };
    assert(answered_from(base, s1.pending_requests, ts, floor)) by {
        assert forall|j: int|
            0 <= j < s1.pending_requests.len() && (#[trigger] s1.pending_requests[j]).ack_timestamp
                <= ts implies base.visible_ts(base.venue_ts(s1.pending_requests[j].ack_timestamp))
            >= floor by {
            if j < s.pending_requests.len() {
                assert(s1.pending_requests[j] == s.pending_requests[j]);
            } else {
                let i = j - s.pending_requests.len();
                assert(s1.pending_requests[s0.pending_requests.len() + i].ack_timestamp == ts_add(
                    incoming[i].creation_ts(),
                    s.wire_latency,
                ));
            }
        }
    }
    lemma_settle_all_dates(base, s1.pending_requests, ts, floor);
    lemma_settle_all_adds_answers(base, s1.pending_requests, ts);
    let s2 = s1.execute_requests_after_ts(ts);
    let start = BrokerState { open_orders: Seq::empty(), ..s2 };
    lemma_execute_limit_orders_adds_answers(start, md, s2.open_orders);
    let after = s.after_market_data(incoming, md);
    assert forall|k: int| s.generated_events.len() <= k < after.generated_events.len() implies (
    #[trigger] after.generated_events[k]).timestamp() >= floor by {
        if k < s2.generated_events.len() {
            assert(after.generated_events[k] == s2.generated_events[k]);
            if k < s0.generated_events.len() {
                assert(s2.generated_events[k] == s0.generated_events[k]);
                assert(s0.generated_events[k] == s.forwarded(md));
            }
        } else {
            lemma_fills_come_from_matches(start, md, s2.open_orders, k);
            lemma_fill_dates(start, md, s2.open_orders, k);
        }
    }
}

/// The dates of a tick without market data: as `lemma_market_data_tick_dates`.
pub proof fn lemma_timestamp_tick_dates(
    s: BrokerState,
    incoming: Seq<ExchangeRequestView>,
    ts: Timestamp,
    floor: Timestamp,
)
    requires
        answered_from(s, s.pending_requests, ts, floor),
        forall|i: int|
            0 <= i < incoming.len() && ts_add(
                (#[trigger] incoming[i]).creation_ts(),
                s.wire_latency,
            ) <= ts ==> s.visible_ts(
                s.venue_ts(ts_add(incoming[i].creation_ts(), s.wire_latency)),
            ) >= floor,
    ensures
        events_dated_from(
            s.after_timestamp(incoming, ts).generated_events,
            s.generated_events.len() as int,
            floor,
        ),
{
    let s0 = BrokerState { last_ts: ts, ..s };
    lemma_enqueue_all_keeps_events(s0, incoming);
    lemma_enqueue_all_pending(s0, incoming);
    let s1 = s0.enqueue_all(incoming);
    let base = BrokerState { pending_requests: Seq::empty(), ..s1 };
    assert(answered_from(base, s1.pending_requests, ts, floor)) by {
        assert forall|j: int|
            0 <= j < s1.pending_requests.len() && (#[trigger] s1.pending_requests[j]).ack_timestamp
                <= ts implies base.visible_ts(base.venue_ts(s1.pending_requests[j].ack_timestamp))
            >= floor by {
            if j < s.pending_requests.len() {
                assert(s1.pending_requests[j] == s.pending_requests[j]);
            } else {
                let i = j - s.pending_requests.len();
                assert(s1.pending_requests[s0.pending_requests.len() + i].ack_timestamp == ts_add(
                    incoming[i].creation_ts(),
                    s.wire_latency,
                ));
            }
        }
    }
    lemma_settle_all_dates(base, s1.pending_requests, ts, floor);
}

/// A fill is dated by the market data that fills: every event that the
/// broker generates while it holds orders against market data carries the
/// venue time of the market data plus the internal latency plus the wire
/// latency, which is not before the strategy sees the market data itself.
pub proof fn lemma_fill_dates(
    s: BrokerState,
    md: MarketDataEventView,
    entries: Seq<BookEntryView>,
    k: int,
)
    requires
        s.generated_events.len() <= k < s.execute_limit_orders(md, entries).generated_events.len(),
    ensures
        s.execute_limit_orders(md, entries).generated_events[k].timestamp() == s.visible_ts(
            s.venue_ts(md.exchange_timestamp()),
        ),
        s.execute_limit_orders(md, entries).generated_events[k].timestamp()
            >= s.market_data_timestamp(md),
    decreases entries.len(),
{
    let before = s.execute_limit_orders(md, entries.drop_last());
    lemma_execute_limit_orders_adds_answers(s, md, entries.drop_last());
    if k < before.generated_events.len() {
        lemma_fill_dates(s, md, entries.drop_last(), k);
    }
}

/// Whether the event is the fill of an order.
pub open spec fn is_fill(event: EventView) -> bool {
    match event {
        EventView::UDSOrderUpdate(update) => update.execution_type == ExecutionType::TRADE,
        _ => false,
    }
}

/// Whether the event acknowledges the new-order request `request`, which
/// reached the venue at `ack`, from a venue of the latencies of `s`.
pub open spec fn acknowledges(
    event: EventView,
    s: BrokerState,
    request: NewOrderRequestView,
    ack: Timestamp,
) -> bool {
    match event {
        EventView::ResponseNewOrderAccepted(accepted) => {
            &&& accepted.request_id == Some(request.request_id)
            &&& accepted.client_order_id == request.client_order_id
            &&& accepted.exchange_timestamp == ts_add(ack, s.internal_latency)
            &&& accepted.timestamp == ts_add(ts_add(ack, s.internal_latency), s.wire_latency)
        },
        _ => false,
    }
}

/// Causality of one request. The acknowledgment of a new order is stamped by
/// the request alone: the strategy sees it at the creation time of the
/// request plus the wire latency to the venue, plus the internal latency,
/// plus the wire latency back, whenever the broker gets to execute it.
pub proof fn lemma_acknowledgment_timing(s: BrokerState, request: NewOrderRequestView)
    requires
        !s.knows_client_order_id(request.client_order_id),
    ensures
        ({
            let pending = s.wrap_request(ExchangeRequestView::NewOrder(request));
            let after = s.execute(pending);
            let event = after.generated_events[s.generated_events.len() as int];
            &&& after.generated_events.len() == s.generated_events.len() + 2
            &&& acknowledges(event, s, request, pending.ack_timestamp)
            &&& pending.ack_timestamp == ts_add(request.creation_ts, s.wire_latency)
            &&& event.timestamp() >= request.creation_ts
            &&& request.creation_ts + 2 * s.wire_latency + s.internal_latency <= u64::MAX
                ==> event.timestamp() == request.creation_ts + 2 * s.wire_latency
                + s.internal_latency
        }),
{
}

/// Causality of a tick. Every acknowledgment of a new order that the broker
/// generates while it looks at its pending requests answers one of those
/// requests whose time has come, and is stamped with the time at which that
/// request reached the venue plus the internal latency plus the wire
/// latency.
pub proof fn lemma_acknowledgments_answer_requests(
    s: BrokerState,
    requests: Seq<PendingRequestView>,
    ts: Timestamp,
    k: int,
)
    requires
        s.generated_events.len() <= k < s.settle_all(requests, ts).generated_events.len(),
        s.settle_all(requests, ts).generated_events[k] is ResponseNewOrderAccepted,
    ensures
        exists|j: int|
            0 <= j < requests.len() && (#[trigger] requests[j]).ack_timestamp <= ts && (
            requests[j].exchange_request matches ExchangeRequestView::NewOrder(request)
                && acknowledges(
                s.settle_all(requests, ts).generated_events[k],
                s,
                request,
                requests[j].ack_timestamp,
            )),
    decreases requests.len(),
{
    let before = s.settle_all(requests.drop_last(), ts);
    let after = s.settle_all(requests, ts);
    lemma_settle_all_adds_answers(s, requests.drop_last(), ts);
    if k < before.generated_events.len() {
        assert(after.generated_events[k] == before.generated_events[k]) by {
            if requests.last().ack_timestamp <= ts {
                lemma_execute_adds_answers(before, requests.last());
            }
        }
        lemma_acknowledgments_answer_requests(s, requests.drop_last(), ts, k);
        let j = choose|j: int|
            0 <= j < requests.drop_last().len() && (#[trigger] requests.drop_last()[j]).ack_timestamp
                <= ts && (requests.drop_last()[j].exchange_request matches ExchangeRequestView::NewOrder(
                request,
            ) && acknowledges(
                before.generated_events[k],
                s,
                request,
                requests.drop_last()[j].ack_timestamp,
            ));
        assert(requests[j] == requests.drop_last()[j]);
    } else {
        let last = requests.len() - 1;
        assert(requests[last] == requests.last());
        assert(requests.last().ack_timestamp <= ts);
        match requests.last().exchange_request {
            ExchangeRequestView::NewOrder(request) => {
                assert(acknowledges(
                    after.generated_events[k],
                    s,
                    request,
                    requests[last].ack_timestamp,
                ));
            },
            ExchangeRequestView::CancelOrder(request) => {},
        }
    }
}

/// Executing a request generates no fill.
pub proof fn lemma_execute_generates_no_fill(s: BrokerState, pending: PendingRequestView, k: int)
    requires
        s.generated_events.len() <= k < s.execute(pending).generated_events.len(),
    ensures
        !is_fill(s.execute(pending).generated_events[k]),
{
    match pending.exchange_request {
        ExchangeRequestView::NewOrder(request) => {},
        ExchangeRequestView::CancelOrder(request) => {},
    }
}

/// Looking at the pending requests generates no fill.
pub proof fn lemma_settle_all_generates_no_fill(
    s: BrokerState,
    requests: Seq<PendingRequestView>,
    ts: Timestamp,
    k: int,
)
    requires
        s.generated_events.len() <= k < s.settle_all(requests, ts).generated_events.len(),
    ensures
        !is_fill(s.settle_all(requests, ts).generated_events[k]),
    decreases requests.len(),
{
    let before = s.settle_all(requests.drop_last(), ts);
    lemma_settle_all_adds_answers(s, requests.drop_last(), ts);
    if requests.last().ack_timestamp <= ts {
        lemma_execute_adds_answers(before, requests.last());
    }
    if k < before.generated_events.len() {
        lemma_settle_all_generates_no_fill(s, requests.drop_last(), ts, k);
    } else {
        lemma_execute_generates_no_fill(before, requests.last(), k);
    }
}

/// Whether the event is the fill of the book entry by market data of venue
/// time `md_ts`: in full, at the price of the order.
pub open spec fn fills_entry(event: EventView, entry: BookEntryView, md_ts: Timestamp) -> bool {
    match event {
        EventView::UDSOrderUpdate(update) => {
            &&& update.execution_type == ExecutionType::TRADE
            &&& update.order_status == OrderStatus::FILLED
            &&& update.exchange_order_id == entry.order.exchange_order_id
            &&& update.client_order_id == Some(entry.order.client_order_id)
            &&& update.last_filled_qty == Some(entry.order.quantity)
            &&& update.accumulated_filled_qty == Some(entry.order.quantity)
            &&& update.last_filled_price == entry.order.price
            &&& update.average_price == entry.order.price
            &&& update.last_trade_time == Some(md_ts)
        },
        _ => false,
    }
}

/// No look-ahead fills, for a run of orders. Every event that the broker
/// generates while it holds orders against market data is the fill of one
/// of those orders, and the market data fills that order: it is a LIMIT
/// order of the instrument, its price is crossed, and it was created no
/// later than the venue produced the market data.
pub proof fn lemma_fills_come_from_matches(
    s: BrokerState,
    md: MarketDataEventView,
    entries: Seq<BookEntryView>,
    k: int,
)
    requires
        s.generated_events.len() <= k < s.execute_limit_orders(md, entries).generated_events.len(),
    ensures
        exists|j: int|
            0 <= j < entries.len() && fills((#[trigger] entries[j]).order, md, s.strict_execution)
                && entries[j].order.create_ts <= md.exchange_timestamp() && fills_entry(
                s.execute_limit_orders(md, entries).generated_events[k],
                entries[j],
                md.exchange_timestamp(),
            ),
    decreases entries.len(),
{
    let before = s.execute_limit_orders(md, entries.drop_last());
    let after = s.execute_limit_orders(md, entries);
    lemma_execute_limit_orders_adds_answers(s, md, entries.drop_last());
    if k < before.generated_events.len() {
        lemma_fills_come_from_matches(s, md, entries.drop_last(), k);
        let j = choose|j: int|
            0 <= j < entries.drop_last().len() && fills(
                (#[trigger] entries.drop_last()[j]).order,
                md,
                s.strict_execution,
            ) && entries.drop_last()[j].order.create_ts <= md.exchange_timestamp() && fills_entry(
                before.generated_events[k],
                entries.drop_last()[j],
                md.exchange_timestamp(),
            );
        assert(entries[j] == entries.drop_last()[j]);
    } else {
        let last = entries.len() - 1;
        assert(entries[last] == entries.last());
        assert(fills(entries[last].order, md, s.strict_execution));
        assert(fills_entry(after.generated_events[k], entries[last], md.exchange_timestamp()));
    }
}

/// No look-ahead fills. Every fill that a tick with market data generates
/// is the fill of an order that was open when the open orders were matched,
/// and that order was created no later than the venue produced the market
/// data.
pub proof fn lemma_no_look_ahead_fills(
    s: BrokerState,
    incoming: Seq<ExchangeRequestView>,
    md: MarketDataEventView,
    k: int,
)
    requires
        s.generated_events.len() <= k < s.after_market_data(incoming, md).generated_events.len(),
        is_fill(s.after_market_data(incoming, md).generated_events[k]),
    ensures
        ({
            let book = s.before_matching(incoming, md).open_orders;
            exists|j: int|
                0 <= j < book.len() && fills((#[trigger] book[j]).order, md, s.strict_execution)
                    && book[j].order.create_ts <= md.exchange_timestamp() && fills_entry(
                    s.after_market_data(incoming, md).generated_events[k],
                    book[j],
                    md.exchange_timestamp(),
                )
        }),
{
    let s0 = BrokerState { last_ts: md.exchange_timestamp(), ..s }.add_generated_event(
        s.forwarded(md),
    );
    lemma_enqueue_all_keeps_events(s0, incoming);
    let s1 = s0.enqueue_all(incoming);
    let base = BrokerState { pending_requests: Seq::empty(), ..s1 };
    lemma_settle_all_adds_answers(base, s1.pending_requests, md.exchange_timestamp());
    let s2 = s1.execute_requests_after_ts(md.exchange_timestamp());
    assert(s2 == s.before_matching(incoming, md));
    let start = BrokerState { open_orders: Seq::empty(), ..s2 };
    lemma_execute_limit_orders_adds_answers(start, md, s2.open_orders);
    let after = s.after_market_data(incoming, md);
    if k < s2.generated_events.len() {
        assert(after.generated_events[k] == s2.generated_events[k]);
        if k < s0.generated_events.len() {
            assert(s2.generated_events[k] == s0.generated_events[k]);
            assert(s0.generated_events[k] == s.forwarded(md));
        } else {
            lemma_settle_all_generates_no_fill(
                base,
                s1.pending_requests,
                md.exchange_timestamp(),
                k,
            );
        }
    } else {
        lemma_fills_come_from_matches(start, md, s2.open_orders, k);
    }
}

/// The book entries as they are once market data of venue time `md_ts`
/// filled them.
pub open spec fn filled_entries(entries: Seq<BookEntryView>, md_ts: Timestamp) -> Seq<BookEntryView> {
    Seq::new(
        entries.len(),
        |i: int| BookEntryView { id: entries[i].id, order: entries[i].order.filled(md_ts) },
    )
}

/// What holding a run of orders against market data comes to: the orders
/// that the market data does not fill go to the end of the book, in their
/// order; the others join the done orders, filled, in their order, with one
/// generated event each.
pub proof fn lemma_execute_limit_orders_outcome(
    s: BrokerState,
    md: MarketDataEventView,
    entries: Seq<BookEntryView>,
)
    ensures
        ({
            let after = s.execute_limit_orders(md, entries);
            &&& after.open_orders == s.open_orders + resting(entries, md, s.strict_execution)
            &&& after.done_orders == s.done_orders + filled_entries(
                matched(entries, md, s.strict_execution),
                md.exchange_timestamp(),
            )
            &&& after.generated_events.len() == s.generated_events.len() + matched(
                entries,
                md,
                s.strict_execution,
            ).len()
            &&& after.order_ids == s.order_ids
            &&& after.last_exchange_order_id == s.last_exchange_order_id
            &&& after.pending_requests == s.pending_requests
        }),
    decreases entries.len(),
{
    let strict = s.strict_execution;
    let md_ts = md.exchange_timestamp();
    if entries.len() == 0 {
        assert(s.open_orders + resting(entries, md, strict) =~= s.open_orders);
        assert(s.done_orders + filled_entries(matched(entries, md, strict), md_ts)
            =~= s.done_orders);
    } else {
        lemma_execute_limit_orders_outcome(s, md, entries.drop_last());
        lemma_execute_limit_orders_adds_answers(s, md, entries.drop_last());
        let before = s.execute_limit_orders(md, entries.drop_last());
        let after = s.execute_limit_orders(md, entries);
        if fills(entries.last().order, md, strict) {
            assert(after.done_orders =~= s.done_orders + filled_entries(
                matched(entries, md, strict),
                md_ts,
            ));
        } else {
            assert(after.open_orders =~= s.open_orders + resting(entries, md, strict));
        }
    }
}

/// An order is among the orders that the market data leaves on the book
/// exactly if the market data does not fill it, and among those that it
/// fills exactly if it does.
pub proof fn lemma_resting_and_matched(
    book: Seq<BookEntryView>,
    md: MarketDataEventView,
    strict: bool,
    entry: BookEntryView,
)
    ensures
        resting(book, md, strict).contains(entry) <==> book.contains(entry) && !fills(
            entry.order,
            md,
            strict,
        ),
        matched(book, md, strict).contains(entry) <==> book.contains(entry) && fills(
            entry.order,
            md,
            strict,
        ),
    decreases book.len(),
{
    if book.len() > 0 {
        lemma_resting_and_matched(book.drop_last(), md, strict, entry);
        let rest = resting(book, md, strict);
        let rest_before = resting(book.drop_last(), md, strict);
        let hit = matched(book, md, strict);
        let hit_before = matched(book.drop_last(), md, strict);
        if book.contains(entry) {
            let i = choose|i: int| 0 <= i < book.len() && book[i] == entry;
            if i < book.len() - 1 {
                assert(book.drop_last()[i] == entry);
            }
        }
        if book.drop_last().contains(entry) {
            let i = choose|i: int| 0 <= i < book.drop_last().len() && book.drop_last()[i] == entry;
            assert(book[i] == entry);
        }
        assert(book[book.len() - 1] == book.last());
        if rest.contains(entry) {
            let i = choose|i: int| 0 <= i < rest.len() && rest[i] == entry;
            if i < rest_before.len() {
                assert(rest_before[i] == entry);
            }
        }
        if rest_before.contains(entry) {
            let i = choose|i: int| 0 <= i < rest_before.len() && rest_before[i] == entry;
            assert(rest[i] == entry);
        }
        if hit.contains(entry) {
            let i = choose|i: int| 0 <= i < hit.len() && hit[i] == entry;
            if i < hit_before.len() {
                assert(hit_before[i] == entry);
            }
        }
        if hit_before.contains(entry) {
            let i = choose|i: int| 0 <= i < hit_before.len() && hit_before[i] == entry;
            assert(hit[i] == entry);
        }
        if !fills(book.last().order, md, strict) {
            assert(rest[rest.len() - 1] == book.last());
        } else {
            assert(hit[hit.len() - 1] == book.last());
        }
    }
}

/// Fill correctness, for one tick. Of the orders on the book, matching
/// against market data fills exactly those whose fill predicate holds: such
/// an order leaves the book and joins the done orders, filled in full at its
/// own price and stamped with the venue time of the market data. Every
/// other order stays on the book as it was.
pub proof fn lemma_fill_correctness(s: BrokerState, md: MarketDataEventView, entry: BookEntryView)
    requires
        s.open_orders.contains(entry),
    ensures
        ({
            let after = s.update_orders_on_md(md);
            let filled = BookEntryView {
                id: entry.id,
                order: entry.order.filled(md.exchange_timestamp()),
            };
            &&& after.open_orders == resting(s.open_orders, md, s.strict_execution)
            &&& !fills(entry.order, md, s.strict_execution) ==> after.open_orders.contains(entry)
            &&& fills(entry.order, md, s.strict_execution) ==> !after.open_orders.contains(entry)
                && after.done_orders.contains(filled) && filled.order.status == OrderStatus::FILLED
                && filled.order.avg_fill_price == entry.order.price && filled.order.filled_quantity
                == Some(entry.order.quantity)
        }),
{
    let strict = s.strict_execution;
    let start = BrokerState { open_orders: Seq::empty(), ..s };
    lemma_execute_limit_orders_outcome(start, md, s.open_orders);
    lemma_resting_and_matched(s.open_orders, md, strict, entry);
    let after = s.update_orders_on_md(md);
    assert(after.open_orders =~= resting(s.open_orders, md, strict));
    if fills(entry.order, md, strict) {
        let hit = matched(s.open_orders, md, strict);
        let i = choose|i: int| 0 <= i < hit.len() && hit[i] == entry;
        let done = filled_entries(hit, md.exchange_timestamp());
        assert(after.done_orders[s.done_orders.len() + i] == done[i]);
    }
}

/// The state after the open orders were matched against each market-data
/// event of a run, one after the other.
pub open spec fn after_ticks(s: BrokerState, ticks: Seq<MarketDataEventView>) -> BrokerState
    decreases ticks.len(),
{
    if ticks.len() == 0 {
        s
    } else {
        after_ticks(s, ticks.drop_last()).update_orders_on_md(ticks.last())
    }
}

/// Fill correctness. An order on the book stays on the book, as it is,
/// through every market-data tick whose fill predicate does not hold for it,
/// and is filled by the first tick whose fill predicate holds.
pub proof fn lemma_first_match_fills(
    s: BrokerState,
    ticks: Seq<MarketDataEventView>,
    entry: BookEntryView,
)
    requires
        s.open_orders.contains(entry),
        ticks.len() > 0,
        forall|k: int|
            0 <= k < ticks.len() - 1 ==> !fills(entry.order, #[trigger] ticks[k], s.strict_execution),
        fills(entry.order, ticks.last(), s.strict_execution),
    ensures
        forall|n: int|
            0 <= n < ticks.len() ==> (#[trigger] after_ticks(s, ticks.take(n))).open_orders.contains(
                entry,
            ),
        !after_ticks(s, ticks).open_orders.contains(entry),
        after_ticks(s, ticks).done_orders.contains(
            BookEntryView {
                id: entry.id,
                order: entry.order.filled(ticks.last().exchange_timestamp()),
            },
        ),
{
    assert forall|n: int| 0 <= n < ticks.len() implies (#[trigger] after_ticks(
        s,
        ticks.take(n),
    )).open_orders.contains(entry) by {
        lemma_rests_until_matched(s, ticks.take(n), entry);
    }
    let before = after_ticks(s, ticks.drop_last());
    assert(ticks.drop_last() =~= ticks.take(ticks.len() - 1));
    lemma_after_ticks_same_venue(s, ticks.drop_last());
    lemma_fill_correctness(before, ticks.last(), entry);
}

/// An order rests through a run of ticks none of which fills it.
pub proof fn lemma_rests_until_matched(
    s: BrokerState,
    ticks: Seq<MarketDataEventView>,
    entry: BookEntryView,
)
    requires
        s.open_orders.contains(entry),
        forall|k: int| 0 <= k < ticks.len() ==> !fills(entry.order, #[trigger] ticks[k], s.strict_execution),
    ensures
        after_ticks(s, ticks).open_orders.contains(entry),
    decreases ticks.len(),
{
    if ticks.len() > 0 {
        assert forall|k: int| 0 <= k < ticks.drop_last().len() implies !fills(
            entry.order,
            #[trigger] ticks.drop_last()[k],
            s.strict_execution,
        ) by {
            assert(ticks.drop_last()[k] == ticks[k]);
        }
        lemma_rests_until_matched(s, ticks.drop_last(), entry);
        lemma_after_ticks_same_venue(s, ticks.drop_last());
        assert(ticks[ticks.len() - 1] == ticks.last());
        lemma_fill_correctness(after_ticks(s, ticks.drop_last()), ticks.last(), entry);
    }
}

/// Matching does not change the venue.
pub proof fn lemma_after_ticks_same_venue(s: BrokerState, ticks: Seq<MarketDataEventView>)
    ensures
        after_ticks(s, ticks).same_venue(s),
    decreases ticks.len(),
{
    if ticks.len() > 0 {
        lemma_after_ticks_same_venue(s, ticks.drop_last());
        let before = after_ticks(s, ticks.drop_last());
        lemma_execute_limit_orders_adds_answers(
            BrokerState { open_orders: Seq::empty(), ..before },
            ticks.last(),
            before.open_orders,
        );
    }
}

/// Unique identifiers. In a well-formed broker no two accepted orders have
/// the same client order id, the orders are numbered 1, 2, 3, ... without a
/// gap in the order of their acceptance, and no two of them have the same
/// exchange order id.
pub proof fn lemma_unique_ids(s: BrokerState)
    requires
        s.wf(),
    ensures
        s.last_exchange_order_id == s.order_ids.len(),
        forall|i: int, j: int|
            0 <= i < j < s.order_ids.len() ==> s.order_ids[i] != s.order_ids[j] && decimal(
                (i + 1) as nat,
            ) != decimal((j + 1) as nat),
        forall|i: int|
            0 <= i < s.open_orders.len() ==> (#[trigger] s.open_orders[i]).order.exchange_order_id
                == Some(decimal(s.open_orders[i].id as nat)) && 1 <= s.open_orders[i].id
                <= s.last_exchange_order_id,
        forall|i: int|
            0 <= i < s.done_orders.len() ==> (#[trigger] s.done_orders[i]).order.exchange_order_id
                == Some(decimal(s.done_orders[i].id as nat)) && 1 <= s.done_orders[i].id
                <= s.last_exchange_order_id,
{
    assert forall|i: int, j: int| 0 <= i < j < s.order_ids.len() implies s.order_ids[i]
        != s.order_ids[j] && decimal((i + 1) as nat) != decimal((j + 1) as nat) by {
        if decimal((i + 1) as nat) == decimal((j + 1) as nat) {
            lemma_decimal_injective((i + 1) as u64, (j + 1) as u64);
        }
    }
    assert forall|i: int| 0 <= i < s.open_orders.len() implies (
    #[trigger] s.open_orders[i]).order.exchange_order_id == Some(
        decimal(s.open_orders[i].id as nat),
    ) && 1 <= s.open_orders[i].id <= s.last_exchange_order_id by {
        assert(s.open_orders[i].booked_in(s.order_ids));
    }
    assert forall|i: int| 0 <= i < s.done_orders.len() implies (
    #[trigger] s.done_orders[i]).order.exchange_order_id == Some(
        decimal(s.done_orders[i].id as nat),
    ) && 1 <= s.done_orders[i].id <= s.last_exchange_order_id by {
        assert(s.done_orders[i].booked_in(s.order_ids));
    }
}

/// Unique identifiers, at acceptance. A request that the broker accepts
/// brings a client order id that no accepted order had, and its order gets
/// the number after the last one; the acknowledgment carries that number as
/// the exchange order id.
pub proof fn lemma_accepted_order_number(s: BrokerState, request: NewOrderRequestView, ack: Timestamp)
    requires
        s.wf(),
        s.order_ids.len() < u64::MAX,
        !s.knows_client_order_id(request.client_order_id),
    ensures
        ({
            let after = s.on_new_order_request(request, ack);
            &&& after.wf()
            &&& after.last_exchange_order_id == s.last_exchange_order_id + 1
            &&& after.order_ids == s.order_ids.push(request.client_order_id)
            &&& after.generated_events[s.generated_events.len() as int] matches EventView::ResponseNewOrderAccepted(
                accepted,
            ) && accepted.exchange_order_id == decimal((s.last_exchange_order_id + 1) as nat)
        }),
{
    lemma_new_order_keeps_wf(s, request, ack);
}

/// A request with a client order id that an accepted order had is refused
/// and changes nothing but the buffer of generated events and the event
/// counter.
pub proof fn lemma_duplicate_is_refused(s: BrokerState, request: NewOrderRequestView, ack: Timestamp)
    requires
        s.knows_client_order_id(request.client_order_id),
    ensures
        ({
            let after = s.on_new_order_request(request, ack);
            &&& after == s.publish(
                s.new_order_rejected(
                    request,
                    ack,
                    crate::sim::broker_model::reason_duplicate_client_order_id(),
                ),
            )
            &&& after.open_orders == s.open_orders
            &&& after.done_orders == s.done_orders
            &&& after.order_ids == s.order_ids
            &&& after.last_exchange_order_id == s.last_exchange_order_id
        }),
{
}

} // verus!
