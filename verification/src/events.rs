//! Events carried from the connection workers to the single poll
//! operation, and the specification of the per-connection event order:
//! one Connected first, then messages and errors, then one Disconnected
//! last, and nothing for an id outside that window.

use vstd::prelude::*;
use crate::types::DwebbleWSEventType;

verus! {

/// One entry of the event bridge.
#[derive(Debug)]
pub struct ServerEvent {
    pub event_type: DwebbleWSEventType,
    pub connection_id: u64,
    pub data: Option<Vec<u8>>,
    pub error: Option<String>,
}

/// The mathematical image of one event.
pub struct EventModel {
    pub event_type: DwebbleWSEventType,
    pub connection_id: u64,
    pub data: Option<Seq<u8>>,
    pub error: Option<Seq<char>>,
}

impl View for ServerEvent {
    type V = EventModel;

    open spec fn view(&self) -> EventModel {
        EventModel {
            event_type: self.event_type,
            connection_id: self.connection_id,
            data: match self.data {
                Some(d) => Some(d@),
                None => None,
            },
            error: match self.error {
                Some(e) => Some(e@),
                None => None,
            },
        }
    }
}

/// The event announcing a registered connection.
pub open spec fn connected_event(id: u64) -> EventModel {
    EventModel {
        event_type: DwebbleWSEventType::ClientConnected,
        connection_id: id,
        data: None,
        error: None,
    }
}

/// The event announcing that a connection is gone.
pub open spec fn disconnected_event(id: u64) -> EventModel {
    EventModel {
        event_type: DwebbleWSEventType::ClientDisconnected,
        connection_id: id,
        data: None,
        error: None,
    }
}

/// The event carrying one inbound payload.
pub open spec fn message_event(id: u64, data: Seq<u8>) -> EventModel {
    EventModel {
        event_type: DwebbleWSEventType::MessageReceived,
        connection_id: id,
        data: Some(data),
        error: None,
    }
}

/// The event carrying the description of a read error.
pub open spec fn error_event(id: u64, text: Seq<char>) -> EventModel {
    EventModel {
        event_type: DwebbleWSEventType::Error,
        connection_id: id,
        data: None,
        error: Some(text),
    }
}

/// The part of a history that belongs to one connection, in order.
pub open spec fn conn_events(h: Seq<EventModel>, id: u64) -> Seq<EventModel>
    decreases h.len(),
{
    if h.len() == 0 {
        Seq::empty()
    } else {
        let rest = conn_events(h.drop_last(), id);
        if h.last().connection_id == id {
            rest.push(h.last())
        } else {
            rest
        }
    }
}

/// The per-connection event order: Connected exactly at the start,
/// Disconnected at most once and only at the end, every entry a real
/// event.
pub open spec fn per_conn_ordered(p: Seq<EventModel>) -> bool {
    &&& forall|i: int|
        0 <= i < p.len() ==> ((#[trigger] p[i].event_type) == DwebbleWSEventType::ClientConnected
            <==> i == 0)
    &&& forall|i: int|
        0 <= i < p.len() && (#[trigger] p[i].event_type)
            == DwebbleWSEventType::ClientDisconnected ==> i == p.len() - 1
    &&& forall|i: int|
        0 <= i < p.len() ==> (#[trigger] p[i].event_type) != DwebbleWSEventType::NoEvent
}

/// A connection is open in a history when it has been announced and not
/// yet torn down.
pub open spec fn open_in(h: Seq<EventModel>, id: u64) -> bool {
    &&& conn_events(h, id).len() > 0
    &&& conn_events(h, id).last().event_type != DwebbleWSEventType::ClientDisconnected
}

/// Appending an event touches only that event's connection, and extends
/// its part of the history by exactly that event.
pub proof fn lemma_conn_events_push(h: Seq<EventModel>, e: EventModel, id: u64)
    ensures
        conn_events(h.push(e), id) == if e.connection_id == id {
            conn_events(h, id).push(e)
        } else {
            conn_events(h, id)
        },
{
    assert(h.push(e).drop_last() =~= h);
    assert(h.push(e).last() == e);
}

/// Appending an event keeps every connection's history ordered, as long
/// as a Connected event only opens a fresh id, and payload, error and
/// Disconnected events only reach an id that is still open.
pub proof fn lemma_push_preserves_order(h: Seq<EventModel>, e: EventModel)
    requires
        forall|id: u64| per_conn_ordered(#[trigger] conn_events(h, id)),
        e.event_type == DwebbleWSEventType::ClientConnected ==> conn_events(
            h,
            e.connection_id,
        ).len() == 0,
        e.event_type == DwebbleWSEventType::MessageReceived || e.event_type
            == DwebbleWSEventType::Error || e.event_type == DwebbleWSEventType::ClientDisconnected
            ==> open_in(h, e.connection_id),
        e.event_type != DwebbleWSEventType::NoEvent,
    ensures
        forall|id: u64| per_conn_ordered(#[trigger] conn_events(h.push(e), id)),
        forall|id: u64|
            id != e.connection_id ==> #[trigger] conn_events(h.push(e), id) == conn_events(h, id),
        conn_events(h.push(e), e.connection_id) == conn_events(h, e.connection_id).push(e),
        forall|id: u64| id != e.connection_id ==> (open_in(h.push(e), id) <==> open_in(h, id)),
        open_in(h.push(e), e.connection_id) <==> e.event_type
            != DwebbleWSEventType::ClientDisconnected,
        forall|id: u64|
            #[trigger] conn_events(h.push(e), id).len() > 0 ==> id == e.connection_id
                || conn_events(h, id).len() > 0,
{
    assert forall|id: u64| per_conn_ordered(#[trigger] conn_events(h.push(e), id)) by {
        lemma_conn_events_push(h, e, id);
        if id == e.connection_id {
            let p = conn_events(h, id);
            let p2 = p.push(e);
            assert(per_conn_ordered(p));
            if e.event_type == DwebbleWSEventType::ClientConnected {
                assert(p2.len() == 1);
                assert(p2[0] == e);
            } else {
                assert(p.len() > 0);
                assert(p.last().event_type != DwebbleWSEventType::ClientDisconnected);
                assert forall|i: int|
                    0 <= i < p.len() implies (#[trigger] p[i]).event_type
                    != DwebbleWSEventType::ClientDisconnected by {
                    if p[i].event_type == DwebbleWSEventType::ClientDisconnected {
                        assert(i == p.len() - 1);
                        assert(p.last() == p[p.len() - 1]);
                    }
                }
                assert forall|i: int|
                    0 <= i < p2.len() implies ((#[trigger] p2[i].event_type)
                    == DwebbleWSEventType::ClientConnected <==> i == 0) by {
                    if i < p.len() {
                        assert(p2[i] == p[i]);
                    } else {
                        assert(p2[i] == e);
                        assert(p.len() > 0);
                    }
                }
            }
        }
    }
    lemma_conn_events_push(h, e, e.connection_id);
    assert forall|id: u64| id != e.connection_id implies #[trigger] conn_events(h.push(e), id)
        == conn_events(h, id) by {
        lemma_conn_events_push(h, e, id);
    }
    assert forall|id: u64| id != e.connection_id implies (open_in(h.push(e), id) <==> open_in(
        h,
        id,
    )) by {
        lemma_conn_events_push(h, e, id);
    }
    assert forall|id: u64| #[trigger] conn_events(h.push(e), id).len() > 0 implies id
        == e.connection_id || conn_events(h, id).len() > 0 by {
        lemma_conn_events_push(h, e, id);
    }
    let p2 = conn_events(h.push(e), e.connection_id);
    assert(p2.last() == e);
}

/// Membership in a sequence extended by one element.
pub proof fn lemma_push_contains<A>(s: Seq<A>, e: A, x: A)
    ensures
        s.push(e).contains(x) <==> s.contains(x) || x == e,
{
    if s.push(e).contains(x) {
        let i = choose|i: int| 0 <= i < s.push(e).len() && s.push(e)[i] == x;
        if i < s.len() {
            assert(s[i] == x);
        }
    }
    if s.contains(x) {
        let i = choose|i: int| 0 <= i < s.len() && s[i] == x;
        assert(s.push(e)[i] == x);
    }
    assert(s.push(e)[s.len() as int] == e);
}

/// The events of one connection within a prefix of a history form a
/// prefix of that connection's events in the whole history.
pub proof fn lemma_conn_events_take_prefix(h: Seq<EventModel>, id: u64, k: int)
    requires
        0 <= k <= h.len(),
    ensures
        conn_events(h.take(k), id).is_prefix_of(conn_events(h, id)),
    decreases h.len() - k,
{
    if k == h.len() {
        assert(h.take(k) =~= h);
    } else {
        lemma_conn_events_take_prefix(h, id, k + 1);
        assert(h.take(k + 1).drop_last() =~= h.take(k));
        assert(conn_events(h.take(k + 1), id) == if h.take(k + 1).last().connection_id == id {
            conn_events(h.take(k), id).push(h.take(k + 1).last())
        } else {
            conn_events(h.take(k), id)
        });
        assert(conn_events(h.take(k), id).is_prefix_of(conn_events(h.take(k + 1), id)));
        assert(conn_events(h.take(k), id).is_prefix_of(conn_events(h, id)));
    }
}

/// Order is kept under taking a prefix of one connection's events.
pub proof fn lemma_per_conn_ordered_prefix(p: Seq<EventModel>, q: Seq<EventModel>)
    requires
        per_conn_ordered(q),
        p.is_prefix_of(q),
    ensures
        per_conn_ordered(p),
{
    assert forall|i: int| 0 <= i < p.len() implies p[i] == q[i] by {
        assert(p[i] == q[i]);
    }
    assert forall|i: int|
        0 <= i < p.len() && (#[trigger] p[i].event_type)
            == DwebbleWSEventType::ClientDisconnected implies i == p.len() - 1 by {
        assert(q[i].event_type == DwebbleWSEventType::ClientDisconnected);
        assert(i == q.len() - 1);
        assert(p.len() <= q.len());
    }
}

} // verus!
