//! The lifecycle controller and connection engine: the registry of
//! reachable connections, the event bridge drained by `poll_event`, the
//! monotone connection-id counter, and the decisions of the accept loop
//! and the reader workers. The asynchronous network shell drives this
//! core and performs the I/O it asks for.

use vstd::prelude::*;
use crate::channel::MessageSender;
use crate::connection::{next_connection_id, Connection};
use crate::events::{
    conn_events, connected_event, disconnected_event, error_event, lemma_conn_events_take_prefix,
    lemma_per_conn_ordered_prefix, lemma_push_contains, lemma_push_preserves_order, message_event,
    open_in, per_conn_ordered, EventModel, ServerEvent,
};
use crate::protocol::{Frame, ReaderAction};
use crate::tls::TlsError;
use crate::types::{DwebbleWSEventType, DwebbleWSResult};

verus! {

/// Where the TLS material lives on disk; both paths or neither.
#[derive(Clone)]
pub struct TlsPaths {
    pub cert_path: String,
    pub key_path: String,
}

/// Server configuration: where to bind, which subprotocols to accept,
/// and the optional TLS material.
pub struct ServerConfig {
    pub port: u16,
    pub bind_address: String,
    pub subprotocols: Vec<String>,
    pub tls: Option<TlsPaths>,
}

impl Default for ServerConfig {
    /// Loopback on an ephemeral port, no subprotocols, no TLS.
    fn default() -> (c: ServerConfig)
        ensures
            c.port == 0,
            c.bind_address@ == "127.0.0.1"@,
            c.subprotocols@.len() == 0,
            c.tls is None,
    {
        ServerConfig {
            port: 0,
            bind_address: "127.0.0.1".to_owned(),
            subprotocols: Vec::new(),
            tls: None,
        }
    }
}

/// One outbound item as recorded in the ghost outbound log.
pub enum OutMessage {
    Binary(Seq<u8>),
    Text(Seq<char>),
    Close,
}

/// What the shell reports back after it attempted to start the server.
pub enum StartOutcome {
    /// The listening socket is bound; this is the OS-assigned port.
    Bound { port: u16 },
    /// The scheduler could not be constructed.
    RuntimeFailed,
    /// The TLS material was configured but could not be loaded.
    TlsFailed(TlsError),
    /// The listening socket could not be bound.
    BindFailed,
}

/// The view of every event vector entry.
pub open spec fn views_of(s: Seq<ServerEvent>) -> Seq<EventModel> {
    s.map_values(|e: ServerEvent| e@)
}

/// The connection engine. It owns the registry, the event queue and the
/// id counter; the network shell owns the sockets and tasks and reports
/// what happened through the `on_*` operations.
pub struct Server {
    config: ServerConfig,
    running: bool,
    actual_port: u16,
    next_id: u64,
    connections: Vec<Connection>,
    open_ids: Vec<u64>,
    events: Vec<ServerEvent>,
    polled: Ghost<Seq<EventModel>>,
    allocated: Ghost<Seq<u64>>,
    out_log: Ghost<Map<u64, Seq<OutMessage>>>,
}

impl Server {
    /// Whether the accept loop is (as far as the core knows) running.
    pub closed spec fn is_running(self) -> bool {
        self.running
    }

    /// The port recorded at bind time, 0 when not running.
    pub closed spec fn port(self) -> u16 {
        self.actual_port
    }

    /// The next connection id to be handed out.
    pub closed spec fn next_id_val(self) -> u64 {
        self.next_id
    }

    /// The registry: the connections currently reachable by id.
    pub closed spec fn conns(self) -> Seq<Connection> {
        self.connections@
    }

    /// The ids with a Connected event and no Disconnected event yet.
    pub closed spec fn open_set(self) -> Seq<u64> {
        self.open_ids@
    }

    /// Events still queued for `poll_event`.
    pub closed spec fn pending(self) -> Seq<EventModel> {
        views_of(self.events@)
    }

    /// Events already handed out by `poll_event`, oldest first.
    pub closed spec fn observed(self) -> Seq<EventModel> {
        self.polled@
    }

    /// Every event ever emitted, in emission order.
    pub open spec fn history(self) -> Seq<EventModel> {
        self.observed() + self.pending()
    }

    /// Every id ever handed out, in allocation order.
    pub closed spec fn ids_allocated(self) -> Seq<u64> {
        self.allocated@
    }

    /// What was pushed onto each connection's outbound queue, in order.
    pub closed spec fn outbound_log(self) -> Map<u64, Seq<OutMessage>> {
        self.out_log@
    }

    /// The configuration the server was created with.
    pub closed spec fn cfg(self) -> ServerConfig {
        self.config
    }

    /// Whether an id is currently in the registry, hence sendable.
    pub open spec fn has_conn(self, id: u64) -> bool {
        exists|i: int| 0 <= i < self.conns().len() && (#[trigger] self.conns()[i]).id == id
    }

    /// The engine's invariant: unique registry ids, each of them open;
    /// the open set tracks exactly the histories still inside their
    /// event window; every history is per-connection ordered; ids are
    /// allocated strictly increasingly and never above the counter.
    pub open spec fn wf(self) -> bool {
        &&& forall|i: int, j: int|
            0 <= i < j < self.conns().len() ==> (#[trigger] self.conns()[i]).id != (
            #[trigger] self.conns()[j]).id
        &&& forall|i: int|
            0 <= i < self.conns().len() ==> self.open_set().contains(
                (#[trigger] self.conns()[i]).id,
            )
        &&& forall|i: int, j: int|
            0 <= i < j < self.open_set().len() ==> (#[trigger] self.open_set()[i]) != (
            #[trigger] self.open_set()[j])
        &&& forall|id: u64| self.open_set().contains(id) <==> #[trigger] open_in(self.history(), id)
        &&& forall|id: u64| per_conn_ordered(#[trigger] conn_events(self.history(), id))
        &&& forall|id: u64|
            (#[trigger] conn_events(self.history(), id)).len() > 0 ==> self.ids_allocated().contains(
                id,
            )
        &&& forall|i: int|
            0 <= i < self.ids_allocated().len() ==> (#[trigger] self.ids_allocated()[i])
                < self.next_id_val()
        &&& forall|i: int, j: int|
            0 <= i < j < self.ids_allocated().len() ==> (#[trigger] self.ids_allocated()[i]) < (
            #[trigger] self.ids_allocated()[j])
        &&& forall|i: int|
            0 <= i < self.open_set().len() ==> self.ids_allocated().contains(
                #[trigger] self.open_set()[i],
            )
        &&& forall|id: u64|
            self.outbound_log().dom().contains(id) <==> self.ids_allocated().contains(id)
    }

    /// Builds a fresh, not yet running server around a configuration.
    pub fn new(config: ServerConfig) -> (s: Server)
        ensures
            s.wf(),
            !s.is_running(),
            s.port() == 0,
            s.next_id_val() == 1,
            s.conns() =~= Seq::<Connection>::empty(),
            s.open_set() =~= Seq::<u64>::empty(),
            s.pending() =~= Seq::<EventModel>::empty(),
            s.observed() =~= Seq::<EventModel>::empty(),
            s.history() =~= Seq::<EventModel>::empty(),
            s.ids_allocated() =~= Seq::<u64>::empty(),
            s.outbound_log().dom() =~= Set::<u64>::empty(),
            s.cfg() == config,
    {
        let s = Server {
            config,
            running: false,
            actual_port: 0,
            next_id: 1,
            connections: Vec::new(),
            open_ids: Vec::new(),
            events: Vec::new(),
            polled: Ghost(Seq::empty()),
            allocated: Ghost(Seq::empty()),
            out_log: Ghost(Map::empty()),
        };
        proof {
            assert(s.history() =~= Seq::<EventModel>::empty());
            assert forall|id: u64| !open_in(s.history(), id) by {
                assert(conn_events(s.history(), id).len() == 0);
            }
            assert forall|id: u64| per_conn_ordered(#[trigger] conn_events(s.history(), id)) by {
                assert(conn_events(s.history(), id).len() == 0);
            }
        }
        s
    }

    /// Finds the registry slot of an id, if it is present.
    fn find_conn(&self, id: u64) -> (r: Option<usize>)
        ensures
            match r {
                Some(i) => i < self.conns().len() && self.conns()[i as int].id == id,
                None => !self.has_conn(id),
            },
    {
        let mut i: usize = 0;
        while i < self.connections.len()
            invariant
                i <= self.connections.len(),
                forall|j: int| 0 <= j < i ==> (#[trigger] self.conns()[j]).id != id,
            decreases self.connections.len() - i,
        {
            if self.connections[i].id == id {
                return Some(i);
            }
            i = i + 1;
        }
        None
    }

    /// Whether an id is still inside its event window.
    fn is_open(&self, id: u64) -> (r: bool)
        ensures
            r == self.open_set().contains(id),
    {
        let mut i: usize = 0;
        while i < self.open_ids.len()
            invariant
                i <= self.open_ids.len(),
                forall|j: int| 0 <= j < i ==> (#[trigger] self.open_set()[j]) != id,
            decreases self.open_ids.len() - i,
        {
            if self.open_ids[i] == id {
                return true;
            }
            i = i + 1;
        }
        false
    }

    /// Pops the oldest pending event, if any; never blocks and changes
    /// nothing when the queue is empty.
    pub fn poll_event(&mut self) -> (r: Option<ServerEvent>)
        requires
            old(self).wf(),
        ensures
            final(self).wf(),
            r is None <==> old(self).pending().len() == 0,
            r is None ==> state_eq(*final(self), *old(self)),
            r is Some ==> {
                &&& r->Some_0@ == old(self).pending()[0]
                &&& final(self).pending() == old(self).pending().drop_first()
                &&& final(self).observed() == old(self).observed().push(old(self).pending()[0])
                &&& final(self).history() == old(self).history()
                &&& final(self).conns() == old(self).conns()
                &&& final(self).open_set() == old(self).open_set()
                &&& final(self).ids_allocated() == old(self).ids_allocated()
                &&& final(self).outbound_log() == old(self).outbound_log()
                &&& final(self).next_id_val() == old(self).next_id_val()
                &&& final(self).is_running() == old(self).is_running()
                &&& final(self).port() == old(self).port()
                &&& final(self).cfg() == old(self).cfg()
            },
    {
        if self.events.len() == 0 {
            proof {
                assert(self.pending() =~= Seq::<EventModel>::empty());
            }
            None
        } else {
            let e = self.events.remove(0);
            proof {
                self.polled@ = self.polled@.push(e@);
                assert(self.open_set() == old(self).open_set());
                assert(self.ids_allocated() == old(self).ids_allocated());
                assert(self.next_id_val() == old(self).next_id_val());
                assert(self.pending() =~= old(self).pending().drop_first());
                assert(e@ == old(self).pending()[0]);
                assert(self.history() =~= old(self).history());
            }
            Some(e)
        }
    }

    /// Looks the id up and enqueues a binary message on its outbound
    /// queue: InvalidHandle when the id is not registered, SendFailed
    /// when the writer is already gone, Okay when it was enqueued.
    pub fn send(&mut self, connection_id: u64, data: &[u8]) -> (r: DwebbleWSResult)
        requires
            old(self).wf(),
        ensures
            final(self).wf(),
            !old(self).has_conn(connection_id) ==> r == DwebbleWSResult::InvalidHandle
                && state_eq(*final(self), *old(self)),
            old(self).has_conn(connection_id) ==> r == DwebbleWSResult::Okay || r
                == DwebbleWSResult::SendFailed,
            r == DwebbleWSResult::Okay ==> old(self).has_conn(connection_id) && final(self).outbound_log()
                == old(self).outbound_log().insert(
                connection_id,
                old(self).outbound_log()[connection_id].push(OutMessage::Binary(data@)),
            ) && state_eq_but_log(*final(self), *old(self)),
            r == DwebbleWSResult::SendFailed ==> state_eq(*final(self), *old(self)),
    {
        match self.find_conn(connection_id) {
            None => DwebbleWSResult::InvalidHandle,
            Some(i) => {
                let ok = self.connections[i].send(data);
                if ok {
                    proof {
                        lemma_registry_id_allocated(*self, connection_id);
                        self.out_log@ = self.out_log@.insert(
                            connection_id,
                            self.out_log@[connection_id].push(OutMessage::Binary(data@)),
                        );
                        assert(self.conns() == old(self).conns());
                        assert(self.open_set() == old(self).open_set());
                        assert(self.pending() == old(self).pending());
                        assert(self.observed() == old(self).observed());
                        assert(self.history() == old(self).history());
                        assert(self.ids_allocated() == old(self).ids_allocated());
                        assert(self.next_id_val() == old(self).next_id_val());
                        assert(self.outbound_log().dom() =~= old(self).outbound_log().dom());
                    }
                    DwebbleWSResult::Okay
                } else {
                    DwebbleWSResult::SendFailed
                }
            },
        }
    }

    /// As `send`, for a text message.
    pub fn send_text(&mut self, connection_id: u64, text: &str) -> (r: DwebbleWSResult)
        requires
            old(self).wf(),
        ensures
            final(self).wf(),
            !old(self).has_conn(connection_id) ==> r == DwebbleWSResult::InvalidHandle
                && state_eq(*final(self), *old(self)),
            old(self).has_conn(connection_id) ==> r == DwebbleWSResult::Okay || r
                == DwebbleWSResult::SendFailed,
            r == DwebbleWSResult::Okay ==> old(self).has_conn(connection_id) && final(self).outbound_log()
                == old(self).outbound_log().insert(
                connection_id,
                old(self).outbound_log()[connection_id].push(OutMessage::Text(text@)),
            ) && state_eq_but_log(*final(self), *old(self)),
            r == DwebbleWSResult::SendFailed ==> state_eq(*final(self), *old(self)),
    {
        match self.find_conn(connection_id) {
            None => DwebbleWSResult::InvalidHandle,
            Some(i) => {
                let ok = self.connections[i].send_text(text);
                if ok {
                    proof {
                        lemma_registry_id_allocated(*self, connection_id);
                        self.out_log@ = self.out_log@.insert(
                            connection_id,
                            self.out_log@[connection_id].push(OutMessage::Text(text@)),
                        );
                        assert(self.conns() == old(self).conns());
                        assert(self.open_set() == old(self).open_set());
                        assert(self.pending() == old(self).pending());
                        assert(self.observed() == old(self).observed());
                        assert(self.history() == old(self).history());
                        assert(self.ids_allocated() == old(self).ids_allocated());
                        assert(self.next_id_val() == old(self).next_id_val());
                        assert(self.outbound_log().dom() =~= old(self).outbound_log().dom());
                    }
                    DwebbleWSResult::Okay
                } else {
                    DwebbleWSResult::SendFailed
                }
            },
        }
    }

    /// Removes the id from the registry and asks the peer to close,
    /// best effort; InvalidHandle when the id is not registered. The
    /// connection stays inside its event window until its reader worker
    /// reports `connection_closed`.
    pub fn disconnect(&mut self, connection_id: u64) -> (r: DwebbleWSResult)
        requires
            old(self).wf(),
        ensures
            final(self).wf(),
            !old(self).has_conn(connection_id) ==> r == DwebbleWSResult::InvalidHandle
                && state_eq(*final(self), *old(self)),
            old(self).has_conn(connection_id) ==> {
                &&& r == DwebbleWSResult::Okay
                &&& exists|i: int|
                    0 <= i < old(self).conns().len() && (#[trigger] old(self).conns()[i]).id
                        == connection_id && final(self).conns() == old(self).conns().remove(i)
                &&& final(self).outbound_log() == old(self).outbound_log().insert(
                    connection_id,
                    old(self).outbound_log()[connection_id].push(OutMessage::Close),
                )
                &&& state_eq_but_conns_and_log(*final(self), *old(self))
            },
    {
        match self.find_conn(connection_id) {
            None => DwebbleWSResult::InvalidHandle,
            Some(i) => {
                let c = self.connections.remove(i);
                c.close();
                proof {
                    lemma_registry_id_allocated(*old(self), connection_id);
                    self.out_log@ = self.out_log@.insert(
                        connection_id,
                        self.out_log@[connection_id].push(OutMessage::Close),
                    );
                    assert(self.open_set() == old(self).open_set());
                    assert(self.pending() == old(self).pending());
                    assert(self.observed() == old(self).observed());
                    assert(self.history() == old(self).history());
                    assert(self.ids_allocated() == old(self).ids_allocated());
                    assert(self.next_id_val() == old(self).next_id_val());
                    assert(self.outbound_log().dom() =~= old(self).outbound_log().dom());
                    assert(self.conns() == old(self).conns().remove(i as int));
                    old(self).conns().remove_ensures(i as int);
                    assert forall|a: int, b: int|
                        0 <= a < b < self.conns().len() implies (#[trigger] self.conns()[a]).id != (
                    #[trigger] self.conns()[b]).id by {
                        let a0: int = if a < i { a } else { a + 1 };
                        let b0: int = if b < i { b } else { b + 1 };
                        assert(self.conns()[a] == old(self).conns()[a0]);
                        assert(self.conns()[b] == old(self).conns()[b0]);
                    }
                    assert forall|a: int|
                        0 <= a < self.conns().len() implies self.open_set().contains(
                        (#[trigger] self.conns()[a]).id,
                    ) by {
                        let a0: int = if a < i { a } else { a + 1 };
                        assert(self.conns()[a] == old(self).conns()[a0]);
                        assert(old(self).open_set().contains(old(self).conns()[a0].id));
                    }
                }
                DwebbleWSResult::Okay
            },
        }
    }

    /// The port recorded when the listening socket was bound; 0 when
    /// the server is not running.
    pub fn get_actual_port(&self) -> (r: u16)
        ensures
            r == self.port(),
    {
        self.actual_port
    }

    /// How many connections are currently registered.
    pub fn get_connection_count(&self) -> (r: usize)
        ensures
            r == self.conns().len(),
    {
        self.connections.len()
    }

    /// The negotiated subprotocol of a registered connection: the outer
    /// option is None when the id is not registered.
    pub fn connection_subprotocol(&self, connection_id: u64) -> (r: Option<Option<String>>)
        ensures
            match r {
                None => !self.has_conn(connection_id),
                Some(sub) => exists|i: int|
                    0 <= i < self.conns().len() && (#[trigger] self.conns()[i]).id == connection_id
                        && sub == self.conns()[i].subprotocol,
            },
    {
        match self.find_conn(connection_id) {
            None => None,
            Some(i) => match &self.connections[i].subprotocol {
                Some(s) => Some(Some(s.clone())),
                None => Some(None),
            },
        }
    }

    /// The configured port (0 asks the OS for an ephemeral one).
    pub fn config_port(&self) -> (r: u16)
        ensures
            r == self.cfg().port,
    {
        self.config.port
    }

    /// The configured bind address.
    pub fn config_bind_address(&self) -> (r: &String)
        ensures
            *r == self.cfg().bind_address,
    {
        &self.config.bind_address
    }

    /// The configured subprotocol whitelist, in order.
    pub fn config_subprotocols(&self) -> (r: &Vec<String>)
        ensures
            *r == self.cfg().subprotocols,
    {
        &self.config.subprotocols
    }

    /// The configured TLS material, if any.
    pub fn config_tls(&self) -> (r: &Option<TlsPaths>)
        ensures
            *r == self.cfg().tls,
    {
        &self.config.tls
    }

    /// The AlreadyRunning check performed before any start work: a
    /// server that is already running is left untouched.
    pub fn start_gate(&self) -> (r: Option<DwebbleWSResult>)
        ensures
            r is Some <==> self.is_running(),
            r is Some ==> r->Some_0 == DwebbleWSResult::AlreadyRunning,
    {
        if self.running {
            Some(DwebbleWSResult::AlreadyRunning)
        } else {
            None
        }
    }

    /// Records what the shell's start attempt came to. On success the
    /// server is running on the reported port; on any failure the whole
    /// state is left exactly as it was, still not running.
    pub fn start_finish(&mut self, outcome: StartOutcome) -> (r: DwebbleWSResult)
        requires
            old(self).wf(),
        ensures
            final(self).wf(),
            old(self).is_running() ==> r == DwebbleWSResult::AlreadyRunning && state_eq(
                *final(self),
                *old(self),
            ),
            !old(self).is_running() ==> match outcome {
                StartOutcome::Bound { port } => {
                    &&& r == DwebbleWSResult::Okay
                    &&& final(self).is_running()
                    &&& final(self).port() == port
                    &&& unchanged_but_lifecycle(*final(self), *old(self))
                },
                StartOutcome::RuntimeFailed => r == DwebbleWSResult::RuntimeError && state_eq(
                    *final(self),
                    *old(self),
                ),
                StartOutcome::TlsFailed(_) => r == DwebbleWSResult::TlsError && state_eq(
                    *final(self),
                    *old(self),
                ),
                StartOutcome::BindFailed => r == DwebbleWSResult::BindFailed && state_eq(
                    *final(self),
                    *old(self),
                ),
            },
    {
        if self.running {
            return DwebbleWSResult::AlreadyRunning;
        }
        match outcome {
            StartOutcome::Bound { port } => {
                self.running = true;
                self.actual_port = port;
                proof {
                    assert(self.conns() == old(self).conns());
                    assert(self.open_set() == old(self).open_set());
                    assert(self.pending() == old(self).pending());
                    assert(self.observed() == old(self).observed());
                    assert(self.history() == old(self).history());
                    assert(self.ids_allocated() == old(self).ids_allocated());
                    assert(self.next_id_val() == old(self).next_id_val());
                    assert(self.outbound_log() == old(self).outbound_log());
                }
                DwebbleWSResult::Okay
            },
            StartOutcome::RuntimeFailed => DwebbleWSResult::RuntimeError,
            StartOutcome::TlsFailed(_) => DwebbleWSResult::TlsError,
            StartOutcome::BindFailed => DwebbleWSResult::BindFailed,
        }
    }

    /// Registers a connection that completed its handshake: allocates
    /// the next id, inserts the connection into the registry, opens its
    /// event window and emits its Connected event. Fails only when the
    /// id counter is exhausted.
    pub fn register_connection(
        &mut self,
        remote_addr: String,
        subprotocol: Option<String>,
        tx: MessageSender,
    ) -> (r: Option<u64>)
        requires
            old(self).wf(),
        ensures
            final(self).wf(),
            r is None <==> old(self).next_id_val() == u64::MAX,
            r is None ==> state_eq(*final(self), *old(self)),
            r is Some ==> ({
                let id = r->Some_0;
                &&& id == old(self).next_id_val()
                &&& !old(self).ids_allocated().contains(id)
                &&& final(self).next_id_val() == id + 1
                &&& final(self).ids_allocated() == old(self).ids_allocated().push(id)
                &&& final(self).conns().len() == old(self).conns().len() + 1
                &&& final(self).conns().drop_last() == old(self).conns()
                &&& final(self).conns().last().id == id
                &&& final(self).conns().last().remote_addr == remote_addr
                &&& final(self).conns().last().subprotocol == subprotocol
                &&& final(self).pending() == old(self).pending().push(connected_event(id))
                &&& final(self).observed() == old(self).observed()
                &&& final(self).open_set() == old(self).open_set().push(id)
                &&& final(self).outbound_log() == old(self).outbound_log().insert(
                    id,
                    Seq::empty(),
                )
                &&& final(self).is_running() == old(self).is_running()
                &&& final(self).port() == old(self).port()
                &&& final(self).cfg() == old(self).cfg()
            }),
    {
        if self.next_id == u64::MAX {
            return None;
        }
        let id = next_connection_id(&mut self.next_id);
        let conn = Connection::new(id, remote_addr, subprotocol, tx);
        let ghost conn0 = conn;
        self.connections.push(conn);
        self.open_ids.push(id);
        let ev = ServerEvent {
            event_type: DwebbleWSEventType::ClientConnected,
            connection_id: id,
            data: None,
            error: None,
        };
        proof {
            assert(ev@ == connected_event(id));
        }
        self.events.push(ev);
        proof {
            self.allocated@ = self.allocated@.push(id);
            self.out_log@ = self.out_log@.insert(id, Seq::empty());
            let pre = *old(self);
            let h = pre.history();
            assert(self.observed() == pre.observed());
            assert(self.pending() =~= pre.pending().push(connected_event(id)));
            assert(self.history() =~= h.push(connected_event(id)));
            assert(self.conns() =~= pre.conns().push(conn0));
            assert(self.open_set() =~= pre.open_set().push(id));
            assert(self.ids_allocated() =~= pre.ids_allocated().push(id));
            assert(self.next_id_val() == id + 1);
            assert(self.outbound_log() == pre.outbound_log().insert(id, Seq::empty()));
            if pre.ids_allocated().contains(id) {
                let k = choose|k: int|
                    0 <= k < pre.ids_allocated().len() && pre.ids_allocated()[k] == id;
                assert(pre.ids_allocated()[k] < pre.next_id_val());
                assert(false);
            }
            if conn_events(h, id).len() > 0 {
                assert(pre.ids_allocated().contains(id));
                assert(false);
            }
            lemma_push_preserves_order(h, connected_event(id));
            // the new id is above every id seen so far
            assert forall|cid: u64| pre.open_set().contains(cid) implies cid < id by {
                lemma_open_id_bounded(pre, cid);
            }
            // registry ids stay unique
            assert forall|a: int, b: int|
                0 <= a < b < self.conns().len() implies (#[trigger] self.conns()[a]).id != (
            #[trigger] self.conns()[b]).id by {
                if b == self.conns().len() - 1 {
                    assert(self.conns()[a] == pre.conns()[a]);
                    assert(pre.open_set().contains(pre.conns()[a].id));
                    lemma_open_id_bounded(pre, pre.conns()[a].id);
                } else {
                    assert(self.conns()[a] == pre.conns()[a]);
                    assert(self.conns()[b] == pre.conns()[b]);
                }
            }
            // every registry id is open
            assert forall|a: int|
                0 <= a < self.conns().len() implies self.open_set().contains(
                (#[trigger] self.conns()[a]).id,
            ) by {
                if a == self.conns().len() - 1 {
                    assert(self.open_set().last() == id);
                } else {
                    assert(self.conns()[a] == pre.conns()[a]);
                    assert(pre.open_set().contains(pre.conns()[a].id));
                    lemma_push_contains(pre.open_set(), id, pre.conns()[a].id);
                }
            }
            // the open set stays duplicate-free
            assert forall|a: int, b: int|
                0 <= a < b < self.open_set().len() implies (#[trigger] self.open_set()[a]) != (
            #[trigger] self.open_set()[b]) by {
                if b == self.open_set().len() - 1 {
                    assert(self.open_set()[a] == pre.open_set()[a]);
                    assert(pre.open_set().contains(pre.open_set()[a]));
                    lemma_open_id_bounded(pre, pre.open_set()[a]);
                } else {
                    assert(self.open_set()[a] == pre.open_set()[a]);
                    assert(self.open_set()[b] == pre.open_set()[b]);
                }
            }
            // the open set still tracks exactly the open windows
            assert forall|id2: u64| self.open_set().contains(id2) <==> #[trigger] open_in(
                self.history(),
                id2,
            ) by {
                lemma_push_contains(pre.open_set(), id, id2);
                if id2 == id {
                    assert(self.open_set().last() == id);
                    assert(self.open_set().contains(id));
                } else {
                    assert(open_in(self.history(), id2) <==> open_in(h, id2));
                }
            }
            // events only for allocated ids
            assert forall|id2: u64| (#[trigger] conn_events(self.history(), id2)).len()
                > 0 implies self.ids_allocated().contains(id2) by {
                lemma_push_contains(pre.ids_allocated(), id, id2);
                if id2 != id {
                    assert(conn_events(self.history(), id2) == conn_events(h, id2));
                }
            }
            // allocation order and bound
            assert forall|a: int|
                0 <= a < self.ids_allocated().len() implies (#[trigger] self.ids_allocated()[a])
                < self.next_id_val() by {
                if a < pre.ids_allocated().len() {
                    assert(self.ids_allocated()[a] == pre.ids_allocated()[a]);
                }
            }
            assert forall|a: int, b: int|
                0 <= a < b < self.ids_allocated().len() implies (
            #[trigger] self.ids_allocated()[a]) < (#[trigger] self.ids_allocated()[b]) by {
                assert(self.ids_allocated()[a] == pre.ids_allocated()[a]);
                if b < pre.ids_allocated().len() {
                    assert(self.ids_allocated()[b] == pre.ids_allocated()[b]);
                }
            }
            // open ids were all allocated
            assert forall|a: int|
                0 <= a < self.open_set().len() implies self.ids_allocated().contains(
                #[trigger] self.open_set()[a],
            ) by {
                lemma_push_contains(pre.ids_allocated(), id, self.open_set()[a]);
                if a < pre.open_set().len() {
                    assert(self.open_set()[a] == pre.open_set()[a]);
                    assert(pre.ids_allocated().contains(pre.open_set()[a]));
                }
            }
            // the outbound log covers exactly the allocated ids
            assert forall|id2: u64| self.outbound_log().dom().contains(id2)
                <==> self.ids_allocated().contains(id2) by {
                lemma_push_contains(pre.ids_allocated(), id, id2);
            }
        }
        Some(id)
    }

    /// Queues one event for an id whose window is still open; an id
    /// outside its window changes nothing.
    fn emit_if_open(&mut self, ev: ServerEvent)
        requires
            old(self).wf(),
            ev@.event_type == DwebbleWSEventType::MessageReceived || ev@.event_type
                == DwebbleWSEventType::Error,
        ensures
            final(self).wf(),
            open_in(old(self).history(), ev.connection_id) ==> delivered(
                *old(self),
                *final(self),
                ev@,
            ),
            !open_in(old(self).history(), ev.connection_id) ==> state_eq(
                *final(self),
                *old(self),
            ),
    {
        let is_open = self.is_open(ev.connection_id);
        if !is_open {
            return ;
        }
        let ghost evm = ev@;
        self.events.push(ev);
        proof {
            let pre = *old(self);
            let h = pre.history();
            assert(self.observed() == pre.observed());
            assert(self.pending() =~= pre.pending().push(evm));
            assert(self.history() =~= h.push(evm));
            assert(self.conns() == pre.conns());
            assert(self.open_set() == pre.open_set());
            assert(self.ids_allocated() == pre.ids_allocated());
            assert(self.next_id_val() == pre.next_id_val());
            assert(self.outbound_log() == pre.outbound_log());
            lemma_push_preserves_order(h, evm);
            assert forall|id2: u64| self.open_set().contains(id2) <==> #[trigger] open_in(
                self.history(),
                id2,
            ) by {
                if id2 == evm.connection_id {
                    assert(open_in(self.history(), id2));
                } else {
                    assert(open_in(self.history(), id2) <==> open_in(h, id2));
                }
            }
            assert forall|id2: u64| (#[trigger] conn_events(self.history(), id2)).len()
                > 0 implies self.ids_allocated().contains(id2) by {
                if id2 == evm.connection_id {
                    let j = choose|j: int|
                        0 <= j < pre.open_set().len() && pre.open_set()[j] == id2;
                    assert(pre.ids_allocated().contains(pre.open_set()[j]));
                } else {
                    assert(conn_events(self.history(), id2) == conn_events(h, id2));
                }
            }
        }
    }

    /// Hands one decoded frame to the core: payload frames queue a
    /// MessageReceived event while the window is open, a Ping asks the
    /// reader to reply Pong with the same payload and is never
    /// poll-visible, a Close ends the read loop, anything else is
    /// ignored.
    pub fn on_frame(&mut self, connection_id: u64, frame: Frame) -> (act: ReaderAction)
        requires
            old(self).wf(),
        ensures
            final(self).wf(),
            match frame {
                Frame::Binary(d) => act == ReaderAction::Continue && (open_in(
                    old(self).history(),
                    connection_id,
                ) ==> delivered(*old(self), *final(self), message_event(connection_id, d@)))
                    && (!open_in(old(self).history(), connection_id) ==> state_eq(
                    *final(self),
                    *old(self),
                )),
                Frame::Text(d) => act == ReaderAction::Continue && (open_in(
                    old(self).history(),
                    connection_id,
                ) ==> delivered(*old(self), *final(self), message_event(connection_id, d@)))
                    && (!open_in(old(self).history(), connection_id) ==> state_eq(
                    *final(self),
                    *old(self),
                )),
                Frame::Ping(p) => act == ReaderAction::SendPong(p) && state_eq(
                    *final(self),
                    *old(self),
                ),
                Frame::Pong => act == ReaderAction::Continue && state_eq(
                    *final(self),
                    *old(self),
                ),
                Frame::Close => act == ReaderAction::Stop && state_eq(*final(self), *old(self)),
            },
    {
        match frame {
            Frame::Binary(d) => {
                let ghost dv = d@;
                let ev = ServerEvent {
                    event_type: DwebbleWSEventType::MessageReceived,
                    connection_id,
                    data: Some(d),
                    error: None,
                };
                proof {
                    assert(ev@ == message_event(connection_id, dv));
                }
                self.emit_if_open(ev);
                ReaderAction::Continue
            },
            Frame::Text(d) => {
                let ghost dv = d@;
                let ev = ServerEvent {
                    event_type: DwebbleWSEventType::MessageReceived,
                    connection_id,
                    data: Some(d),
                    error: None,
                };
                proof {
                    assert(ev@ == message_event(connection_id, dv));
                }
                self.emit_if_open(ev);
                ReaderAction::Continue
            },
            Frame::Ping(p) => ReaderAction::SendPong(p),
            Frame::Pong => ReaderAction::Continue,
            Frame::Close => ReaderAction::Stop,
        }
    }

    /// Queues an Error event carrying a read error's description, for a
    /// window that is still open; the reader tears down afterwards.
    pub fn on_read_error(&mut self, connection_id: u64, text: String)
        requires
            old(self).wf(),
        ensures
            final(self).wf(),
            open_in(old(self).history(), connection_id) ==> delivered(
                *old(self),
                *final(self),
                error_event(connection_id, text@),
            ),
            !open_in(old(self).history(), connection_id) ==> state_eq(*final(self), *old(self)),
    {
        let ghost tv = text@;
        let ev = ServerEvent {
            event_type: DwebbleWSEventType::Error,
            connection_id,
            data: None,
            error: Some(text),
        };
        proof {
            assert(ev@ == error_event(connection_id, tv));
        }
        self.emit_if_open(ev);
    }

    /// The configured bind address and the recorded port, as one
    /// "address:port" string.
    pub fn info(&self) -> (r: String)
        ensures
            r@ == self.cfg().bind_address@ + seq![':'] + crate::text::decimal_digits(
                self.port() as int,
            ),
    {
        let mut s = self.config.bind_address.clone();
        proof {
            reveal_strlit(":");
        }
        s.append(":");
        let port = crate::text::u16_to_string(self.actual_port);
        s.append(port.as_str());
        proof {
            assert(s@ =~= self.cfg().bind_address@ + seq![':'] + crate::text::decimal_digits(
                self.port() as int,
            ));
        }
        s
    }

    /// Where an open id sits in the open set.
    fn find_open_index(&self, id: u64) -> (j: usize)
        requires
            self.open_set().contains(id),
        ensures
            j < self.open_set().len(),
            self.open_set()[j as int] == id,
    {
        let mut j: usize = 0;
        while j < self.open_ids.len()
            invariant
                j <= self.open_ids.len(),
                forall|k: int| 0 <= k < j ==> (#[trigger] self.open_set()[k]) != id,
            decreases self.open_ids.len() - j,
        {
            if self.open_ids[j] == id {
                return j;
            }
            j = j + 1;
        }
        proof {
            let k = choose|k: int| 0 <= k < self.open_set().len() && self.open_set()[k] == id;
            assert(false);
        }
        0
    }

    /// The reader worker's teardown, performed exactly once per
    /// connection: the id leaves the registry if it is still there, its
    /// event window closes, and its one Disconnected event is queued. A
    /// second call for the same id changes nothing.
    pub fn connection_closed(&mut self, connection_id: u64)
        requires
            old(self).wf(),
        ensures
            final(self).wf(),
            !open_in(old(self).history(), connection_id) ==> state_eq(*final(self), *old(self)),
            open_in(old(self).history(), connection_id) ==> {
                &&& final(self).pending() == old(self).pending().push(
                    disconnected_event(connection_id),
                )
                &&& final(self).observed() == old(self).observed()
                &&& !open_in(final(self).history(), connection_id)
                &&& !final(self).has_conn(connection_id)
                &&& (old(self).has_conn(connection_id) ==> exists|i: int|
                    0 <= i < old(self).conns().len() && (#[trigger] old(self).conns()[i]).id
                        == connection_id && final(self).conns() == old(self).conns().remove(i))
                &&& (!old(self).has_conn(connection_id) ==> final(self).conns() == old(
                    self,
                ).conns())
                &&& exists|j: int|
                    0 <= j < old(self).open_set().len() && old(self).open_set()[j] == connection_id
                        && final(self).open_set() == old(self).open_set().remove(j)
                &&& final(self).ids_allocated() == old(self).ids_allocated()
                &&& final(self).next_id_val() == old(self).next_id_val()
                &&& final(self).outbound_log() == old(self).outbound_log()
                &&& final(self).is_running() == old(self).is_running()
                &&& final(self).port() == old(self).port()
                &&& final(self).cfg() == old(self).cfg()
            },
    {
        let is_open = self.is_open(connection_id);
        if !is_open {
            return ;
        }
        let ghost mid = *old(self);
        match self.find_conn(connection_id) {
            Some(i) => {
                let _gone = self.connections.remove(i);
                proof {
                    mid.conns().remove_ensures(i as int);
                    assert(self.conns() == mid.conns().remove(i as int));
                    assert forall|a: int, b: int|
                        0 <= a < b < self.conns().len() implies (#[trigger] self.conns()[a]).id
                        != (#[trigger] self.conns()[b]).id by {
                        let a0: int = if a < i { a } else { a + 1 };
                        let b0: int = if b < i { b } else { b + 1 };
                        assert(self.conns()[a] == mid.conns()[a0]);
                        assert(self.conns()[b] == mid.conns()[b0]);
                    }
                    assert forall|a: int| 0 <= a < self.conns().len() implies (
                    #[trigger] self.conns()[a]).id != connection_id by {
                        let a0: int = if a < i { a } else { a + 1 };
                        assert(self.conns()[a] == mid.conns()[a0]);
                    }
                }
            },
            None => {},
        }
        let ghost mid2 = *self;
        let j = self.find_open_index(connection_id);
        let _ = self.open_ids.remove(j);
        proof {
            mid2.open_set().remove_ensures(j as int);
            assert(self.open_set() == mid2.open_set().remove(j as int));
        }
        let ghost mid3 = *self;
        let ev = ServerEvent {
            event_type: DwebbleWSEventType::ClientDisconnected,
            connection_id,
            data: None,
            error: None,
        };
        proof {
            assert(ev@ == disconnected_event(connection_id));
        }
        self.events.push(ev);
        proof {
            let pre = *old(self);
            let h = pre.history();
            assert(self.observed() == pre.observed());
            assert(self.pending() =~= pre.pending().push(disconnected_event(connection_id)));
            assert(self.history() =~= h.push(disconnected_event(connection_id)));
            assert(self.ids_allocated() == pre.ids_allocated());
            assert(self.next_id_val() == pre.next_id_val());
            assert(self.outbound_log() == pre.outbound_log());
            assert(self.conns() == mid3.conns());
            assert(self.open_set() == mid3.open_set());
            assert(open_in(h, connection_id));
            lemma_push_preserves_order(h, disconnected_event(connection_id));
            // the open set lost exactly this id
            assert forall|a: int, b: int|
                0 <= a < b < self.open_set().len() implies (#[trigger] self.open_set()[a]) != (
            #[trigger] self.open_set()[b]) by {
                let a0: int = if a < j { a } else { a + 1 };
                let b0: int = if b < j { b } else { b + 1 };
                assert(self.open_set()[a] == pre.open_set()[a0]);
                assert(self.open_set()[b] == pre.open_set()[b0]);
            }
            assert forall|a: int| 0 <= a < self.open_set().len() implies (
            #[trigger] self.open_set()[a]) != connection_id by {
                let a0: int = if a < j { a } else { a + 1 };
                assert(self.open_set()[a] == pre.open_set()[a0]);
                assert(pre.open_set()[j as int] == connection_id);
            }
            assert forall|cid: u64| cid != connection_id implies (self.open_set().contains(cid)
                <==> pre.open_set().contains(cid)) by {
                if pre.open_set().contains(cid) {
                    let k = choose|k: int|
                        0 <= k < pre.open_set().len() && pre.open_set()[k] == cid;
                    let k2: int = if k < j {
                        k
                    } else {
                        k - 1
                    };
                    assert(self.open_set()[k2] == cid);
                }
                if self.open_set().contains(cid) {
                    let k = choose|k: int|
                        0 <= k < self.open_set().len() && self.open_set()[k] == cid;
                    let k0: int = if k < j {
                        k
                    } else {
                        k + 1
                    };
                    assert(pre.open_set()[k0] == cid);
                }
            }
            assert(!self.open_set().contains(connection_id));
            // registry entries are still open ids
            assert forall|a: int|
                0 <= a < self.conns().len() implies self.open_set().contains(
                (#[trigger] self.conns()[a]).id,
            ) by {
                assert(self.conns()[a].id != connection_id);
                if pre.has_conn(connection_id) {
                    let i = choose|i: int|
                        0 <= i < pre.conns().len() && (#[trigger] pre.conns()[i]).id
                            == connection_id && self.conns() == pre.conns().remove(i);
                    let a0: int = if a < i {
                        a
                    } else {
                        a + 1
                    };
                    assert(self.conns()[a] == pre.conns()[a0]);
                    assert(pre.open_set().contains(pre.conns()[a0].id));
                } else {
                    assert(self.conns()[a] == pre.conns()[a]);
                    assert(pre.open_set().contains(pre.conns()[a].id));
                }
            }
            // the open set still tracks exactly the open windows
            assert forall|id2: u64| self.open_set().contains(id2) <==> #[trigger] open_in(
                self.history(),
                id2,
            ) by {
                if id2 == connection_id {
                    assert(!open_in(self.history(), id2));
                } else {
                    assert(open_in(self.history(), id2) <==> open_in(h, id2));
                }
            }
            // events only for allocated ids
            assert forall|id2: u64| (#[trigger] conn_events(self.history(), id2)).len()
                > 0 implies self.ids_allocated().contains(id2) by {
                if id2 == connection_id {
                    lemma_open_id_bounded(pre, connection_id);
                } else {
                    assert(conn_events(self.history(), id2) == conn_events(h, id2));
                }
            }
            // remaining open ids were all allocated
            assert forall|a: int|
                0 <= a < self.open_set().len() implies self.ids_allocated().contains(
                #[trigger] self.open_set()[a],
            ) by {
                let a0: int = if a < j { a } else { a + 1 };
                assert(self.open_set()[a] == pre.open_set()[a0]);
                assert(pre.ids_allocated().contains(pre.open_set()[a0]));
            }
            // where the registry was before
            if !pre.has_conn(connection_id) {
                assert(self.conns() == pre.conns());
            }
        }
    }

    /// Tears the server down: closes every registered connection, best
    /// effort, empties the registry, clears the recorded port and leaves
    /// the running flag down. Queued events stay available to
    /// `poll_event`, and the id counter keeps its value, so ids are
    /// never reused across a restart. Always reports Okay.
    pub fn stop(&mut self) -> (r: DwebbleWSResult)
        requires
            old(self).wf(),
        ensures
            final(self).wf(),
            r == DwebbleWSResult::Okay,
            !final(self).is_running(),
            final(self).port() == 0,
            final(self).conns().len() == 0,
            final(self).pending() == old(self).pending(),
            final(self).observed() == old(self).observed(),
            final(self).open_set() == old(self).open_set(),
            final(self).ids_allocated() == old(self).ids_allocated(),
            final(self).next_id_val() == old(self).next_id_val(),
            final(self).cfg() == old(self).cfg(),
            final(self).outbound_log().dom() == old(self).outbound_log().dom(),
            forall|i: int|
                0 <= i < old(self).conns().len() ==> final(self).outbound_log()[(
                #[trigger] old(self).conns()[i]).id] == old(self).outbound_log()[old(
                    self,
                ).conns()[i].id].push(OutMessage::Close),
            forall|id: u64|
                old(self).outbound_log().dom().contains(id) && !old(self).has_conn(id)
                    ==> final(self).outbound_log()[id] == old(self).outbound_log()[id],
    {
        let ghost oc = old(self).conns();
        let ghost olog = old(self).outbound_log();
        proof {
            assert forall|i: int| 0 <= i < oc.len() implies olog.dom().contains(
                (#[trigger] oc[i]).id,
            ) by {
                lemma_registry_id_allocated(*old(self), oc[i].id);
            }
        }
        while self.connections.len() > 0
            invariant
                self.conns().len() <= oc.len(),
                self.conns() == oc.subrange(0, self.conns().len() as int),
                self.open_set() == old(self).open_set(),
                self.pending() == old(self).pending(),
                self.observed() == old(self).observed(),
                self.ids_allocated() == old(self).ids_allocated(),
                self.next_id_val() == old(self).next_id_val(),
                self.cfg() == old(self).cfg(),
                self.is_running() == old(self).is_running(),
                self.port() == old(self).port(),
                self.outbound_log().dom() == olog.dom(),
                forall|i: int, j: int|
                    0 <= i < j < oc.len() ==> (#[trigger] oc[i]).id != (#[trigger] oc[j]).id,
                forall|i: int| 0 <= i < oc.len() ==> olog.dom().contains((#[trigger] oc[i]).id),
                forall|i: int|
                    0 <= i < self.conns().len() ==> self.outbound_log()[(#[trigger] oc[i]).id]
                        == olog[oc[i].id],
                forall|i: int|
                    self.conns().len() <= i < oc.len() ==> self.outbound_log()[(
                    #[trigger] oc[i]).id] == olog[oc[i].id].push(OutMessage::Close),
                forall|id: u64|
                    olog.dom().contains(id) && !(exists|i: int|
                        0 <= i < oc.len() && (#[trigger] oc[i]).id == id)
                        ==> self.outbound_log()[id] == olog[id],
            decreases self.connections.len(),
        {
            let ghost before = *self;
            let c = self.connections.pop().unwrap();
            c.close();
            proof {
                let n = self.conns().len() as int;
                assert(before.conns() == oc.subrange(0, n + 1));
                assert(c == before.conns()[n]);
                assert(c == oc[n]);
                assert(self.conns() =~= oc.subrange(0, n));
                self.out_log@ = self.out_log@.insert(c.id, self.out_log@[c.id].push(
                    OutMessage::Close,
                ));
                assert(self.outbound_log().dom() =~= olog.dom());
                assert(self.open_set() == old(self).open_set());
                assert(self.pending() == old(self).pending());
                assert(self.observed() == old(self).observed());
                assert(self.ids_allocated() == old(self).ids_allocated());
                assert(self.next_id_val() == old(self).next_id_val());
                assert forall|i: int|
                    0 <= i < self.conns().len() implies self.outbound_log()[(
                #[trigger] oc[i]).id] == olog[oc[i].id] by {
                    assert(oc[i].id != oc[n].id);
                }
                assert forall|id: u64|
                    olog.dom().contains(id) && !(exists|i: int|
                        0 <= i < oc.len() && (#[trigger] oc[i]).id == id)
                        implies self.outbound_log()[id] == olog[id] by {
                    assert(oc[n].id != id);
                }
            }
        }
        self.running = false;
        self.actual_port = 0;
        proof {
            assert(self.conns() =~= Seq::<Connection>::empty());
            assert(self.open_set() == old(self).open_set());
            assert(self.pending() == old(self).pending());
            assert(self.observed() == old(self).observed());
            assert(self.history() == old(self).history());
            assert(self.ids_allocated() == old(self).ids_allocated());
            assert(self.next_id_val() == old(self).next_id_val());
        }
        DwebbleWSResult::Okay
    }
}

/// The outcome of delivering one event while everything else stands
/// still: the event is queued at the tail and nothing else moves.
pub open spec fn delivered(pre: Server, post: Server, m: EventModel) -> bool {
    &&& post.pending() == pre.pending().push(m)
    &&& post.observed() == pre.observed()
    &&& post.conns() == pre.conns()
    &&& post.open_set() == pre.open_set()
    &&& post.ids_allocated() == pre.ids_allocated()
    &&& post.next_id_val() == pre.next_id_val()
    &&& post.outbound_log() == pre.outbound_log()
    &&& post.is_running() == pre.is_running()
    &&& post.port() == pre.port()
    &&& post.cfg() == pre.cfg()
}

/// Equal everywhere except the lifecycle flag and the recorded port: in
/// particular every existing connection and event is left intact.
pub open spec fn unchanged_but_lifecycle(a: Server, b: Server) -> bool {
    &&& a.conns() == b.conns()
    &&& a.open_set() == b.open_set()
    &&& a.pending() == b.pending()
    &&& a.observed() == b.observed()
    &&& a.ids_allocated() == b.ids_allocated()
    &&& a.next_id_val() == b.next_id_val()
    &&& a.outbound_log() == b.outbound_log()
    &&& a.cfg() == b.cfg()
}

/// Law: connection ids are handed out strictly increasing, so no id is
/// ever reused within the server's lifetime, however many connections
/// come and go.
pub proof fn lemma_ids_strictly_increasing(s: Server, i: int, j: int)
    requires
        s.wf(),
        0 <= i < j < s.ids_allocated().len(),
    ensures
        s.ids_allocated()[i] < s.ids_allocated()[j],
{
}

/// Law: in the full event history of a well-formed server, every
/// connection shows exactly one Connected first, then only messages and
/// errors, then at most one Disconnected last, and no event at all for
/// an id outside that window.
pub proof fn lemma_history_per_connection(s: Server, id: u64)
    requires
        s.wf(),
    ensures
        per_conn_ordered(conn_events(s.history(), id)),
{
}

/// Law: the events already handed out by `poll_event` keep, for every
/// connection, the same order as the history they were drawn from.
pub proof fn lemma_observed_per_connection(s: Server, id: u64)
    requires
        s.wf(),
    ensures
        per_conn_ordered(conn_events(s.observed(), id)),
        conn_events(s.observed(), id).is_prefix_of(conn_events(s.history(), id)),
{
    assert(s.observed() =~= s.history().take(s.observed().len() as int));
    lemma_conn_events_take_prefix(s.history(), id, s.observed().len() as int);
    assert(conn_events(s.observed(), id) == conn_events(
        s.history().take(s.observed().len() as int),
        id,
    ));
    lemma_per_conn_ordered_prefix(conn_events(s.observed(), id), conn_events(s.history(), id));
}

/// Law: an id in the registry is inside its open event window and was
/// allocated by the counter; the registry never holds a foreign id.
pub proof fn lemma_registered_is_tracked(s: Server, id: u64)
    requires
        s.wf(),
        s.has_conn(id),
    ensures
        open_in(s.history(), id),
        s.ids_allocated().contains(id),
{
    lemma_registry_id_allocated(s, id);
}

/// An id inside the open set was allocated, so it lies below the
/// counter.
proof fn lemma_open_id_bounded(s: Server, cid: u64)
    requires
        s.wf(),
        s.open_set().contains(cid),
    ensures
        cid < s.next_id_val(),
        s.ids_allocated().contains(cid),
{
    let j = choose|j: int| 0 <= j < s.open_set().len() && s.open_set()[j] == cid;
    assert(s.ids_allocated().contains(s.open_set()[j]));
    let k = choose|k: int| 0 <= k < s.ids_allocated().len() && s.ids_allocated()[k] == cid;
    assert(s.ids_allocated()[k] < s.next_id_val());
}

/// Both states show the same observable values everywhere.
pub open spec fn state_eq(a: Server, b: Server) -> bool {
    &&& state_eq_but_log(a, b)
    &&& a.outbound_log() == b.outbound_log()
}

/// Equal everywhere except possibly the outbound log.
pub open spec fn state_eq_but_log(a: Server, b: Server) -> bool {
    &&& a.conns() == b.conns()
    &&& state_eq_but_conns_and_log(a, b)
}

/// Equal everywhere except possibly the registry and the outbound log.
pub open spec fn state_eq_but_conns_and_log(a: Server, b: Server) -> bool {
    &&& a.is_running() == b.is_running()
    &&& a.port() == b.port()
    &&& a.next_id_val() == b.next_id_val()
    &&& a.pending() == b.pending()
    &&& a.observed() == b.observed()
    &&& a.ids_allocated() == b.ids_allocated()
    &&& a.open_set() == b.open_set()
    &&& a.cfg() == b.cfg()
}

/// A registered id is inside its event window and was allocated, so the
/// outbound log has an entry for it.
proof fn lemma_registry_id_allocated(s: Server, id: u64)
    requires
        s.wf(),
        s.has_conn(id),
    ensures
        s.open_set().contains(id),
        s.ids_allocated().contains(id),
        s.outbound_log().dom().contains(id),
{
    let i = choose|i: int| 0 <= i < s.conns().len() && (#[trigger] s.conns()[i]).id == id;
    assert(s.open_set().contains(s.conns()[i].id));
    let j = choose|j: int| 0 <= j < s.open_set().len() && s.open_set()[j] == id;
    assert(s.ids_allocated().contains(s.open_set()[j]));
}

} // verus!
