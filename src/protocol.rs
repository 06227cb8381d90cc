use vstd::prelude::*;

verus! {

/// How many destroy requests may wait for the dispatch loop at once.
pub const DESTROY_QUEUE_CAPACITY: usize = 8;

/// Names a published global; handles are handed out in order from zero.
pub type GlobalHandle = usize;

/// Names an accepted client; identities are handed out in order from zero.
pub type ClientId = usize;

/// What the protocol state owner answers to a destroy request.
#[derive(PartialEq, Eq, Structural, Clone, Copy, Debug)]
pub enum DestroyRequest {
    /// The handle is now at the back of the destroy queue.
    Queued,
    /// The queue holds its maximum: the request was not taken, and the caller
    /// waits for the dispatch loop to consume an entry before asking again.
    Full,
    /// The handle names no live global, or one whose removal is already queued.
    NotLive,
}

/// An event source of the dispatch loop that became ready.
#[derive(PartialEq, Eq, Structural, Clone, Copy, Debug)]
pub enum LoopEvent {
    /// The destroy queue may hold a handle.
    DestroyReady,
    /// A transport connection was accepted and inserted into the protocol engine.
    ClientConnected,
    /// The protocol engine's event source is readable.
    ClientsReadable,
    /// A client's transport went away.
    ClientGone(ClientId),
    /// A dispatch, flush or accept failed: the loop ends.
    Failed,
    /// The owner cancels the loop.
    Cancel,
}

/// What the dispatch loop does in answer to an event.
#[derive(PartialEq, Eq, Structural, Clone, Copy, Debug)]
pub enum LoopAction {
    /// Erase this global from the protocol engine's registry.
    RemoveGlobal(GlobalHandle),
    /// Tell the collaborator subsystems of this new client.
    NotifyNewClient(ClientId),
    /// Dispatch one round of client requests, flush all clients, clear readiness.
    DispatchAndFlush,
    /// Nothing to do.
    Idle,
    /// The loop is over; nothing more is done.
    Stop,
}

/// The mathematical state of the protocol state owner.
pub struct ProtocolModel {
    /// `globals[h]` tells whether global `h` is still published.
    pub globals: Seq<bool>,
    /// Handles waiting for removal, oldest first.
    pub pending: Seq<GlobalHandle>,
    /// `clients[c]` tells whether client `c` is still connected.
    pub clients: Seq<bool>,
    /// Whether the dispatch loop still runs.
    pub running: bool,
}

impl ProtocolModel {
    pub open spec fn is_live(self, h: GlobalHandle) -> bool {
        h < self.globals.len() && self.globals[h as int]
    }

    /// Each queued handle is live and queued once, and the queue fits its capacity.
    pub open spec fn wf(self) -> bool {
        &&& self.pending.len() <= DESTROY_QUEUE_CAPACITY
        &&& self.pending.no_duplicates()
        &&& forall|i: int| 0 <= i < self.pending.len() ==> self.is_live(#[trigger] self.pending[i])
    }
}

/// A fresh owner: nothing published, no client, the loop running.
pub open spec fn initial_model() -> ProtocolModel {
    ProtocolModel { globals: seq![], pending: seq![], clients: seq![], running: true }
}

/// Publishing a global: it gets the next handle.
pub open spec fn announce(m: ProtocolModel) -> (ProtocolModel, GlobalHandle) {
    (ProtocolModel { globals: m.globals.push(true), ..m }, m.globals.len() as GlobalHandle)
}

/// A producer asks for the removal of `h`.
pub open spec fn request(m: ProtocolModel, h: GlobalHandle) -> (ProtocolModel, DestroyRequest) {
    if !m.is_live(h) || m.pending.contains(h) {
        (m, DestroyRequest::NotLive)
    } else if m.pending.len() >= DESTROY_QUEUE_CAPACITY {
        (m, DestroyRequest::Full)
    } else {
        (ProtocolModel { pending: m.pending.push(h), ..m }, DestroyRequest::Queued)
    }
}

/// One transition of the dispatch loop.
pub open spec fn step(m: ProtocolModel, ev: LoopEvent) -> (ProtocolModel, LoopAction) {
    if !m.running {
        (m, LoopAction::Stop)
    } else {
        match ev {
            LoopEvent::DestroyReady => {
                if m.pending.len() == 0 {
                    (m, LoopAction::Idle)
                } else {
                    let h = m.pending[0];
                    (
                        ProtocolModel {
                            globals: m.globals.update(h as int, false),
                            pending: m.pending.drop_first(),
                            ..m
                        },
                        LoopAction::RemoveGlobal(h),
                    )
                }
            },
            LoopEvent::ClientConnected => {
                if m.clients.len() >= usize::MAX {
                    (ProtocolModel { running: false, ..m }, LoopAction::Stop)
                } else {
                    (
                        ProtocolModel { clients: m.clients.push(true), ..m },
                        LoopAction::NotifyNewClient(m.clients.len() as ClientId),
                    )
                }
            },
            LoopEvent::ClientsReadable => (m, LoopAction::DispatchAndFlush),
            LoopEvent::ClientGone(c) => {
                if c < m.clients.len() {
                    (ProtocolModel { clients: m.clients.update(c as int, false), ..m }, LoopAction::Idle)
                } else {
                    (m, LoopAction::Idle)
                }
            },
            LoopEvent::Failed => (ProtocolModel { running: false, ..m }, LoopAction::Stop),
            LoopEvent::Cancel => (ProtocolModel { running: false, ..m }, LoopAction::Stop),
        }
    }
}

/// The protocol state owner: global registry, destroy queue, client table and
/// the dispatch loop's run state.
pub struct ProtocolState {
    globals: Vec<bool>,
    pending: Vec<GlobalHandle>,
    clients: Vec<bool>,
    running: bool,
}

impl View for ProtocolState {
    type V = ProtocolModel;

    closed spec fn view(&self) -> ProtocolModel {
        ProtocolModel {
            globals: self.globals@,
            pending: self.pending@,
            clients: self.clients@,
            running: self.running,
        }
    }
}

impl ProtocolState {
    pub fn new() -> (r: Self)
        ensures
            r@ == initial_model(),
            r@.wf(),
    {
        let r = ProtocolState { globals: Vec::new(), pending: Vec::new(), clients: Vec::new(), running: true };
        assert(r@.globals =~= seq![]);
        assert(r@.pending =~= seq![]);
        assert(r@.clients =~= seq![]);
        r
    }

    pub fn is_running(&self) -> (r: bool)
        ensures
            r == self@.running,
    {
        self.running
    }

    pub fn is_live(&self, h: GlobalHandle) -> (r: bool)
        ensures
            r == self@.is_live(h),
    {
        h < self.globals.len() && self.globals[h]
    }

    pub fn is_connected(&self, c: ClientId) -> (r: bool)
        ensures
            r == (c < self@.clients.len() && self@.clients[c as int]),
    {
        c < self.clients.len() && self.clients[c]
    }

    /// The handles waiting for removal, oldest first.
    pub fn pending(&self) -> (r: Vec<GlobalHandle>)
        ensures
            r@ == self@.pending,
    {
        self.pending.clone()
    }

    /// Publishes a new global; `None` once every handle is in use.
    pub fn announce_global(&mut self) -> (r: Option<GlobalHandle>)
        requires
            old(self)@.wf(),
        ensures
            final(self)@.wf(),
            old(self)@.globals.len() < usize::MAX ==> r is Some && (final(self)@, r->0) == announce(old(self)@),
            old(self)@.globals.len() >= usize::MAX ==> r is None && final(self)@ == old(self)@,
    {
        if self.globals.len() == usize::MAX {
            return None;
        }
        let h = self.globals.len();
        self.globals.push(true);
        proof {
            let m = self@;
            assert forall|i: int| 0 <= i < m.pending.len() implies m.is_live(#[trigger] m.pending[i]) by {
                assert(old(self)@.is_live(old(self)@.pending[i]));
            }
        }
        Some(h)
    }

    fn is_pending(&self, h: GlobalHandle) -> (r: bool)
        ensures
            r == self@.pending.contains(h),
    {
        let mut i: usize = 0;
        while i < self.pending.len()
            invariant
                i <= self.pending.len(),
                forall|j: int| 0 <= j < i ==> self.pending@[j] != h,
            decreases self.pending.len() - i,
        {
            if self.pending[i] == h {
                return true;
            }
            i += 1;
        }
        false
    }

    /// Asks for the removal of global `h`: queued at the back, or refused
    /// because the queue is full (the caller waits and asks again) or because
    /// `h` is not live or already queued.
    pub fn request_destroy(&mut self, h: GlobalHandle) -> (r: DestroyRequest)
        requires
            old(self)@.wf(),
        ensures
            final(self)@.wf(),
            (final(self)@, r) == request(old(self)@, h),
    {
        if !self.is_live(h) || self.is_pending(h) {
            return DestroyRequest::NotLive;
        }
        if self.pending.len() >= DESTROY_QUEUE_CAPACITY {
            return DestroyRequest::Full;
        }
        self.pending.push(h);
        proof {
            let m = self@;
            assert forall|i: int| 0 <= i < m.pending.len() implies m.is_live(#[trigger] m.pending[i]) by {
                if i < old(self)@.pending.len() {
                    assert(old(self)@.is_live(old(self)@.pending[i]));
                }
            }
        }
        DestroyRequest::Queued
    }

    /// One turn of the dispatch loop: the decision for the event that became ready.
    pub fn on_event(&mut self, ev: LoopEvent) -> (r: LoopAction)
        requires
            old(self)@.wf(),
        ensures
            final(self)@.wf(),
            (final(self)@, r) == step(old(self)@, ev),
    {
        if !self.running {
            return LoopAction::Stop;
        }
        match ev {
            LoopEvent::DestroyReady => {
                if self.pending.len() == 0 {
                    LoopAction::Idle
                } else {
                    let h = self.pending.remove(0);
                    proof {
                        assert(old(self)@.is_live(old(self)@.pending[0]));
                    }
                    self.globals.set(h, false);
                    proof {
                        let o = old(self)@;
                        let m = self@;
                        assert(m.pending =~= o.pending.drop_first());
                        assert forall|i: int| 0 <= i < m.pending.len() implies m.is_live(#[trigger] m.pending[i]) by {
                            assert(o.pending[i + 1] == m.pending[i]);
                            assert(o.is_live(o.pending[i + 1]));
                            assert(o.pending[0] != o.pending[i + 1]);
                        }
                        assert(m.pending.no_duplicates()) by {
                            assert forall|i: int, j: int| 0 <= i < j < m.pending.len() implies m.pending[i] != m.pending[j] by {
                                assert(o.pending[i + 1] != o.pending[j + 1]);
                            }
                        }
                    }
                    LoopAction::RemoveGlobal(h)
                }
            },
            LoopEvent::ClientConnected => {
                if self.clients.len() == usize::MAX {
                    self.running = false;
                    LoopAction::Stop
                } else {
                    let c = self.clients.len();
                    self.clients.push(true);
                    LoopAction::NotifyNewClient(c)
                }
            },
            LoopEvent::ClientsReadable => LoopAction::DispatchAndFlush,
            LoopEvent::ClientGone(c) => {
                if c < self.clients.len() {
                    self.clients.set(c, false);
                }
                LoopAction::Idle
            },
            LoopEvent::Failed => {
                self.running = false;
                LoopAction::Stop
            },
            LoopEvent::Cancel => {
                self.running = false;
                LoopAction::Stop
            },
        }
    }
}

} // verus!
