use vstd::prelude::*;
use crate::protocol::{
    request, step, ClientId, DestroyRequest, GlobalHandle, LoopAction, LoopEvent, ProtocolModel,
    DESTROY_QUEUE_CAPACITY,
};

verus! {

/// The dispatch loop taking `evs` in order from `m`: the final state and the
/// action for each event.
pub open spec fn run(m: ProtocolModel, evs: Seq<LoopEvent>) -> (ProtocolModel, Seq<LoopAction>)
    decreases evs.len(),
{
    if evs.len() == 0 {
        (m, seq![])
    } else {
        let (m1, a) = step(m, evs[0]);
        let (m2, acts) = run(m1, evs.drop_first());
        (m2, seq![a] + acts)
    }
}

/// Producers asking, in the order the lock serialised them, for the removal of `hs`.
pub open spec fn request_all(m: ProtocolModel, hs: Seq<GlobalHandle>) -> (ProtocolModel, Seq<DestroyRequest>)
    decreases hs.len(),
{
    if hs.len() == 0 {
        (m, seq![])
    } else {
        let (m1, o) = request(m, hs[0]);
        let (m2, os) = request_all(m1, hs.drop_first());
        (m2, seq![o] + os)
    }
}

/// The same event `n` times.
pub open spec fn repeat(ev: LoopEvent, n: nat) -> Seq<LoopEvent> {
    Seq::new(n, |i: int| ev)
}

/// Each accepted connection yields exactly one new client identity and exactly
/// one new-client notification, naming that identity; no identity is handed
/// out twice or taken from a client already known.
pub proof fn lemma_accept_notifies_once(m: ProtocolModel, n: nat)
    requires
        m.running,
        m.clients.len() + n <= usize::MAX,
    ensures
        ({
            let (f, acts) = run(m, repeat(LoopEvent::ClientConnected, n));
            &&& acts.len() == n
            &&& forall|i: int| 0 <= i < n ==> #[trigger] acts[i] == LoopAction::NotifyNewClient((m.clients.len() + i) as ClientId)
            &&& f.clients == m.clients + Seq::new(n, |i: int| true)
            &&& f.running
            &&& f.globals == m.globals
            &&& f.pending == m.pending
        }),
    decreases n,
{
    let evs = repeat(LoopEvent::ClientConnected, n);
    if n > 0 {
        let (m1, a) = step(m, evs[0]);
        assert(evs.drop_first() =~= repeat(LoopEvent::ClientConnected, (n - 1) as nat));
        lemma_accept_notifies_once(m1, (n - 1) as nat);
        let (f, acts) = run(m, evs);
        let (f1, acts1) = run(m1, evs.drop_first());
        assert(acts == seq![a] + acts1);
        assert forall|i: int| 0 <= i < n implies #[trigger] acts[i] == LoopAction::NotifyNewClient((m.clients.len() + i) as ClientId) by {
            if i > 0 {
                assert(acts[i] == acts1[i - 1]);
            }
        }
        assert(f.clients =~= m.clients + Seq::new(n, |i: int| true)) by {
            assert(m1.clients == m.clients.push(true));
        }
    } else {
        assert(m.clients + Seq::new(0, |i: int| true) =~= m.clients);
    }
}

/// Requests for distinct live handles that fit in the queue are all queued, in order.
pub proof fn lemma_requests_queue_in_order(m: ProtocolModel, hs: Seq<GlobalHandle>)
    requires
        m.wf(),
        m.pending.len() + hs.len() <= DESTROY_QUEUE_CAPACITY,
        hs.no_duplicates(),
        forall|i: int| 0 <= i < hs.len() ==> m.is_live(#[trigger] hs[i]) && !m.pending.contains(hs[i]),
    ensures
        ({
            let (f, outs) = request_all(m, hs);
            &&& outs == Seq::new(hs.len(), |i: int| DestroyRequest::Queued)
            &&& f == ProtocolModel { pending: m.pending + hs, ..m }
            &&& f.wf()
        }),
    decreases hs.len(),
{
    if hs.len() == 0 {
        assert(m.pending + hs =~= m.pending);
        let (f, outs) = request_all(m, hs);
        assert(outs =~= Seq::new(hs.len(), |i: int| DestroyRequest::Queued));
    } else {
        let (m1, o) = request(m, hs[0]);
        assert(o == DestroyRequest::Queued);
        let rest = hs.drop_first();
        assert forall|i: int| 0 <= i < rest.len() implies m1.is_live(#[trigger] rest[i]) && !m1.pending.contains(rest[i]) by {
            assert(rest[i] == hs[i + 1]);
            assert(hs[0] != hs[i + 1]);
            if m1.pending.contains(rest[i]) {
                let k = choose|k: int| 0 <= k < m1.pending.len() && m1.pending[k] == rest[i];
                if k < m.pending.len() {
                    assert(m.pending.contains(hs[i + 1]));
                }
            }
        }
        assert(m1.wf()) by {
            assert forall|i: int| 0 <= i < m1.pending.len() implies m1.is_live(#[trigger] m1.pending[i]) by {
                if i < m.pending.len() {
                    assert(m.is_live(m.pending[i]));
                }
            }
        }
        assert(rest.no_duplicates()) by {
            assert forall|i: int, j: int| 0 <= i < j < rest.len() implies rest[i] != rest[j] by {
                assert(hs[i + 1] != hs[j + 1]);
            }
        }
        lemma_requests_queue_in_order(m1, rest);
        let (f, outs) = request_all(m, hs);
        let (f1, outs1) = request_all(m1, rest);
        assert(m1.pending + rest =~= m.pending + hs);
        assert(outs =~= Seq::new(hs.len(), |i: int| DestroyRequest::Queued));
    }
}

/// Draining the queue: the loop removes each queued handle once, oldest first.
pub proof fn lemma_drain_in_order(m: ProtocolModel)
    requires
        m.wf(),
        m.running,
    ensures
        ({
            let (f, acts) = run(m, repeat(LoopEvent::DestroyReady, m.pending.len()));
            &&& acts == Seq::new(m.pending.len(), |i: int| LoopAction::RemoveGlobal(m.pending[i]))
            &&& f.pending.len() == 0
            &&& f.running
            &&& f.clients == m.clients
            &&& f.globals.len() == m.globals.len()
            &&& forall|i: int| 0 <= i < m.pending.len() ==> !f.is_live(#[trigger] m.pending[i])
            &&& forall|h: GlobalHandle| !m.pending.contains(h) ==> f.is_live(h) == m.is_live(h)
            &&& f.wf()
        }),
    decreases m.pending.len(),
{
    let n = m.pending.len();
    let evs = repeat(LoopEvent::DestroyReady, n);
    if n == 0 {
        let (f, acts) = run(m, evs);
        assert(acts =~= Seq::new(0, |i: int| LoopAction::RemoveGlobal(m.pending[i])));
    } else {
        let h = m.pending[0];
        assert(m.is_live(h));
        let (m1, a) = step(m, evs[0]);
        assert(m1.wf()) by {
            assert forall|i: int| 0 <= i < m1.pending.len() implies m1.is_live(#[trigger] m1.pending[i]) by {
                assert(m1.pending[i] == m.pending[i + 1]);
                assert(m.is_live(m.pending[i + 1]));
                assert(m.pending[0] != m.pending[i + 1]);
            }
            assert forall|i: int, j: int| 0 <= i < j < m1.pending.len() implies m1.pending[i] != m1.pending[j] by {
                assert(m.pending[i + 1] != m.pending[j + 1]);
            }
        }
        assert(evs.drop_first() =~= repeat(LoopEvent::DestroyReady, m1.pending.len()));
        lemma_drain_in_order(m1);
        let (f, acts) = run(m, evs);
        let (f1, acts1) = run(m1, evs.drop_first());
        assert(acts =~= Seq::new(n, |i: int| LoopAction::RemoveGlobal(m.pending[i]))) by {
            assert forall|i: int| 0 < i < n implies acts[i] == LoopAction::RemoveGlobal(m.pending[i]) by {
                assert(acts[i] == acts1[i - 1]);
                assert(m1.pending[i - 1] == m.pending[i]);
            }
        }
        assert forall|i: int| 0 <= i < n implies !f.is_live(#[trigger] m.pending[i]) by {
            if i == 0 {
                assert(!m1.is_live(h));
                assert(!m1.pending.contains(h)) by {
                    if m1.pending.contains(h) {
                        let k = choose|k: int| 0 <= k < m1.pending.len() && m1.pending[k] == h;
                        assert(m.pending[k + 1] == h);
                    }
                }
            } else {
                assert(m1.pending[i - 1] == m.pending[i]);
            }
        }
        assert forall|g: GlobalHandle| !m.pending.contains(g) implies f.is_live(g) == m.is_live(g) by {
            assert(g != h);
            if m1.pending.contains(g) {
                let k = choose|k: int| 0 <= k < m1.pending.len() && m1.pending[k] == g;
                assert(m.pending[k + 1] == g);
            }
        }
    }
}

/// Destroy requests from producers, up to the queue's capacity, are each
/// removed exactly once by the dispatch loop, in the order they were queued;
/// once drained, the queue yields no further removal.
pub proof fn lemma_destroy_fifo_exactly_once(m: ProtocolModel, hs: Seq<GlobalHandle>)
    requires
        m.wf(),
        m.running,
        m.pending.len() == 0,
        hs.len() <= DESTROY_QUEUE_CAPACITY,
        hs.no_duplicates(),
        forall|i: int| 0 <= i < hs.len() ==> m.is_live(#[trigger] hs[i]),
    ensures
        ({
            let (q, outs) = request_all(m, hs);
            let (f, acts) = run(q, repeat(LoopEvent::DestroyReady, hs.len()));
            &&& outs == Seq::new(hs.len(), |i: int| DestroyRequest::Queued)
            &&& acts == Seq::new(hs.len(), |i: int| LoopAction::RemoveGlobal(hs[i]))
            &&& forall|i: int| 0 <= i < hs.len() ==> !f.is_live(#[trigger] hs[i])
            &&& forall|h: GlobalHandle| !hs.contains(h) ==> f.is_live(h) == m.is_live(h)
            &&& step(f, LoopEvent::DestroyReady).1 == LoopAction::Idle
        }),
{
    lemma_requests_queue_in_order(m, hs);
    let (q, outs) = request_all(m, hs);
    assert(m.pending + hs =~= hs);
    lemma_drain_in_order(q);
}

/// A request made while the queue holds its maximum is not taken and changes
/// nothing: the caller waits. Once the dispatch loop consumes an entry, the
/// same request is queued.
pub proof fn lemma_full_queue_waits(m: ProtocolModel, h: GlobalHandle)
    requires
        m.wf(),
        m.running,
        m.pending.len() == DESTROY_QUEUE_CAPACITY,
        m.is_live(h),
        !m.pending.contains(h),
    ensures
        request(m, h) == (m, DestroyRequest::Full),
        ({
            let (m1, a) = step(m, LoopEvent::DestroyReady);
            &&& a == LoopAction::RemoveGlobal(m.pending[0])
            &&& request(m1, h) == (ProtocolModel { pending: m1.pending.push(h), ..m1 }, DestroyRequest::Queued)
        }),
{
    let (m1, a) = step(m, LoopEvent::DestroyReady);
    assert(m.pending.contains(m.pending[0]));
    assert(h != m.pending[0]);
    assert(m1.is_live(h));
    if m1.pending.contains(h) {
        let k = choose|k: int| 0 <= k < m1.pending.len() && m1.pending[k] == h;
        assert(m.pending[k + 1] == h);
    }
}

/// Once cancelled, the loop takes no further action on any event.
pub proof fn lemma_cancel_stops(m: ProtocolModel, evs: Seq<LoopEvent>)
    ensures
        ({
            let (c, a) = step(m, LoopEvent::Cancel);
            let (f, acts) = run(c, evs);
            &&& a == LoopAction::Stop
            &&& f == c
            &&& acts == Seq::new(evs.len(), |i: int| LoopAction::Stop)
        }),
    decreases evs.len(),
{
    let (c, a) = step(m, LoopEvent::Cancel);
    if evs.len() > 0 {
        lemma_cancel_stops(m, evs.drop_first());
        let (f, acts) = run(c, evs);
        let (f1, acts1) = run(c, evs.drop_first());
        assert(acts =~= Seq::new(evs.len(), |i: int| LoopAction::Stop)) by {
            assert forall|i: int| 0 < i < evs.len() implies acts[i] == LoopAction::Stop by {
                assert(acts[i] == acts1[i - 1]);
            }
        }
    } else {
        let (f, acts) = run(c, evs);
        assert(acts =~= Seq::new(0, |i: int| LoopAction::Stop));
    }
}

} // verus!
