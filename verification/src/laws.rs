//! What holds of the balancer over any run of packets.

use vstd::prelude::*;
use crate::addr::Addressing;
use crate::balancer::{new_flow, step, toward_backend, Action, State};
use crate::selector::{choice, is_backend, position};
use crate::table::{
    answers, first_by_backend, first_by_client_port, first_where, lemma_first_where,
    lemma_first_where_push, same_flow, Connection, Lookup,
};

verus! {

/// The state after the packets addressed as `packets` were decided on, one
/// after the other.
pub open spec fn run(s: State, packets: Seq<Addressing>) -> State
    decreases packets.len(),
{
    if packets.len() == 0 {
        s
    } else {
        step(run(s, packets.drop_last()), packets.last()).0
    }
}

/// `t` is the packet of a client for the service: sent to the service port,
/// and not from the address of a backend.
pub open spec fn from_client(s: State, t: Addressing) -> bool {
    t.destination_port == s.service_port && !is_backend(s.backends, t.source)
}

/// The record made for the `k`-th flow that is opened from the state `s` on,
/// by a packet addressed as `t`: its backend is the `k`-th choice.
pub open spec fn opened(s: State, k: int, t: Addressing) -> Connection {
    Connection {
        backend: choice(s.backends, s.cursor, k).ip,
        client: t.source,
        lb: t.destination,
        port_mapper: (t.source_port, choice(s.backends, s.cursor, k).port),
    }
}

/// A decision keeps the state well formed and the configuration as it is. It
/// never changes or removes a record, and adds at most one, at the end; no
/// two records ever stand for the same flow.
pub proof fn lemma_step_keeps(s: State, t: Addressing)
    requires
        s.wf(),
    ensures
        step(s, t).0.wf(),
        step(s, t).0.service_port == s.service_port,
        step(s, t).0.backends == s.backends,
        s.flows.len() <= step(s, t).0.flows.len() <= s.flows.len() + 1,
        forall|i: int| 0 <= i < s.flows.len() ==> step(s, t).0.flows[i] == s.flows[i],
{
    let after = step(s, t).0;
    if from_client(s, t) && first_by_client_port(s.flows, t.source_port) is None {
        let c = new_flow(s, t);
        lemma_first_where(s.flows, Lookup::ClientPort(t.source_port));
        assert forall|i: int, j: int| 0 <= i < j < after.flows.len() implies !same_flow(
            #[trigger] after.flows[i],
            #[trigger] after.flows[j],
        ) by {
            if j == s.flows.len() {
                assert(!answers(s.flows[i], Lookup::ClientPort(t.source_port)));
            } else {
                assert(!same_flow(s.flows[i], s.flows[j]));
            }
        }
    }
}

/// A lookup that found a record finds the same record after any decision.
pub proof fn lemma_step_keeps_found(s: State, t: Addressing, key: Lookup)
    requires
        first_where(s.flows, key) is Some,
    ensures
        first_where(step(s, t).0.flows, key) == first_where(s.flows, key),
{
    if step(s, t).0.flows != s.flows {
        lemma_first_where_push(s.flows, new_flow(s, t), key);
    }
}

/// A run keeps the state well formed and the configuration as it is, and
/// never changes or removes a record.
pub proof fn lemma_run_keeps(s: State, packets: Seq<Addressing>)
    requires
        s.wf(),
    ensures
        run(s, packets).wf(),
        run(s, packets).service_port == s.service_port,
        run(s, packets).backends == s.backends,
        s.flows.len() <= run(s, packets).flows.len() <= s.flows.len() + packets.len(),
        forall|i: int| 0 <= i < s.flows.len() ==> run(s, packets).flows[i] == s.flows[i],
    decreases packets.len(),
{
    if packets.len() > 0 {
        lemma_run_keeps(s, packets.drop_last());
        lemma_step_keeps(run(s, packets.drop_last()), packets.last());
    }
}

/// A lookup that found a record finds the same record after any run.
pub proof fn lemma_run_keeps_found(s: State, packets: Seq<Addressing>, key: Lookup)
    requires
        first_where(s.flows, key) is Some,
    ensures
        first_where(run(s, packets).flows, key) == first_where(s.flows, key),
    decreases packets.len(),
{
    if packets.len() > 0 {
        lemma_run_keeps_found(s, packets.drop_last(), key);
        lemma_step_keeps_found(run(s, packets.drop_last()), packets.last(), key);
    }
}

/// A packet for another port than the service's changes nothing and is not
/// to be injected.
pub proof fn lemma_other_port_ignored(s: State, t: Addressing)
    requires
        t.destination_port != s.service_port,
    ensures
        step(s, t) == (s, Action::Ignore),
{
}

/// There and back. A client's packet that opens a flow is sent on from the
/// balancer's address and the service port to the backend under the cursor
/// and its port. The backend's reply to that, whatever was decided in
/// between, is sent on from the balancer's address and the service port to
/// the client's address and port. This is stated for a backend that no
/// earlier flow was given: a reply is traced by the backend's address alone,
/// to the first flow that was given it.
pub proof fn lemma_round_trip(s: State, t: Addressing, between: Seq<Addressing>)
    requires
        s.wf(),
        from_client(s, t),
        first_by_client_port(s.flows, t.source_port) is None,
        first_by_backend(s.flows, s.backends[s.cursor].ip) is None,
    ensures
        step(s, t).1 == Action::ToBackend(
            Addressing {
                source: t.destination,
                destination: s.backends[s.cursor].ip,
                source_port: s.service_port,
                destination_port: s.backends[s.cursor].port,
            },
        ),
        step(
            run(step(s, t).0, between),
            Addressing {
                source: s.backends[s.cursor].ip,
                destination: t.destination,
                source_port: s.backends[s.cursor].port,
                destination_port: s.service_port,
            },
        ).1 == Action::ToClient(
            Addressing {
                source: t.destination,
                destination: t.source,
                source_port: s.service_port,
                destination_port: t.source_port,
            },
        ),
{
    let backend = s.backends[s.cursor];
    let s1 = step(s, t).0;
    let c = new_flow(s, t);
    let key = Lookup::Backend(backend.ip);
    lemma_first_where_push(s.flows, c, key);
    assert(first_by_backend(s1.flows, backend.ip) == Some(c));
    lemma_step_keeps(s, t);
    lemma_run_keeps(s1, between);
    lemma_run_keeps_found(s1, between, key);
    assert(is_backend(s.backends, backend.ip));
}

/// A flow keeps its backend. The packets of a client that come from one
/// source port are all sent to the same backend and port, from the first of
/// them on and whatever is decided in between: flows that other clients open
/// do not change it.
pub proof fn lemma_flow_stability(s: State, t: Addressing, between: Seq<Addressing>)
    requires
        s.wf(),
        from_client(s, t),
    ensures
        step(s, t).1 is ToBackend,
        step(run(step(s, t).0, between), t).1 == step(s, t).1,
{
    let s1 = step(s, t).0;
    let key = Lookup::ClientPort(t.source_port);
    if first_by_client_port(s.flows, t.source_port) is None {
        lemma_first_where_push(s.flows, new_flow(s, t), key);
    }
    lemma_step_keeps(s, t);
    lemma_run_keeps(s1, between);
    lemma_run_keeps_found(s1, between, key);
}

/// Backends are given out in turn, whatever arrives and in whatever order.
/// The flows recorded during a run are given the backends in configured order
/// from the cursor on, from the last backend back to the first: the `k`-th
/// record added holds the `k`-th choice, and the cursor has moved on by the
/// number of records added.
pub proof fn lemma_round_robin(s: State, packets: Seq<Addressing>)
    requires
        s.wf(),
    ensures
        run(s, packets).cursor == position(
            s.backends.len() as int,
            s.cursor,
            run(s, packets).flows.len() - s.flows.len(),
        ),
        forall|k: int|
            0 <= k < run(s, packets).flows.len() - s.flows.len() ==> {
                let c = #[trigger] run(s, packets).flows[s.flows.len() + k];
                &&& c.backend == choice(s.backends, s.cursor, k).ip
                &&& c.port_mapper.1 == choice(s.backends, s.cursor, k).port
            },
    decreases packets.len(),
{
    let m = s.backends.len() as int;
    if packets.len() == 0 {
        vstd::arithmetic::div_mod::lemma_small_mod(s.cursor as nat, m as nat);
    } else {
        let before = run(s, packets.drop_last());
        let after = run(s, packets);
        let added = before.flows.len() - s.flows.len();
        lemma_round_robin(s, packets.drop_last());
        lemma_run_keeps(s, packets.drop_last());
        lemma_step_keeps(before, packets.last());
        if after.flows.len() != before.flows.len() {
            assert(after.cursor == position(m, before.cursor, 1));
            assert(after.cursor == position(m, s.cursor, added + 1)) by {
                vstd::arithmetic::div_mod::lemma_add_mod_noop(s.cursor + added, 1, m);
                vstd::arithmetic::div_mod::lemma_mod_twice(s.cursor + added, m);
                if m == 1 {
                } else {
                    vstd::arithmetic::div_mod::lemma_small_mod(1, m as nat);
                }
            }
            assert(after.flows[before.flows.len() as int] == new_flow(before, packets.last()));
        }
        assert forall|k: int| 0 <= k < after.flows.len() - s.flows.len() implies {
            let c = #[trigger] after.flows[s.flows.len() + k];
            &&& c.backend == choice(s.backends, s.cursor, k).ip
            &&& c.port_mapper.1 == choice(s.backends, s.cursor, k).port
        } by {
            if k < added {
                assert(after.flows[s.flows.len() + k] == before.flows[s.flows.len() + k]);
            }
        }
    }
}

/// New flows take the backends in turn. Of client packets that come from
/// source ports of which none is recorded and no two are the same, each opens
/// a flow: the `i`-th of them is sent to the `i`-th choice, and its record is
/// added at the end.
pub proof fn lemma_new_flows_take_turns(s: State, packets: Seq<Addressing>)
    requires
        s.wf(),
        forall|i: int| 0 <= i < packets.len() ==> from_client(s, #[trigger] packets[i]),
        forall|i: int|
            0 <= i < packets.len() ==> first_by_client_port(
                s.flows,
                (#[trigger] packets[i]).source_port,
            ) is None,
        forall|i: int, j: int|
            0 <= i < j < packets.len() ==> (#[trigger] packets[i]).source_port != (
            #[trigger] packets[j]).source_port,
    ensures
        run(s, packets).flows == s.flows + Seq::new(
            packets.len(),
            |k: int| opened(s, k, packets[k]),
        ),
        forall|i: int|
            0 <= i < packets.len() ==> #[trigger] step(run(s, packets.take(i)), packets[i]).1
                == Action::ToBackend(toward_backend(s.service_port, opened(s, i, packets[i]))),
    decreases packets.len(),
{
    let n = packets.len() as int;
    if n == 0 {
        assert(run(s, packets).flows =~= s.flows + Seq::new(
            packets.len(),
            |k: int| opened(s, k, packets[k]),
        ));
    } else {
        let head = packets.drop_last();
        let t = packets.last();
        let before = run(s, head);
        lemma_new_flows_take_turns(s, head);
        lemma_run_keeps(s, head);
        lemma_round_robin(s, head);
        let key = Lookup::ClientPort(t.source_port);
        lemma_first_where(s.flows, key);
        assert forall|j: int| 0 <= j < before.flows.len() implies !answers(
            #[trigger] before.flows[j],
            key,
        ) by {
            if j >= s.flows.len() {
                assert(before.flows[j] == opened(s, j - s.flows.len(), head[j - s.flows.len()]));
                assert(head[j - s.flows.len()] == packets[j - s.flows.len()]);
            } else {
                assert(before.flows[j] == s.flows[j]);
            }
        }
        lemma_first_where(before.flows, key);
        assert(first_by_client_port(before.flows, t.source_port) is None);
        assert(before.cursor == position(s.backends.len() as int, s.cursor, n - 1));
        assert(new_flow(before, t) == opened(s, n - 1, t));
        assert(run(s, packets).flows =~= s.flows + Seq::new(
            packets.len(),
            |k: int| opened(s, k, packets[k]),
        )) by {
            assert forall|k: int| 0 <= k < n - 1 implies opened(s, k, head[k]) == opened(
                s,
                k,
                packets[k],
            ) by {
                assert(head[k] == packets[k]);
            }
        }
        assert forall|i: int| 0 <= i < packets.len() implies #[trigger] step(
            run(s, packets.take(i)),
            packets[i],
        ).1 == Action::ToBackend(
            toward_backend(s.service_port, opened(s, i, packets[i])),
        ) by {
            if i < n - 1 {
                assert(packets.take(i) =~= head.take(i));
                assert(head[i] == packets[i]);
                assert(step(run(s, head.take(i)), head[i]).1 == Action::ToBackend(
                    toward_backend(s.service_port, opened(s, i, head[i])),
                ));
            } else {
                assert(packets.take(i) =~= head);
            }
        }
    }
}

} // verus!
