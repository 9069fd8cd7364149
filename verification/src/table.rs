//! The flow table: which backend each client flow was given.
//!
//! Records are kept in the order in which they were inserted and are never
//! changed or removed. A lookup returns the first record that matches.

use vstd::prelude::*;
use crate::addr::Ipv4Address;

verus! {

/// One flow: a client, and the backend chosen for it.
#[derive(Clone, Copy, Debug, Eq, Hash)]
pub struct Connection {
    /// The backend chosen for this flow.
    pub backend: Ipv4Address,
    /// The client that opened it.
    pub client: Ipv4Address,
    /// The balancer's own address, as the client's packet named it.
    pub lb: Ipv4Address,
    /// The client's source port and the backend's port.
    pub port_mapper: (u16, u16),
}

impl PartialEq for Connection {
    fn eq(&self, other: &Self) -> (same: bool) {
        self.backend == other.backend && self.client == other.client && self.lb == other.lb
            && self.port_mapper.0 == other.port_mapper.0 && self.port_mapper.1
            == other.port_mapper.1
    }
}

impl vstd::std_specs::cmp::PartialEqSpecImpl for Connection {
    open spec fn obeys_eq_spec() -> bool {
        true
    }

    open spec fn eq_spec(&self, other: &Self) -> bool {
        self.backend == other.backend && self.client == other.client && self.lb == other.lb
            && self.port_mapper.0 == other.port_mapper.0 && self.port_mapper.1
            == other.port_mapper.1
    }
}

/// What a lookup goes by.
pub enum Lookup {
    /// The address of the backend.
    Backend(Ipv4Address),
    /// The source port of the client.
    ClientPort(u16),
}

/// Whether the record `c` answers a lookup by `key`.
pub open spec fn answers(c: Connection, key: Lookup) -> bool {
    match key {
        Lookup::Backend(addr) => c.backend == addr,
        Lookup::ClientPort(port) => c.port_mapper.0 == port,
    }
}

/// The record at `i` matches `key`, and none before it does.
pub open spec fn leads(records: Seq<Connection>, key: Lookup, i: int) -> bool {
    &&& 0 <= i < records.len()
    &&& answers(records[i], key)
    &&& forall|j: int| 0 <= j < i ==> !answers(#[trigger] records[j], key)
}

/// The first record, in the order of insertion, that matches `key`.
pub open spec fn first_where(records: Seq<Connection>, key: Lookup) -> Option<Connection> {
    if exists|i: int| leads(records, key, i) {
        Some(records[choose|i: int| leads(records, key, i)])
    } else {
        None
    }
}

/// The first record whose backend is `addr`.
pub open spec fn first_by_backend(records: Seq<Connection>, addr: Ipv4Address) -> Option<
    Connection,
> {
    first_where(records, Lookup::Backend(addr))
}

/// The first record whose client source port is `port`.
pub open spec fn first_by_client_port(records: Seq<Connection>, port: u16) -> Option<Connection> {
    first_where(records, Lookup::ClientPort(port))
}

/// Two records stand for the same flow: same client, same client source port.
pub open spec fn same_flow(a: Connection, b: Connection) -> bool {
    a.client == b.client && a.port_mapper.0 == b.port_mapper.0
}

/// Some record of `records` stands for the flow of `record`.
pub open spec fn tracks(records: Seq<Connection>, record: Connection) -> bool {
    exists|i: int| 0 <= i < records.len() && same_flow(#[trigger] records[i], record)
}

/// No two records stand for the same flow.
pub open spec fn unique_flows(records: Seq<Connection>) -> bool {
    forall|i: int, j: int|
        0 <= i < j < records.len() ==> !same_flow(#[trigger] records[i], #[trigger] records[j])
}

/// The table after `record` was inserted: unchanged if the flow is tracked
/// already, else with the record at the end.
pub open spec fn inserted(records: Seq<Connection>, record: Connection) -> Seq<Connection> {
    if tracks(records, record) {
        records
    } else {
        records.push(record)
    }
}

/// Where the record at `i` leads, the lookup returns it.
pub proof fn lemma_first_found(records: Seq<Connection>, key: Lookup, i: int)
    requires
        leads(records, key, i),
    ensures
        first_where(records, key) == Some(records[i]),
{
    let k = choose|k: int| leads(records, key, k);
    if k < i {
        assert(!answers(records[k], key));
    } else if i < k {
        assert(!answers(records[i], key));
    }
}

/// A lookup finds a record exactly if some record matches, and what it finds
/// is a record of the table that matches.
pub proof fn lemma_first_where(records: Seq<Connection>, key: Lookup)
    ensures
        first_where(records, key) is None <==> forall|i: int|
            0 <= i < records.len() ==> !answers(#[trigger] records[i], key),
        first_where(records, key) matches Some(c) ==> answers(c, key) && records.contains(c),
{
    if exists|i: int| leads(records, key, i) {
        let k = choose|k: int| leads(records, key, k);
        assert(answers(records[k], key));
    } else {
        assert forall|i: int| 0 <= i < records.len() implies !answers(
            #[trigger] records[i],
            key,
        ) by {
            lemma_none_before(records, key, i + 1);
        }
    }
}

/// Where no record leads, no record matches: shown for the first `n`.
proof fn lemma_none_before(records: Seq<Connection>, key: Lookup, n: int)
    requires
        0 <= n <= records.len(),
        !exists|i: int| leads(records, key, i),
    ensures
        forall|j: int| 0 <= j < n ==> !answers(#[trigger] records[j], key),
    decreases n,
{
    if n > 0 {
        lemma_none_before(records, key, n - 1);
        if answers(records[n - 1], key) {
            assert(leads(records, key, n - 1));
        }
    }
}

/// A record added at the end changes no lookup that found something, and is
/// found by a lookup that found nothing, if it matches.
pub proof fn lemma_first_where_push(records: Seq<Connection>, record: Connection, key: Lookup)
    ensures
        first_where(records.push(record), key) == (match first_where(records, key) {
            Some(c) => Some(c),
            None => if answers(record, key) {
                Some(record)
            } else {
                None
            },
        }),
{
    let grown = records.push(record);
    lemma_first_where(records, key);
    if exists|i: int| leads(records, key, i) {
        let k = choose|k: int| leads(records, key, k);
        assert(grown[k] == records[k]);
        assert forall|j: int| 0 <= j < k implies !answers(#[trigger] grown[j], key) by {
            assert(grown[j] == records[j]);
        }
        assert(leads(grown, key, k));
        lemma_first_found(grown, key, k);
    } else if answers(record, key) {
        let n = records.len() as int;
        assert forall|j: int| 0 <= j < n implies !answers(#[trigger] grown[j], key) by {
            assert(grown[j] == records[j]);
        }
        assert(leads(grown, key, n));
        lemma_first_found(grown, key, n);
    } else {
        lemma_first_where(grown, key);
        assert forall|j: int| 0 <= j < grown.len() implies !answers(#[trigger] grown[j], key) by {
            if j < records.len() {
                assert(grown[j] == records[j]);
            }
        }
    }
}

/// Inserting keeps the flows unique, keeps every record in its place, and
/// leaves the flow of the record tracked.
pub proof fn lemma_inserted(records: Seq<Connection>, record: Connection)
    requires
        unique_flows(records),
    ensures
        unique_flows(inserted(records, record)),
        tracks(inserted(records, record), record),
        records.len() <= inserted(records, record).len(),
        forall|i: int| 0 <= i < records.len() ==> inserted(records, record)[i] == records[i],
        inserted(inserted(records, record), record) == inserted(records, record),
{
    let after = inserted(records, record);
    if !tracks(records, record) {
        assert(same_flow(after[records.len() as int], record));
    }
}

/// The NAT state: the flow records, in the order of insertion.
pub struct FlowTable {
    records: Vec<Connection>,
}

impl View for FlowTable {
    type V = Seq<Connection>;

    /// The records, oldest first.
    closed spec fn view(&self) -> Seq<Connection> {
        self.records@
    }
}

impl FlowTable {
    /// No two records of the table stand for the same flow.
    pub open spec fn wf(&self) -> bool {
        unique_flows(self@)
    }

    /// A table without records.
    pub fn new() -> (table: FlowTable)
        ensures
            table@ == Seq::<Connection>::empty(),
            table.wf(),
    {
        FlowTable { records: Vec::new() }
    }

    /// How many flows are tracked.
    pub fn len(&self) -> (n: usize)
        ensures
            n == self@.len(),
    {
        self.records.len()
    }

    /// The first record that matches `key`.
    fn find(&self, key: Lookup) -> (found: Option<Connection>)
        ensures
            found == first_where(self@, key),
    {
        let mut i: usize = 0;
        while i < self.records.len()
            invariant
                i <= self.records@.len(),
                forall|j: int| 0 <= j < i ==> !answers(#[trigger] self.records@[j], key),
            decreases self.records@.len() - i,
        {
            let c = self.records[i];
            let hit = match key {
                Lookup::Backend(addr) => c.backend == addr,
                Lookup::ClientPort(port) => c.port_mapper.0 == port,
            };
            if hit {
                proof {
                    lemma_first_found(self.records@, key, i as int);
                }
                return Some(c);
            }
            i = i + 1;
        }
        proof {
            lemma_first_where(self.records@, key);
        }
        None
    }

    /// The record of the flow that was given the backend `addr`: the first
    /// inserted, where several flows share the backend.
    pub fn find_by_backend(&self, addr: Ipv4Address) -> (found: Option<Connection>)
        ensures
            found == first_by_backend(self@, addr),
    {
        self.find(Lookup::Backend(addr))
    }

    /// The record of the flow whose client source port is `port`: the first
    /// inserted, where several clients use the port.
    pub fn find_by_client_port(&self, port: u16) -> (found: Option<Connection>)
        ensures
            found == first_by_client_port(self@, port),
    {
        self.find(Lookup::ClientPort(port))
    }

    /// Whether the flow of `record` is tracked.
    pub fn contains_flow(&self, record: &Connection) -> (found: bool)
        ensures
            found == tracks(self@, *record),
    {
        let mut i: usize = 0;
        while i < self.records.len()
            invariant
                i <= self.records@.len(),
                forall|j: int| 0 <= j < i ==> !same_flow(#[trigger] self.records@[j], *record),
            decreases self.records@.len() - i,
        {
            let c = self.records[i];
            if c.client == record.client && c.port_mapper.0 == record.port_mapper.0 {
                return true;
            }
            i = i + 1;
        }
        false
    }

    /// Adds `record` at the end, unless its flow is tracked already: then
    /// the table stays as it is.
    pub fn insert(&mut self, record: Connection)
        requires
            old(self).wf(),
        ensures
            final(self).wf(),
            final(self)@ == inserted(old(self)@, record),
    {
        proof {
            lemma_inserted(self@, record);
        }
        if !self.contains_flow(&record) {
            self.records.push(record);
        }
    }

    /// The records, oldest first.
    pub fn records(&self) -> (all: Vec<Connection>)
        ensures
            all@ == self@,
    {
        let mut all: Vec<Connection> = Vec::new();
        let mut i: usize = 0;
        while i < self.records.len()
            invariant
                i <= self.records@.len(),
                all@ == self.records@.take(i as int),
            decreases self.records@.len() - i,
        {
            all.push(self.records[i]);
            assert(self.records@.take(i + 1) == self.records@.take(i as int).push(
                self.records@[i as int],
            ));
            i = i + 1;
        }
        assert(self.records@.take(i as int) == self.records@);
        all
    }
}

} // verus!
