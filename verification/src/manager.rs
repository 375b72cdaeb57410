//! Several connections at once: which ones are open, and who is told what.
use vstd::prelude::*;

use crate::address::SocketAddr;
use crate::device::{DeviceData, TypedDevice};
use crate::error::{self, SlmpError, SlmpResult};
use crate::order;

verus! {

/// How long a closed connection rests before its address is connected to again, in milliseconds.
pub const REST_MS: u64 = 100;

/// The address of a PLC, or why it cannot be read.
pub type Address = core::result::Result<SocketAddr, std::io::Error>;

/// A device that is to be monitored, with the connection to read it through.
#[derive(Debug)]
pub struct MonitorRequest {
    pub address: Address,
    pub monitor_device: TypedDevice,
}

/// A device that is monitored, with the connection that it is read through.
#[derive(Copy, Clone, Debug, PartialEq, Eq, Structural)]
pub struct MonitoredDevice {
    pub socket_addr: SocketAddr,
    pub monitor_device: TypedDevice,
}

/// A value, with the connection that it was read through.
#[derive(Clone, Debug, PartialEq, Eq)]
pub struct PLCData {
    pub socket_addr: SocketAddr,
    pub device_data: DeviceData,
}

/// What has happened while a connection is added.
#[derive(Debug)]
pub enum ManagerEvent {
    /// The address of the PLC has been read.
    Resolved(Address),
    /// An earlier connection to this address is gone; it was listed or not.
    Disconnected { addr: SocketAddr, was_listed: bool },
    /// The rest is over.
    Rested(SocketAddr),
    /// The attempt to connect to this address has ended.
    Opened { addr: SocketAddr, result: SlmpResult<()> },
    /// The monitoring task runs, and the connection is listed.
    Listed,
}

/// What to do next while a connection is added.
#[derive(Debug)]
pub enum ManagerAction {
    /// End an earlier connection to this address.
    Disconnect(SocketAddr),
    /// Wait for so many milliseconds.
    Rest { addr: SocketAddr, ms: u64 },
    /// Connect to this address.
    Open(SocketAddr),
    /// Start the monitoring task, and list the connection under this address.
    List(SocketAddr),
    /// Adding the connection is over.
    Finish(SlmpResult<()>),
}

/// The answer to an event while a connection is added.
pub open spec fn manager_action(event: ManagerEvent) -> ManagerAction {
    match event {
        ManagerEvent::Resolved(Ok(addr)) => ManagerAction::Disconnect(addr),
        ManagerEvent::Resolved(Err(e)) => ManagerAction::Finish(Err(error::from_io(e))),
        ManagerEvent::Disconnected { addr, was_listed } => if was_listed {
            ManagerAction::Rest { addr, ms: REST_MS }
        } else {
            ManagerAction::Open(addr)
        },
        ManagerEvent::Rested(addr) => ManagerAction::Open(addr),
        ManagerEvent::Opened { addr, result } => match result {
            Ok(_) => ManagerAction::List(addr),
            Err(e) => ManagerAction::Finish(Err(e)),
        },
        ManagerEvent::Listed => ManagerAction::Finish(Ok(())),
    }
}

/// The connections once `action` has been performed, where `worker` is what runs the connection that
/// is added.
pub open spec fn after_action<W>(
    connections: Map<SocketAddr, W>,
    action: ManagerAction,
    worker: W,
) -> Map<SocketAddr, W> {
    match action {
        ManagerAction::Disconnect(addr) => connections.remove(addr),
        ManagerAction::List(addr) => connections.insert(addr, worker),
        _ => connections,
    }
}

/// The connections once the first `n` of `actions` have been performed.
pub open spec fn after_actions<W>(
    before: Map<SocketAddr, W>,
    actions: Seq<ManagerAction>,
    n: int,
    worker: W,
) -> Map<SocketAddr, W>
    decreases n,
{
    if n <= 0 {
        before
    } else {
        after_action(after_actions(before, actions, n - 1, worker), actions[n - 1], worker)
    }
}

/// Whether `event` reports that `action` has been performed on `connections`.
pub open spec fn reports<W>(
    connections: Map<SocketAddr, W>,
    action: ManagerAction,
    event: ManagerEvent,
) -> bool {
    match action {
        ManagerAction::Disconnect(addr) => event == (ManagerEvent::Disconnected {
            addr,
            was_listed: connections.contains_key(addr),
        }),
        ManagerAction::Rest { addr, .. } => event == ManagerEvent::Rested(addr),
        ManagerAction::Open(addr) => event is Opened && event->Opened_addr == addr,
        ManagerAction::List(_) => event is Listed,
        ManagerAction::Finish(_) => false,
    }
}

/// Whether `events` and the answers `actions` are one whole attempt to add a connection to those of
/// `before`, in the course of which nobody else changes the list.
pub open spec fn is_adding<W>(
    before: Map<SocketAddr, W>,
    events: Seq<ManagerEvent>,
    actions: Seq<ManagerAction>,
    worker: W,
) -> bool {
    &&& events.len() == actions.len() > 0
    &&& events[0] is Resolved
    &&& forall|i: int| 0 <= i < events.len() ==> actions[i] == manager_action(#[trigger] events[i])
    &&& forall|i: int|
        0 < i < events.len() ==> reports(
            after_actions(before, actions, i - 1, worker),
            actions[i - 1],
            #[trigger] events[i],
        )
    &&& actions.last() is Finish
}

/// The addresses that connections are listed under.
pub open spec fn addresses<W>(entries: Seq<(SocketAddr, W)>) -> Seq<SocketAddr> {
    entries.map_values(|e: (SocketAddr, W)| e.0)
}

/// The workers of the listed connections.
pub open spec fn workers<W>(entries: Seq<(SocketAddr, W)>) -> Seq<W> {
    entries.map_values(|e: (SocketAddr, W)| e.1)
}

/// The worker that is listed under each address.
pub open spec fn by_address<W>(entries: Seq<(SocketAddr, W)>) -> Map<SocketAddr, W>
    decreases entries.len(),
{
    if entries.len() == 0 {
        Map::empty()
    } else {
        by_address(entries.drop_last()).insert(entries.last().0, entries.last().1)
    }
}

/// What is listed under an address.
pub open spec fn found<W>(connections: Map<SocketAddr, W>, addr: SocketAddr) -> Option<W> {
    if connections.contains_key(addr) {
        Some(connections[addr])
    } else {
        None
    }
}

/// Whether listing `worker` under `addr` turns `before` into `after` and hands `replaced` back.
pub open spec fn is_listing<W>(
    before: Map<SocketAddr, W>,
    addr: SocketAddr,
    worker: W,
    after: Map<SocketAddr, W>,
    replaced: Option<W>,
) -> bool {
    after == before.insert(addr, worker) && replaced == found(before, addr)
}

/// Whether taking the connection to `address` off the list turns `before` into `after` and hands
/// `removed` over.
pub open spec fn is_taking_off<W>(
    before: Map<SocketAddr, W>,
    address: Address,
    after: Map<SocketAddr, W>,
    removed: SlmpResult<Option<W>>,
) -> bool {
    match address {
        Ok(addr) => after == before.remove(addr) && removed == Ok::<_, SlmpError>(
            found(before, addr),
        ),
        Err(e) => after == before && removed == Err::<Option<W>, _>(error::from_io(e)),
    }
}

/// Whether taking everything off the list turns `before` into `after` and hands `removed` over.
pub open spec fn is_clearing<W>(
    before: Seq<(SocketAddr, W)>,
    after: Seq<(SocketAddr, W)>,
    removed: Seq<W>,
) -> bool {
    after == Seq::<(SocketAddr, W)>::empty() && removed == workers(before)
}

/// Whether `worker` is what looking `address` up among `connections` gives.
pub open spec fn is_look_up<W>(
    connections: Map<SocketAddr, W>,
    address: Address,
    worker: SlmpResult<&W>,
) -> bool {
    match (address, worker) {
        (Ok(addr), Ok(worker)) => connections.contains_key(addr) && *worker == connections[addr],
        (Ok(addr), Err(e)) => !connections.contains_key(addr) && is_not_found(e),
        (Err(e), worker) => worker == Err::<&W, _>(error::from_io(e)),
    }
}

/// Whether `error` reports that there is no connection.
pub open spec fn is_not_found(error: SlmpError) -> bool {
    error matches SlmpError::Io(e) && error::is_connection_not_found(e)
}

/// Each address once, in the order in which the addresses first occur.
pub open spec fn distinct(addrs: Seq<SocketAddr>) -> Seq<SocketAddr>
    decreases addrs.len(),
{
    if addrs.len() == 0 {
        Seq::empty()
    } else {
        let before = distinct(addrs.drop_last());
        if before.contains(addrs.last()) {
            before
        } else {
            before.push(addrs.last())
        }
    }
}

/// The addresses that targets are read through.
pub open spec fn target_addresses(targets: Seq<MonitoredDevice>) -> Seq<SocketAddr> {
    targets.map_values(|t: MonitoredDevice| t.socket_addr)
}

/// The condition that a target is read through an address.
pub open spec fn is_at(addr: SocketAddr) -> spec_fn(MonitoredDevice) -> bool {
    |t: MonitoredDevice| t.socket_addr == addr
}

/// The devices that are read through an address, in the order given.
pub open spec fn devices_at(targets: Seq<MonitoredDevice>, addr: SocketAddr) -> Seq<TypedDevice> {
    targets.filter(is_at(addr)).map_values(|t: MonitoredDevice| t.monitor_device)
}

/// Whether `sends` hands every address its devices.
pub open spec fn is_distribution(
    targets: Seq<MonitoredDevice>,
    sends: Seq<(SocketAddr, Vec<TypedDevice>)>,
) -> bool {
    &&& addresses(sends) == distinct(target_addresses(targets))
    &&& forall|i: int|
        0 <= i < sends.len() ==> (#[trigger] sends[i]).1@ == devices_at(targets, sends[i].0)
}

/// Whether request `i` is the first one whose address cannot be read, for the reason `e`.
pub open spec fn first_unreadable(requests: Seq<MonitorRequest>, i: int, e: std::io::Error) -> bool {
    &&& 0 <= i < requests.len()
    &&& requests[i].address == Err::<SocketAddr, _>(e)
    &&& forall|j: int| 0 <= j < i ==> (#[trigger] requests[j]).address is Ok
}

/// Whether every address can be read.
pub open spec fn all_readable(requests: Seq<MonitorRequest>) -> bool {
    forall|j: int| 0 <= j < requests.len() ==> (#[trigger] requests[j]).address is Ok
}

/// The devices that requests ask for, where every address can be read.
pub open spec fn targets_of(requests: Seq<MonitorRequest>) -> Seq<MonitoredDevice> {
    requests.map_values(
        |r: MonitorRequest|
            MonitoredDevice { socket_addr: r.address->Ok_0, monitor_device: r.monitor_device },
    )
}

/// The time since each connection was made, for those that it is known of.
pub open spec fn known_elapsed(addrs: Seq<SocketAddr>, readings: Seq<Option<u128>>) -> Seq<
    (SocketAddr, u128),
>
    decreases addrs.len(),
{
    if addrs.len() == 0 || readings.len() == 0 {
        Seq::empty()
    } else {
        let before = known_elapsed(addrs.drop_last(), readings.drop_last());
        match readings.last() {
            Some(elapsed) => before.push((addrs.last(), elapsed)),
            None => before,
        }
    }
}

/// The open connections. Of each, `W` is what runs it.
pub struct SLMPConnectionManager<W> {
    connections: Vec<(SocketAddr, W)>,
}

impl<W> View for SLMPConnectionManager<W> {
    type V = Map<SocketAddr, W>;

    open spec fn view(&self) -> Map<SocketAddr, W> {
        by_address(self.entries())
    }
}

impl<W> SLMPConnectionManager<W> {
    /// The connections in the order in which they are listed.
    pub closed spec fn entries(&self) -> Seq<(SocketAddr, W)> {
        self.connections@
    }

    /// There is at most one connection to an address.
    pub open spec fn well_formed(&self) -> bool {
        addresses(self.entries()).no_duplicates()
    }

    /// A manager without connections.
    pub fn new() -> (manager: Self)
        ensures
            manager.well_formed(),
            manager.entries() == Seq::<(SocketAddr, W)>::empty(),
            manager@ == Map::<SocketAddr, W>::empty(),
    {
        SLMPConnectionManager { connections: Vec::new() }
    }

    /// The place at which an address is listed.
    fn position(&self, addr: SocketAddr) -> (place: Option<usize>)
        requires
            self.well_formed(),
        ensures
            match place {
                Some(i) => i < self.entries().len() && self.entries()[i as int].0 == addr
                    && self@.contains_key(addr) && self@[addr] == self.entries()[i as int].1,
                None => !self@.contains_key(addr) && !addresses(self.entries()).contains(addr),
            },
    {
        let mut i: usize = 0;
        while i < self.connections.len()
            invariant
                i <= self.connections@.len(),
                self.well_formed(),
                forall|j: int| 0 <= j < i ==> (#[trigger] self.connections@[j]).0 != addr,
            decreases self.connections@.len() - i,
        {
            if self.connections[i].0 == addr {
                proof {
                    lemma_listed(self.entries(), i as int);
                }
                return Some(i);
            }
            i = i + 1;
        }
        proof {
            lemma_not_listed(self.entries(), addr);
        }
        None
    }

    /// The number of connections.
    pub fn len(&self) -> (len: usize)
        ensures
            len == self.entries().len(),
    {
        self.connections.len()
    }

    /// A connection by its place in the list.
    pub fn entry(&self, i: usize) -> (entry: (SocketAddr, &W))
        requires
            i < self.entries().len(),
        ensures
            entry.0 == self.entries()[i as int].0,
            *entry.1 == self.entries()[i as int].1,
    {
        let entry: &(SocketAddr, W) = &self.connections[i];
        (entry.0, &entry.1)
    }

    /// The next step of adding a connection: an earlier connection to the same address is ended
    /// first, and is given a rest.
    pub fn connect(event: ManagerEvent) -> (action: ManagerAction)
        ensures
            action == manager_action(event),
    {
        match event {
            ManagerEvent::Resolved(Ok(addr)) => ManagerAction::Disconnect(addr),
            ManagerEvent::Resolved(Err(e)) => ManagerAction::Finish(Err(SlmpError::from(e))),
            ManagerEvent::Disconnected { addr, was_listed } => {
                if was_listed {
                    ManagerAction::Rest { addr, ms: REST_MS }
                } else {
                    ManagerAction::Open(addr)
                }
            },
            ManagerEvent::Rested(addr) => ManagerAction::Open(addr),
            ManagerEvent::Opened { addr, result } => match result {
                Ok(_) => ManagerAction::List(addr),
                Err(e) => ManagerAction::Finish(Err(e)),
            },
            ManagerEvent::Listed => ManagerAction::Finish(Ok(())),
        }
    }

    /// Lists a connection. One that was listed under the address before is handed back.
    pub fn insert(&mut self, addr: SocketAddr, worker: W) -> (replaced: Option<W>)
        requires
            old(self).well_formed(),
        ensures
            final(self).well_formed(),
            is_listing(old(self)@, addr, worker, final(self)@, replaced),
    {
        let replaced: Option<W> = self.remove(addr);
        let ghost before = self.entries();
        self.connections.push((addr, worker));
        proof {
            let after = self.entries();
            assert(after.drop_last() =~= before);
            lemma_not_in_map(before, addr);
            assert(addresses(after) =~= addresses(before).push(addr));
            assert(by_address(after) =~= by_address(before).insert(addr, worker));
            assert(self@ =~= old(self)@.insert(addr, worker));
        }
        replaced
    }

    /// Takes a connection off the list.
    fn remove(&mut self, addr: SocketAddr) -> (removed: Option<W>)
        requires
            old(self).well_formed(),
        ensures
            final(self).well_formed(),
            final(self)@ == old(self)@.remove(addr),
            removed == found(old(self)@, addr),
            removed is None ==> final(self).entries() == old(self).entries(),
    {
        let ghost before = self.entries();
        match self.position(addr) {
            Some(i) => {
                let entry: (SocketAddr, W) = self.connections.remove(i);
                proof {
                    lemma_remove(before, i as int);
                }
                Some(entry.1)
            },
            None => {
                assert(self@ =~= self@.remove(addr));
                None
            },
        }
    }

    /// Takes a connection off the list, and hands it over to be closed; there may be none.
    pub fn disconnect(&mut self, address: Address) -> (removed: SlmpResult<Option<W>>)
        requires
            old(self).well_formed(),
        ensures
            final(self).well_formed(),
            is_taking_off(old(self)@, address, final(self)@, removed),
            removed is Err ==> final(self).entries() == old(self).entries(),
    {
        match address {
            Ok(addr) => Ok(self.remove(addr)),
            Err(e) => Err(SlmpError::from(e)),
        }
    }

    /// Takes all connections off the list, and hands them over to be closed.
    pub fn clear(&mut self) -> (removed: Vec<W>)
        ensures
            final(self).well_formed(),
            final(self)@ == Map::<SocketAddr, W>::empty(),
            final(self).entries() == Seq::<(SocketAddr, W)>::empty(),
            is_clearing(old(self).entries(), final(self).entries(), removed@),
    {
        let mut drained: Vec<(SocketAddr, W)> = Vec::new();
        drained.append(&mut self.connections);
        let ghost all = drained@;
        assert(all =~= old(self).entries());
        let mut removed: Vec<W> = Vec::new();
        for e in it: drained
            invariant
                it.seq() == all,
                removed@ == workers(all.take(it.index())),
        {
            proof {
                assert(workers(all.take(it.index() + 1)) =~= workers(all.take(it.index())).push(
                    e.1,
                ));
            }
            removed.push(e.1);
        }
        assert(all.take(all.len() as int) =~= all);
        removed
    }

    /// The worker of a connection.
    pub fn operate_worker(&self, address: Address) -> (worker: SlmpResult<&W>)
        requires
            self.well_formed(),
        ensures
            is_look_up(self@, address, worker),
    {
        match address {
            Ok(addr) => match self.position(addr) {
                Some(i) => Ok(&self.connections[i].1),
                None => Err(SlmpError::Io(error::connection_not_found())),
            },
            Err(e) => Err(SlmpError::from(e)),
        }
    }
}

proof fn lemma_in_map<W>(entries: Seq<(SocketAddr, W)>, addr: SocketAddr)
    ensures
        by_address(entries).contains_key(addr) <==> addresses(entries).contains(addr),
    decreases entries.len(),
{
    if entries.len() > 0 {
        let before = entries.drop_last();
        lemma_in_map(before, addr);
        assert(addresses(entries) =~= addresses(before).push(entries.last().0));
        if addresses(before).contains(addr) {
            let i = choose|i: int| 0 <= i < addresses(before).len() && addresses(before)[i] == addr;
            assert(addresses(entries)[i] == addr);
        }
        if entries.last().0 == addr {
            assert(addresses(entries)[entries.len() - 1] == addr);
        }
    }
}

proof fn lemma_not_in_map<W>(entries: Seq<(SocketAddr, W)>, addr: SocketAddr)
    requires
        !by_address(entries).contains_key(addr),
    ensures
        !addresses(entries).contains(addr),
{
    lemma_in_map(entries, addr);
}

proof fn lemma_not_listed<W>(entries: Seq<(SocketAddr, W)>, addr: SocketAddr)
    requires
        forall|j: int| 0 <= j < entries.len() ==> (#[trigger] entries[j]).0 != addr,
    ensures
        !by_address(entries).contains_key(addr),
        !addresses(entries).contains(addr),
{
    assert forall|j: int| 0 <= j < addresses(entries).len() implies #[trigger] addresses(
        entries,
    )[j] != addr by {
        assert(entries[j].0 != addr);
    }
    lemma_in_map(entries, addr);
}

proof fn lemma_listed<W>(entries: Seq<(SocketAddr, W)>, i: int)
    requires
        addresses(entries).no_duplicates(),
        0 <= i < entries.len(),
    ensures
        by_address(entries).contains_key(entries[i].0),
        by_address(entries)[entries[i].0] == entries[i].1,
    decreases entries.len(),
{
    if i < entries.len() - 1 {
        let before = entries.drop_last();
        assert(addresses(before) =~= addresses(entries).drop_last());
        assert(addresses(entries)[i] != addresses(entries)[entries.len() - 1]);
        lemma_listed(before, i);
        assert(before[i] == entries[i]);
    }
}

proof fn lemma_remove<W>(entries: Seq<(SocketAddr, W)>, i: int)
    requires
        addresses(entries).no_duplicates(),
        0 <= i < entries.len(),
    ensures
        addresses(entries.remove(i)).no_duplicates(),
        by_address(entries.remove(i)) == by_address(entries).remove(entries[i].0),
{
    let addr = entries[i].0;
    let after = entries.remove(i);
    assert(addresses(after) =~= addresses(entries).remove(i));
    assert forall|a: int, b: int|
        0 <= a < after.len() && 0 <= b < after.len() && a != b implies addresses(after)[a]
        != addresses(after)[b] by {
        let a0 = if a < i { a } else { a + 1 };
        let b0 = if b < i { b } else { b + 1 };
        assert(addresses(after)[a] == addresses(entries)[a0]);
        assert(addresses(after)[b] == addresses(entries)[b0]);
    }
    assert forall|other: SocketAddr| #[trigger]
        by_address(after).contains_key(other) == by_address(entries).remove(addr).contains_key(
            other,
        ) by {
        lemma_in_map(after, other);
        lemma_in_map(entries, other);
        if addresses(after).contains(other) {
            let b = choose|b: int| 0 <= b < after.len() && addresses(after)[b] == other;
            let b0 = if b < i { b } else { b + 1 };
            assert(addresses(entries)[b0] == other);
            assert(addresses(entries)[i] != other);
        }
        if addresses(entries).contains(other) && other != addr {
            let b0 = choose|b: int| 0 <= b < entries.len() && addresses(entries)[b] == other;
            let b = if b0 < i { b0 } else { b0 - 1 };
            assert(addresses(after)[b] == other);
        }
    }
    assert forall|other: SocketAddr| by_address(after).contains_key(other) implies #[trigger]
        by_address(after)[other] == by_address(entries)[other] by {
        lemma_in_map(after, other);
        let b = choose|b: int| 0 <= b < after.len() && addresses(after)[b] == other;
        let b0 = if b < i { b } else { b + 1 };
        assert(after[b] == entries[b0]);
        lemma_listed(after, b);
        lemma_listed(entries, b0);
    }
    assert(by_address(after) =~= by_address(entries).remove(addr));
}

/// What follows from a request to monitor devices.
#[derive(Debug)]
pub struct MonitorPlan {
    /// What each connection is told to monitor.
    pub sends: Vec<(SocketAddr, Vec<TypedDevice>)>,
    /// The devices that are monitored from now on.
    pub monitored: Vec<MonitoredDevice>,
}

/// Whether there is a connection for every target.
pub open spec fn all_connected<W>(
    connections: Map<SocketAddr, W>,
    targets: Seq<MonitoredDevice>,
) -> bool {
    forall|i: int|
        0 <= i < targets.len() ==> connections.contains_key((#[trigger] targets[i]).socket_addr)
}

/// Whether `plan` is what follows from `requests` where `connections` are open.
pub open spec fn is_registration<W>(
    connections: Map<SocketAddr, W>,
    requests: Seq<MonitorRequest>,
    plan: SlmpResult<MonitorPlan>,
) -> bool {
    &&& !all_readable(requests) ==> exists|i: int, e: std::io::Error| #[trigger]
        first_unreadable(requests, i, e) && plan == Err::<MonitorPlan, _>(error::from_io(e))
    &&& all_readable(requests) ==> match plan {
        Ok(plan) => {
            &&& all_connected(connections, targets_of(requests))
            &&& is_distribution(targets_of(requests), plan.sends@)
            &&& plan.monitored@ == targets_of(requests)
        },
        Err(e) => !all_connected(connections, targets_of(requests)) && is_not_found(e),
    }
}

/// The devices that requests ask for, or why the first unreadable address cannot be read.
fn resolve_targets(requests: Vec<MonitorRequest>) -> (resolved: core::result::Result<
    Vec<MonitoredDevice>,
    std::io::Error,
>)
    ensures
        match resolved {
            Ok(targets) => all_readable(requests@) && targets@ == targets_of(requests@),
            Err(e) => exists|i: int| #[trigger] first_unreadable(requests@, i, e),
        },
{
    let ghost all = requests@;
    let mut targets: Vec<MonitoredDevice> = Vec::new();
    for r in it: requests
        invariant
            it.seq() == all,
            all == requests@,
            forall|j: int| 0 <= j < it.index() ==> (#[trigger] all[j]).address is Ok,
            targets@ == targets_of(all.take(it.index())),
    {
        match r.address {
            Ok(socket_addr) => {
                proof {
                    assert(targets_of(all.take(it.index() + 1)) =~= targets_of(
                        all.take(it.index()),
                    ).push(MonitoredDevice { socket_addr, monitor_device: r.monitor_device }));
                }
                targets.push(MonitoredDevice { socket_addr, monitor_device: r.monitor_device });
            },
            Err(e) => {
                let failed: core::result::Result<Vec<MonitoredDevice>, std::io::Error> = Err(e);
                assert(first_unreadable(requests@, it.index(), failed->Err_0));
                return failed;
            },
        }
    }
    assert(all.take(all.len() as int) =~= all);
    Ok(targets)
}

/// Adds an address to a list unless it is there already.
fn note_address(addrs: &mut Vec<SocketAddr>, addr: SocketAddr)
    ensures
        final(addrs)@ == if old(addrs)@.contains(addr) {
            old(addrs)@
        } else {
            old(addrs)@.push(addr)
        },
{
    let mut i: usize = 0;
    while i < addrs.len()
        invariant
            i <= addrs@.len(),
            addrs@ == old(addrs)@,
            forall|j: int| 0 <= j < i ==> #[trigger] addrs@[j] != addr,
        decreases addrs@.len() - i,
    {
        if addrs[i] == addr {
            assert(addrs@.contains(addr));
            return;
        }
        i = i + 1;
    }
    addrs.push(addr);
}

/// Each address that targets are read through, once.
fn distinct_addresses(targets: &Vec<MonitoredDevice>) -> (addrs: Vec<SocketAddr>)
    ensures
        addrs@ == distinct(target_addresses(targets@)),
{
    let mut addrs: Vec<SocketAddr> = Vec::new();
    let mut i: usize = 0;
    let ghost all = target_addresses(targets@);
    assert(all.take(0) =~= Seq::empty());
    while i < targets.len()
        invariant
            i <= targets@.len(),
            all == target_addresses(targets@),
            addrs@ == distinct(all.take(i as int)),
        decreases targets@.len() - i,
    {
        assert(all.take(i + 1).drop_last() =~= all.take(i as int));
        note_address(&mut addrs, targets[i].socket_addr);
        i = i + 1;
    }
    assert(all.take(i as int) =~= all);
    addrs
}

/// The devices that are read through an address.
fn select_devices(targets: &Vec<MonitoredDevice>, addr: SocketAddr) -> (devices: Vec<TypedDevice>)
    ensures
        devices@ == devices_at(targets@, addr),
{
    let mut devices: Vec<TypedDevice> = Vec::new();
    let mut i: usize = 0;
    proof {
        reveal_with_fuel(Seq::filter, 1);
        assert(targets@.take(0) =~= Seq::empty());
        assert(devices@ =~= devices_at(targets@.take(0), addr));
    }
    while i < targets.len()
        invariant
            i <= targets@.len(),
            devices@ == devices_at(targets@.take(i as int), addr),
        decreases targets@.len() - i,
    {
        proof {
            order::lemma_filter_push(targets@, is_at(addr), i as int);
        }
        let ghost before = targets@.take(i as int).filter(is_at(addr));
        if targets[i].socket_addr == addr {
            devices.push(targets[i].monitor_device);
            assert(devices@ =~= before.push(targets@[i as int]).map_values(
                |t: MonitoredDevice| t.monitor_device,
            ));
        }
        i = i + 1;
    }
    assert(targets@.take(i as int) =~= targets@);
    devices
}

proof fn lemma_distinct_members(addrs: Seq<SocketAddr>)
    ensures
        forall|a: SocketAddr| #[trigger] distinct(addrs).contains(a) <==> addrs.contains(a),
        distinct(addrs).no_duplicates(),
    decreases addrs.len(),
{
    if addrs.len() > 0 {
        let before = addrs.drop_last();
        let last = addrs.last();
        lemma_distinct_members(before);
        let all = distinct(addrs);
        let d = distinct(before);
        assert forall|a: SocketAddr| #[trigger] all.contains(a) <==> addrs.contains(a) by {
            assert(d.contains(a) <==> before.contains(a));
            if addrs.contains(a) {
                let i = choose|i: int| 0 <= i < addrs.len() && addrs[i] == a;
                if i < before.len() {
                    assert(before[i] == a);
                    assert(d.contains(a));
                    let j = choose|j: int| 0 <= j < d.len() && d[j] == a;
                    assert(all[j] == a);
                } else {
                    assert(a == last);
                    if !d.contains(last) {
                        assert(all[d.len() as int] == a);
                    }
                }
            }
            if all.contains(a) {
                let j = choose|j: int| 0 <= j < all.len() && all[j] == a;
                if j < d.len() {
                    assert(d[j] == a);
                    assert(before.contains(a));
                    let i = choose|i: int| 0 <= i < before.len() && before[i] == a;
                    assert(addrs[i] == a);
                } else {
                    assert(addrs[addrs.len() - 1] == a);
                }
            }
        }
    }
}

impl<W> SLMPConnectionManager<W> {
    /// What follows from the request to monitor devices: each connection is told its devices once,
    /// in the order given. Unless every address can be read and has a connection, nobody is told
    /// anything; an address that cannot be read is reported before one without a connection.
    pub fn register_monitor_targets(&self, requests: Vec<MonitorRequest>) -> (plan: SlmpResult<
        MonitorPlan,
    >)
        requires
            self.well_formed(),
        ensures
            is_registration(self@, requests@, plan),
    {
        match resolve_targets(requests) {
            Ok(targets) => self.plan_targets(targets),
            Err(e) => Err(SlmpError::from(e)),
        }
    }

    /// What each connection is told to monitor.
    fn plan_targets(&self, targets: Vec<MonitoredDevice>) -> (plan: SlmpResult<MonitorPlan>)
        requires
            self.well_formed(),
        ensures
            match plan {
                Ok(plan) => {
                    &&& all_connected(self@, targets@)
                    &&& is_distribution(targets@, plan.sends@)
                    &&& plan.monitored@ == targets@
                },
                Err(e) => !all_connected(self@, targets@) && is_not_found(e),
            },
    {
        let addrs: Vec<SocketAddr> = distinct_addresses(&targets);
        let ghost all = target_addresses(targets@);
        proof {
            lemma_distinct_members(all);
        }
        let mut i: usize = 0;
        while i < addrs.len()
            invariant
                i <= addrs@.len(),
                self.well_formed(),
                all == target_addresses(targets@),
                addrs@ == distinct(all),
                forall|a: SocketAddr| #[trigger] distinct(all).contains(a) <==> all.contains(a),
                forall|j: int| 0 <= j < i ==> self@.contains_key(#[trigger] addrs@[j]),
            decreases addrs@.len() - i,
        {
            if self.position(addrs[i]).is_none() {
                proof {
                    assert(addrs@.contains(addrs@[i as int]));
                    let j = choose|j: int| 0 <= j < all.len() && all[j] == addrs@[i as int];
                    assert(targets@[j].socket_addr == addrs@[i as int]);
                }
                return Err(SlmpError::Io(error::connection_not_found()));
            }
            i = i + 1;
        }
        assert(all_connected(self@, targets@)) by {
            assert forall|j: int| 0 <= j < targets@.len() implies self@.contains_key(
                (#[trigger] targets@[j]).socket_addr,
            ) by {
                assert(all[j] == targets@[j].socket_addr);
                assert(addrs@.contains(all[j]));
            }
        }
        let mut sends: Vec<(SocketAddr, Vec<TypedDevice>)> = Vec::new();
        let mut k: usize = 0;
        while k < addrs.len()
            invariant
                k <= addrs@.len(),
                sends@.len() == k,
                forall|j: int| 0 <= j < k ==> (#[trigger] sends@[j]).0 == addrs@[j],
                forall|j: int|
                    0 <= j < k ==> (#[trigger] sends@[j]).1@ == devices_at(targets@, sends@[j].0),
            decreases addrs@.len() - k,
        {
            sends.push((addrs[k], select_devices(&targets, addrs[k])));
            k = k + 1;
        }
        assert(addresses(sends@) =~= addrs@);
        Ok(MonitorPlan { sends, monitored: targets })
    }

    /// The time since each connection was made, in nanoseconds, out of one reading per connection;
    /// a connection whose clock gave none is left out.
    pub fn get_connections_with_elapsed_time(&self, readings: &Vec<Option<u128>>) -> (elapsed: Vec<
        (SocketAddr, u128),
    >)
        requires
            readings@.len() == self.entries().len(),
        ensures
            elapsed@ == known_elapsed(addresses(self.entries()), readings@),
    {
        let mut elapsed: Vec<(SocketAddr, u128)> = Vec::new();
        let mut i: usize = 0;
        let ghost addrs = addresses(self.entries());
        assert(addrs.take(0) =~= Seq::empty());
        while i < self.connections.len()
            invariant
                i <= self.connections@.len() == readings@.len(),
                addrs == addresses(self.connections@),
                elapsed@ == known_elapsed(addrs.take(i as int), readings@.take(i as int)),
            decreases self.connections@.len() - i,
        {
            assert(addrs.take(i + 1).drop_last() =~= addrs.take(i as int));
            assert(readings@.take(i + 1).drop_last() =~= readings@.take(i as int));
            if let Some(nanos) = readings[i] {
                elapsed.push((self.connections[i].0, nanos));
            }
            i = i + 1;
        }
        assert(addrs.take(i as int) =~= addrs);
        assert(readings@.take(i as int) =~= readings@);
        elapsed
    }
}

/// An address that cannot be read ends the attempt to add a connection at once, and the list stays as
/// it is.
pub proof fn law_unreadable_address_adds_nothing<W>(
    before: Map<SocketAddr, W>,
    events: Seq<ManagerEvent>,
    actions: Seq<ManagerAction>,
    worker: W,
    e: std::io::Error,
)
    requires
        is_adding(before, events, actions, worker),
        events[0] == ManagerEvent::Resolved(Err(e)),
    ensures
        actions == seq![ManagerAction::Finish(Err(error::from_io(e)))],
        after_actions(before, actions, actions.len() as int, worker) == before,
{
    assert(actions[0] == manager_action(events[0]));
    if actions.len() > 1 {
        assert(reports(after_actions(before, actions, 0, worker), actions[0], events[1]));
    }
    assert(actions =~= seq![ManagerAction::Finish(Err(error::from_io(e)))]);
    reveal_with_fuel(after_actions, 2);
}

/// What adding a connection consists of: an earlier connection to the address is ended, and rests
/// where there was one; then the address is connected to, and on success the new connection is
/// listed under it. Adding succeeds exactly when connecting does. Afterwards the address has the new
/// connection, or after a failure none, and all other connections are as they were.
pub proof fn law_course_of_adding<W>(
    before: Map<SocketAddr, W>,
    events: Seq<ManagerEvent>,
    actions: Seq<ManagerAction>,
    worker: W,
    addr: SocketAddr,
)
    requires
        is_adding(before, events, actions, worker),
        events[0] == ManagerEvent::Resolved(Ok(addr)),
    ensures
        ({
            let opening = if before.contains_key(addr) { 2int } else { 1int };
            let after = after_actions(before, actions, actions.len() as int, worker);
            &&& actions.len() > opening + 1
            &&& actions[0] == ManagerAction::Disconnect(addr)
            &&& before.contains_key(addr) ==> actions[1] == (ManagerAction::Rest {
                addr,
                ms: 100,
            })
            &&& actions[opening] == ManagerAction::Open(addr)
            &&& events[opening + 1] is Opened
            &&& match events[opening + 1]->result {
                Ok(_) => {
                    &&& actions.len() == opening + 3
                    &&& actions[opening + 1] == ManagerAction::List(addr)
                    &&& actions.last() == ManagerAction::Finish(Ok(()))
                    &&& after == before.remove(addr).insert(addr, worker)
                },
                Err(e) => {
                    &&& actions.len() == opening + 2
                    &&& actions.last() == ManagerAction::Finish(Err(e))
                    &&& after == before.remove(addr)
                },
            }
        }),
{
    reveal_with_fuel(after_actions, 6);
    let opening = if before.contains_key(addr) { 2int } else { 1int };
    assert(actions[0] == manager_action(events[0]));
    assert(reports(after_actions(before, actions, 0, worker), actions[0], events[1]));
    assert(actions[1] == manager_action(events[1]));
    if before.contains_key(addr) {
        assert(reports(after_actions(before, actions, 1, worker), actions[1], events[2]));
        assert(actions[2] == manager_action(events[2]));
    }
    assert(reports(
        after_actions(before, actions, opening, worker),
        actions[opening],
        events[opening + 1],
    ));
    assert(actions[opening + 1] == manager_action(events[opening + 1]));
    if actions.len() > opening + 2 {
        assert(reports(
            after_actions(before, actions, opening + 1, worker),
            actions[opening + 1],
            events[opening + 2],
        ));
        assert(actions[opening + 2] == manager_action(events[opening + 2]));
        if actions.len() > opening + 3 {
            assert(reports(
                after_actions(before, actions, opening + 2, worker),
                actions[opening + 2],
                events[opening + 3],
            ));
        }
    }
}

/// Once a connection is listed it is found, the other addresses have what they had before, and what
/// stood under the address before is handed back.
pub proof fn law_listed_is_found<W>(
    before: Map<SocketAddr, W>,
    after: Map<SocketAddr, W>,
    addr: SocketAddr,
    worker: W,
    replaced: Option<W>,
    other: SocketAddr,
)
    requires
        is_listing(before, addr, worker, after, replaced),
    ensures
        after.contains_key(addr) && after[addr] == worker,
        other != addr ==> (after.contains_key(other) <==> before.contains_key(other)),
        other != addr && before.contains_key(other) ==> after[other] == before[other],
        replaced is Some <==> before.contains_key(addr),
        replaced is Some ==> replaced->Some_0 == before[addr],
{
}

/// A connection that is taken off the list is handed over and not found any more, so that a second
/// attempt to take it off finds nothing; the other addresses have what they had before. An address
/// that cannot be read takes nothing off.
pub proof fn law_disconnected_is_gone<W>(
    before: Map<SocketAddr, W>,
    after: Map<SocketAddr, W>,
    last: Map<SocketAddr, W>,
    addr: SocketAddr,
    removed: SlmpResult<Option<W>>,
    again: SlmpResult<Option<W>>,
    other: SocketAddr,
    e: std::io::Error,
    unchanged: Map<SocketAddr, W>,
    failed: SlmpResult<Option<W>>,
)
    requires
        is_taking_off(before, Ok(addr), after, removed),
        is_taking_off(after, Ok(addr), last, again),
        is_taking_off(before, Err(e), unchanged, failed),
    ensures
        !after.contains_key(addr),
        other != addr ==> (after.contains_key(other) <==> before.contains_key(other)),
        other != addr && before.contains_key(other) ==> after[other] == before[other],
        before.contains_key(addr) ==> removed == Ok::<Option<W>, SlmpError>(Some(before[addr])),
        !before.contains_key(addr) ==> removed == Ok::<Option<W>, SlmpError>(None),
        again == Ok::<Option<W>, SlmpError>(None),
        last == after,
        unchanged == before,
        failed == Err::<Option<W>, SlmpError>(error::from_io(e)),
{
    assert(last =~= after);
}

/// Listing a connection under a free address and taking it off again leaves the connections as
/// they were, and hands over the connection that was listed.
pub proof fn law_disconnect_undoes_listing<W>(
    before: Map<SocketAddr, W>,
    listed: Map<SocketAddr, W>,
    after: Map<SocketAddr, W>,
    addr: SocketAddr,
    worker: W,
    replaced: Option<W>,
    removed: SlmpResult<Option<W>>,
)
    requires
        !before.contains_key(addr),
        is_listing(before, addr, worker, listed, replaced),
        is_taking_off(listed, Ok(addr), after, removed),
    ensures
        after == before,
        removed == Ok::<Option<W>, SlmpError>(Some(worker)),
{
    assert(after =~= before);
}

/// Looking an address up gives the worker that is listed under it; without one it is an error that
/// there is no connection, and an address that cannot be read is an error of its own.
pub proof fn law_look_up_finds_what_is_listed<W>(
    connections: Map<SocketAddr, W>,
    addr: SocketAddr,
    worker: SlmpResult<&W>,
    e: std::io::Error,
    failed: SlmpResult<&W>,
)
    requires
        is_look_up(connections, Ok(addr), worker),
        is_look_up(connections, Err(e), failed),
    ensures
        worker is Ok <==> connections.contains_key(addr),
        worker is Ok ==> *worker->Ok_0 == connections[addr],
        worker is Err ==> worker->Err_0 == SlmpError::Io(
            error::made_io_error(error::IoErrorKind::AddrNotAvailable, "Connection not found"@),
        ),
        failed == Err::<&W, SlmpError>(error::from_io(e)),
{
}

/// Clearing the list hands every worker over, once and in the order of the list, and leaves nothing.
pub proof fn law_clearing_hands_everything_over<W>(
    before: Seq<(SocketAddr, W)>,
    after: Seq<(SocketAddr, W)>,
    removed: Seq<W>,
    i: int,
)
    requires
        is_clearing(before, after, removed),
    ensures
        after.len() == 0,
        removed.len() == before.len(),
        0 <= i < before.len() ==> removed[i] == before[i].1,
{
}

/// The addresses and the workers of a list are those of its places, in their order.
pub proof fn law_lists_go_by_place<W>(entries: Seq<(SocketAddr, W)>, i: int)
    requires
        0 <= i < entries.len(),
    ensures
        addresses(entries).len() == entries.len(),
        workers(entries).len() == entries.len(),
        addresses(entries)[i] == entries[i].0,
        workers(entries)[i] == entries[i].1,
{
}

/// A list without repeated addresses holds each connection exactly once: under every address of
/// the list stands the worker of that place, and there are as many addresses as places.
pub proof fn law_one_connection_per_address<W>(entries: Seq<(SocketAddr, W)>, i: int, addr: SocketAddr)
    requires
        addresses(entries).no_duplicates(),
        0 <= i < entries.len(),
    ensures
        by_address(entries).contains_key(addr) <==> addresses(entries).contains(addr),
        by_address(entries).contains_key(entries[i].0),
        by_address(entries)[entries[i].0] == entries[i].1,
        addr != entries[i].0 || addresses(entries).index_of(addr) == i,
{
    lemma_in_map(entries, addr);
    lemma_listed(entries, i);
    if addr == entries[i].0 {
        assert(addresses(entries)[i] == addr);
        assert(addresses(entries).contains(addr));
        let j = addresses(entries).index_of(addr);
        assert(addresses(entries)[j] == addr);
    }
}

/// The time is told of exactly those connections whose clock gave a reading, and it is that reading.
pub proof fn law_elapsed_per_connection(
    addrs: Seq<SocketAddr>,
    readings: Seq<Option<u128>>,
    addr: SocketAddr,
    nanos: u128,
)
    requires
        addrs.len() == readings.len(),
    ensures
        known_elapsed(addrs, readings).contains((addr, nanos)) <==> exists|i: int|
            0 <= i < addrs.len() && #[trigger] addrs[i] == addr && readings[i] == Some(nanos),
    decreases addrs.len(),
{
    if addrs.len() > 0 {
        let addrs0 = addrs.drop_last();
        let readings0 = readings.drop_last();
        let before = known_elapsed(addrs0, readings0);
        let all = known_elapsed(addrs, readings);
        law_elapsed_per_connection(addrs0, readings0, addr, nanos);
        if all.contains((addr, nanos)) {
            let k = choose|k: int| 0 <= k < all.len() && all[k] == (addr, nanos);
            if k < before.len() {
                assert(before[k] == (addr, nanos));
                let i = choose|i: int|
                    0 <= i < addrs0.len() && #[trigger] addrs0[i] == addr && readings0[i] == Some(
                        nanos,
                    );
                assert(addrs[i] == addr && readings[i] == Some(nanos));
            } else {
                assert(addrs[addrs.len() - 1] == addr);
            }
        }
        if exists|i: int|
            0 <= i < addrs.len() && #[trigger] addrs[i] == addr && readings[i] == Some(nanos) {
            let i = choose|i: int|
                0 <= i < addrs.len() && #[trigger] addrs[i] == addr && readings[i] == Some(nanos);
            if i < addrs0.len() {
                assert(addrs0[i] == addr && readings0[i] == Some(nanos));
                let k = choose|k: int| 0 <= k < before.len() && before[k] == (addr, nanos);
                assert(all[k] == (addr, nanos));
            } else {
                assert(all[before.len() as int] == (addr, nanos));
            }
        }
    }
}

/// Every device that is to be monitored reaches the connection of its address, and no connection
/// is told twice.
pub proof fn law_every_target_is_sent(
    targets: Seq<MonitoredDevice>,
    sends: Seq<(SocketAddr, Vec<TypedDevice>)>,
    i: int,
)
    requires
        is_distribution(targets, sends),
        0 <= i < targets.len(),
    ensures
        addresses(sends).no_duplicates(),
        exists|k: int|
            0 <= k < sends.len() && (#[trigger] sends[k]).0 == targets[i].socket_addr
                && sends[k].1@.contains(targets[i].monitor_device),
{
    let all = target_addresses(targets);
    let addr = targets[i].socket_addr;
    lemma_distinct_members(all);
    assert(all[i] == addr);
    assert(distinct(all).contains(addr));
    let k = choose|k: int| 0 <= k < addresses(sends).len() && addresses(sends)[k] == addr;
    assert(sends[k].0 == addr);
    let at = targets.filter(is_at(addr));
    targets.lemma_filter_contains(is_at(addr), i);
    let j = choose|j: int| 0 <= j < at.len() && at[j] == targets[i];
    assert(devices_at(targets, addr)[j] == targets[i].monitor_device);
    assert(sends[k].1@.contains(targets[i].monitor_device));
}

/// A connection is told only devices that are to be monitored through it.
pub proof fn law_only_targets_are_sent(
    targets: Seq<MonitoredDevice>,
    sends: Seq<(SocketAddr, Vec<TypedDevice>)>,
    k: int,
    device: TypedDevice,
)
    requires
        is_distribution(targets, sends),
        0 <= k < sends.len(),
        sends[k].1@.contains(device),
    ensures
        targets.contains(MonitoredDevice { socket_addr: sends[k].0, monitor_device: device }),
{
    let addr = sends[k].0;
    let at = targets.filter(is_at(addr));
    assert(sends[k].1@ == devices_at(targets, addr));
    let j = choose|j: int|
        0 <= j < devices_at(targets, addr).len() && devices_at(targets, addr)[j] == device;
    targets.lemma_filter_pred(is_at(addr), j);
    assert(at.contains(at[j]));
    targets.lemma_filter_contains_rev(is_at(addr), at[j]);
}


/// The addresses of what is told follow each other without repetition, if those of the list do.
pub proof fn law_elapsed_once_per_connection(addrs: Seq<SocketAddr>, readings: Seq<Option<u128>>)
    requires
        addrs.len() == readings.len(),
        addrs.no_duplicates(),
    ensures
        addresses(known_elapsed(addrs, readings)).no_duplicates(),
    decreases addrs.len(),
{
    if addrs.len() > 0 {
        let addrs0 = addrs.drop_last();
        let readings0 = readings.drop_last();
        let before = known_elapsed(addrs0, readings0);
        law_elapsed_once_per_connection(addrs0, readings0);
        if let Some(nanos) = readings.last() {
            assert(addresses(known_elapsed(addrs, readings)) =~= addresses(before).push(
                addrs.last(),
            ));
            assert forall|k: int| 0 <= k < before.len() implies (#[trigger] before[k]).0
                != addrs.last() by {
                assert(before.contains(before[k]));
                law_elapsed_per_connection(addrs0, readings0, before[k].0, before[k].1);
                let i = choose|i: int|
                    0 <= i < addrs0.len() && #[trigger] addrs0[i] == before[k].0 && readings0[i]
                        == Some(before[k].1);
                assert(addrs[i] == before[k].0);
            }
        }
    }
}

/// The addresses stand in the order in which they first occur.
proof fn lemma_distinct_order(addrs: Seq<SocketAddr>, a: int, b: int)
    requires
        0 <= a < b < distinct(addrs).len(),
    ensures
        exists|i: int|
            0 <= i < addrs.len() && #[trigger] addrs[i] == distinct(addrs)[a] && forall|j: int|
                0 <= j <= i ==> #[trigger] addrs[j] != distinct(addrs)[b],
    decreases addrs.len(),
{
    let before = addrs.drop_last();
    let d = distinct(before);
    let all = distinct(addrs);
    lemma_distinct_members(before);
    if b < d.len() {
        lemma_distinct_order(before, a, b);
        let i = choose|i: int|
            0 <= i < before.len() && #[trigger] before[i] == d[a] && forall|j: int|
                0 <= j <= i ==> #[trigger] before[j] != d[b];
        assert(addrs[i] == all[a]);
        assert forall|j: int| 0 <= j <= i implies #[trigger] addrs[j] != all[b] by {
            assert(before[j] != d[b]);
        }
    } else {
        assert(all[b] == addrs.last() && all[a] == d[a]);
        assert(d.contains(d[a]));
        assert(before.contains(d[a]));
        let i = choose|i: int| 0 <= i < before.len() && before[i] == d[a];
        assert(addrs[i] == all[a]);
        assert forall|j: int| 0 <= j <= i implies #[trigger] addrs[j] != all[b] by {
            assert(before.contains(before[j]));
            assert(d.contains(before[j]));
        }
    }
}

/// The condition that a request is for an address.
spec fn asks_for(addr: SocketAddr) -> spec_fn(MonitorRequest) -> bool {
    |r: MonitorRequest| r.address == Ok::<SocketAddr, std::io::Error>(addr)
}

/// The device that a request asks for.
spec fn device_asked_for() -> spec_fn(MonitorRequest) -> TypedDevice {
    |r: MonitorRequest| r.monitor_device
}

/// Selecting the devices of an address among the targets is selecting them among the requests.
proof fn lemma_devices_of_requests(requests: Seq<MonitorRequest>, addr: SocketAddr)
    requires
        all_readable(requests),
    ensures
        devices_at(targets_of(requests), addr) == requests.filter(asks_for(addr)).map_values(
            device_asked_for(),
        ),
    decreases requests.len(),
{
    reveal_with_fuel(Seq::filter, 1);
    let targets = targets_of(requests);
    let wanted = requests.filter(asks_for(addr));
    if requests.len() == 0 {
        assert(targets =~= Seq::empty());
        assert(devices_at(targets, addr) =~= wanted.map_values(device_asked_for()));
    } else {
        let before = requests.drop_last();
        let last = requests.last();
        assert forall|j: int| 0 <= j < before.len() implies (#[trigger] before[j]).address is Ok by {
            assert(before[j] == requests[j]);
        }
        lemma_devices_of_requests(before, addr);
        assert(targets.drop_last() =~= targets_of(before));
        assert(requests[requests.len() - 1].address is Ok);
        let old_devices = devices_at(targets_of(before), addr);
        if last.address->Ok_0 == addr {
            assert(devices_at(targets, addr) =~= old_devices.push(last.monitor_device));
            assert(wanted.map_values(device_asked_for()) =~= before.filter(
                asks_for(addr),
            ).map_values(device_asked_for()).push(last.monitor_device));
        } else {
            assert(devices_at(targets, addr) =~= old_devices);
        }
    }
}

/// What follows from requests to monitor, where every address can be read and has a connection: the
/// devices come back with the addresses that they were given with, one for each request; every
/// connection that is asked for is told once, in the order in which the addresses first occur; and it
/// is told the devices that were asked for through it, in the order of the requests.
pub proof fn law_registration_in_full<W>(
    connections: Map<SocketAddr, W>,
    requests: Seq<MonitorRequest>,
    plan: SlmpResult<MonitorPlan>,
    i: int,
    k: int,
    l: int,
)
    requires
        is_registration(connections, requests, plan),
        forall|j: int|
            0 <= j < requests.len() ==> (#[trigger] requests[j]).address is Ok
                && connections.contains_key(requests[j].address->Ok_0),
    ensures
        plan is Ok,
        ({
            let sends = plan->Ok_0.sends@;
            let monitored = plan->Ok_0.monitored@;
            &&& monitored.len() == requests.len()
            &&& 0 <= i < requests.len() ==> {
                &&& monitored[i].monitor_device == requests[i].monitor_device
                &&& requests[i].address == Ok::<SocketAddr, std::io::Error>(
                    monitored[i].socket_addr,
                )
                &&& exists|m: int|
                    0 <= m < sends.len() && (#[trigger] sends[m]).0 == requests[i].address->Ok_0
            }
            &&& 0 <= k < sends.len() ==> {
                &&& sends[k].1@ == requests.filter(
                    |r: MonitorRequest|
                        r.address == Ok::<SocketAddr, std::io::Error>(sends[k].0),
                ).map_values(|r: MonitorRequest| r.monitor_device)
                &&& sends[k].1@.len() > 0
            }
            &&& 0 <= k < l < sends.len() ==> sends[k].0 != sends[l].0
            &&& 0 <= k < l < sends.len() ==> exists|m: int|
                0 <= m < requests.len() && (#[trigger] requests[m]).address->Ok_0 == sends[k].0
                    && forall|j: int|
                    0 <= j <= m ==> (#[trigger] requests[j]).address->Ok_0 != sends[l].0
        }),
{
    let targets = targets_of(requests);
    let addrs = target_addresses(targets);
    assert(all_readable(requests));
    assert forall|j: int| 0 <= j < targets.len() implies connections.contains_key(
        (#[trigger] targets[j]).socket_addr,
    ) by {
        assert(requests[j].address is Ok);
    }
    assert(all_connected(connections, targets));
    let sends = plan->Ok_0.sends@;
    lemma_distinct_members(addrs);
    assert(addresses(sends) == distinct(addrs));
    if 0 <= i < requests.len() {
        assert(requests[i].address is Ok);
        law_every_target_is_sent(targets, sends, i);
        assert(targets[i].socket_addr == requests[i].address->Ok_0);
    }
    if 0 <= k < sends.len() {
        lemma_devices_of_requests(requests, sends[k].0);
        assert(asks_for(sends[k].0) =~= (|r: MonitorRequest|
            r.address == Ok::<SocketAddr, std::io::Error>(sends[k].0)));
        assert(device_asked_for() =~= (|r: MonitorRequest| r.monitor_device));
        let d = distinct(addrs);
        assert(addresses(sends)[k] == sends[k].0);
        assert(d.contains(d[k]));
        let m = choose|m: int| 0 <= m < addrs.len() && addrs[m] == d[k];
        assert(targets[m].socket_addr == sends[k].0);
        targets.lemma_filter_contains(is_at(sends[k].0), m);
        assert(targets.filter(is_at(sends[k].0)).len() > 0);
    }
    if 0 <= k < l < sends.len() {
        assert(addresses(sends)[k] == sends[k].0 && addresses(sends)[l] == sends[l].0);
        lemma_distinct_order(addrs, k, l);
        let m = choose|m: int|
            0 <= m < addrs.len() && #[trigger] addrs[m] == distinct(addrs)[k] && forall|j: int|
                0 <= j <= m ==> #[trigger] addrs[j] != distinct(addrs)[l];
        assert(requests[m].address->Ok_0 == addrs[m]);
        assert forall|j: int| 0 <= j <= m implies (#[trigger] requests[j]).address->Ok_0
            != sends[l].0 by {
            assert(addrs[j] != distinct(addrs)[l]);
        }
    }
}

/// When nothing is monitored: the first address that cannot be read is reported with its reason, before
/// anything else; and where all can be read, an address without a connection is reported as that.
pub proof fn law_registration_fails_as_a_whole<W>(
    connections: Map<SocketAddr, W>,
    requests: Seq<MonitorRequest>,
    plan: SlmpResult<MonitorPlan>,
    i: int,
)
    requires
        is_registration(connections, requests, plan),
        0 <= i < requests.len(),
    ensures
        requests[i].address is Err && (forall|j: int|
            0 <= j < i ==> (#[trigger] requests[j]).address is Ok) ==> plan == Err::<
            MonitorPlan,
            SlmpError,
        >(error::from_io(requests[i].address->Err_0)),
        (forall|j: int| 0 <= j < requests.len() ==> (#[trigger] requests[j]).address is Ok)
            && !connections.contains_key(requests[i].address->Ok_0) ==> plan == Err::<
            MonitorPlan,
            SlmpError,
        >(
            SlmpError::Io(
                error::made_io_error(error::IoErrorKind::AddrNotAvailable, "Connection not found"@),
            ),
        ),
{
    if requests[i].address is Err && (forall|j: int|
        0 <= j < i ==> (#[trigger] requests[j]).address is Ok) {
        assert(!all_readable(requests));
        let (m, e) = choose|m: int, e: std::io::Error| #[trigger]
            first_unreadable(requests, m, e) && plan == Err::<MonitorPlan, _>(error::from_io(e));
        if m < i {
            assert(requests[m].address is Ok);
        }
        if i < m {
            assert(requests[i].address is Ok);
        }
    }
    if (forall|j: int| 0 <= j < requests.len() ==> (#[trigger] requests[j]).address is Ok)
        && !connections.contains_key(requests[i].address->Ok_0) {
        assert(all_readable(requests));
        assert(targets_of(requests)[i].socket_addr == requests[i].address->Ok_0);
    }
}

} // verus!
