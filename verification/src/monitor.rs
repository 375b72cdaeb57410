//! The task that reads the monitored devices of one connection again and again.
use vstd::prelude::*;

use crate::address::SocketAddr;
use crate::device::DeviceData;
use crate::error::SlmpResult;
use crate::manager::PLCData;

verus! {

/// What has happened to the monitoring task.
#[derive(Debug)]
pub enum MonitorEvent {
    /// The task is to end.
    Cancelled,
    /// There are new devices to monitor.
    TargetsReceived,
    /// Registering the new devices has ended; on success so many devices are registered.
    Registered(SlmpResult<usize>),
    /// It is time to read.
    Tick,
    /// Reading has ended.
    Read(SlmpResult<Vec<DeviceData>>),
}

/// What the monitoring task does next.
#[derive(Debug)]
pub enum MonitorAction {
    /// End.
    Stop,
    /// Register the new devices.
    Register,
    /// Read the registered devices.
    Read,
    /// Hand over what was read.
    Deliver(Vec<PLCData>),
    /// Wait for the next event.
    Wait,
}

/// Values, each with the connection that it was read through.
pub open spec fn tagged(socket_addr: SocketAddr, values: Seq<DeviceData>) -> Seq<PLCData> {
    values.map_values(|device_data: DeviceData| PLCData { socket_addr, device_data })
}

/// How many devices are registered after an event.
///
/// A failed attempt to register leaves the earlier devices in place.
pub open spec fn registered_after(registered: usize, event: MonitorEvent) -> usize {
    match event {
        MonitorEvent::Registered(Ok(count)) => count,
        _ => registered,
    }
}

/// Whether `action` is the answer to `event` while `registered` devices are registered.
pub open spec fn monitor_step(
    socket_addr: SocketAddr,
    registered: usize,
    event: MonitorEvent,
    action: MonitorAction,
) -> bool {
    match event {
        MonitorEvent::Cancelled => action is Stop,
        MonitorEvent::TargetsReceived => action is Register,
        MonitorEvent::Registered(_) => action is Wait,
        MonitorEvent::Tick => if registered != 0 {
            action is Read
        } else {
            action is Wait
        },
        MonitorEvent::Read(Ok(values)) => action matches MonitorAction::Deliver(data) && data@
            == tagged(socket_addr, values@),
        MonitorEvent::Read(Err(_)) => action is Wait,
    }
}

/// The monitoring task of one connection.
#[derive(Debug)]
pub struct MonitorTask {
    socket_addr: SocketAddr,
    registered: usize,
}

impl MonitorTask {
    /// The connection that the task reads through.
    pub closed spec fn address(&self) -> SocketAddr {
        self.socket_addr
    }

    /// How many devices are registered.
    pub closed spec fn count(&self) -> usize {
        self.registered
    }

    /// A task without registered devices.
    pub fn new(socket_addr: SocketAddr) -> (task: Self)
        ensures
            task.address() == socket_addr,
            task.count() == 0,
    {
        MonitorTask { socket_addr, registered: 0 }
    }

    /// What to do after an event.
    pub fn step(&mut self, event: MonitorEvent) -> (action: MonitorAction)
        ensures
            monitor_step(old(self).address(), old(self).count(), event, action),
            final(self).count() == registered_after(old(self).count(), event),
            final(self).address() == old(self).address(),
    {
        match event {
            MonitorEvent::Cancelled => MonitorAction::Stop,
            MonitorEvent::TargetsReceived => MonitorAction::Register,
            MonitorEvent::Registered(result) => {
                if let Ok(count) = result {
                    self.registered = count;
                }
                MonitorAction::Wait
            },
            MonitorEvent::Tick => {
                if self.registered != 0 {
                    MonitorAction::Read
                } else {
                    MonitorAction::Wait
                }
            },
            MonitorEvent::Read(Ok(values)) => MonitorAction::Deliver(
                tag_values(self.socket_addr, values),
            ),
            MonitorEvent::Read(Err(_)) => MonitorAction::Wait,
        }
    }
}

/// Puts to each value the connection that it was read through.
fn tag_values(socket_addr: SocketAddr, values: Vec<DeviceData>) -> (data: Vec<PLCData>)
    ensures
        data@ == tagged(socket_addr, values@),
{
    let ghost all = values@;
    let mut data: Vec<PLCData> = Vec::new();
    for device_data in it: values
        invariant
            it.seq() == all,
            data@ == tagged(socket_addr, all.take(it.index())),
    {
        proof {
            assert(tagged(socket_addr, all.take(it.index() + 1)) =~= tagged(
                socket_addr,
                all.take(it.index()),
            ).push(PLCData { socket_addr, device_data }));
        }
        data.push(PLCData { socket_addr, device_data });
    }
    assert(all.take(all.len() as int) =~= all);
    data
}

/// Nothing is read before a registration has succeeded: whatever else happens, a task without
/// registered devices stays without, and does not read.
pub proof fn law_no_read_before_registration(
    socket_addr: SocketAddr,
    event: MonitorEvent,
    action: MonitorAction,
)
    requires
        monitor_step(socket_addr, 0, event, action),
        !(event is Registered),
    ensures
        registered_after(0, event) == 0,
        !(action is Read),
{
}

/// A failed registration changes nothing, and a failed read is passed over in silence.
pub proof fn law_failures_change_nothing(
    socket_addr: SocketAddr,
    registered: usize,
    event: MonitorEvent,
    action: MonitorAction,
)
    requires
        monitor_step(socket_addr, registered, event, action),
        (event matches MonitorEvent::Registered(Err(_))) || (event matches MonitorEvent::Read(
            Err(_),
        )),
    ensures
        registered_after(registered, event) == registered,
        action is Wait,
{
}


/// What is delivered is what was read: as many items as values, and each item carries the device and
/// the value that stood at its place, with the address of the connection.
pub proof fn law_what_is_delivered(
    socket_addr: SocketAddr,
    registered: usize,
    values: Vec<DeviceData>,
    action: MonitorAction,
)
    requires
        monitor_step(socket_addr, registered, MonitorEvent::Read(Ok(values)), action),
    ensures
        action is Deliver,
        action->Deliver_0@.len() == values@.len(),
        forall|i: int|
            0 <= i < values@.len() ==> {
                &&& (#[trigger] action->Deliver_0@[i]).socket_addr == socket_addr
                &&& action->Deliver_0@[i].device_data == values@[i]
                &&& action->Deliver_0@[i].device_data.device == values@[i].device
                &&& action->Deliver_0@[i].device_data.data == values@[i].data
            },
{
}

/// Two readings that differ are delivered as different data: delivering loses nothing of what was
/// read.
pub proof fn law_deliveries_tell_readings_apart(
    socket_addr: SocketAddr,
    registered: usize,
    a: Vec<DeviceData>,
    b: Vec<DeviceData>,
    x: MonitorAction,
    y: MonitorAction,
)
    requires
        monitor_step(socket_addr, registered, MonitorEvent::Read(Ok(a)), x),
        monitor_step(socket_addr, registered, MonitorEvent::Read(Ok(b)), y),
        x->Deliver_0@ == y->Deliver_0@,
    ensures
        a@ == b@,
{
    law_what_is_delivered(socket_addr, registered, a, x);
    law_what_is_delivered(socket_addr, registered, b, y);
    assert forall|i: int| 0 <= i < a@.len() implies a@[i] == b@[i] by {
        assert(x->Deliver_0@[i].device_data == a@[i]);
        assert(y->Deliver_0@[i].device_data == b@[i]);
    }
    assert(a@ =~= b@);
}

/// What the task does: it ends when it is told to, registers new devices when it is given some, and
/// reads on every tick while devices are registered. Only a registration that succeeds changes how many
/// are.
pub proof fn law_steps_of_monitoring(
    socket_addr: SocketAddr,
    registered: usize,
    count: usize,
    event: MonitorEvent,
    action: MonitorAction,
)
    requires
        monitor_step(socket_addr, registered, event, action),
    ensures
        action is Stop <==> event is Cancelled,
        action is Register <==> event is TargetsReceived,
        action is Read <==> event is Tick && registered > 0,
        action is Deliver <==> event is Read && event->Read_0 is Ok,
        registered_after(registered, MonitorEvent::Registered(Ok(count))) == count,
        !(event is Registered && event->Registered_0 is Ok) ==> registered_after(registered, event)
            == registered,
{
}

} // verus!
