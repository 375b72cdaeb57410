use slmp::manager::{ManagerAction, ManagerEvent};
use slmp::monitor::{MonitorAction, MonitorEvent, MonitorTask};
use slmp::{
    DataType, Device, DeviceData, DeviceType, MonitorRequest, MonitoredDevice,
    SLMPConnectionManager, SlmpError, SocketAddr, TypedData, TypedDevice,
};

fn addr(n: u32) -> SocketAddr {
    SocketAddr::V4 { ip: n, port: 5000 }
}

fn target(address: usize) -> TypedDevice {
    TypedDevice {
        device: Device { device_type: DeviceType { code: 0xA8 }, address },
        data_type: DataType::U16,
    }
}

fn request(n: u32, address: usize) -> MonitorRequest {
    MonitorRequest { address: Ok(addr(n)), monitor_device: target(address) }
}

fn bad_address() -> std::io::Error {
    std::io::Error::from(std::io::ErrorKind::InvalidInput)
}

#[test]
fn listed_connections_are_found() {
    let mut manager = SLMPConnectionManager::new();
    assert_eq!(manager.insert(addr(1), "one"), None);
    assert_eq!(manager.insert(addr(2), "two"), None);
    assert_eq!(manager.operate_worker(Ok(addr(1))).unwrap(), &"one");
    assert_eq!(manager.operate_worker(Ok(addr(2))).unwrap(), &"two");
    match manager.operate_worker(Ok(addr(3))) {
        Err(SlmpError::Io(e)) => assert_eq!(e.kind(), std::io::ErrorKind::AddrNotAvailable),
        other => panic!("got {other:?}"),
    }
    match manager.operate_worker(Err(bad_address())) {
        Err(SlmpError::Io(e)) => assert_eq!(e.kind(), std::io::ErrorKind::InvalidInput),
        other => panic!("got {other:?}"),
    }
}

#[test]
fn one_connection_per_address() {
    let mut manager = SLMPConnectionManager::new();
    assert_eq!(manager.insert(addr(1), 10), None);
    assert_eq!(manager.insert(addr(1), 11), Some(10));
    assert_eq!(manager.len(), 1);
    assert_eq!(manager.entry(0), (addr(1), &11));
    // The port and the family belong to the address.
    let other_port = SocketAddr::V4 { ip: 1, port: 5001 };
    let other_family = SocketAddr::V6 { ip: 1, port: 5000, flowinfo: 0, scope_id: 0 };
    assert_eq!(manager.insert(other_port, 12), None);
    assert_eq!(manager.insert(other_family, 13), None);
    assert_eq!(manager.len(), 3);
}

#[test]
fn disconnected_connections_are_gone() {
    let mut manager = SLMPConnectionManager::new();
    for n in 1..=3 {
        manager.insert(addr(n), n);
    }
    assert_eq!(manager.disconnect(Ok(addr(2))).unwrap(), Some(2));
    assert_eq!(manager.disconnect(Ok(addr(2))).unwrap(), None);
    assert!(manager.operate_worker(Ok(addr(2))).is_err());
    assert_eq!(manager.operate_worker(Ok(addr(1))).unwrap(), &1);
    assert_eq!(manager.operate_worker(Ok(addr(3))).unwrap(), &3);
    assert!(matches!(manager.disconnect(Err(bad_address())), Err(SlmpError::Io(_))));
    assert_eq!(manager.len(), 2);
    assert_eq!(manager.clear(), vec![1, 3]);
    assert_eq!(manager.len(), 0);
    assert_eq!(manager.clear(), vec![]);
}

#[test]
fn disconnecting_undoes_listing() {
    let mut manager = SLMPConnectionManager::new();
    manager.insert(addr(1), "one");
    assert_eq!(manager.insert(addr(2), "two"), None);
    assert_eq!(manager.disconnect(Ok(addr(2))).unwrap(), Some("two"));
    assert_eq!(manager.len(), 1);
    assert_eq!(manager.entry(0), (addr(1), &"one"));
}

#[test]
fn adding_a_connection_runs_its_course() {
    type Manager = SLMPConnectionManager<u8>;
    assert!(matches!(
        Manager::connect(ManagerEvent::Resolved(Ok(addr(1)))),
        ManagerAction::Disconnect(a) if a == addr(1)
    ));
    assert!(matches!(
        Manager::connect(ManagerEvent::Resolved(Err(bad_address()))),
        ManagerAction::Finish(Err(SlmpError::Io(_)))
    ));
    assert!(matches!(
        Manager::connect(ManagerEvent::Disconnected { addr: addr(1), was_listed: true }),
        ManagerAction::Rest { addr: a, ms: 100 } if a == addr(1)
    ));
    assert!(matches!(
        Manager::connect(ManagerEvent::Disconnected { addr: addr(1), was_listed: false }),
        ManagerAction::Open(a) if a == addr(1)
    ));
    assert!(matches!(
        Manager::connect(ManagerEvent::Rested(addr(1))),
        ManagerAction::Open(a) if a == addr(1)
    ));
    assert!(matches!(
        Manager::connect(ManagerEvent::Opened { addr: addr(1), result: Ok(()) }),
        ManagerAction::List(a) if a == addr(1)
    ));
    let failed = ManagerEvent::Opened { addr: addr(1), result: Err(SlmpError::Timeout) };
    assert!(matches!(
        Manager::connect(failed),
        ManagerAction::Finish(Err(SlmpError::Timeout))
    ));
    assert!(matches!(Manager::connect(ManagerEvent::Listed), ManagerAction::Finish(Ok(()))));
}

/// Adds a connection, and gives the outcome with the number of rests on the way.
fn add(
    manager: &mut SLMPConnectionManager<u8>,
    to: SocketAddr,
    worker: u8,
    opened: Result<(), SlmpError>,
) -> (Result<(), SlmpError>, usize) {
    let mut rests = 0;
    let mut opened = Some(opened);
    let mut event = ManagerEvent::Resolved(Ok(to));
    loop {
        event = match SLMPConnectionManager::<u8>::connect(event) {
            ManagerAction::Disconnect(addr) => {
                let was_listed = manager.disconnect(Ok(addr)).unwrap().is_some();
                ManagerEvent::Disconnected { addr, was_listed }
            }
            ManagerAction::Rest { addr, .. } => {
                rests += 1;
                ManagerEvent::Rested(addr)
            }
            ManagerAction::Open(addr) => {
                ManagerEvent::Opened { addr, result: opened.take().unwrap() }
            }
            ManagerAction::List(addr) => {
                manager.insert(addr, worker);
                ManagerEvent::Listed
            }
            ManagerAction::Finish(result) => return (result, rests),
        };
    }
}

#[test]
fn adding_replaces_what_was_listed() {
    let mut manager = SLMPConnectionManager::new();
    manager.insert(addr(9), 99);
    assert!(matches!(add(&mut manager, addr(1), 10, Ok(())), (Ok(()), 0)));
    assert_eq!(manager.operate_worker(Ok(addr(1))).unwrap(), &10);
    assert!(matches!(add(&mut manager, addr(1), 11, Ok(())), (Ok(()), 1)));
    assert_eq!(manager.operate_worker(Ok(addr(1))).unwrap(), &11);
    assert_eq!(manager.len(), 2);
    // A failure leaves the address without a connection.
    let refused = add(&mut manager, addr(1), 12, Err(SlmpError::Timeout));
    assert!(matches!(refused, (Err(SlmpError::Timeout), 1)));
    assert!(manager.operate_worker(Ok(addr(1))).is_err());
    assert_eq!(manager.operate_worker(Ok(addr(9))).unwrap(), &99);
}

#[test]
fn targets_are_handed_out_by_address() {
    let mut manager = SLMPConnectionManager::new();
    manager.insert(addr(1), ());
    manager.insert(addr(2), ());
    manager.insert(addr(3), ());
    let plan = manager
        .register_monitor_targets(vec![
            request(2, 10),
            request(1, 20),
            request(2, 5),
            request(2, 10),
            request(1, 1),
        ])
        .unwrap();
    assert_eq!(
        plan.sends,
        vec![
            (addr(2), vec![target(10), target(5), target(10)]),
            (addr(1), vec![target(20), target(1)]),
        ]
    );
    assert_eq!(plan.monitored.len(), 5);
    assert_eq!(
        plan.monitored[2],
        MonitoredDevice { socket_addr: addr(2), monitor_device: target(5) }
    );
    let plan = manager.register_monitor_targets(vec![]).unwrap();
    assert!(plan.sends.is_empty() && plan.monitored.is_empty());
}

#[test]
fn targets_need_connections() {
    let mut manager = SLMPConnectionManager::new();
    manager.insert(addr(1), ());
    match manager.register_monitor_targets(vec![request(1, 1), request(2, 1)]) {
        Err(SlmpError::Io(e)) => assert_eq!(e.kind(), std::io::ErrorKind::AddrNotAvailable),
        other => panic!("got {other:?}"),
    }
    // An address that cannot be read is reported first.
    let unreadable = MonitorRequest { address: Err(bad_address()), monitor_device: target(1) };
    match manager.register_monitor_targets(vec![request(2, 1), unreadable]) {
        Err(SlmpError::Io(e)) => assert_eq!(e.kind(), std::io::ErrorKind::InvalidInput),
        other => panic!("got {other:?}"),
    }
}

#[test]
fn unknown_times_are_left_out() {
    let mut manager = SLMPConnectionManager::new();
    for n in 1..=3 {
        manager.insert(addr(n), ());
    }
    assert_eq!(
        manager.get_connections_with_elapsed_time(&vec![Some(5), None, Some(7)]),
        vec![(addr(1), 5), (addr(3), 7)]
    );
}

fn value(address: usize) -> DeviceData {
    DeviceData { device: target(address).device, data: TypedData::Bool(true) }
}

#[test]
fn monitoring_reads_once_registered() {
    let mut task = MonitorTask::new(addr(9));
    assert!(matches!(task.step(MonitorEvent::Tick), MonitorAction::Wait));
    assert!(matches!(task.step(MonitorEvent::TargetsReceived), MonitorAction::Register));
    let failed = MonitorEvent::Registered(Err(SlmpError::Timeout));
    assert!(matches!(task.step(failed), MonitorAction::Wait));
    assert!(matches!(task.step(MonitorEvent::Tick), MonitorAction::Wait));
    assert!(matches!(task.step(MonitorEvent::Registered(Ok(2))), MonitorAction::Wait));
    assert!(matches!(task.step(MonitorEvent::Tick), MonitorAction::Read));
    match task.step(MonitorEvent::Read(Ok(vec![value(1), value(2)]))) {
        MonitorAction::Deliver(data) => {
            assert_eq!(data.len(), 2);
            assert_eq!(data[1].socket_addr, addr(9));
            assert_eq!(data[1].device_data, value(2));
        }
        other => panic!("got {other:?}"),
    }
}

#[test]
fn monitoring_survives_failures() {
    let mut task = MonitorTask::new(addr(9));
    task.step(MonitorEvent::Registered(Ok(1)));
    let failed = MonitorEvent::Read(Err(SlmpError::NotConnected));
    assert!(matches!(task.step(failed), MonitorAction::Wait));
    let failed = MonitorEvent::Registered(Err(SlmpError::NotConnected));
    assert!(matches!(task.step(failed), MonitorAction::Wait));
    assert!(matches!(task.step(MonitorEvent::Tick), MonitorAction::Read));
    assert!(matches!(task.step(MonitorEvent::Cancelled), MonitorAction::Stop));
    // Without devices there is nothing to read.
    task.step(MonitorEvent::Registered(Ok(0)));
    assert!(matches!(task.step(MonitorEvent::Tick), MonitorAction::Wait));
}
