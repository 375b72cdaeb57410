use slmp::client::{
    settle, ConnectAction, ConnectEvent, IoStep, RequestAction, RequestEvent, DEFAULT_RECV_TIMEOUT,
    DEFAULT_SEND_TIMEOUT,
};
use slmp::props::create_subheader;
use slmp::{FramingError, SLMP4EConnectionProps, SLMPClient, SlmpError, SocketAddr, CPU};

fn dummy_props() -> SLMP4EConnectionProps {
    SLMP4EConnectionProps {
        ip: "127.0.0.1".to_string(),
        port: 0,
        cpu: CPU::R,
        serial_id: 0,
        network_id: 0,
        pc_id: 0xFF,
        io_id: 0x03FF,
        area_id: 0,
        cpu_timer: 0,
    }
}

/// Builds a well-formed SLMP 4E response frame whose fixed fields match
/// `props`, with the given end code and payload, and a correctly computed
/// data-block-length field.
fn build_frame(props: &SLMP4EConnectionProps, end_code: u16, payload: &[u8]) -> Vec<u8> {
    let mut frame = Vec::new();
    frame.extend_from_slice(&[0xD4, 0x00]); // response_code
    frame.extend_from_slice(&props.serial_id.to_le_bytes());
    frame.extend_from_slice(&[0x00, 0x00]); // blank
    frame.push(props.network_id);
    frame.push(props.pc_id);
    frame.extend_from_slice(&props.io_id.to_le_bytes());
    frame.push(props.area_id);

    let data_block_len: u16 = (2 + payload.len()) as u16;
    frame.extend_from_slice(&data_block_len.to_le_bytes());

    frame.extend_from_slice(&end_code.to_le_bytes());
    frame.extend_from_slice(payload);

    frame
}

#[test]
fn end_code_nonzero_is_device_not_framing() {
    let props = dummy_props();
    let client = SLMPClient::new(props.clone());
    let frame = build_frame(&props, 0xC059, &[]);

    let result = client.validate_response(&frame);

    match result {
        Err(SlmpError::Device { end_code }) => assert_eq!(end_code, 0xC059),
        other => panic!("expected Err(SlmpError::Device {{ .. }}), got {other:?}"),
    }
}

#[test]
fn malformed_frame_is_framing() {
    let props = dummy_props();
    let client = SLMPClient::new(props.clone());
    let mut frame = build_frame(&props, 0, &[]);

    // Declare a data-block length of 10 while only 2 bytes (the end code)
    // actually follow the fixed header.
    frame[11..13].copy_from_slice(&10u16.to_le_bytes());

    let result = client.validate_response(&frame);

    match result {
        Err(SlmpError::Framing(FramingError::LengthMismatch { declared, actual })) => {
            assert_eq!(declared, 10);
            assert_eq!(actual, 2);
        }
        other => panic!("expected Err(SlmpError::Framing(FramingError::LengthMismatch {{ .. }})), got {other:?}"),
    }
}

#[test]
fn short_frame_is_framing_not_panic() {
    let props = dummy_props();
    let client = SLMPClient::new(props);
    let frame = vec![0u8; 13];

    let result = client.validate_response(&frame);

    match result {
        Err(SlmpError::Framing(FramingError::ShortFrame { len, min })) => {
            assert_eq!(len, 13);
            assert_eq!(min, 15);
        }
        other => panic!("expected Err(SlmpError::Framing(FramingError::ShortFrame {{ .. }})), got {other:?}"),
    }
}

#[test]
fn zero_end_code_ok() {
    let props = dummy_props();
    let client = SLMPClient::new(props.clone());
    let frame = build_frame(&props, 0, &[]);

    let result = client.validate_response(&frame);

    assert!(matches!(result, Ok(())));
}

#[test]
fn wrong_fixed_field_is_framing() {
    let props = dummy_props();
    let client = SLMPClient::new(props.clone());
    let mut frame = build_frame(&props, 0, &[]);

    // Corrupt the response code field.
    frame[0] = 0x00;
    frame[1] = 0x00;

    let result = client.validate_response(&frame);

    match result {
        Err(SlmpError::Framing(FramingError::UnexpectedField { field })) => {
            assert_eq!(field, "response_code");
        }
        other => panic!("expected Err(SlmpError::Framing(FramingError::UnexpectedField {{ .. }})), got {other:?}"),
    }
}

#[test]
fn every_header_byte_belongs_to_a_field() {
    let props = dummy_props();
    let client = SLMPClient::new(props.clone());
    let names = [
        "response_code",
        "response_code",
        "serial_id",
        "serial_id",
        "blank",
        "blank",
        "network_id",
        "pc_id",
        "io_id",
        "io_id",
        "area_id",
    ];
    for i in 0..names.len() {
        let mut frame = build_frame(&props, 0, &[1, 2, 3]);
        frame[i] ^= 0x40;
        match client.validate_response(&frame) {
            Err(SlmpError::Framing(FramingError::UnexpectedField { field })) => {
                assert_eq!(field, names[i])
            }
            other => panic!("byte {i}: got {other:?}"),
        }
    }
}

#[test]
fn the_first_wrong_field_is_reported() {
    let props = dummy_props();
    let client = SLMPClient::new(props.clone());
    let mut frame = build_frame(&props, 0, &[]);
    frame[10] = 9;
    frame[3] = 9;
    match client.validate_response(&frame) {
        Err(SlmpError::Framing(FramingError::UnexpectedField { field })) => {
            assert_eq!(field, "serial_id")
        }
        other => panic!("got {other:?}"),
    }
}

#[test]
fn end_code_counts_more_than_header() {
    let props = dummy_props();
    let client = SLMPClient::new(props.clone());
    let mut frame = build_frame(&props, 0xCEE0, &[7]);
    frame[0] = 0x00;
    match client.validate_response(&frame) {
        Err(SlmpError::Device { end_code }) => assert_eq!(end_code, 0xCEE0),
        other => panic!("got {other:?}"),
    }
}

#[test]
fn length_counts_more_than_end_code() {
    let props = dummy_props();
    let client = SLMPClient::new(props.clone());
    for len in 0..15 {
        let mut frame = build_frame(&props, 0xC059, &[]);
        frame.truncate(len);
        match client.validate_response(&frame) {
            Err(SlmpError::Framing(FramingError::ShortFrame { len: reported, min: 15 })) => {
                assert_eq!(reported, len)
            }
            other => panic!("got {other:?}"),
        }
    }
    let mut frame = build_frame(&props, 0xC059, &[1, 2]);
    frame.pop();
    assert!(matches!(
        client.validate_response(&frame),
        Err(SlmpError::Framing(FramingError::LengthMismatch { declared: 4, actual: 3 }))
    ));
}

#[test]
fn header_of_a_request() {
    let mut props = dummy_props();
    props.serial_id = 0x1234;
    props.network_id = 1;
    props.area_id = 2;
    props.cpu_timer = 0x0510;
    assert_eq!(
        create_subheader(&props, 6),
        [0x54, 0x00, 0x34, 0x12, 0, 0, 1, 0xFF, 0xFF, 0x03, 2, 8, 0, 0x10, 0x05]
    );
    // The length field keeps sixteen bits.
    let header = create_subheader(&props, 65534);
    assert_eq!(&header[11..13], &[0, 0]);
    let header = create_subheader(&props, 65533);
    assert_eq!(&header[11..13], &[0xFF, 0xFF]);
}

#[test]
fn a_request_runs_its_course() {
    let props = dummy_props();
    let client = SLMPClient::new(props.clone());
    let command = [0x01, 0x01, 0x00, 0x00];

    let sent = match client.request_response(&command, RequestEvent::Start { connected: true }) {
        RequestAction::Send { frame, within: 1_000_000_000 } => frame,
        other => panic!("got {other:?}"),
    };
    assert_eq!(&sent[..15], &create_subheader(&props, 4));
    assert_eq!(&sent[15..], &command);
    // The length field counts what follows it.
    assert_eq!(u16::from_le_bytes([sent[11], sent[12]]) as usize, sent.len() - 13);

    assert!(matches!(
        client.request_response(&command, RequestEvent::Sent(IoStep::Done(()))),
        RequestAction::Receive { within: 1_000_000_000 }
    ));

    let frame = build_frame(&props, 0, &[9, 8, 7]);
    match client.request_response(&command, RequestEvent::Received(IoStep::Done(frame))) {
        RequestAction::Finish(Ok(payload)) => assert_eq!(payload, vec![9, 8, 7]),
        other => panic!("got {other:?}"),
    }
}

#[test]
fn a_refused_request_is_a_device_error() {
    let props = dummy_props();
    let client = SLMPClient::new(props.clone());
    let frame = build_frame(&props, 0xC061, &[1, 2, 3]);
    match client.request_response(&[], RequestEvent::Received(IoStep::Done(frame))) {
        RequestAction::Finish(Err(SlmpError::Device { end_code })) => assert_eq!(end_code, 0xC061),
        other => panic!("got {other:?}"),
    }
}

#[test]
fn a_request_can_fail_at_each_step() {
    let client = SLMPClient::new(dummy_props());
    assert!(matches!(
        client.request_response(&[1], RequestEvent::Start { connected: false }),
        RequestAction::Finish(Err(SlmpError::NotConnected))
    ));
    assert!(matches!(
        client.request_response(&[1], RequestEvent::Sent(IoStep::Elapsed)),
        RequestAction::Finish(Err(SlmpError::Timeout))
    ));
    let broken = std::io::Error::from(std::io::ErrorKind::BrokenPipe);
    assert!(matches!(
        client.request_response(&[1], RequestEvent::Sent(IoStep::Failed(broken))),
        RequestAction::Finish(Err(SlmpError::Io(_)))
    ));
    assert!(matches!(
        client.request_response(&[1], RequestEvent::Received(IoStep::Elapsed)),
        RequestAction::Finish(Err(SlmpError::Timeout))
    ));
    let gone = std::io::Error::from(std::io::ErrorKind::NotConnected);
    assert!(matches!(
        client.request_response(&[1], RequestEvent::Received(IoStep::Failed(gone))),
        RequestAction::Finish(Err(SlmpError::NotConnected))
    ));
    // The end of the stream is a read without bytes.
    match client.request_response(&[1], RequestEvent::Received(IoStep::Done(vec![]))) {
        RequestAction::Finish(Err(SlmpError::Io(e))) => {
            assert_eq!(e.kind(), std::io::ErrorKind::UnexpectedEof)
        }
        other => panic!("got {other:?}"),
    }
    // One byte is a frame that is too short.
    assert!(matches!(
        client.request_response(&[1], RequestEvent::Received(IoStep::Done(vec![0xD4]))),
        RequestAction::Finish(Err(SlmpError::Framing(FramingError::ShortFrame { len: 1, min: 15 })))
    ));
}

#[test]
fn connecting_runs_its_course() {
    let client = SLMPClient::new(dummy_props());
    let a = SocketAddr::V4 { ip: 0x7F000001, port: 5000 };
    let b = SocketAddr::V4 { ip: 0x7F000002, port: 5000 };
    assert!(matches!(client.connect(ConnectEvent::Start), ConnectAction::Close));
    assert!(matches!(client.connect(ConnectEvent::Closed), ConnectAction::Resolve));
    match client.connect(ConnectEvent::Resolved(Ok(vec![a, b]))) {
        ConnectAction::Dial { addr, within: 1_000_000_000 } => assert_eq!(addr, a),
        other => panic!("got {other:?}"),
    }
    assert!(matches!(
        client.connect(ConnectEvent::Dialed(IoStep::Done(()))),
        ConnectAction::Finish(Ok(()))
    ));
}

#[test]
fn connecting_can_fail() {
    let client = SLMPClient::new(dummy_props());
    match client.connect(ConnectEvent::Resolved(Ok(vec![]))) {
        ConnectAction::Finish(Err(SlmpError::Io(e))) => {
            assert_eq!(e.kind(), std::io::ErrorKind::InvalidInput);
            assert_eq!(format!("{e}"), "resolve failed");
        }
        other => panic!("got {other:?}"),
    }
    let unknown = std::io::Error::from(std::io::ErrorKind::NotFound);
    assert!(matches!(
        client.connect(ConnectEvent::Resolved(Err(unknown))),
        ConnectAction::Finish(Err(SlmpError::Io(_)))
    ));
    assert!(matches!(
        client.connect(ConnectEvent::Dialed(IoStep::Elapsed)),
        ConnectAction::Finish(Err(SlmpError::Timeout))
    ));
    let refused = std::io::Error::from(std::io::ErrorKind::ConnectionRefused);
    assert!(matches!(
        client.connect(ConnectEvent::Dialed(IoStep::Failed(refused))),
        ConnectAction::Finish(Err(SlmpError::Io(_)))
    ));
}

#[test]
fn settled_steps() {
    assert!(matches!(settle(IoStep::Done(5u8)), Ok(5)));
    assert!(matches!(settle::<u8>(IoStep::Elapsed), Err(SlmpError::Timeout)));
    let late = std::io::Error::from(std::io::ErrorKind::TimedOut);
    assert!(matches!(settle::<u8>(IoStep::Failed(late)), Err(SlmpError::Timeout)));
}

#[test]
fn timeouts_can_be_set() {
    let mut client = SLMPClient::new(dummy_props());
    assert_eq!(client.send_timeout(), DEFAULT_SEND_TIMEOUT);
    assert_eq!(client.recv_timeout(), DEFAULT_RECV_TIMEOUT);
    assert_eq!(client.send_timeout(), 1_000_000_000);
    client.set_send_timeout(5);
    assert_eq!((client.send_timeout(), client.recv_timeout()), (5, 1_000_000_000));
    client.set_recv_timeout(7);
    assert_eq!((client.send_timeout(), client.recv_timeout()), (5, 7));
    assert!(matches!(
        client.request_response(&[1], RequestEvent::Start { connected: true }),
        RequestAction::Send { within: 5, .. }
    ));
    assert!(matches!(
        client.request_response(&[1], RequestEvent::Sent(IoStep::Done(()))),
        RequestAction::Receive { within: 7 }
    ));
    assert_eq!(client.connection_props(), &dummy_props());
}

/// Runs one attempt to connect, and says whether a stream is held afterwards and how it ended.
fn attempt(
    client: &SLMPClient,
    found: Vec<SocketAddr>,
    dialed: IoStep<()>,
) -> (bool, Result<(), SlmpError>) {
    let mut held = true;
    let mut event = ConnectEvent::Start;
    let mut found = Some(found);
    let mut dialed = Some(dialed);
    loop {
        event = match client.connect(event) {
            ConnectAction::Close => {
                held = false;
                ConnectEvent::Closed
            }
            ConnectAction::Resolve => ConnectEvent::Resolved(Ok(found.take().unwrap())),
            ConnectAction::Dial { .. } => ConnectEvent::Dialed(dialed.take().unwrap()),
            ConnectAction::Finish(result) => return (held || result.is_ok(), result),
        };
    }
}

#[test]
fn a_failed_attempt_leaves_the_client_unconnected() {
    let client = SLMPClient::new(dummy_props());
    let a = SocketAddr::V4 { ip: 0x7F000001, port: 5000 };

    let (connected, result) = attempt(&client, vec![a], IoStep::Elapsed);
    assert!(matches!(result, Err(SlmpError::Timeout)));
    assert!(matches!(
        client.request_response(&[1], RequestEvent::Start { connected }),
        RequestAction::Finish(Err(SlmpError::NotConnected))
    ));

    let (connected, result) = attempt(&client, vec![], IoStep::Done(()));
    assert!(matches!(result, Err(SlmpError::Io(_))));
    assert!(!connected);

    let (connected, result) = attempt(&client, vec![a], IoStep::Done(()));
    assert!(result.is_ok());
    assert!(matches!(
        client.request_response(&[1], RequestEvent::Start { connected }),
        RequestAction::Send { .. }
    ));
}
