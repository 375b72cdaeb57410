use slmp::{FramingError, SLMPClient, SlmpError};

#[test]
fn cpu_names_end_at_a_blank() {
    assert_eq!(SLMPClient::cpu_type_bytes(b"Q03UDVCPU       \x68\x02"), b"Q03UDVCPU");
    assert_eq!(SLMPClient::cpu_type_bytes(b"R04CPU"), b"R04CPU");
    assert_eq!(SLMPClient::cpu_type_bytes(b" R"), b"");
    let name = SLMPClient::get_cpu_type(Ok(b"R04CPU          \x00\x48".to_vec()));
    assert_eq!(name.unwrap(), "R04CPU");
}

#[test]
fn cpu_names_are_decoded_with_replacements() {
    let name = SLMPClient::get_cpu_type(Ok(vec![0x52, 0xFF, 0x34, 0x20, 0x41]));
    assert_eq!(name.unwrap(), "R\u{FFFD}4");
    let name = SLMPClient::get_cpu_type(Ok("\u{3B1}\u{3B2}".as_bytes().to_vec()));
    assert_eq!(name.unwrap(), "\u{3B1}\u{3B2}");
}

#[test]
fn a_failed_request_names_no_cpu() {
    assert!(matches!(
        SLMPClient::get_cpu_type(Err(SlmpError::Device { end_code: 0xCEE0 })),
        Err(SlmpError::Device { end_code: 0xCEE0 })
    ));
}

#[test]
fn echoes_are_compared() {
    let message = [0x41, 0x42, 0x43, 0x44];
    assert!(SLMPClient::echo(Ok(vec![4, 0, 0x41, 0x42, 0x43, 0x44]), &message).is_ok());
    assert!(SLMPClient::echo(Ok(vec![4, 0, 0x41, 0x42, 0x43, 0x44, 9]), &message).is_ok());
    for i in 2..6 {
        let mut reply = vec![4, 0, 0x41, 0x42, 0x43, 0x44];
        reply[i] = 0;
        assert!(matches!(
            SLMPClient::echo(Ok(reply), &message),
            Err(SlmpError::Framing(FramingError::EchoMismatch))
        ));
    }
    assert!(matches!(
        SLMPClient::echo(Ok(vec![4, 0, 0x41, 0x42, 0x43]), &message),
        Err(SlmpError::Framing(FramingError::EchoMismatch))
    ));
}

#[test]
fn a_failed_echo_hands_the_error_on() {
    let message = [1, 2, 3, 4];
    assert!(matches!(
        SLMPClient::echo(Err(SlmpError::NotConnected), &message),
        Err(SlmpError::NotConnected)
    ));
    assert!(matches!(
        SLMPClient::echo(Err(SlmpError::Device { end_code: 0xC059 }), &message),
        Err(SlmpError::Device { end_code: 0xC059 })
    ));
    assert!(matches!(SLMPClient::echo(Err(SlmpError::Timeout), &message), Err(SlmpError::Timeout)));
}
