use swarm_lib::protocol::{Protocol, ProtocolError, MAX_MESSAGE_SIZE, PROTOCOL_VERSION};

#[test]
fn a_frame_is_version_length_payload() {
    let f = Protocol::write_frame(b"hi!").unwrap();
    assert_eq!(f, vec![PROTOCOL_VERSION, 0, 0, 0, 3, b'h', b'i', b'!']);
    assert_eq!(Protocol::read_frame(&f).unwrap(), b"hi!".to_vec());
}

#[test]
fn frames_round_trip() {
    let payload: Vec<u8> = (0..300u32).map(|i| (i % 251) as u8).collect();
    let f = Protocol::write_frame(&payload).unwrap();
    assert_eq!(&f[1..5], &[0, 0, 1, 44]);
    assert_eq!(Protocol::read_frame(&f).unwrap(), payload);
}

#[test]
fn oversized_payloads_are_refused() {
    let payload = vec![0u8; MAX_MESSAGE_SIZE as usize + 1];
    assert_eq!(
        Protocol::write_frame(&payload),
        Err(ProtocolError::MessageTooLarge { size: MAX_MESSAGE_SIZE + 1 })
    );
    let header = [PROTOCOL_VERSION, 0, 0x10, 0, 1];
    assert_eq!(Protocol::read_header(&header), Err(ProtocolError::MessageTooLarge { size: 0x100001 }));
}

#[test]
fn other_versions_are_refused() {
    assert_eq!(
        Protocol::read_frame(&[2, 0, 0, 0, 0]),
        Err(ProtocolError::VersionMismatch { expected: 1, actual: 2 })
    );
    assert_eq!(Protocol::read_header(&[1, 0, 0, 1, 2]), Ok(258));
}

#[test]
fn short_input_is_an_io_error() {
    assert_eq!(
        Protocol::read_frame(&[1, 0, 0]),
        Err(ProtocolError::Io("failed to fill whole buffer".to_string()))
    );
    assert_eq!(
        Protocol::read_frame(&[1, 0, 0, 0, 4, 9]),
        Err(ProtocolError::Io("failed to fill whole buffer".to_string()))
    );
    assert_eq!(
        Protocol::read_frame(&[]),
        Err(ProtocolError::Io("failed to fill whole buffer".to_string()))
    );
}
