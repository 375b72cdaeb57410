use slmp::{
    AccessType, DataType, Device, DeviceBlock, DeviceData, DeviceType, SLMP4EConnectionProps,
    SLMPClient, TypedData, CPU,
};

fn client() -> SLMPClient {
    SLMPClient::new(SLMP4EConnectionProps {
        ip: "127.0.0.1".to_string(),
        port: 0,
        cpu: CPU::L,
        serial_id: 0,
        network_id: 0,
        pc_id: 0xFF,
        io_id: 0x03FF,
        area_id: 0,
        cpu_timer: 0,
    })
}

fn device(address: usize) -> Device {
    Device { device_type: DeviceType { code: 0x90 }, address }
}

fn bit(address: usize, on: bool) -> DeviceData {
    DeviceData { device: device(address), data: TypedData::Bool(on) }
}

fn words(address: usize, data_type: DataType, bytes: &[u8]) -> DeviceData {
    DeviceData {
        device: device(address),
        data: TypedData::Words { data_type, bytes: bytes.to_vec() },
    }
}

fn block(access_type: AccessType, address: usize, size: usize) -> DeviceBlock {
    DeviceBlock { access_type, start_device: device(address), size }
}

#[test]
fn a_run_is_asked_for() {
    let query = client().bulk_read(device(7), 3, DataType::U16);
    assert_eq!(query.cpu, CPU::L);
    assert_eq!(query.start_device, device(7));
    assert_eq!(query.device_num, 3);
    assert_eq!(query.data_type, DataType::U16);
}

#[test]
fn bits_stand_in_half_bytes() {
    let values = SLMPClient::bulk_read_values(device(10), 5, DataType::Bool, &[0x10, 0x01, 0x11]);
    assert_eq!(
        values,
        vec![bit(10, true), bit(11, false), bit(12, false), bit(13, true), bit(14, true)]
    );
    // Only the lowest bit of a half counts, and a short response gives fewer bits.
    let values = SLMPClient::bulk_read_values(device(0), 9, DataType::Bool, &[0xE3]);
    assert_eq!(values, vec![bit(0, false), bit(1, true)]);
}

#[test]
fn values_stand_side_by_side() {
    let recv = [1, 2, 3, 4, 5, 6, 7, 8, 9];
    assert_eq!(
        SLMPClient::bulk_read_values(device(100), 2, DataType::U32, &recv),
        vec![
            words(100, DataType::U32, &[1, 2, 3, 4]),
            words(102, DataType::U32, &[5, 6, 7, 8]),
        ]
    );
    assert_eq!(
        SLMPClient::bulk_read_values(device(100), 1, DataType::F64, &recv),
        vec![words(100, DataType::F64, &[1, 2, 3, 4, 5, 6, 7, 8])]
    );
    assert_eq!(SLMPClient::bulk_read_values(device(0), 1, DataType::U16, &[1]), vec![]);
}

#[test]
fn runs_that_cannot_be_read() {
    assert!(SLMPClient::bulk_read_fits(device(0), 4, DataType::U16, 8));
    assert!(!SLMPClient::bulk_read_fits(device(0), 1, DataType::String(0), 8));
    let last = device(usize::MAX);
    assert!(SLMPClient::bulk_read_fits(last, 1, DataType::Bool, 8));
    assert!(!SLMPClient::bulk_read_fits(last, 2, DataType::Bool, 8));
    assert!(SLMPClient::bulk_read_fits(last, 1, DataType::U16, 2));
    assert!(!SLMPClient::bulk_read_fits(last, 1, DataType::U16, 4));
    assert_eq!(
        SLMPClient::bulk_read_values(last, 1, DataType::U16, &[1, 2]),
        vec![words(usize::MAX, DataType::U16, &[1, 2])]
    );
}

#[test]
fn blocks_are_sorted_by_access_and_address() {
    let query = client().block_read(vec![
        block(AccessType::Bit, 1, 3),
        block(AccessType::Word, 20, 1),
        block(AccessType::Word, 10, 2),
        block(AccessType::Bit, 0, 1),
        block(AccessType::Word, 10, 5),
    ]);
    assert_eq!(query.cpu, CPU::L);
    assert_eq!(
        query.sorted_block,
        vec![
            block(AccessType::Word, 10, 2),
            block(AccessType::Word, 10, 5),
            block(AccessType::Word, 20, 1),
            block(AccessType::Bit, 0, 1),
            block(AccessType::Bit, 1, 3),
        ]
    );
    assert_eq!((query.word_access_points, query.bit_access_points), (3, 2));
}

#[test]
fn blocks_are_taken_apart() {
    let blocks = vec![
        block(AccessType::Word, 10, 2),
        block(AccessType::Bit, 0, 10),
        block(AccessType::Bit, 50, 1),
    ];
    let recv = [1, 2, 3, 4, 0b0000_0101, 0b1111_1110, 1, 99];
    assert!(SLMPClient::block_read_fits(&blocks, recv.len()));
    let values = SLMPClient::block_read_values(&blocks, &recv);
    assert_eq!(
        values,
        vec![
            words(10, DataType::U16, &[1, 2]),
            words(11, DataType::U16, &[3, 4]),
            bit(0, true),
            bit(1, false),
            bit(2, true),
            bit(3, false),
            bit(4, false),
            bit(5, false),
            bit(6, false),
            bit(7, false),
            bit(8, false),
            bit(9, true),
            bit(50, true),
        ]
    );
    assert_eq!(SLMPClient::block_read_values(&vec![], &[]), vec![]);
}

#[test]
fn blocks_that_cannot_be_read() {
    let blocks = vec![block(AccessType::Word, 0, 2), block(AccessType::Bit, 0, 9)];
    assert!(SLMPClient::block_read_fits(&blocks, 6));
    assert!(!SLMPClient::block_read_fits(&blocks, 5));
    let far = vec![block(AccessType::Word, usize::MAX, 2)];
    assert!(!SLMPClient::block_read_fits(&far, 100));
    let huge = vec![block(AccessType::Bit, 0, usize::MAX)];
    assert!(!SLMPClient::block_read_fits(&huge, usize::MAX));
    let huge = vec![block(AccessType::Word, 0, usize::MAX)];
    assert!(!SLMPClient::block_read_fits(&huge, usize::MAX));
}

#[test]
fn values_are_as_long_as_their_type() {
    let start = Device { device_type: DeviceType { code: 0xA8 }, address: 0 };
    let recv = [1, 2, 3, 4, 5, 6, 7, 8, 9];
    let values = SLMPClient::bulk_read_values(start, 2, DataType::I32, &recv);
    assert_eq!(values.len(), 2);
    for value in values {
        match value.data {
            TypedData::Words { data_type, bytes } => assert_eq!(bytes.len(), data_type.byte_size()),
            other => panic!("got {other:?}"),
        }
    }
}
