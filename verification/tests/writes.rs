use slmp::write::RandomWriteAction;
use slmp::{
    AccessType, BlockedDeviceData, DataType, Device, DeviceData, DeviceType, SLMP4EConnectionProps,
    SLMPClient, SlmpError, TypedData, CPU,
};

fn client() -> SLMPClient {
    SLMPClient::new(SLMP4EConnectionProps {
        ip: "127.0.0.1".to_string(),
        port: 0,
        cpu: CPU::Q,
        serial_id: 0,
        network_id: 0,
        pc_id: 0xFF,
        io_id: 0x03FF,
        area_id: 0,
        cpu_timer: 0,
    })
}

fn device(address: usize) -> Device {
    Device { device_type: DeviceType { code: 0xA8 }, address }
}

fn value(address: usize, data_type: DataType, tag: u8) -> DeviceData {
    let bytes = vec![tag; data_type.byte_size()];
    DeviceData { device: device(address), data: TypedData::Words { data_type, bytes } }
}

fn bit(address: usize, on: bool) -> DeviceData {
    DeviceData { device: device(address), data: TypedData::Bool(on) }
}

#[test]
fn single_devices_are_split_and_sorted() {
    let data = vec![
        value(30, DataType::U32, 1),
        bit(9, true),
        value(20, DataType::U16, 2),
        value(10, DataType::U32, 3),
        bit(3, false),
        value(5, DataType::F64, 4),
        value(20, DataType::U16, 5),
        value(1, DataType::String(3), 6),
    ];
    let write = client().random_write(data);

    let words = write.words.unwrap();
    assert_eq!(words.cpu, CPU::Q);
    assert_eq!(words.access_type, AccessType::Word);
    assert_eq!(
        words.sorted_data,
        vec![
            value(20, DataType::U16, 2),
            value(20, DataType::U16, 5),
            value(10, DataType::U32, 3),
            value(30, DataType::U32, 1),
            value(5, DataType::F64, 4),
            value(1, DataType::String(3), 6),
        ]
    );
    // Two words, four words of one value and three of another.
    assert_eq!(words.single_word_access_points, 9);
    assert_eq!(words.double_word_access_points, 2);
    assert_eq!(words.bit_access_points, 0);

    let bits = write.bits.unwrap();
    assert_eq!(bits.access_type, AccessType::Bit);
    assert_eq!(bits.sorted_data, vec![bit(3, false), bit(9, true)]);
    assert_eq!(bits.bit_access_points, 2);
    assert_eq!((bits.single_word_access_points, bits.double_word_access_points), (0, 0));
}

#[test]
fn bits_follow_words() {
    let data = vec![bit(1, true), value(2, DataType::U16, 0)];

    let mut write = client().random_write(data.clone());
    match write.step(Ok(())) {
        RandomWriteAction::Send(query) => assert_eq!(query.access_type, AccessType::Word),
        other => panic!("got {other:?}"),
    }
    match write.step(Ok(())) {
        RandomWriteAction::Send(query) => assert_eq!(query.access_type, AccessType::Bit),
        other => panic!("got {other:?}"),
    }
    assert!(matches!(write.step(Ok(())), RandomWriteAction::Finish(Ok(()))));

    // A failed request for words is the end of it.
    let mut write = client().random_write(data);
    assert!(matches!(write.step(Ok(())), RandomWriteAction::Send(_)));
    assert!(matches!(
        write.step(Err(SlmpError::Device { end_code: 0xC061 })),
        RandomWriteAction::Finish(Err(SlmpError::Device { end_code: 0xC061 }))
    ));
    assert!(matches!(write.step(Ok(())), RandomWriteAction::Finish(Ok(()))));

    let mut write = client().random_write(vec![]);
    assert!(matches!(write.step(Ok(())), RandomWriteAction::Finish(Ok(()))));
    let mut write = client().random_write(vec![bit(1, true)]);
    assert!(matches!(write.step(Ok(())), RandomWriteAction::Send(_)));
    assert!(matches!(
        write.step(Err(SlmpError::Timeout)),
        RandomWriteAction::Finish(Err(SlmpError::Timeout))
    ));
}

#[test]
fn only_needed_requests_are_made() {
    let write = client().random_write(vec![]);
    assert!(write.words.is_none() && write.bits.is_none());
    let write = client().random_write(vec![bit(0, true)]);
    assert!(write.words.is_none() && write.bits.is_some());
    let write = client().random_write(vec![value(0, DataType::F32, 0)]);
    assert!(write.words.is_some() && write.bits.is_none());
}

#[test]
fn counts_are_one_byte_wide() {
    let words: Vec<DeviceData> = (0..255).map(|i| value(i, DataType::I16, 0)).collect();
    assert!(SLMPClient::random_write_fits(&words));
    assert_eq!(client().random_write(words.clone()).words.unwrap().single_word_access_points, 255);

    let mut more = words.clone();
    more.push(value(0, DataType::U32, 0));
    assert!(!SLMPClient::random_write_fits(&more));
    let mut more = words.clone();
    more.push(value(0, DataType::String(1), 0));
    assert!(!SLMPClient::random_write_fits(&more));

    // A count of exactly one byte too many reads as none.
    let mut more = words;
    more.push(value(0, DataType::U16, 0));
    assert!(SLMPClient::random_write_fits(&more));
    assert!(client().random_write(more).words.is_none());

    let bits: Vec<DeviceData> = (0..257).map(|i| bit(i, true)).collect();
    let query = client().random_write(bits).bits.unwrap();
    assert_eq!(query.bit_access_points, 1);
    assert_eq!(query.sorted_data.len(), 257);

    let texts = vec![value(0, DataType::String(200), 0), value(0, DataType::String(100), 0)];
    assert!(!SLMPClient::random_write_fits(&texts));
}

#[test]
fn runs_are_written_unless_empty() {
    assert!(client().bulk_write(device(1), vec![]).is_none());
    let query = client().bulk_write(device(1), vec![TypedData::Bool(true)]).unwrap();
    assert_eq!(query.cpu, CPU::Q);
    assert_eq!(query.start_device, device(1));
    assert_eq!(query.data, vec![TypedData::Bool(true)]);
}

fn block(access_type: AccessType, address: usize) -> BlockedDeviceData {
    BlockedDeviceData { access_type, start_device: device(address), data: vec![] }
}

#[test]
fn blocks_of_words_come_first() {
    let data = vec![
        block(AccessType::Bit, 4),
        block(AccessType::Word, 9),
        block(AccessType::Bit, 2),
        block(AccessType::Word, 1),
    ];
    assert!(SLMPClient::block_write_fits(&data));
    let query = client().block_write(data).unwrap();
    assert_eq!(
        query.sorted_data,
        vec![
            block(AccessType::Word, 9),
            block(AccessType::Word, 1),
            block(AccessType::Bit, 4),
            block(AccessType::Bit, 2),
        ]
    );
    assert_eq!((query.word_access_points, query.bit_access_points), (2, 2));
    assert!(client().block_write(vec![]).is_none());
}

#[test]
fn too_many_blocks_do_not_fit() {
    let mut data: Vec<BlockedDeviceData> = (0..200).map(|i| block(AccessType::Word, i)).collect();
    data.extend((0..55).map(|i| block(AccessType::Bit, i)));
    assert!(SLMPClient::block_write_fits(&data));
    data.push(block(AccessType::Bit, 0));
    assert!(!SLMPClient::block_write_fits(&data));
}

#[test]
fn sizes_of_types() {
    assert_eq!(DataType::Bits.byte_size(), 2);
    assert_eq!(DataType::U16.byte_size(), 2);
    assert_eq!(DataType::I16.byte_size(), 2);
    assert_eq!(DataType::U32.byte_size(), 4);
    assert_eq!(DataType::I32.byte_size(), 4);
    assert_eq!(DataType::F32.byte_size(), 4);
    assert_eq!(DataType::F64.byte_size(), 8);
    assert_eq!(DataType::String(5).byte_size(), 10);
    assert_eq!(TypedData::Bool(true).get_type(), DataType::Bool);
}

#[test]
fn nothing_given_is_lost() {
    let mut data: Vec<DeviceData> = (0..100).map(|i| value(i % 7, DataType::U16, 0)).collect();
    data.extend((0..50).map(|i| value(50 - i, DataType::F32, 0)));
    data.extend((0..255).map(|i| bit(i % 11, i % 2 == 0)));
    data.push(value(3, DataType::String(105), 0));
    assert!(SLMPClient::random_write_fits(&data));
    let write = client().random_write(data.clone());
    let mut written = write.words.unwrap().sorted_data;
    written.extend(write.bits.unwrap().sorted_data);
    assert_eq!(written.len(), data.len());
    for item in written {
        let place = data.iter().position(|d| *d == item).unwrap();
        data.remove(place);
    }
    assert!(data.is_empty());

    let blocks: Vec<BlockedDeviceData> = (0..255)
        .map(|i| block(if i % 3 == 0 { AccessType::Bit } else { AccessType::Word }, i))
        .collect();
    let query = client().block_write(blocks.clone()).unwrap();
    assert_eq!((query.word_access_points, query.bit_access_points), (170, 85));
    let mut addresses: Vec<usize> =
        query.sorted_data.iter().map(|b| b.start_device.address).collect();
    addresses.sort();
    assert_eq!(addresses, (0..255).collect::<Vec<usize>>());
}
