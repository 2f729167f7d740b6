use udp_ticket_distribution::packet_data::{IntegrityError, PacketData};

#[test]
fn toolpacketdata_simple_test() {
    let mut data = b"array".to_vec();
    let packet = PacketData::new_with_data(&data);

    data[0] = b'b';
    assert_ne!(data, packet.data);
}

#[test]
fn toolpacketdata_bad_data() {
    let mut packet = PacketData::new_with_data(&[1; 100]);
    packet.data[0] = 5;
    assert_eq!(
        packet.try_retrieve_data().map_err(|e| e.message()),
        Err("Crc error!".to_string())
    );
    assert_eq!(packet.try_retrieve_data(), Err(IntegrityError::CorruptData));
}

#[test]
fn toolpacketdata_retrieving_data() {
    let packet = PacketData::new_with_data(b"send data");
    assert_eq!(packet.try_retrieve_data().unwrap(), b"send data");
}

#[test]
fn toolpacketdata_serde() {
    let packet = PacketData::new_with_data(b"cbor test");

    let aka_file = packet.to_bytes();

    assert_eq!(
        aka_file,
        vec![
            162, 99, 99, 114, 99, 25, 69, 53, 100, 100, 97, 116, 97, 137, 24, 99, 24, 98, 24, 111,
            24, 114, 24, 32, 24, 116, 24, 101, 24, 115, 24, 116
        ]
    );

    let recieved_packet = PacketData::from_bytes(aka_file.as_slice()).unwrap();

    assert_eq!(packet.data, recieved_packet.data);
    assert_eq!(packet.crc, recieved_packet.crc);
}

#[test]
fn checksum_is_crc16_ibm_sdlc() {
    assert_eq!(PacketData::new_with_data(b"123456789").crc, 0x906e);
    assert_eq!(PacketData::new_with_data(b"").crc, 0x0000);
    assert_eq!(PacketData::new_with_data(b"data").crc, 173 * 256 + 108);
    assert_eq!(PacketData::new_with_data(b"cbor test").crc, 69 * 256 + 53);
}

#[test]
fn every_flipped_bit_is_reported_as_corrupt() {
    let sealed: Vec<u8> = (0..64u8).map(|i| i.wrapping_mul(37).wrapping_add(11)).collect();
    for i in 0..sealed.len() {
        for bit in 0..8 {
            let mut packet = PacketData::new_with_data(&sealed);
            packet.data[i] ^= 1 << bit;
            assert_eq!(packet.try_retrieve_data(), Err(IntegrityError::CorruptData));
        }
    }
    for bit in 0..16 {
        let mut packet = PacketData::new_with_data(&sealed);
        packet.crc ^= 1 << bit;
        assert_eq!(packet.try_retrieve_data(), Err(IntegrityError::CorruptData));
    }
    let packet = PacketData::new_with_data(&sealed);
    assert_eq!(packet.try_retrieve_data(), Ok(&sealed));
}

#[test]
fn payload_bytes_that_are_no_binary_form() {
    let good = PacketData::new_with_data(&[1, 2, 3]).to_bytes();
    assert!(PacketData::from_bytes(&good).is_some());
    assert!(PacketData::from_bytes(&good[..good.len() - 1]).is_none());
    let mut longer = good.clone();
    longer.push(1);
    assert!(PacketData::from_bytes(&longer).is_none());
    // The null item stands for no payload at all.
    assert!(PacketData::from_bytes(&[246]).is_none());
    assert!(PacketData::from_bytes(&[]).is_none());
}

#[test]
fn messages_of_the_errors() {
    assert_eq!(IntegrityError::FormatMismatch.message(), "Secret is invalid!");
    assert_eq!(IntegrityError::MissingData.message(), "Data is None!");
    assert_eq!(IntegrityError::CorruptData.message(), "Crc error!");
}

#[test]
fn a_payload_under_a_given_code() {
    let packet = PacketData::new_with_crc(vec![1, 2, 3], 7);
    assert_eq!(packet.crc, 7);
    assert_eq!(packet.data, vec![1, 2, 3]);
    assert_eq!(packet.retrieve_if_code_is(7), Ok(&vec![1, 2, 3]));
    assert_eq!(packet.retrieve_if_code_is(8), Err(IntegrityError::CorruptData));
    assert_eq!(packet.retrieve_if_code_is(0), Err(IntegrityError::CorruptData));
    // 7 is not the checksum of 1, 2, 3.
    assert_eq!(packet.try_retrieve_data(), Err(IntegrityError::CorruptData));

    let good = PacketData::new_with_data(&[1, 2, 3]);
    let same = PacketData::new_with_crc(vec![1, 2, 3], good.crc);
    assert_eq!(same.try_retrieve_data(), Ok(&vec![1, 2, 3]));
}
