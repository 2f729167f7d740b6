use udp_ticket_distribution::packet::{PacketRequest, PacketResponse, UdpPacket};
use udp_ticket_distribution::packet_data::{IntegrityError, PacketData};

#[test]
fn tooludppacket_full_test() {
    let data = b"data";
    let udppacket = UdpPacket::new_with_request(PacketRequest::Ping)
        .set_data(data)
        .set_response(PacketResponse::NoReply);

    assert_eq!(udppacket.try_retrieve_data().unwrap(), b"data".to_vec());
    assert_eq!(udppacket.request(), PacketRequest::Ping);
    assert_eq!(udppacket.response(), PacketResponse::NoReply);
}

#[test]
fn tooludppacket_error_test() {
    let udppacket =
        UdpPacket::new_with_request(PacketRequest::Ping).set_response(PacketResponse::NoReply);

    assert_eq!(
        udppacket.try_retrieve_data().map_err(|e| e.message()),
        Err("Data is None!".to_string())
    );
    assert_eq!(udppacket.try_retrieve_data(), Err(IntegrityError::MissingData));
}

#[test]
fn tooludppacket_serde() {
    let packet = UdpPacket::new_with_request(PacketRequest::Ping)
        .set_data(b"data")
        .set_response(PacketResponse::NoReply);

    let aka_file = packet.to_bytes();

    assert_eq!(
        aka_file,
        vec![
            164, 102, 115, 101, 99, 114, 101, 116, 24, 51, 103, 114, 101, 113, 117, 101, 115, 116,
            1, 104, 114, 101, 115, 112, 111, 110, 115, 101, 0, 100, 100, 97, 116, 97, 162, 99, 99,
            114, 99, 25, 173, 108, 100, 100, 97, 116, 97, 132, 24, 100, 24, 97, 24, 116, 24, 97
        ]
    );

    let recieved_packet = UdpPacket::from_bytes(aka_file.as_slice()).unwrap();

    assert_eq!(recieved_packet.try_retrieve_data().unwrap(), b"data".to_vec());
    assert_eq!(recieved_packet.request(), PacketRequest::Ping);
    assert_eq!(recieved_packet.response(), PacketResponse::NoReply);
}

#[test]
fn tooludppacket_from_and_into() {
    let packet = UdpPacket::new_with_request(PacketRequest::Ping)
        .set_data(b"a lot of data somewhere there in a packet")
        .set_response(PacketResponse::NoReply);

    let bytearr = packet.to_bytes();

    assert_eq!(bytearr.len(), 131);

    assert_eq!(
        bytearr,
        vec![
            164, 102, 115, 101, 99, 114, 101, 116, 24, 51, 103, 114, 101, 113, 117, 101, 115, 116,
            1, 104, 114, 101, 115, 112, 111, 110, 115, 101, 0, 100, 100, 97, 116, 97, 162, 99, 99,
            114, 99, 25, 164, 222, 100, 100, 97, 116, 97, 152, 41, 24, 97, 24, 32, 24, 108, 24,
            111, 24, 116, 24, 32, 24, 111, 24, 102, 24, 32, 24, 100, 24, 97, 24, 116, 24, 97, 24,
            32, 24, 115, 24, 111, 24, 109, 24, 101, 24, 119, 24, 104, 24, 101, 24, 114, 24, 101,
            24, 32, 24, 116, 24, 104, 24, 101, 24, 114, 24, 101, 24, 32, 24, 105, 24, 110, 24, 32,
            24, 97, 24, 32, 24, 112, 24, 97, 24, 99, 24, 107, 24, 101, 24, 116
        ]
    );

    let recieved_packet = UdpPacket::from_bytes(bytearr.as_slice()).unwrap();

    assert_eq!(
        recieved_packet.try_retrieve_data().unwrap(),
        b"a lot of data somewhere there in a packet".to_vec()
    );
    assert_eq!(recieved_packet.request(), PacketRequest::Ping);
    assert_eq!(recieved_packet.response(), PacketResponse::NoReply);
}

fn all_requests() -> Vec<PacketRequest> {
    vec![PacketRequest::Ping, PacketRequest::GetFlights, PacketRequest::RequestTicket]
}

fn all_responses() -> Vec<PacketResponse> {
    vec![
        PacketResponse::NoReply,
        PacketResponse::Okay,
        PacketResponse::ErrorInRequest,
        PacketResponse::TicketsSold,
    ]
}

fn sample_payloads() -> Vec<Vec<u8>> {
    let mut long = Vec::new();
    for i in 0..70000u32 {
        long.push((i % 256) as u8);
    }
    vec![
        vec![],
        vec![0],
        vec![23],
        vec![24],
        vec![255],
        (0..=255u8).collect(),
        vec![7; 23],
        vec![7; 24],
        vec![7; 255],
        vec![7; 256],
        long,
    ]
}

#[test]
fn codes_of_requests_and_responses() {
    assert_eq!(PacketRequest::Ping.code(), 1);
    assert_eq!(PacketRequest::GetFlights.code(), 2);
    assert_eq!(PacketRequest::RequestTicket.code(), 3);
    assert_eq!(PacketResponse::NoReply.code(), 0);
    assert_eq!(PacketResponse::Okay.code(), 1);
    assert_eq!(PacketResponse::ErrorInRequest.code(), 2);
    assert_eq!(PacketResponse::TicketsSold.code(), 3);
    for r in all_requests() {
        assert_eq!(PacketRequest::from_code(r.code() as u64), Some(r));
    }
    for r in all_responses() {
        assert_eq!(PacketResponse::from_code(r.code() as u64), Some(r));
    }
    assert_eq!(PacketRequest::from_code(0), None);
    assert_eq!(PacketRequest::from_code(4), None);
    assert_eq!(PacketResponse::from_code(4), None);
    assert_eq!(PacketResponse::from_code(256), None);
}

#[test]
fn new_packet_has_no_answer_and_no_data() {
    let packet = UdpPacket::new_with_request(PacketRequest::GetFlights);
    assert_eq!(packet.request(), PacketRequest::GetFlights);
    assert_eq!(packet.response(), PacketResponse::NoReply);
    assert_eq!(packet.try_retrieve_data(), Err(IntegrityError::MissingData));
    assert_eq!(
        packet.to_bytes(),
        vec![
            164, 102, 115, 101, 99, 114, 101, 116, 24, 51, 103, 114, 101, 113, 117, 101, 115, 116,
            2, 104, 114, 101, 115, 112, 111, 110, 115, 101, 0, 100, 100, 97, 116, 97, 246
        ]
    );
}

#[test]
fn decoding_undoes_encoding() {
    for request in all_requests() {
        for response in all_responses() {
            let bare = UdpPacket::new_with_request(request).set_response(response);
            let back = UdpPacket::from_bytes(&bare.to_bytes()).unwrap();
            assert_eq!(back.request(), request);
            assert_eq!(back.response(), response);
            assert_eq!(back.try_retrieve_data(), Err(IntegrityError::MissingData));
            assert_eq!(back.to_bytes(), bare.to_bytes());

            for payload in sample_payloads() {
                let packet =
                    UdpPacket::new_with_request(request).set_response(response).set_data(&payload);
                let bytes = packet.to_bytes();
                let back = UdpPacket::from_bytes(&bytes).unwrap();
                assert_eq!(back.request(), request);
                assert_eq!(back.response(), response);
                assert_eq!(back.try_retrieve_data(), Ok(payload.clone()));
                assert_eq!(back.to_bytes(), bytes);
            }
        }
    }
}

#[test]
fn set_data_replaces_the_payload() {
    let packet = UdpPacket::new_with_request(PacketRequest::Ping).set_data(b"one").set_data(b"two");
    assert_eq!(packet.try_retrieve_data(), Ok(b"two".to_vec()));
}

#[test]
fn flipped_payload_bit_is_reported_as_corrupt() {
    let payload = b"a lot of data somewhere there in a packet";
    let bytes = UdpPacket::new_with_request(PacketRequest::RequestTicket)
        .set_response(PacketResponse::Okay)
        .set_data(payload)
        .to_bytes();
    // Behind the head of the array every byte of the payload stands as the
    // pair 24, b.
    let start = bytes.len() - 2 * payload.len();
    for i in 0..payload.len() {
        assert_eq!(bytes[start + 2 * i], 24);
        assert_eq!(bytes[start + 2 * i + 1], payload[i]);
        for bit in 6..8 {
            let mut altered = bytes.clone();
            altered[start + 2 * i + 1] ^= 1 << bit;
            let packet = UdpPacket::from_bytes(&altered).unwrap();
            assert_eq!(packet.request(), PacketRequest::RequestTicket);
            assert_eq!(packet.response(), PacketResponse::Okay);
            assert_eq!(packet.try_retrieve_data(), Err(IntegrityError::CorruptData));
            assert_eq!(packet.try_retrieve_data().map_err(|e| e.message()), Err("Crc error!".to_string()));
        }
    }
}

#[test]
fn flipped_code_bit_is_reported_as_corrupt() {
    let bytes = UdpPacket::new_with_request(PacketRequest::Ping).set_data(b"data").to_bytes();
    // 25, 173, 108 is the integrity code.
    assert_eq!(&bytes[39..42], &[25, 173, 108]);
    for at in 40..42 {
        for bit in 0..8 {
            let mut altered = bytes.clone();
            altered[at] ^= 1 << bit;
            let packet = UdpPacket::from_bytes(&altered).unwrap();
            assert_eq!(packet.try_retrieve_data(), Err(IntegrityError::CorruptData));
        }
    }
}

#[test]
fn foreign_tag_is_a_format_mismatch() {
    let bytes = UdpPacket::new_with_request(PacketRequest::Ping).set_data(b"data").to_bytes();
    assert_eq!(bytes[9], 51);
    for tag in [24u8, 50, 52, 255] {
        let mut foreign = bytes.clone();
        foreign[9] = tag;
        let packet = UdpPacket::from_bytes(&foreign).unwrap();
        assert_eq!(packet.request(), PacketRequest::Ping);
        assert_eq!(packet.try_retrieve_data(), Err(IntegrityError::FormatMismatch));
        assert_eq!(
            packet.try_retrieve_data().map_err(|e| e.message()),
            Err("Secret is invalid!".to_string())
        );
        assert_eq!(packet.to_bytes(), foreign);
    }
    // A small tag stands in one byte.
    let mut small = bytes[..8].to_vec();
    small.push(7);
    small.extend_from_slice(&bytes[10..]);
    let packet = UdpPacket::from_bytes(&small).unwrap();
    assert_eq!(packet.try_retrieve_data(), Err(IntegrityError::FormatMismatch));
    assert_eq!(packet.to_bytes(), small);
}

#[test]
fn format_mismatch_comes_before_missing_data() {
    let mut bytes = UdpPacket::new_with_request(PacketRequest::Ping).to_bytes();
    bytes[9] = 52;
    let packet = UdpPacket::from_bytes(&bytes).unwrap();
    assert_eq!(packet.try_retrieve_data(), Err(IntegrityError::FormatMismatch));
}

#[test]
fn what_is_no_binary_form_is_not_decoded() {
    let good = UdpPacket::new_with_request(PacketRequest::Ping)
        .set_response(PacketResponse::Okay)
        .set_data(&[1, 200])
        .to_bytes();
    assert!(UdpPacket::from_bytes(&good).is_some());

    assert!(UdpPacket::from_bytes(&[]).is_none());
    for cut in 0..good.len() {
        assert!(UdpPacket::from_bytes(&good[..cut]).is_none());
    }
    let mut longer = good.clone();
    longer.push(0);
    assert!(UdpPacket::from_bytes(&longer).is_none());

    // An unknown request, an unknown response.
    for code in [0u8, 4, 23] {
        let mut bytes = good.clone();
        bytes[18] = code;
        assert!(UdpPacket::from_bytes(&bytes).is_none());
    }
    for code in [4u8, 5, 23] {
        let mut bytes = good.clone();
        bytes[28] = code;
        assert!(UdpPacket::from_bytes(&bytes).is_none());
    }
    // A key that is not the expected one.
    let mut bytes = good.clone();
    bytes[2] = b'S';
    assert!(UdpPacket::from_bytes(&bytes).is_none());
    // A map of another size.
    let mut bytes = good.clone();
    bytes[0] = 163;
    assert!(UdpPacket::from_bytes(&bytes).is_none());
    // The request written longer than need be: 24, 1 in place of 1.
    let mut bytes = good[..18].to_vec();
    bytes.extend_from_slice(&[24, 1]);
    bytes.extend_from_slice(&good[19..]);
    assert!(UdpPacket::from_bytes(&bytes).is_none());
    // The tag in two bytes where one would do is not the shortest form;
    // neither is a tag above 255 a tag.
    let mut bytes = good[..8].to_vec();
    bytes.extend_from_slice(&[25, 1, 0]);
    bytes.extend_from_slice(&good[10..]);
    assert!(UdpPacket::from_bytes(&bytes).is_none());
    // A byte of the payload above 255.
    let n = good.len();
    assert_eq!(&good[n - 3..], &[1, 24, 200]);
    let mut bytes = good[..n - 2].to_vec();
    bytes.extend_from_slice(&[25, 1, 0]);
    assert!(UdpPacket::from_bytes(&bytes).is_none());
    // More bytes promised than there are.
    let mut bytes = good.clone();
    assert_eq!(bytes[n - 4], 130);
    bytes[n - 4] = 131;
    assert!(UdpPacket::from_bytes(&bytes).is_none());
}

#[test]
fn the_stored_payload_is_handed_out_as_it_is() {
    let bare = UdpPacket::new_with_request(PacketRequest::Ping);
    assert!(matches!(bare.stored_payload(), Err(IntegrityError::MissingData)));

    let packet = bare.set_payload(PacketData::new_with_crc(vec![9, 8], 1234));
    let stored = packet.stored_payload().ok().unwrap();
    assert_eq!(stored.crc, 1234);
    assert_eq!(stored.data, vec![9, 8]);
    assert_eq!(packet.try_retrieve_data(), Err(IntegrityError::CorruptData));

    let sealed = UdpPacket::new_with_request(PacketRequest::Ping)
        .set_payload(PacketData::new_with_data(&[9, 8]));
    assert_eq!(sealed.try_retrieve_data(), Ok(vec![9, 8]));
    assert_eq!(
        sealed.to_bytes(),
        UdpPacket::new_with_request(PacketRequest::Ping).set_data(&[9, 8]).to_bytes()
    );

    let mut bytes = sealed.to_bytes();
    bytes[9] = 52;
    let foreign = UdpPacket::from_bytes(&bytes).unwrap();
    assert!(matches!(foreign.stored_payload(), Err(IntegrityError::FormatMismatch)));
}
