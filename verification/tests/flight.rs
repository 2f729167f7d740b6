use udp_ticket_distribution::flight::{
    convert_to_bytes, convert_to_flightinfo, number_from_bytes, number_to_bytes, FlightInfo,
};

#[test]
fn udp_socket_distribution_converting_test() {
    let mut data = Vec::new();

    for i in 1..10 {
        data.push(FlightInfo { num: i, seats_num: 42 * 6 });
    }

    let serialized_data = convert_to_bytes(&data);

    let deserialized_data = convert_to_flightinfo(&serialized_data).unwrap();

    assert_eq!(data.len(), deserialized_data.len());
    for (d, dd) in std::iter::zip(data, deserialized_data) {
        assert_eq!(d.num, dd.num);
        assert_eq!(d.seats_num, dd.seats_num);
    }
}

#[test]
fn binary_form_of_a_list_of_flights() {
    assert_eq!(convert_to_bytes(&vec![]), vec![128]);
    assert_eq!(
        convert_to_bytes(&vec![FlightInfo { num: 1, seats_num: 6 }]),
        vec![
            129, 162, 99, 110, 117, 109, 1, 105, 115, 101, 97, 116, 115, 95, 110, 117, 109, 6
        ]
    );
    assert_eq!(
        convert_to_bytes(&vec![
            FlightInfo { num: 300, seats_num: 252 },
            FlightInfo { num: 70000, seats_num: 0 },
            FlightInfo { num: u32::MAX, seats_num: 24 },
        ]),
        vec![
            131, 162, 99, 110, 117, 109, 25, 1, 44, 105, 115, 101, 97, 116, 115, 95, 110, 117,
            109, 24, 252, 162, 99, 110, 117, 109, 26, 0, 1, 17, 112, 105, 115, 101, 97, 116, 115,
            95, 110, 117, 109, 0, 162, 99, 110, 117, 109, 26, 255, 255, 255, 255, 105, 115, 101,
            97, 116, 115, 95, 110, 117, 109, 24, 24
        ]
    );
}

#[test]
fn lists_of_flights_come_back() {
    let mut flights = Vec::new();
    for i in 0..300u32 {
        flights.push(FlightInfo { num: i.wrapping_mul(2654435761), seats_num: (i % 256) as u8 });
        let bytes = convert_to_bytes(&flights);
        assert_eq!(convert_to_flightinfo(&bytes), Some(flights.clone()));
    }
}

#[test]
fn what_is_no_list_of_flights_is_not_decoded() {
    let good = convert_to_bytes(&vec![
        FlightInfo { num: 1, seats_num: 6 },
        FlightInfo { num: 2, seats_num: 252 },
    ]);
    assert!(convert_to_flightinfo(&good).is_some());
    assert!(convert_to_flightinfo(&vec![]).is_none());
    for cut in 0..good.len() {
        assert!(convert_to_flightinfo(&good[..cut].to_vec()).is_none());
    }
    let mut longer = good.clone();
    longer.push(0);
    assert!(convert_to_flightinfo(&longer).is_none());
    let mut fewer = good.clone();
    fewer[0] = 129;
    assert!(convert_to_flightinfo(&fewer).is_none());
    let mut more = good.clone();
    more[0] = 131;
    assert!(convert_to_flightinfo(&more).is_none());
    // Seats above 255.
    let mut bytes = good[..good.len() - 2].to_vec();
    bytes.extend_from_slice(&[25, 1, 0]);
    assert!(convert_to_flightinfo(&bytes).is_none());
    // A seat count written longer than need be.
    let mut bytes = good[..17].to_vec();
    bytes.extend_from_slice(&[24, 6]);
    bytes.extend_from_slice(&good[18..]);
    assert!(convert_to_flightinfo(&bytes).is_none());
}

#[test]
fn flight_numbers_in_four_bytes() {
    assert_eq!(number_to_bytes(0), vec![0, 0, 0, 0]);
    assert_eq!(number_to_bytes(1), vec![1, 0, 0, 0]);
    assert_eq!(number_to_bytes(0x0a0b0c0d), vec![0x0d, 0x0c, 0x0b, 0x0a]);
    assert_eq!(number_to_bytes(u32::MAX), vec![255, 255, 255, 255]);
    assert_eq!(number_from_bytes(&[1, 0, 0, 0]), 1);
    assert_eq!(number_from_bytes(&[0, 1, 0, 0]), 256);
    assert_eq!(number_from_bytes(&[0x0d, 0x0c, 0x0b, 0x0a]), 0x0a0b0c0d);
    let mut n: u32 = 1;
    for _ in 0..1000 {
        n = n.wrapping_mul(1664525).wrapping_add(1013904223);
        assert_eq!(number_to_bytes(n), n.to_le_bytes().to_vec());
        assert_eq!(number_from_bytes(&n.to_le_bytes()), n);
    }
}
