use ottd_udp::ByteWriter;
use ottd_udp::CompanyInfo;
use ottd_udp::NetworkVehicleType;
use ottd_udp::Error;
use ottd_udp::NewGRFHash;
use ottd_udp::Packet;
use ottd_udp::PacketType;
use ottd_udp::ProtocolVer;
use ottd_udp::ServerDetailInfo;
use ottd_udp::ServerListType;
use ottd_udp::ServerRegistrationData;
use ottd_udp::ServerResponse;
use ottd_udp::V2Data;
use ottd_udp::V3Data;
use ottd_udp::V4Data;
use ottd_udp::VehicleCounts;
use ottd_udp::parse_client_get_list;
use ottd_udp::parse_master_response;
use ottd_udp::parse_server_response;

#[test]
fn discriminant_bijection_all_twelve() {
    for v in 0u8..=11 {
        let kind = PacketType::from_num(v).unwrap();
        assert_eq!(kind.to_num(), v);
    }
    for v in 12u8..=255 {
        assert!(PacketType::from_num(v).is_none());
    }
}

#[test]
fn unknown_discriminant_is_invalid_packet() {
    for v in [12u8, 42, 200, 255] {
        let err = Packet::from_incoming_bytes(&[3, 0, v]).unwrap_err();
        assert!(matches!(err, Error::InvalidPacketError { .. }));
    }
}

#[test]
fn declared_kinds_without_codec_fail_distinctly() {
    for v in [9u8, 10, 11] {
        assert!(PacketType::from_num(v).is_some());
        let err = Packet::from_incoming_bytes(&[3, 0, v]).unwrap_err();
        assert!(matches!(err, Error::NullError { .. }));
    }
}

#[test]
fn empty_and_short_buffers_are_parse_errors() {
    let err = Packet::from_incoming_bytes(&[]).unwrap_err();
    assert!(matches!(err, Error::DataParseError { .. }));
    let err = Packet::from_incoming_bytes(&[9]).unwrap_err();
    assert!(matches!(err, Error::DataParseError { .. }));
    let err = Packet::from_incoming_bytes(&[9, 0]).unwrap_err();
    assert!(matches!(err, Error::DataParseError { .. }));
    // a declared length too small to cover its own header
    let err = Packet::from_incoming_bytes(&[2, 0, 2]).unwrap_err();
    assert!(matches!(err, Error::DataParseError { .. }));
}

fn sample_response() -> ServerResponse {
    ServerResponse {
        protocol_ver: ProtocolVer::V4(
            V2Data { max_companies: 8, current_companies: 1, max_spectators: 4 },
            V3Data { game_date: 1000, start_date: 900 },
            V4Data { active_newgrf: vec![(77, NewGRFHash(vec![3u8; 16]))] },
        ),
        server_name: b"Server".to_vec(),
        server_revision: b"1.5.3".to_vec(),
        server_lang: 22,
        use_password: true,
        clients_max: 25,
        clients_on: 0,
        spectators_on: 0,
        map_name: b"Random Map".to_vec(),
        map_width: 64,
        map_height: 64,
        map_set: 1,
        dedicated: true,
    }
}

#[test]
fn every_truncation_of_a_response_is_a_parse_error() {
    let mut full = Vec::new();
    sample_response().write_pkt(&mut full).unwrap();
    for cut in 0..full.len() {
        let err = parse_server_response(&full[..cut], 0).unwrap_err();
        assert!(matches!(err, Error::DataParseError { .. }));
    }
    assert!(parse_server_response(&full, 0).is_ok());
}

#[test]
fn truncated_envelope_is_a_parse_error() {
    let p = Packet::ServerResponse(sample_response());
    let mut full = Vec::new();
    p.write_pkt(&mut full).unwrap();
    for cut in 3..full.len() {
        let err = Packet::from_incoming_bytes(&full[..cut]).unwrap_err();
        assert!(matches!(err, Error::DataParseError { .. }));
    }
}

#[test]
fn length_mismatch_after_decoding_is_reported() {
    // a detail query whose declared length leaves one stray payload byte
    let err = Packet::from_incoming_bytes(&[4, 0, 2, 0]).unwrap_err();
    assert!(matches!(err, Error::DataParseError { .. }));
}

fn content_set(n: usize) -> V4Data {
    V4Data {
        active_newgrf: (0..n).map(|i| (i as u32, NewGRFHash(vec![0u8; 16]))).collect(),
    }
}

#[test]
fn content_boundary_at_255_entries() {
    let mut out = Vec::new();
    content_set(255).write_pkt(&mut out).unwrap();
    assert_eq!(out[0], 255);
    assert_eq!(out.len(), 1 + 255 * 20);

    let mut out = Vec::new();
    let err = content_set(256).write_pkt(&mut out).unwrap_err();
    assert!(matches!(err, Error::IOError { .. }));
    assert!(out.is_empty());
}

fn roster(n: usize) -> ServerDetailInfo {
    let companies: Vec<CompanyInfo> = (0..n)
        .map(|i| CompanyInfo {
            index: i as u8,
            name: b"Co".to_vec(),
            inaugurated_year: 1960,
            company_value: 1,
            money: 2,
            income: 3,
            performance_history: 4,
            has_password: false,
            num_vehicles: VehicleCounts { train: 0, lorry: 0, bus: 0, plane: 0, ship: 0 },
            num_stations: VehicleCounts { train: 0, lorry: 0, bus: 0, plane: 0, ship: 0 },
            is_ai: true,
        })
        .collect();
    ServerDetailInfo { company_info_version: 6, companies }
}

#[test]
fn roster_boundary_at_255_companies() {
    let mut out = Vec::new();
    roster(255).write_pkt(&mut out).unwrap();
    assert_eq!(out[1], 255);

    let mut out = Vec::new();
    let err = roster(256).write_pkt(&mut out).unwrap_err();
    assert!(matches!(err, Error::IOError { .. }));
    assert!(out.is_empty());
}

#[test]
fn embedded_zero_byte_is_a_write_error() {
    let data = ServerRegistrationData {
        welcome_message: b"bad\0text".to_vec(),
        server_version: 2,
        port: 3979,
        session_key: 1,
    };
    let mut out = Vec::new();
    let err = data.write_pkt(&mut out).unwrap_err();
    assert!(matches!(err, Error::IOError { .. }));
    assert!(out.is_empty());
}

#[test]
fn bad_request_kind_byte_is_a_parse_error() {
    let err = parse_client_get_list(&[2, 3], 0).unwrap_err();
    assert!(matches!(err, Error::DataParseError { .. }));
    assert!(parse_client_get_list(&[2, 2], 0).is_ok());
}

#[test]
fn bad_address_family_is_a_parse_error() {
    let err = parse_master_response(&[3, 0, 0], 0).unwrap_err();
    assert!(matches!(err, Error::DataParseError { .. }));
    let err = parse_master_response(&[0, 0, 0], 0).unwrap_err();
    assert!(matches!(err, Error::DataParseError { .. }));
}

#[test]
fn bad_protocol_version_is_a_parse_error() {
    let err = parse_server_response(&[0], 0).unwrap_err();
    assert!(matches!(err, Error::DataParseError { .. }));
    let err = parse_server_response(&[5], 0).unwrap_err();
    assert!(matches!(err, Error::DataParseError { .. }));
}

#[test]
fn request_kind_bytes_map_both_ways() {
    let table = [
        (0u8, ServerListType::IPv4),
        (1u8, ServerListType::IPv6),
        (2u8, ServerListType::Autodetect),
    ];
    for (v, k) in table {
        assert_eq!(ServerListType::from_num(v), Some(k));
        assert_eq!(k.to_num(), v);
    }
    assert_eq!(ServerListType::from_num(3), None);
    assert_eq!(ServerListType::from_num(255), None);
}

#[test]
fn exact_company_wire_image() {
    let entry = CompanyInfo {
        index: 7,
        name: b"A".to_vec(),
        inaugurated_year: 1950,
        company_value: 1,
        money: 2,
        income: 3,
        performance_history: 512,
        has_password: true,
        num_vehicles: VehicleCounts { train: 5, lorry: 4, bus: 3, plane: 2, ship: 1 },
        num_stations: VehicleCounts { train: 1, lorry: 2, bus: 3, plane: 4, ship: 5 },
        is_ai: false,
    };
    let roster = ServerDetailInfo { company_info_version: 6, companies: vec![entry] };
    let mut out = Vec::new();
    roster.write_pkt(&mut out).unwrap();
    // format version, count, index, terminated name, year, the three
    // financials, performance, password flag, vehicle tallies in the fixed
    // category order (train, lorry, bus, plane, ship), station tallies in
    // the same order, AI flag
    let expected: Vec<u8> = vec![
        6, 1, 7, 0x41, 0, 0x9e, 0x07, 0, 0, 1, 0, 0, 0, 0, 0, 0, 0, 2, 0, 0, 0, 0, 0, 0, 0, 3, 0,
        0, 0, 0, 0, 0, 0, 0, 2, 1, 5, 0, 4, 0, 3, 0, 2, 0, 1, 0, 1, 0, 2, 0, 3, 0, 4, 0, 5, 0, 0,
    ];
    assert_eq!(out, expected);
}

#[test]
fn exact_registration_wire_image() {
    let data = ServerRegistrationData {
        welcome_message: b"hi".to_vec(),
        server_version: 2,
        port: 3979,
        session_key: 0x0102030405060708,
    };
    let mut out = Vec::new();
    data.write_pkt(&mut out).unwrap();
    let expected: Vec<u8> = vec![
        0x68, 0x69, 0x00, 2, 0x8b, 0x0f, 8, 7, 6, 5, 4, 3, 2, 1,
    ];
    assert_eq!(out, expected);
}

#[test]
fn vehicle_counts_by_category() {
    let c = VehicleCounts { train: 1, lorry: 2, bus: 3, plane: 4, ship: 5 };
    assert_eq!(c.get(NetworkVehicleType::Train), 1);
    assert_eq!(c.get(NetworkVehicleType::Lorry), 2);
    assert_eq!(c.get(NetworkVehicleType::Bus), 3);
    assert_eq!(c.get(NetworkVehicleType::Plane), 4);
    assert_eq!(c.get(NetworkVehicleType::Ship), 5);
}

#[test]
fn unsorted_content_set_is_a_write_error() {
    let data = V4Data {
        active_newgrf: vec![
            (9, NewGRFHash(vec![0u8; 16])),
            (3, NewGRFHash(vec![0u8; 16])),
        ],
    };
    let mut out = Vec::new();
    let err = data.write_pkt(&mut out).unwrap_err();
    assert!(matches!(err, Error::IOError { .. }));
    assert!(out.is_empty());
}
