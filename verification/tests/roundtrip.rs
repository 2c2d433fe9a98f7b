use ottd_udp::ByteWriter;
use ottd_udp::ClientGetListData;
use ottd_udp::CompanyInfo;
use ottd_udp::Ipv4Entry;
use ottd_udp::Ipv6Entry;
use ottd_udp::NewGRFHash;
use ottd_udp::Packet;
use ottd_udp::ProtocolVer;
use ottd_udp::ServerDetailInfo;
use ottd_udp::ServerList;
use ottd_udp::ServerListType;
use ottd_udp::ServerRegistrationData;
use ottd_udp::ServerResponse;
use ottd_udp::ServerUnregisterData;
use ottd_udp::V2Data;
use ottd_udp::V3Data;
use ottd_udp::V4Data;
use ottd_udp::VehicleCounts;
use ottd_udp::parse_server_response;

fn round_trip(p: Packet) {
    let mut bytes = Vec::new();
    p.write_pkt(&mut bytes).unwrap();
    let (rest, back) = Packet::from_incoming_bytes(&bytes).unwrap();
    assert!(rest.is_empty());
    assert_eq!(p, back);
}

fn counters() -> V2Data {
    V2Data { max_companies: 12, current_companies: 3, max_spectators: 9 }
}

fn dates() -> V3Data {
    V3Data { game_date: 715875, start_date: 700000 }
}

fn contents() -> V4Data {
    V4Data {
        active_newgrf: vec![
            (0x0000_0004, NewGRFHash(vec![7u8; 16])),
            (0x0102_0304, NewGRFHash(vec![9u8; 16])),
        ],
    }
}

fn status_response(ver: ProtocolVer) -> ServerResponse {
    ServerResponse {
        protocol_ver: ver,
        server_name: b"A".to_vec(),
        server_revision: b"B".to_vec(),
        server_lang: 22,
        use_password: false,
        clients_max: 25,
        clients_on: 1,
        spectators_on: 2,
        map_name: b"M".to_vec(),
        map_width: 256,
        map_height: 512,
        map_set: 1,
        dedicated: true,
    }
}

#[test]
fn round_trip_status_response_all_versions() {
    round_trip(Packet::ServerResponse(status_response(ProtocolVer::V1)));
    round_trip(Packet::ServerResponse(status_response(ProtocolVer::V2(counters()))));
    round_trip(Packet::ServerResponse(status_response(ProtocolVer::V3(counters(), dates()))));
    round_trip(Packet::ServerResponse(status_response(ProtocolVer::V4(
        counters(),
        dates(),
        contents(),
    ))));
}

fn company(index: u8, name: &[u8]) -> CompanyInfo {
    CompanyInfo {
        index,
        name: name.to_vec(),
        inaugurated_year: 1950,
        company_value: 123_456_789_000,
        money: 42,
        income: 7_000_000,
        performance_history: 512,
        has_password: true,
        num_vehicles: VehicleCounts { train: 5, lorry: 4, bus: 3, plane: 2, ship: 1 },
        num_stations: VehicleCounts { train: 1, lorry: 2, bus: 3, plane: 4, ship: 5 },
        is_ai: false,
    }
}

#[test]
fn round_trip_detail_info_roster_sizes() {
    for size in [0usize, 1, 255] {
        let companies: Vec<CompanyInfo> =
            (0..size).map(|i| company(i as u8, b"Transport Co")).collect();
        round_trip(Packet::ServerDetailInfo(ServerDetailInfo {
            company_info_version: 6,
            companies,
        }));
    }
}

#[test]
fn round_trip_server_list_both_families() {
    round_trip(Packet::MasterResponseList(ServerList::IPv4(vec![
        Ipv4Entry { a0: 10, a1: 0, a2: 0, a3: 1, port: 3979 },
        Ipv4Entry { a0: 10, a1: 0, a2: 0, a3: 1, port: 3980 },
        Ipv4Entry { a0: 192, a1: 168, a2: 1, a3: 1, port: 80 },
    ])));
    round_trip(Packet::MasterResponseList(ServerList::IPv6(vec![
        Ipv6Entry { s0: 0, s1: 0, s2: 0, s3: 0, s4: 0, s5: 0, s6: 0, s7: 1, port: 3979 },
        Ipv6Entry {
            s0: 0x2001,
            s1: 0xdb8,
            s2: 0,
            s3: 0,
            s4: 0,
            s5: 0,
            s6: 0,
            s7: 7,
            port: 3979,
        },
    ])));
}

#[test]
fn round_trip_small_packets() {
    round_trip(Packet::ClientFindServer);
    round_trip(Packet::ClientDetailInfo);
    round_trip(Packet::MasterAckRegister);
    round_trip(Packet::ServerRegister(ServerRegistrationData {
        welcome_message: b"welcome!".to_vec(),
        server_version: 2,
        port: 3979,
        session_key: 0xdead_beef_0123_4567,
    }));
    round_trip(Packet::ServerUnregister(ServerUnregisterData {
        master_server_version: 2,
        port: 3979,
    }));
    for kind in [ServerListType::IPv4, ServerListType::IPv6, ServerListType::Autodetect] {
        round_trip(Packet::ClientGetList(ClientGetListData {
            master_server_version: 2,
            request_type: kind,
        }));
    }
}

#[test]
fn encoding_is_deterministic() {
    let p = Packet::ServerResponse(status_response(ProtocolVer::V4(
        counters(),
        dates(),
        contents(),
    )));
    let mut first = Vec::new();
    p.write_pkt(&mut first).unwrap();
    let mut second = Vec::new();
    p.write_pkt(&mut second).unwrap();
    assert_eq!(first, second);

    let q = Packet::MasterResponseList(ServerList::IPv4(vec![Ipv4Entry {
        a0: 1,
        a1: 2,
        a2: 3,
        a3: 4,
        port: 5,
    }]));
    let mut third = Vec::new();
    q.write_pkt(&mut third).unwrap();
    let mut fourth = Vec::new();
    q.write_pkt(&mut fourth).unwrap();
    assert_eq!(third, fourth);
}

#[test]
fn version_gating_reserved_block() {
    // version 1: name "A", revision "B" -> the four reserved zero bytes sit
    // at offsets 10..14 of the payload and the payload is 22 bytes long
    let mut v1 = Vec::new();
    status_response(ProtocolVer::V1).write_pkt(&mut v1).unwrap();
    assert_eq!(v1.len(), 22);
    assert_eq!(&v1[10..14], &[0, 0, 0, 0]);

    let mut v2 = Vec::new();
    status_response(ProtocolVer::V2(counters())).write_pkt(&mut v2).unwrap();
    assert_eq!(v2.len(), 25);
    assert_eq!(&v2[13..17], &[0, 0, 0, 0]);

    // version 3 carries the dates and counters but no reserved block
    let mut v3 = Vec::new();
    status_response(ProtocolVer::V3(counters(), dates())).write_pkt(&mut v3).unwrap();
    assert_eq!(v3.len(), 29);

    // decode skips exactly four bytes there, whatever they hold
    let mut tampered = v1.clone();
    tampered[11] = 0xaa;
    let (consumed, back) = parse_server_response(&tampered, 0).unwrap();
    assert_eq!(consumed, tampered.len());
    assert_eq!(back, status_response(ProtocolVer::V1));
}

#[test]
fn nonzero_flag_bytes_read_as_true() {
    let mut v1 = Vec::new();
    status_response(ProtocolVer::V1).write_pkt(&mut v1).unwrap();
    // the password flag sits just past the version byte, both terminated
    // strings and the language byte
    assert_eq!(v1[6], 0);
    v1[6] = 7;
    let (_, back) = parse_server_response(&v1, 0).unwrap();
    assert!(back.use_password);
}

#[test]
fn duplicate_content_ids_keep_the_last_entry() {
    // a version-4 protocol block whose two raw entries share one id
    let mut payload = vec![4u8, 2u8];
    payload.extend_from_slice(&5u32.to_le_bytes());
    payload.extend_from_slice(&[1u8; 16]);
    payload.extend_from_slice(&5u32.to_le_bytes());
    payload.extend_from_slice(&[2u8; 16]);
    // dates, counters, strings and trailing fields
    payload.extend_from_slice(&[0; 8]);
    payload.extend_from_slice(&[8, 1, 4]);
    payload.extend_from_slice(b"N\0R\0");
    payload.extend_from_slice(&[22, 0, 25, 0, 0]);
    payload.extend_from_slice(b"M\0");
    payload.extend_from_slice(&[0, 1, 0, 1, 1, 0]);
    let (consumed, back) = parse_server_response(&payload, 0).unwrap();
    assert_eq!(consumed, payload.len());
    match back.protocol_ver {
        ProtocolVer::V4(_, _, content) => {
            assert_eq!(content.active_newgrf, vec![(5, NewGRFHash(vec![2u8; 16]))]);
        }
        other => panic!("wrong protocol block: {:?}", other),
    }
}

#[test]
fn duplicate_addresses_collapse_to_one() {
    let mut bytes = vec![1u8, 3, 0];
    for _ in 0..3 {
        bytes.extend_from_slice(&[9, 8, 7, 6, 0x8b, 0x0f]);
    }
    let (consumed, back) = ottd_udp::parse_master_response(&bytes, 0).unwrap();
    assert_eq!(consumed, bytes.len());
    assert_eq!(
        back,
        ServerList::IPv4(vec![Ipv4Entry { a0: 9, a1: 8, a2: 7, a3: 6, port: 3979 }])
    );
}

#[test]
fn unsorted_input_decodes_into_ascending_order() {
    let mut bytes = vec![1u8, 2, 0];
    bytes.extend_from_slice(&[200, 0, 0, 1, 0x8b, 0x0f]);
    bytes.extend_from_slice(&[10, 0, 0, 1, 0x8b, 0x0f]);
    let (_, back) = ottd_udp::parse_master_response(&bytes, 0).unwrap();
    assert_eq!(
        back,
        ServerList::IPv4(vec![
            Ipv4Entry { a0: 10, a1: 0, a2: 0, a3: 1, port: 3979 },
            Ipv4Entry { a0: 200, a1: 0, a2: 0, a3: 1, port: 3979 },
        ])
    );
}

#[test]
fn consecutive_packets_share_a_buffer() {
    let a = Packet::ClientFindServer;
    let b = Packet::ServerUnregister(ServerUnregisterData {
        master_server_version: 2,
        port: 3979,
    });
    let mut bytes = Vec::new();
    a.write_pkt(&mut bytes).unwrap();
    b.write_pkt(&mut bytes).unwrap();
    let (rest, first) = Packet::from_incoming_bytes(&bytes).unwrap();
    assert_eq!(first, a);
    let (rest2, second) = Packet::from_incoming_bytes(rest).unwrap();
    assert_eq!(second, b);
    assert!(rest2.is_empty());
}

#[test]
fn envelope_length_counts_itself_and_discriminant() {
    let p = Packet::ServerUnregister(ServerUnregisterData {
        master_server_version: 2,
        port: 3979,
    });
    let mut bytes = Vec::new();
    p.write_pkt(&mut bytes).unwrap();
    // payload is three bytes; the length field counts itself, the
    // discriminant and the payload: 2 + 1 + 3
    assert_eq!(bytes.len(), 6);
    assert_eq!(u16::from_le_bytes([bytes[0], bytes[1]]), 6);
    assert_eq!(bytes[2], 8);
}
