use ottd_udp::ByteWriter;
use ottd_udp::Ipv4Entry;
use ottd_udp::NewGRFHash;
use ottd_udp::Packet;
use ottd_udp::ProtocolVer;
use ottd_udp::ServerList;
use ottd_udp::ServerResponse;
use ottd_udp::V2Data;
use ottd_udp::V3Data;
use ottd_udp::V4Data;
use ottd_udp::parse_master_response;
use ottd_udp::parse_server_response;

fn packet_fixtures() -> (Vec<u8>, Packet) {
    let b = vec![3, 0, 2];
    let data = Packet::ClientDetailInfo;

    (b, data)
}

#[test]
fn test_parse_packet() {
    let (input, expectation) = packet_fixtures();

    let result = Packet::from_incoming_bytes(&input).unwrap();

    assert_eq!(expectation, result.1);
}

#[test]
fn test_write_packet() {
    let (expectation, input) = packet_fixtures();

    let mut result = Vec::new();
    input.write_pkt(&mut result).unwrap();

    assert_eq!(expectation, result);
}

fn v4(a0: u8, a1: u8, a2: u8, a3: u8, port: u16) -> Ipv4Entry {
    Ipv4Entry { a0, a1, a2, a3, port }
}

fn master_response_fixtures() -> (Vec<u8>, ServerList) {
    let data = vec![
        0x01, 0x0a, 0x00, 0x4a, 0xd0, 0x4b, 0xb7, 0x8b, 0x0f, 0xac, 0xf9, 0xb0, 0x91, 0x8b, 0x0f,
        0x53, 0xc7, 0x18, 0x16, 0x8b, 0x0f, 0x3e, 0x8f, 0x2e, 0x44, 0x8b, 0x0f, 0x79, 0x2a, 0xa0,
        0x97, 0x3e, 0x0f, 0x5c, 0xde, 0x6e, 0x7c, 0x8b, 0x0f, 0x6c, 0x34, 0xe4, 0x4c, 0x8b, 0x0f,
        0xb2, 0xeb, 0xb2, 0x57, 0x8b, 0x0f, 0x80, 0x48, 0x4a, 0x71, 0x8b, 0x0f, 0x40, 0x8a, 0xe7,
        0x36, 0x8b, 0x0f, 0x42, 0x00, 0x07, 0x01, 0x01, 0x00, 0x4a, 0xd0, 0x4b, 0xb7, 0x8c, 0x0f,
    ];

    // the same ten servers as the wire block, in the list's ascending order
    let srv_list = ServerList::IPv4(vec![
        v4(62, 143, 46, 68, 3979),
        v4(64, 138, 231, 54, 3979),
        v4(74, 208, 75, 183, 3979),
        v4(83, 199, 24, 22, 3979),
        v4(92, 222, 110, 124, 3979),
        v4(108, 52, 228, 76, 3979),
        v4(121, 42, 160, 151, 3902),
        v4(128, 72, 74, 113, 3979),
        v4(172, 249, 176, 145, 3979),
        v4(178, 235, 178, 87, 3979),
    ]);

    (data, srv_list)
}

#[test]
fn test_parse_master_response() {
    let (input, expectation) = master_response_fixtures();

    let result = parse_master_response(&input, 0).unwrap();

    assert_eq!(expectation, result.1);
}

fn server_response_fixtures() -> (Vec<u8>, ServerResponse) {
    let b = vec![
        0x04, 0x03, 0x44, 0x4e, 0x07, 0x00, 0x48, 0xb3, 0xf9, 0xe4, 0xfd, 0x0d, 0xf2, 0xa7, 0x2b,
        0x5f, 0x44, 0xd3, 0xc8, 0xa2, 0xf4, 0xa0, 0x4d, 0x47, 0x03, 0x05, 0x2e, 0x96, 0xb9, 0xab,
        0x2b, 0xea, 0x68, 0x6b, 0xff, 0x94, 0x96, 0x1a, 0xd4, 0x33, 0xa7, 0x01, 0x32, 0x32, 0x33,
        0x22, 0x31, 0x61, 0x80, 0xda, 0x1b, 0xa6, 0x44, 0x4a, 0x06, 0xcd, 0x17, 0xf8, 0xfa, 0x79,
        0xd6, 0x0a, 0x63, 0xec, 0x0a, 0x00, 0x63, 0xec, 0x0a, 0x00, 0x0f, 0x00, 0x0a, 0x4f, 0x6e,
        0x6c, 0x79, 0x46, 0x72, 0x69, 0x65, 0x6e, 0x64, 0x73, 0x20, 0x4f, 0x70, 0x65, 0x6e, 0x54,
        0x54, 0x44, 0x20, 0x53, 0x65, 0x72, 0x76, 0x65, 0x72, 0x20, 0x23, 0x31, 0x00, 0x31, 0x2e,
        0x35, 0x2e, 0x33, 0x00, 0x16, 0x00, 0x19, 0x00, 0x00, 0x52, 0x61, 0x6e, 0x64, 0x6f, 0x6d,
        0x20, 0x4d, 0x61, 0x70, 0x00, 0x00, 0x04, 0x00, 0x04, 0x01, 0x01,
    ];

    let srv = ServerResponse {
        protocol_ver: ProtocolVer::V4(
            V2Data { max_companies: 15, current_companies: 0, max_spectators: 10 },
            V3Data { game_date: 715875, start_date: 715875 },
            V4Data {
                active_newgrf: vec![
                    (
                        0x00074e44,
                        NewGRFHash(vec![
                            0x48, 0xb3, 0xf9, 0xe4, 0xfd, 0x0d, 0xf2, 0xa7, 0x2b, 0x5f, 0x44,
                            0xd3, 0xc8, 0xa2, 0xf4, 0xa0,
                        ]),
                    ),
                    (
                        0x0503474d,
                        NewGRFHash(vec![
                            0x2e, 0x96, 0xb9, 0xab, 0x2b, 0xea, 0x68, 0x6b, 0xff, 0x94, 0x96,
                            0x1a, 0xd4, 0x33, 0xa7, 0x01,
                        ]),
                    ),
                    (
                        0x22333232,
                        NewGRFHash(vec![
                            0x31, 0x61, 0x80, 0xda, 0x1b, 0xa6, 0x44, 0x4a, 0x06, 0xcd, 0x17,
                            0xf8, 0xfa, 0x79, 0xd6, 0x0a,
                        ]),
                    ),
                ],
            },
        ),
        server_name: b"OnlyFriends OpenTTD Server #1".to_vec(),
        map_name: b"Random Map".to_vec(),
        clients_on: 0,
        clients_max: 25,
        use_password: false,
        server_revision: b"1.5.3".to_vec(),
        server_lang: 22,
        spectators_on: 0,
        map_width: 1024,
        map_height: 1024,
        map_set: 1,
        dedicated: true,
    };

    (b, srv)
}

#[test]
fn test_parse_server_response() {
    let (input, expectation) = server_response_fixtures();

    let result = parse_server_response(&input, 0).unwrap();

    assert_eq!(expectation, result.1);
}

#[test]
fn test_write_server_response() {
    let (expectation, input) = server_response_fixtures();

    let mut result = Vec::new();
    input.write_pkt(&mut result).unwrap();

    assert_eq!(expectation, result);
}
