//! A verified codec for the OpenTTD master-server discovery protocol over
//! UDP: it turns raw byte buffers into typed packet values and typed values
//! back into bytes. Every packet's wire image is written down as a spec
//! function, every encoder is proved to produce exactly that image, every
//! decoder is proved to behave exactly as its functional specification
//! says, and `lemma_packet_round_trip` states that decoding an encoded
//! packet gives the packet back. Socket handling, retries and timeouts
//! belong to the caller; this crate only converts between bytes and values.

mod client_get_list;
mod errors;
mod master_response_list;
mod server_detail_info;
mod server_register;
mod server_response;
mod server_unregister;
mod util;

pub use client_get_list::ClientGetListData;
pub use client_get_list::ServerListType;
pub use client_get_list::parse_client_get_list;
pub use errors::Error;
pub use master_response_list::Ipv4Entry;
pub use master_response_list::Ipv6Entry;
pub use master_response_list::ServerList;
pub use master_response_list::V4Set;
pub use master_response_list::V6Set;
pub use master_response_list::parse_master_response;
pub use server_detail_info::CompanyInfo;
pub use server_detail_info::NetworkVehicleType;
pub use server_detail_info::ServerDetailInfo;
pub use server_detail_info::VehicleCounts;
pub use server_detail_info::parse_company_info;
pub use server_detail_info::parse_server_detail_info;
pub use server_register::ServerRegistrationData;
pub use server_register::parse_server_register;
pub use server_response::NewGRFHash;
pub use server_response::ProtocolVer;
pub use server_response::ServerResponse;
pub use server_response::V2Data;
pub use server_response::V3Data;
pub use server_response::V4Data;
pub use server_response::parse_server_response;
pub use server_response::protocol_ver;
pub use server_unregister::ServerUnregisterData;
pub use util::ByteWriter;
pub use util::read_string;
pub use util::write_string;

use vstd::prelude::*;

verus! {

use vstd::bytes::*;
use vstd::slice::*;
use crate::client_get_list::dec_get_list;
use crate::client_get_list::enc_get_list;
use crate::errors::data_parse_error;
use crate::errors::invalid_packet_error;
use crate::errors::io_error;
use crate::errors::null_error;
use crate::master_response_list::SpecServerList;
use crate::master_response_list::dec_server_list;
use crate::master_response_list::enc_server_list;
use crate::master_response_list::wf_server_list;
use crate::server_detail_info::SpecServerDetailInfo;
use crate::server_detail_info::dec_detail;
use crate::server_detail_info::enc_detail;
use crate::server_detail_info::wf_detail;
use crate::server_register::SpecServerRegistrationData;
use crate::server_register::dec_registration;
use crate::server_register::enc_registration;
use crate::server_register::wf_registration;
use crate::server_response::SpecServerResponse;
use crate::server_response::dec_server_response;
use crate::server_response::enc_server_response;
use crate::server_response::wf_server_response;
use crate::server_unregister::dec_unregister;
use crate::server_unregister::enc_unregister;
use crate::util::dec_u16;
use crate::util::lemma_dec_u16_of;
use crate::util::lemma_embedded_index;
use crate::util::lemma_embedded_subrange;
use crate::util::lemma_le_lengths;
use crate::util::push_u16;
use crate::util::read_u16;

// ==== Packet kinds ==========================================================

/// The kinds of packet the discovery protocol defines. Three of them —
/// the content-name exchange and the session-key issuance — are declared
/// with discriminants but have no codec.
#[derive(Clone, Copy, Debug, PartialEq)]
pub enum PacketType {
    /// Queries a game server for game information.
    ClientFindServer,
    /// Reply of the game server with game information.
    ServerResponse,
    /// Queries a game server about details of the game, such as companies.
    ClientDetailInfo,
    /// Reply of the game server about details of the game, such as companies.
    ServerDetailInfo,
    /// Packet to register itself to the master server.
    ServerRegister,
    /// Packet indicating registration has succeeded.
    MasterAckRegister,
    /// Request for the server list from the master server.
    ClientGetList,
    /// Response from the master server with server addresses and ports.
    MasterResponseList,
    /// Request to be removed from the server list.
    ServerUnregister,
    /// Requests the names for a list of content items.
    ClientGetNewGRFs,
    /// Sends the list of content names requested.
    ServerNewGRFs,
    /// Sends a fresh session key to the client.
    MasterSessionKey,
}

/// The single-byte discriminant of a packet kind, 0 through 11.
pub open spec fn pkt_type_num(t: PacketType) -> u8 {
    match t {
        PacketType::ClientFindServer => 0,
        PacketType::ServerResponse => 1,
        PacketType::ClientDetailInfo => 2,
        PacketType::ServerDetailInfo => 3,
        PacketType::ServerRegister => 4,
        PacketType::MasterAckRegister => 5,
        PacketType::ClientGetList => 6,
        PacketType::MasterResponseList => 7,
        PacketType::ServerUnregister => 8,
        PacketType::ClientGetNewGRFs => 9,
        PacketType::ServerNewGRFs => 10,
        PacketType::MasterSessionKey => 11,
    }
}

/// The packet kind a discriminant byte stands for; bytes past 11 stand for
/// none.
pub open spec fn pkt_type_of_num(v: u8) -> Option<PacketType> {
    if v == 0 {
        Some(PacketType::ClientFindServer)
    } else if v == 1 {
        Some(PacketType::ServerResponse)
    } else if v == 2 {
        Some(PacketType::ClientDetailInfo)
    } else if v == 3 {
        Some(PacketType::ServerDetailInfo)
    } else if v == 4 {
        Some(PacketType::ServerRegister)
    } else if v == 5 {
        Some(PacketType::MasterAckRegister)
    } else if v == 6 {
        Some(PacketType::ClientGetList)
    } else if v == 7 {
        Some(PacketType::MasterResponseList)
    } else if v == 8 {
        Some(PacketType::ServerUnregister)
    } else if v == 9 {
        Some(PacketType::ClientGetNewGRFs)
    } else if v == 10 {
        Some(PacketType::ServerNewGRFs)
    } else if v == 11 {
        Some(PacketType::MasterSessionKey)
    } else {
        None
    }
}

/// Whether a kind has a codec: the content-name exchange and the
/// session-key issuance are declared but carry no encoding.
pub open spec fn kind_supported(t: PacketType) -> bool {
    match t {
        PacketType::ClientGetNewGRFs => false,
        PacketType::ServerNewGRFs => false,
        PacketType::MasterSessionKey => false,
        _ => true,
    }
}

impl PacketType {
    /// Maps a discriminant byte to its packet kind.
    pub fn from_num(v: u8) -> (r: Option<Self>)
        ensures
            r == pkt_type_of_num(v),
    {
        match v {
            0 => Some(PacketType::ClientFindServer),
            1 => Some(PacketType::ServerResponse),
            2 => Some(PacketType::ClientDetailInfo),
            3 => Some(PacketType::ServerDetailInfo),
            4 => Some(PacketType::ServerRegister),
            5 => Some(PacketType::MasterAckRegister),
            6 => Some(PacketType::ClientGetList),
            7 => Some(PacketType::MasterResponseList),
            8 => Some(PacketType::ServerUnregister),
            9 => Some(PacketType::ClientGetNewGRFs),
            10 => Some(PacketType::ServerNewGRFs),
            11 => Some(PacketType::MasterSessionKey),
            _ => None,
        }
    }

    /// Maps a packet kind to its discriminant byte.
    pub fn to_num(&self) -> (r: u8)
        ensures
            r == pkt_type_num(*self),
    {
        match *self {
            PacketType::ClientFindServer => 0,
            PacketType::ServerResponse => 1,
            PacketType::ClientDetailInfo => 2,
            PacketType::ServerDetailInfo => 3,
            PacketType::ServerRegister => 4,
            PacketType::MasterAckRegister => 5,
            PacketType::ClientGetList => 6,
            PacketType::MasterResponseList => 7,
            PacketType::ServerUnregister => 8,
            PacketType::ClientGetNewGRFs => 9,
            PacketType::ServerNewGRFs => 10,
            PacketType::MasterSessionKey => 11,
        }
    }
}

/// The discriminant map is a bijection on the twelve defined kinds: every
/// kind's byte maps back to that kind, and every byte past 11 maps to no
/// kind.
pub proof fn lemma_pkt_type_bijection()
    ensures
        forall|t: PacketType| pkt_type_of_num(#[trigger] pkt_type_num(t)) == Some(t),
        forall|v: u8| pkt_type_of_num(v) is Some ==> v <= 11,
        forall|v: u8| v <= 11 ==> (#[trigger] pkt_type_of_num(v)) is Some,
{
    assert forall|t: PacketType| pkt_type_of_num(#[trigger] pkt_type_num(t)) == Some(t) by {
        match t {
            PacketType::ClientFindServer => {
            },
            _ => {
            },
        }
    }
}

// ==== The packet sum type ===================================================

/// One protocol message: a kind and its payload. Kinds without a codec have
/// no variant here; decoding them is reported as an explicit failure.
#[derive(Clone, Debug, PartialEq)]
pub enum Packet {
    ClientFindServer,
    ServerResponse(ServerResponse),
    ClientDetailInfo,
    ServerDetailInfo(ServerDetailInfo),
    ServerRegister(ServerRegistrationData),
    MasterAckRegister,
    ClientGetList(ClientGetListData),
    MasterResponseList(ServerList),
    ServerUnregister(ServerUnregisterData),
}

/// A packet as the contracts see it.
pub enum SpecPacket {
    ClientFindServer,
    ServerResponse(SpecServerResponse),
    ClientDetailInfo,
    ServerDetailInfo(SpecServerDetailInfo),
    ServerRegister(SpecServerRegistrationData),
    MasterAckRegister,
    ClientGetList(ClientGetListData),
    MasterResponseList(SpecServerList),
    ServerUnregister(ServerUnregisterData),
}

impl View for Packet {
    type V = SpecPacket;

    open spec fn view(&self) -> SpecPacket {
        match self {
            Packet::ClientFindServer => SpecPacket::ClientFindServer,
            Packet::ServerResponse(d) => SpecPacket::ServerResponse(d@),
            Packet::ClientDetailInfo => SpecPacket::ClientDetailInfo,
            Packet::ServerDetailInfo(d) => SpecPacket::ServerDetailInfo(d@),
            Packet::ServerRegister(d) => SpecPacket::ServerRegister(d@),
            Packet::MasterAckRegister => SpecPacket::MasterAckRegister,
            Packet::ClientGetList(d) => SpecPacket::ClientGetList(*d),
            Packet::MasterResponseList(d) => SpecPacket::MasterResponseList(d@),
            Packet::ServerUnregister(d) => SpecPacket::ServerUnregister(*d),
        }
    }
}

/// The kind a packet value belongs to.
pub open spec fn spec_pkt_type(p: SpecPacket) -> PacketType {
    match p {
        SpecPacket::ClientFindServer => PacketType::ClientFindServer,
        SpecPacket::ServerResponse(..) => PacketType::ServerResponse,
        SpecPacket::ClientDetailInfo => PacketType::ClientDetailInfo,
        SpecPacket::ServerDetailInfo(..) => PacketType::ServerDetailInfo,
        SpecPacket::ServerRegister(..) => PacketType::ServerRegister,
        SpecPacket::MasterAckRegister => PacketType::MasterAckRegister,
        SpecPacket::ClientGetList(..) => PacketType::ClientGetList,
        SpecPacket::MasterResponseList(..) => PacketType::MasterResponseList,
        SpecPacket::ServerUnregister(..) => PacketType::ServerUnregister,
    }
}

/// An encodable packet: its payload is encodable.
pub open spec fn wf_packet(p: SpecPacket) -> bool {
    match p {
        SpecPacket::ServerResponse(d) => wf_server_response(d),
        SpecPacket::ServerDetailInfo(d) => wf_detail(d),
        SpecPacket::ServerRegister(d) => wf_registration(d),
        SpecPacket::MasterResponseList(d) => wf_server_list(d),
        _ => true,
    }
}

/// Wire image of a packet's payload; empty for the payload-less kinds.
pub open spec fn enc_payload(p: SpecPacket) -> Seq<u8> {
    match p {
        SpecPacket::ClientFindServer => Seq::empty(),
        SpecPacket::ServerResponse(d) => enc_server_response(d),
        SpecPacket::ClientDetailInfo => Seq::empty(),
        SpecPacket::ServerDetailInfo(d) => enc_detail(d),
        SpecPacket::ServerRegister(d) => enc_registration(d),
        SpecPacket::MasterAckRegister => Seq::empty(),
        SpecPacket::ClientGetList(d) => enc_get_list(d),
        SpecPacket::MasterResponseList(d) => enc_server_list(d),
        SpecPacket::ServerUnregister(d) => enc_unregister(d),
    }
}

/// The total length counts itself, the discriminant byte and the payload,
/// and is carried in 16 bits; a payload has to leave room for the three
/// header bytes.
pub open spec fn payload_fits(p: SpecPacket) -> bool {
    enc_payload(p).len() + 3 <= 65535
}

/// Wire image of a whole packet: the total length in 16-bit little-endian,
/// the discriminant byte, then the payload.
pub open spec fn enc_packet(p: SpecPacket) -> Seq<u8> {
    spec_u16_to_le_bytes((enc_payload(p).len() + 3) as u16) + seq![
        pkt_type_num(spec_pkt_type(p)),
    ] + enc_payload(p)
}

/// Reads one packet from the front of `s`: the declared length bounds the
/// payload, the discriminant picks the codec, and the chosen codec must
/// consume the bounded payload exactly. The region read ends at the lesser
/// of the declared length and the input's end.
pub open spec fn dec_packet(s: Seq<u8>) -> Option<(int, SpecPacket)> {
    match dec_u16(s, 0) {
        None => None,
        Some((_, declared)) => {
            if declared < 3 || s.len() < 3 {
                None
            } else {
                let end = if declared as int <= s.len() {
                    declared as int
                } else {
                    s.len() as int
                };
                let body = s.subrange(3, end);
                match pkt_type_of_num(s[2]) {
                    None => None,
                    Some(PacketType::ClientFindServer) => if end == 3 {
                        Some((end, SpecPacket::ClientFindServer))
                    } else {
                        None
                    },
                    Some(PacketType::ServerResponse) => match dec_server_response(body, 0) {
                        Some((q, d)) => if q == body.len() {
                            Some((end, SpecPacket::ServerResponse(d)))
                        } else {
                            None
                        },
                        None => None,
                    },
                    Some(PacketType::ClientDetailInfo) => if end == 3 {
                        Some((end, SpecPacket::ClientDetailInfo))
                    } else {
                        None
                    },
                    Some(PacketType::ServerDetailInfo) => match dec_detail(body, 0) {
                        Some((q, d)) => if q == body.len() {
                            Some((end, SpecPacket::ServerDetailInfo(d)))
                        } else {
                            None
                        },
                        None => None,
                    },
                    Some(PacketType::ServerRegister) => match dec_registration(body, 0) {
                        Some((q, d)) => if q == body.len() {
                            Some((end, SpecPacket::ServerRegister(d)))
                        } else {
                            None
                        },
                        None => None,
                    },
                    Some(PacketType::MasterAckRegister) => if end == 3 {
                        Some((end, SpecPacket::MasterAckRegister))
                    } else {
                        None
                    },
                    Some(PacketType::ClientGetList) => match dec_get_list(body, 0) {
                        Some((q, d)) => if q == body.len() {
                            Some((end, SpecPacket::ClientGetList(d)))
                        } else {
                            None
                        },
                        None => None,
                    },
                    Some(PacketType::MasterResponseList) => match dec_server_list(body, 0) {
                        Some((q, d)) => if q == body.len() {
                            Some((end, SpecPacket::MasterResponseList(d)))
                        } else {
                            None
                        },
                        None => None,
                    },
                    Some(PacketType::ServerUnregister) => match dec_unregister(body, 0) {
                        Some((q, d)) => if q == body.len() {
                            Some((end, SpecPacket::ServerUnregister(d)))
                        } else {
                            None
                        },
                        None => None,
                    },
                    Some(PacketType::ClientGetNewGRFs) => None,
                    Some(PacketType::ServerNewGRFs) => None,
                    Some(PacketType::MasterSessionKey) => None,
                }
            }
        },
    }
}

impl Packet {
    /// The kind this packet belongs to.
    pub fn pkt_type(&self) -> (r: PacketType)
        ensures
            r == spec_pkt_type(self@),
    {
        match *self {
            Packet::ClientFindServer => PacketType::ClientFindServer,
            Packet::ServerResponse(_) => PacketType::ServerResponse,
            Packet::ClientDetailInfo => PacketType::ClientDetailInfo,
            Packet::ServerDetailInfo(_) => PacketType::ServerDetailInfo,
            Packet::ServerRegister(_) => PacketType::ServerRegister,
            Packet::MasterAckRegister => PacketType::MasterAckRegister,
            Packet::ClientGetList(_) => PacketType::ClientGetList,
            Packet::MasterResponseList(_) => PacketType::MasterResponseList,
            Packet::ServerUnregister(_) => PacketType::ServerUnregister,
        }
    }

    /// Parses one packet from the front of `buf` and hands back the bytes
    /// behind it, so a caller can carry on with the next packet. Never
    /// panics; on any malformed input it returns the matching failure: a
    /// parse error for a truncated or inconsistent packet, an
    /// invalid-packet error for a discriminant byte no kind owns, and a
    /// distinct configuration failure for a declared kind that has no
    /// codec.
    #[verifier::rlimit(80)]
    pub fn from_incoming_bytes<'a>(buf: &'a [u8]) -> (r: Result<(&'a [u8], Packet), Error>)
        ensures
            match r {
                Ok((rest, v)) => dec_packet(buf@) == Some(
                    (buf@.len() - rest@.len(), v@),
                ) && rest@ == buf@.skip(buf@.len() - rest@.len()) && wf_packet(v@),
                Err(e) => dec_packet(buf@) is None && (if dec_u16(buf@, 0) is None || dec_u16(
                    buf@,
                    0,
                )->Some_0.1 < 3 || buf@.len() < 3 {
                    e is DataParseError
                } else {
                    match pkt_type_of_num(buf@[2]) {
                        None => e is InvalidPacketError,
                        Some(k) => if kind_supported(k) {
                            e is DataParseError
                        } else {
                            e is NullError
                        },
                    }
                }),
            },
    {
        let (_, declared) = match read_u16(buf, 0) {
            Ok(x) => x,
            Err(e) => return Err(e),
        };
        if declared < 3 || buf.len() < 3 {
            return Err(data_parse_error("packet header is truncated or inconsistent"));
        }
        let end: usize = if declared as usize <= buf.len() {
            declared as usize
        } else {
            buf.len()
        };
        let disc = *slice_index_get(buf, 2);
        let kind = match PacketType::from_num(disc) {
            Some(k) => k,
            None => return Err(invalid_packet_error("unknown packet discriminant")),
        };
        let body = slice_subrange(buf, 3, end);
        let pkt: Packet = match kind {
            PacketType::ClientFindServer => {
                if end != 3 {
                    return Err(data_parse_error("declared length does not match the payload"));
                }
                Packet::ClientFindServer
            },
            PacketType::ServerResponse => {
                let (q, d) = match parse_server_response(body, 0) {
                    Ok(x) => x,
                    Err(e) => return Err(e),
                };
                if q != body.len() {
                    return Err(data_parse_error("declared length does not match the payload"));
                }
                Packet::ServerResponse(d)
            },
            PacketType::ClientDetailInfo => {
                if end != 3 {
                    return Err(data_parse_error("declared length does not match the payload"));
                }
                Packet::ClientDetailInfo
            },
            PacketType::ServerDetailInfo => {
                let (q, d) = match parse_server_detail_info(body, 0) {
                    Ok(x) => x,
                    Err(e) => return Err(e),
                };
                if q != body.len() {
                    return Err(data_parse_error("declared length does not match the payload"));
                }
                Packet::ServerDetailInfo(d)
            },
            PacketType::ServerRegister => {
                let (q, d) = match parse_server_register(body, 0) {
                    Ok(x) => x,
                    Err(e) => return Err(e),
                };
                if q != body.len() {
                    return Err(data_parse_error("declared length does not match the payload"));
                }
                Packet::ServerRegister(d)
            },
            PacketType::MasterAckRegister => {
                if end != 3 {
                    return Err(data_parse_error("declared length does not match the payload"));
                }
                Packet::MasterAckRegister
            },
            PacketType::ClientGetList => {
                let (q, d) = match parse_client_get_list(body, 0) {
                    Ok(x) => x,
                    Err(e) => return Err(e),
                };
                if q != body.len() {
                    return Err(data_parse_error("declared length does not match the payload"));
                }
                Packet::ClientGetList(d)
            },
            PacketType::MasterResponseList => {
                let (q, d) = match parse_master_response(body, 0) {
                    Ok(x) => x,
                    Err(e) => return Err(e),
                };
                if q != body.len() {
                    return Err(data_parse_error("declared length does not match the payload"));
                }
                Packet::MasterResponseList(d)
            },
            PacketType::ServerUnregister => {
                let (q, d) = match ServerUnregisterData::from_bytes(body, 0) {
                    Ok(x) => x,
                    Err(e) => return Err(e),
                };
                if q != body.len() {
                    return Err(data_parse_error("declared length does not match the payload"));
                }
                Packet::ServerUnregister(d)
            },
            PacketType::ClientGetNewGRFs => {
                return Err(null_error("no codec is implemented for this packet kind"));
            },
            PacketType::ServerNewGRFs => {
                return Err(null_error("no codec is implemented for this packet kind"));
            },
            PacketType::MasterSessionKey => {
                return Err(null_error("no codec is implemented for this packet kind"));
            },
        };
        let rest = slice_subrange(buf, end, buf.len());
        proof {
            assert(rest@ =~= buf@.skip(end as int));
        }
        Ok((rest, pkt))
    }
}

impl ByteWriter for Packet {
    open spec fn enc_ok(&self) -> bool {
        wf_packet(self@) && payload_fits(self@)
    }

    open spec fn enc(&self) -> Seq<u8> {
        enc_packet(self@)
    }

    /// Frames the payload: the discriminant byte and the payload go into a
    /// scratch buffer, whose length plus two becomes the leading 16-bit
    /// total length. A failed encode leaves `out` untouched.
    fn write_pkt(&self, out: &mut Vec<u8>) -> (r: Result<(), Error>) {
        let mut body: Vec<u8> = Vec::new();
        body.push(self.pkt_type().to_num());
        let sub = match self {
            Packet::ServerResponse(data) => data.write_pkt(&mut body),
            Packet::ServerDetailInfo(data) => data.write_pkt(&mut body),
            Packet::ServerRegister(data) => data.write_pkt(&mut body),
            Packet::ClientGetList(data) => data.write_pkt(&mut body),
            Packet::MasterResponseList(data) => data.write_pkt(&mut body),
            Packet::ServerUnregister(data) => data.write_pkt(&mut body),
            _ => Ok(()),
        };
        match sub {
            Ok(()) => (),
            Err(e) => return Err(e),
        };
        if body.len() > 65533 {
            return Err(io_error("packet payload does not fit a 16-bit length"));
        }
        push_u16(out, (body.len() + 2) as u16);
        out.append(&mut body);
        proof {
            assert(out@ =~= old(out)@ + self.enc());
        }
        Ok(())
    }
}

// ==== The round trip ========================================================

/// Decoding an encoded packet gives the packet back: for every encodable
/// packet `p`, reading a buffer that starts with `p`'s wire image yields
/// exactly `p` and covers exactly the image, whatever bytes follow it.
pub proof fn lemma_packet_round_trip(p: SpecPacket, rest: Seq<u8>)
    requires
        wf_packet(p),
        payload_fits(p),
    ensures
        dec_packet(enc_packet(p) + rest) == Some((enc_packet(p).len() as int, p)),
{
    lemma_le_lengths();
    lemma_pkt_type_bijection();
    let img = enc_packet(p);
    let s = enc_packet(p) + rest;
    let pl = enc_payload(p).len() as int;
    assert(img.len() == pl + 3);
    assert(s.subrange(0, img.len() as int) =~= img);
    lemma_embedded_subrange(s, 0, img, 0, 2);
    assert(img.subrange(0, 2) =~= spec_u16_to_le_bytes((pl + 3) as u16));
    lemma_dec_u16_of(s, 0, (pl + 3) as u16);
    lemma_embedded_index(s, 0, img, 2);
    assert(img[2] == pkt_type_num(spec_pkt_type(p)));
    let end = pl + 3;
    assert(dec_u16(s, 0)->Some_0.1 == (pl + 3) as u16);
    lemma_embedded_subrange(s, 0, img, 3, img.len() as int);
    let body = s.subrange(3, end);
    assert(body =~= enc_payload(p));
    assert(body.subrange(0, body.len() as int) =~= body);
    match p {
        SpecPacket::ClientFindServer => {
        },
        SpecPacket::ServerResponse(d) => {
            crate::server_response::lemma_server_response_round_trip(d, body, 0);
        },
        SpecPacket::ClientDetailInfo => {
        },
        SpecPacket::ServerDetailInfo(d) => {
            crate::server_detail_info::lemma_detail_round_trip(d, body, 0);
        },
        SpecPacket::ServerRegister(d) => {
            crate::server_register::lemma_registration_round_trip(d, body, 0);
        },
        SpecPacket::MasterAckRegister => {
        },
        SpecPacket::ClientGetList(d) => {
            crate::client_get_list::lemma_get_list_round_trip(d, body, 0);
        },
        SpecPacket::MasterResponseList(d) => {
            crate::master_response_list::lemma_server_list_round_trip(d, body, 0);
        },
        SpecPacket::ServerUnregister(d) => {
            crate::server_unregister::lemma_unregister_round_trip(d, body, 0);
        },
    }
}

} // verus!
