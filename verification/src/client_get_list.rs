use vstd::prelude::*;

verus! {

use crate::errors::Error;
use crate::errors::data_parse_error;
use crate::util::dec_u8;
use crate::util::lemma_embedded_index;
use crate::util::read_u8;

/// Which address family a client asks the master server to list.
#[derive(Clone, Copy, Debug, PartialEq)]
pub enum ServerListType {
    IPv4,
    IPv6,
    Autodetect,
}

/// The single-byte discriminant of a request kind.
pub open spec fn server_list_type_num(t: ServerListType) -> u8 {
    match t {
        ServerListType::IPv4 => 0,
        ServerListType::IPv6 => 1,
        ServerListType::Autodetect => 2,
    }
}

/// The request kind a discriminant byte stands for; bytes past 2 stand for
/// none.
pub open spec fn server_list_type_of_num(v: u8) -> Option<ServerListType> {
    if v == 0 {
        Some(ServerListType::IPv4)
    } else if v == 1 {
        Some(ServerListType::IPv6)
    } else if v == 2 {
        Some(ServerListType::Autodetect)
    } else {
        None
    }
}

impl ServerListType {
    /// Maps a discriminant byte to its request kind.
    pub fn from_num(v: u8) -> (r: Option<Self>)
        ensures
            r == server_list_type_of_num(v),
    {
        match v {
            0 => Some(ServerListType::IPv4),
            1 => Some(ServerListType::IPv6),
            2 => Some(ServerListType::Autodetect),
            _ => None,
        }
    }

    /// Maps a request kind to its discriminant byte.
    pub fn to_num(&self) -> (r: u8)
        ensures
            r == server_list_type_num(*self),
    {
        match *self {
            ServerListType::IPv4 => 0,
            ServerListType::IPv6 => 1,
            ServerListType::Autodetect => 2,
        }
    }
}

/// The request-kind bytes map back to the kind they encode, and every byte
/// past the defined range maps to no kind.
pub proof fn lemma_server_list_type_bijection()
    ensures
        forall|t: ServerListType| server_list_type_of_num(#[trigger] server_list_type_num(t))
            == Some(t),
        forall|v: u8| server_list_type_of_num(v) is Some ==> v <= 2,
{
}

/// A client's request for the master server's address list.
#[derive(Clone, Debug, PartialEq)]
pub struct ClientGetListData {
    pub master_server_version: u8,
    pub request_type: ServerListType,
}

/// Wire image: the master-server version byte, then the request-kind byte.
pub open spec fn enc_get_list(v: ClientGetListData) -> Seq<u8> {
    seq![v.master_server_version, server_list_type_num(v.request_type)]
}

/// Reads a list-request payload at cursor `i`; a request-kind byte past the
/// defined range reads as nothing.
pub open spec fn dec_get_list(s: Seq<u8>, i: int) -> Option<(int, ClientGetListData)> {
    match dec_u8(s, i) {
        None => None,
        Some((i1, master_server_version)) => match dec_u8(s, i1) {
            None => None,
            Some((i2, tb)) => match server_list_type_of_num(tb) {
                None => None,
                Some(request_type) => Some(
                    (i2, ClientGetListData { master_server_version, request_type }),
                ),
            },
        },
    }
}

/// Reading an embedded list-request image yields the encoded value back.
pub proof fn lemma_get_list_round_trip(v: ClientGetListData, s: Seq<u8>, i: int)
    requires
        0 <= i,
        i + enc_get_list(v).len() <= s.len(),
        s.subrange(i, i + enc_get_list(v).len()) == enc_get_list(v),
    ensures
        dec_get_list(s, i) == Some((i + enc_get_list(v).len(), v)),
{
    let img = enc_get_list(v);
    lemma_embedded_index(s, i, img, 0);
    lemma_embedded_index(s, i, img, 1);
}

/// Parses a list-request payload of `buf` at `pos`. Fails with a parse error
/// on truncated input or on a request-kind byte past the defined range.
pub fn parse_client_get_list(buf: &[u8], pos: usize) -> (r: Result<
    (usize, ClientGetListData),
    Error,
>)
    ensures
        match r {
            Ok((p, v)) => dec_get_list(buf@, pos as int) == Some((p as int, v)),
            Err(e) => dec_get_list(buf@, pos as int) is None && e is DataParseError,
        },
{
    let (p1, master_server_version) = match read_u8(buf, pos) {
        Ok(x) => x,
        Err(e) => return Err(e),
    };
    let (p2, tb) = match read_u8(buf, p1) {
        Ok(x) => x,
        Err(e) => return Err(e),
    };
    match ServerListType::from_num(tb) {
        Some(request_type) => Ok((p2, ClientGetListData { master_server_version, request_type })),
        None => Err(data_parse_error("unknown server list request kind")),
    }
}

impl ClientGetListData {
    /// Appends the list-request wire image to `buf`; never fails.
    pub fn write_pkt(&self, buf: &mut Vec<u8>) -> (r: Result<(), Error>)
        ensures
            r is Ok,
            final(buf)@ == old(buf)@ + enc_get_list(*self),
    {
        buf.push(self.master_server_version);
        buf.push(self.request_type.to_num());
        proof {
            assert(buf@ =~= old(buf)@ + enc_get_list(*self));
        }
        Ok(())
    }
}

} // verus!
