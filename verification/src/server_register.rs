use vstd::prelude::*;

verus! {

use vstd::bytes::*;
use crate::errors::Error;
use crate::util::dec_str;
use crate::util::dec_u16;
use crate::util::dec_u64;
use crate::util::dec_u8;
use crate::util::enc_str;
use crate::util::has_no_nul;
use crate::util::lemma_dec_str_of_enc;
use crate::util::lemma_dec_u16_of;
use crate::util::lemma_dec_u64_of;
use crate::util::lemma_embedded_index;
use crate::util::lemma_embedded_subrange;
use crate::util::lemma_le_lengths;
use crate::util::push_u16;
use crate::util::push_u64;
use crate::util::read_string;
use crate::util::read_u16;
use crate::util::read_u64;
use crate::util::read_u8;
use crate::util::write_string;

/// A game server's registration with the master server: a welcome text, the
/// server's protocol version, its listening port and its session key.
#[derive(Clone, Debug, PartialEq)]
pub struct ServerRegistrationData {
    pub welcome_message: Vec<u8>,
    pub server_version: u8,
    pub port: u16,
    pub session_key: u64,
}

/// The registration payload as the contracts see it.
pub struct SpecServerRegistrationData {
    pub welcome_message: Seq<u8>,
    pub server_version: u8,
    pub port: u16,
    pub session_key: u64,
}

impl View for ServerRegistrationData {
    type V = SpecServerRegistrationData;

    open spec fn view(&self) -> SpecServerRegistrationData {
        SpecServerRegistrationData {
            welcome_message: self.welcome_message@,
            server_version: self.server_version,
            port: self.port,
            session_key: self.session_key,
        }
    }
}

/// A registration is encodable when its welcome text can be terminated.
pub open spec fn wf_registration(v: SpecServerRegistrationData) -> bool {
    has_no_nul(v.welcome_message)
}

/// Wire image: the terminated welcome text, the version byte, the port in
/// 16-bit little-endian, then the session key in 64-bit little-endian.
pub open spec fn enc_registration(v: SpecServerRegistrationData) -> Seq<u8> {
    enc_str(v.welcome_message) + seq![v.server_version] + spec_u16_to_le_bytes(v.port)
        + spec_u64_to_le_bytes(v.session_key)
}

/// Reads a registration payload at cursor `i`.
pub open spec fn dec_registration(s: Seq<u8>, i: int) -> Option<
    (int, SpecServerRegistrationData),
> {
    match dec_str(s, i) {
        None => None,
        Some((i1, welcome_message)) => match dec_u8(s, i1) {
            None => None,
            Some((i2, server_version)) => match dec_u16(s, i2) {
                None => None,
                Some((i3, port)) => match dec_u64(s, i3) {
                    None => None,
                    Some((i4, session_key)) => Some(
                        (
                            i4,
                            SpecServerRegistrationData {
                                welcome_message,
                                server_version,
                                port,
                                session_key,
                            },
                        ),
                    ),
                },
            },
        },
    }
}

/// Reading an embedded registration image yields the encoded value back.
pub proof fn lemma_registration_round_trip(v: SpecServerRegistrationData, s: Seq<u8>, i: int)
    requires
        wf_registration(v),
        0 <= i,
        i + enc_registration(v).len() <= s.len(),
        s.subrange(i, i + enc_registration(v).len()) == enc_registration(v),
    ensures
        dec_registration(s, i) == Some((i + enc_registration(v).len(), v)),
{
    lemma_le_lengths();
    let img = enc_registration(v);
    let w = v.welcome_message.len() as int;
    assert(img.len() == w + 12);
    lemma_embedded_subrange(s, i, img, 0, w + 1);
    assert(img.subrange(0, w + 1) =~= enc_str(v.welcome_message));
    lemma_dec_str_of_enc(s, i, v.welcome_message);
    lemma_embedded_index(s, i, img, w + 1);
    assert(img[w + 1] == v.server_version);
    lemma_embedded_subrange(s, i, img, w + 2, w + 4);
    assert(img.subrange(w + 2, w + 4) =~= spec_u16_to_le_bytes(v.port));
    lemma_dec_u16_of(s, i + w + 2, v.port);
    lemma_embedded_subrange(s, i, img, w + 4, w + 12);
    assert(img.subrange(w + 4, w + 12) =~= spec_u64_to_le_bytes(v.session_key));
    lemma_dec_u64_of(s, i + w + 4, v.session_key);
}

/// Parses a registration payload of `buf` at `pos`.
pub fn parse_server_register(buf: &[u8], pos: usize) -> (r: Result<
    (usize, ServerRegistrationData),
    Error,
>)
    ensures
        match r {
            Ok((p, v)) => dec_registration(buf@, pos as int) == Some((p as int, v@))
                && wf_registration(v@),
            Err(e) => dec_registration(buf@, pos as int) is None && e is DataParseError,
        },
{
    let (p1, welcome_message) = match read_string(buf, pos) {
        Ok(x) => x,
        Err(e) => return Err(e),
    };
    let (p2, server_version) = match read_u8(buf, p1) {
        Ok(x) => x,
        Err(e) => return Err(e),
    };
    let (p3, port) = match read_u16(buf, p2) {
        Ok(x) => x,
        Err(e) => return Err(e),
    };
    let (p4, session_key) = match read_u64(buf, p3) {
        Ok(x) => x,
        Err(e) => return Err(e),
    };
    Ok((p4, ServerRegistrationData { welcome_message, server_version, port, session_key }))
}

impl ServerRegistrationData {
    /// Appends the registration wire image to `buf`. Fails, leaving `buf` as
    /// it was, only when the welcome text holds an embedded zero byte.
    pub fn write_pkt(&self, buf: &mut Vec<u8>) -> (r: Result<(), Error>)
        ensures
            match r {
                Ok(()) => wf_registration(self@) && final(buf)@ == old(buf)@ + enc_registration(
                    self@,
                ),
                Err(e) => !wf_registration(self@) && final(buf)@ == old(buf)@ && e is IOError,
            },
    {
        match write_string(buf, &self.welcome_message) {
            Ok(()) => (),
            Err(e) => return Err(e),
        };
        buf.push(self.server_version);
        push_u16(buf, self.port);
        push_u64(buf, self.session_key);
        proof {
            assert(buf@ =~= old(buf)@ + enc_registration(self@));
        }
        Ok(())
    }
}

} // verus!
