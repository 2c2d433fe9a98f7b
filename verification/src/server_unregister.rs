use vstd::prelude::*;

verus! {

use vstd::bytes::*;
use crate::errors::Error;
use crate::util::ByteWriter;
use crate::util::dec_u16;
use crate::util::dec_u8;
use crate::util::lemma_dec_u16_of;
use crate::util::lemma_embedded_index;
use crate::util::lemma_embedded_subrange;
use crate::util::lemma_le_lengths;
use crate::util::push_u16;
use crate::util::read_u16;
use crate::util::read_u8;

/// A game server's request to be removed from the master server's list.
#[derive(Clone, Debug, PartialEq)]
pub struct ServerUnregisterData {
    pub master_server_version: u8,
    pub port: u16,
}

/// Wire image: the master-server version byte, then the port in 16-bit
/// little-endian.
pub open spec fn enc_unregister(v: ServerUnregisterData) -> Seq<u8> {
    seq![v.master_server_version] + spec_u16_to_le_bytes(v.port)
}

/// Reads an unregister payload at cursor `i`.
pub open spec fn dec_unregister(s: Seq<u8>, i: int) -> Option<(int, ServerUnregisterData)> {
    match dec_u8(s, i) {
        None => None,
        Some((i1, master_server_version)) => match dec_u16(s, i1) {
            None => None,
            Some((i2, port)) => Some((i2, ServerUnregisterData { master_server_version, port })),
        },
    }
}

/// Reading an embedded unregister image yields the encoded value back, with
/// the cursor moved past the image.
pub proof fn lemma_unregister_round_trip(v: ServerUnregisterData, s: Seq<u8>, i: int)
    requires
        0 <= i,
        i + enc_unregister(v).len() <= s.len(),
        s.subrange(i, i + enc_unregister(v).len()) == enc_unregister(v),
    ensures
        dec_unregister(s, i) == Some((i + enc_unregister(v).len(), v)),
{
    lemma_le_lengths();
    let img = enc_unregister(v);
    lemma_embedded_index(s, i, img, 0);
    lemma_embedded_subrange(s, i, img, 1, 3);
    assert(img.subrange(1, 3) =~= spec_u16_to_le_bytes(v.port));
    lemma_dec_u16_of(s, i + 1, v.port);
}

impl ServerUnregisterData {
    /// Parses an unregister payload of `buf` at `pos`.
    pub fn from_bytes(buf: &[u8], pos: usize) -> (r: Result<(usize, Self), Error>)
        ensures
            match r {
                Ok((p, v)) => dec_unregister(buf@, pos as int) == Some((p as int, v)),
                Err(e) => dec_unregister(buf@, pos as int) is None && e is DataParseError,
            },
    {
        let (p1, master_server_version) = match read_u8(buf, pos) {
            Ok(x) => x,
            Err(e) => return Err(e),
        };
        let (p2, port) = match read_u16(buf, p1) {
            Ok(x) => x,
            Err(e) => return Err(e),
        };
        Ok((p2, ServerUnregisterData { master_server_version, port }))
    }
}

impl ByteWriter for ServerUnregisterData {
    open spec fn enc_ok(&self) -> bool {
        true
    }

    open spec fn enc(&self) -> Seq<u8> {
        enc_unregister(*self)
    }

    fn write_pkt(&self, out: &mut Vec<u8>) -> (r: Result<(), Error>) {
        out.push(self.master_server_version);
        push_u16(out, self.port);
        proof {
            assert(out@ =~= old(out)@ + self.enc());
        }
        Ok(())
    }
}

} // verus!
