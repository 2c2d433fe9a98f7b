use vstd::prelude::*;

verus! {

use vstd::bytes::*;
use vstd::slice::*;
use crate::errors::Error;
use crate::errors::data_parse_error;

// ==== Little-endian integer fields ==========================================
//
// Every multi-byte integer on the wire is little-endian. The byte images are
// vstd's `spec_uNN_to_le_bytes`; the spec decoders below read such an image at
// a cursor inside a larger buffer and advance the cursor.

/// Reads one byte at cursor `i`, or fails when the input is exhausted.
pub open spec fn dec_u8(s: Seq<u8>, i: int) -> Option<(int, u8)> {
    if 0 <= i && i + 1 <= s.len() {
        Some((i + 1, s[i]))
    } else {
        None
    }
}

/// Reads a 16-bit little-endian integer at cursor `i`.
pub open spec fn dec_u16(s: Seq<u8>, i: int) -> Option<(int, u16)> {
    if 0 <= i && i + 2 <= s.len() {
        Some((i + 2, spec_u16_from_le_bytes(s.subrange(i, i + 2))))
    } else {
        None
    }
}

/// Reads a 32-bit little-endian integer at cursor `i`.
pub open spec fn dec_u32(s: Seq<u8>, i: int) -> Option<(int, u32)> {
    if 0 <= i && i + 4 <= s.len() {
        Some((i + 4, spec_u32_from_le_bytes(s.subrange(i, i + 4))))
    } else {
        None
    }
}

/// Reads a 64-bit little-endian integer at cursor `i`.
pub open spec fn dec_u64(s: Seq<u8>, i: int) -> Option<(int, u64)> {
    if 0 <= i && i + 8 <= s.len() {
        Some((i + 8, spec_u64_from_le_bytes(s.subrange(i, i + 8))))
    } else {
        None
    }
}

/// The canonical single-byte image of a flag: 1 for true, 0 for false.
/// Decoders accept any nonzero byte as true; encoders only ever write 0 or 1.
pub open spec fn bool_byte(b: bool) -> u8 {
    if b {
        1
    } else {
        0
    }
}

/// `n` zero bytes; the reserved block of old status responses.
pub open spec fn zero_bytes(n: nat) -> Seq<u8> {
    Seq::new(n, |k: int| 0u8)
}

/// The byte images of the little-endian fields have fixed widths.
pub proof fn lemma_le_lengths()
    ensures
        forall|x: u16| (#[trigger] spec_u16_to_le_bytes(x)).len() == 2,
        forall|x: u32| (#[trigger] spec_u32_to_le_bytes(x)).len() == 4,
        forall|x: u64| (#[trigger] spec_u64_to_le_bytes(x)).len() == 8,
{
    lemma_auto_spec_u16_to_from_le_bytes();
    lemma_auto_spec_u32_to_from_le_bytes();
    lemma_auto_spec_u64_to_from_le_bytes();
}

/// Decoding an embedded 16-bit image yields the encoded value back.
pub proof fn lemma_dec_u16_of(s: Seq<u8>, i: int, x: u16)
    requires
        0 <= i,
        i + 2 <= s.len(),
        s.subrange(i, i + 2) == spec_u16_to_le_bytes(x),
    ensures
        dec_u16(s, i) == Some((i + 2, x)),
{
    lemma_auto_spec_u16_to_from_le_bytes();
    assert(spec_u16_to_le_bytes(x).len() == 2);
}

/// Decoding an embedded 32-bit image yields the encoded value back.
pub proof fn lemma_dec_u32_of(s: Seq<u8>, i: int, x: u32)
    requires
        0 <= i,
        i + 4 <= s.len(),
        s.subrange(i, i + 4) == spec_u32_to_le_bytes(x),
    ensures
        dec_u32(s, i) == Some((i + 4, x)),
{
    lemma_auto_spec_u32_to_from_le_bytes();
    assert(spec_u32_to_le_bytes(x).len() == 4);
}

/// Decoding an embedded 64-bit image yields the encoded value back.
pub proof fn lemma_dec_u64_of(s: Seq<u8>, i: int, x: u64)
    requires
        0 <= i,
        i + 8 <= s.len(),
        s.subrange(i, i + 8) == spec_u64_to_le_bytes(x),
    ensures
        dec_u64(s, i) == Some((i + 8, x)),
{
    lemma_auto_spec_u64_to_from_le_bytes();
}

/// Reads one byte of `buf` at `pos`; fails when the input is exhausted.
pub fn read_u8(buf: &[u8], pos: usize) -> (r: Result<(usize, u8), Error>)
    ensures
        match r {
            Ok((p, x)) => dec_u8(buf@, pos as int) == Some((p as int, x)),
            Err(e) => dec_u8(buf@, pos as int) is None && e is DataParseError,
        },
{
    if pos < buf.len() {
        Ok((pos + 1, *slice_index_get(buf, pos)))
    } else {
        Err(data_parse_error("unexpected end of input"))
    }
}

/// Reads a 16-bit little-endian integer of `buf` at `pos`.
pub fn read_u16(buf: &[u8], pos: usize) -> (r: Result<(usize, u16), Error>)
    ensures
        match r {
            Ok((p, x)) => dec_u16(buf@, pos as int) == Some((p as int, x)),
            Err(e) => dec_u16(buf@, pos as int) is None && e is DataParseError,
        },
{
    if pos < buf.len() && buf.len() - pos >= 2 {
        let x = u16_from_le_bytes(slice_subrange(buf, pos, pos + 2));
        Ok((pos + 2, x))
    } else {
        Err(data_parse_error("unexpected end of input"))
    }
}

/// Reads a 32-bit little-endian integer of `buf` at `pos`.
pub fn read_u32(buf: &[u8], pos: usize) -> (r: Result<(usize, u32), Error>)
    ensures
        match r {
            Ok((p, x)) => dec_u32(buf@, pos as int) == Some((p as int, x)),
            Err(e) => dec_u32(buf@, pos as int) is None && e is DataParseError,
        },
{
    if pos < buf.len() && buf.len() - pos >= 4 {
        let x = u32_from_le_bytes(slice_subrange(buf, pos, pos + 4));
        Ok((pos + 4, x))
    } else {
        Err(data_parse_error("unexpected end of input"))
    }
}

/// Reads a 64-bit little-endian integer of `buf` at `pos`.
pub fn read_u64(buf: &[u8], pos: usize) -> (r: Result<(usize, u64), Error>)
    ensures
        match r {
            Ok((p, x)) => dec_u64(buf@, pos as int) == Some((p as int, x)),
            Err(e) => dec_u64(buf@, pos as int) is None && e is DataParseError,
        },
{
    if pos < buf.len() && buf.len() - pos >= 8 {
        let x = u64_from_le_bytes(slice_subrange(buf, pos, pos + 8));
        Ok((pos + 8, x))
    } else {
        Err(data_parse_error("unexpected end of input"))
    }
}

/// Appends the two-byte little-endian image of `x` to `out`.
pub fn push_u16(out: &mut Vec<u8>, x: u16)
    ensures
        final(out)@ == old(out)@ + spec_u16_to_le_bytes(x),
{
    let mut b = u16_to_le_bytes(x);
    out.append(&mut b);
}

/// Appends the four-byte little-endian image of `x` to `out`.
pub fn push_u32(out: &mut Vec<u8>, x: u32)
    ensures
        final(out)@ == old(out)@ + spec_u32_to_le_bytes(x),
{
    let mut b = u32_to_le_bytes(x);
    out.append(&mut b);
}

/// Appends the eight-byte little-endian image of `x` to `out`.
pub fn push_u64(out: &mut Vec<u8>, x: u64)
    ensures
        final(out)@ == old(out)@ + spec_u64_to_le_bytes(x),
{
    let mut b = u64_to_le_bytes(x);
    out.append(&mut b);
}

// ==== Terminated strings ====================================================
//
// A text field ends with a single zero byte. The bytes before the terminator
// are the field's content and may not themselves contain a zero byte.

/// True when no byte of `t` is zero, so `t` can be a terminated string's body.
pub open spec fn has_no_nul(t: Seq<u8>) -> bool {
    forall|k: int| 0 <= k < t.len() ==> t[k] != 0
}

/// The wire image of a terminated string: its bytes, then one zero byte.
pub open spec fn enc_str(t: Seq<u8>) -> Seq<u8> {
    t + seq![0u8]
}

/// Reads a terminated string at cursor `i`: everything before the first zero
/// byte, consuming the terminator too. Fails when no zero byte follows.
pub open spec fn dec_str(s: Seq<u8>, i: int) -> Option<(int, Seq<u8>)>
    decreases s.len() - i,
{
    if i < 0 || i >= s.len() {
        None
    } else if s[i] == 0 {
        Some((i + 1, Seq::empty()))
    } else {
        match dec_str(s, i + 1) {
            Some((j, t)) => Some((j, seq![s[i]] + t)),
            None => None,
        }
    }
}

/// When the first zero byte at or after `i` sits at `j`, the string read at
/// `i` is exactly the bytes strictly between `i` and `j`.
pub proof fn lemma_dec_str_found(s: Seq<u8>, i: int, j: int)
    requires
        0 <= i <= j < s.len(),
        s[j] == 0,
        forall|m: int| i <= m < j ==> s[m] != 0,
    ensures
        dec_str(s, i) == Some((j + 1, s.subrange(i, j))),
    decreases j - i,
{
    if i == j {
        assert(s.subrange(i, j) =~= Seq::empty());
    } else {
        lemma_dec_str_found(s, i + 1, j);
        assert(s.subrange(i, j) =~= seq![s[i]] + s.subrange(i + 1, j));
    }
}

/// When no byte at or after `i` is zero, no string can be read at `i`.
pub proof fn lemma_dec_str_none(s: Seq<u8>, i: int)
    requires
        0 <= i <= s.len(),
        forall|m: int| i <= m < s.len() ==> s[m] != 0,
    ensures
        dec_str(s, i) is None,
    decreases s.len() - i,
{
    if i < s.len() {
        lemma_dec_str_none(s, i + 1);
    }
}

/// Reading an embedded string image yields the encoded content back.
pub proof fn lemma_dec_str_of_enc(s: Seq<u8>, i: int, t: Seq<u8>)
    requires
        has_no_nul(t),
        0 <= i,
        i + t.len() + 1 <= s.len(),
        s.subrange(i, i + t.len() + 1) == enc_str(t),
    ensures
        dec_str(s, i) == Some((i + t.len() + 1, t)),
{
    let j = i + t.len();
    assert forall|m: int| i <= m < j implies s[m] != 0 by {
        assert(s[m] == s.subrange(i, i + t.len() + 1)[m - i]);
        assert(enc_str(t)[m - i] == t[m - i]);
    }
    assert(s[j] == s.subrange(i, i + t.len() + 1)[t.len() as int]);
    lemma_dec_str_found(s, i, j);
    assert(s.subrange(i, j) =~= t);
}

/// Scans `buf` from `pos` for the zero terminator and hands the content back.
/// Fails with a parse error when the input ends before a terminator.
pub fn read_string(buf: &[u8], pos: usize) -> (r: Result<(usize, Vec<u8>), Error>)
    ensures
        match r {
            Ok((p, t)) => {
                &&& dec_str(buf@, pos as int) == Some((p as int, t@))
                &&& has_no_nul(t@)
                &&& pos < p <= buf@.len()
            },
            Err(e) => dec_str(buf@, pos as int) is None && e is DataParseError,
        },
{
    if pos > buf.len() {
        return Err(data_parse_error("cursor is past the end of the input"));
    }
    let mut k = pos;
    let mut acc: Vec<u8> = Vec::new();
    loop
        invariant
            pos <= k <= buf@.len(),
            acc@ =~= buf@.subrange(pos as int, k as int),
            has_no_nul(acc@),
        decreases buf@.len() - k,
    {
        if k >= buf.len() {
            proof {
                assert forall|m: int| pos <= m < buf@.len() implies buf@[m] != 0 by {
                    assert(acc@[m - pos] == buf@[m]);
                }
                lemma_dec_str_none(buf@, pos as int);
            }
            return Err(data_parse_error("string is missing its terminator"));
        }
        let b = *slice_index_get(buf, k);
        if b == 0 {
            proof {
                assert forall|m: int| pos <= m < k implies buf@[m] != 0 by {
                    assert(acc@[m - pos] == buf@[m]);
                }
                lemma_dec_str_found(buf@, pos as int, k as int);
            }
            return Ok((k + 1, acc));
        }
        acc.push(b);
        k = k + 1;
    }
}

/// Decides whether `t` holds a zero byte anywhere.
pub fn contains_nul(t: &Vec<u8>) -> (r: bool)
    ensures
        r == !has_no_nul(t@),
{
    let n = t.len();
    let mut k: usize = 0;
    while k < n
        invariant
            k <= n,
            n == t@.len(),
            forall|m: int| 0 <= m < k ==> t@[m] != 0,
        decreases n - k,
    {
        if t[k] == 0 {
            return true;
        }
        k = k + 1;
    }
    false
}

/// Appends `t`'s bytes and the zero terminator to `out`. Text holding a zero
/// byte cannot be framed this way; it is reported as a write-side failure and
/// `out` is left as it was.
pub fn write_string(out: &mut Vec<u8>, t: &Vec<u8>) -> (r: Result<(), Error>)
    ensures
        match r {
            Ok(()) => has_no_nul(t@) && final(out)@ == old(out)@ + enc_str(t@),
            Err(e) => !has_no_nul(t@) && final(out)@ == old(out)@ && e is IOError,
        },
{
    let n = t.len();
    let mut k: usize = 0;
    while k < n
        invariant
            k <= n,
            n == t@.len(),
            forall|m: int| 0 <= m < k ==> t@[m] != 0,
            out@ == old(out)@,
        decreases n - k,
    {
        if t[k] == 0 {
            return Err(crate::errors::io_error("text contains an embedded zero byte"));
        }
        k = k + 1;
    }
    out.extend_from_slice(t.as_slice());
    out.push(0);
    proof {
        assert(out@ =~= old(out)@ + enc_str(t@));
    }
    Ok(())
}

// ==== Decomposing an embedded image =========================================

/// When `img` sits embedded in `s` at `i`, any slice of `img` sits embedded
/// at the shifted position.
pub proof fn lemma_embedded_subrange(s: Seq<u8>, i: int, img: Seq<u8>, a: int, b: int)
    requires
        0 <= i,
        i + img.len() <= s.len(),
        s.subrange(i, i + img.len()) == img,
        0 <= a <= b <= img.len(),
    ensures
        s.subrange(i + a, i + b) == img.subrange(a, b),
{
    assert forall|m: int| 0 <= m < b - a implies s.subrange(i + a, i + b)[m] == img.subrange(
        a,
        b,
    )[m] by {
        assert(img[a + m] == s.subrange(i, i + img.len())[a + m]);
    }
    assert(s.subrange(i + a, i + b) =~= img.subrange(a, b));
}

/// When `img` sits embedded in `s` at `i`, each byte of `img` is found at the
/// shifted position.
pub proof fn lemma_embedded_index(s: Seq<u8>, i: int, img: Seq<u8>, a: int)
    requires
        0 <= i,
        i + img.len() <= s.len(),
        s.subrange(i, i + img.len()) == img,
        0 <= a < img.len(),
    ensures
        s[i + a] == img[a],
{
    assert(img[a] == s.subrange(i, i + img.len())[a]);
}

// ==== The encoder interface =================================================

/// Implemented by every value with a wire image. `enc` is the image itself;
/// `enc_ok` says when the value is encodable at all (collections within their
/// wire limits, text without embedded zero bytes).
pub trait ByteWriter: Sized {
    /// When this value can be put on the wire.
    spec fn enc_ok(&self) -> bool;

    /// The value's canonical wire image.
    spec fn enc(&self) -> Seq<u8>;

    /// Appends the value's wire image to `out`. Encoding the same value twice
    /// yields byte-identical output, since the image is a function of the
    /// value alone. A failed encode may leave bytes already written behind.
    fn write_pkt(&self, out: &mut Vec<u8>) -> (r: Result<(), Error>)
        ensures
            match r {
                Ok(()) => self.enc_ok() && final(out)@ == old(out)@ + self.enc(),
                Err(e) => !self.enc_ok() && old(out)@.is_prefix_of(final(out)@) && e is IOError,
            },
    ;
}

} // verus!
