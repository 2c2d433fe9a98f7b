use vstd::prelude::*;

verus! {

use vstd::bytes::*;
use crate::errors::Error;
use crate::errors::data_parse_error;
use crate::errors::io_error;
use crate::util::ByteWriter;
use crate::util::dec_u16;
use crate::util::dec_u8;
use crate::util::lemma_dec_u16_of;
use crate::util::lemma_embedded_index;
use crate::util::lemma_embedded_subrange;
use crate::util::lemma_le_lengths;
use crate::util::push_u16;
use crate::util::read_u16;
use crate::util::read_u8;

/// The address family of a master-server list.
#[derive(Clone, Copy, Debug, PartialEq, Hash)]
enum ServerType {
    IPv4,
    IPv6,
}

/// The address family a discriminant byte stands for: 1 is IPv4, 2 is IPv6,
/// anything else stands for none.
spec fn server_type_of_num(v: u8) -> Option<ServerType> {
    if v == 1 {
        Some(ServerType::IPv4)
    } else if v == 2 {
        Some(ServerType::IPv6)
    } else {
        None
    }
}

impl ServerType {
    fn from_num(v: u8) -> (r: Option<Self>)
        ensures
            r == server_type_of_num(v),
    {
        match v {
            1 => Some(ServerType::IPv4),
            2 => Some(ServerType::IPv6),
            _ => None,
        }
    }
}

// ==== IPv4 entries ==========================================================

/// One IPv4 server address: the four octets in their printed order, and the
/// port.
#[derive(Clone, Copy, Debug, PartialEq, Eq, Structural)]
pub struct Ipv4Entry {
    pub a0: u8,
    pub a1: u8,
    pub a2: u8,
    pub a3: u8,
    pub port: u16,
}

/// Ascending numeric address, then ascending port: the fixed total order
/// the list is held and written in.
pub open spec fn lt4(x: Ipv4Entry, y: Ipv4Entry) -> bool {
    if x.a0 != y.a0 {
        x.a0 < y.a0
    } else if x.a1 != y.a1 {
        x.a1 < y.a1
    } else if x.a2 != y.a2 {
        x.a2 < y.a2
    } else if x.a3 != y.a3 {
        x.a3 < y.a3
    } else {
        x.port < y.port
    }
}

fn addr4_lt(x: &Ipv4Entry, y: &Ipv4Entry) -> (r: bool)
    ensures
        r == lt4(*x, *y),
{
    if x.a0 != y.a0 {
        x.a0 < y.a0
    } else if x.a1 != y.a1 {
        x.a1 < y.a1
    } else if x.a2 != y.a2 {
        x.a2 < y.a2
    } else if x.a3 != y.a3 {
        x.a3 < y.a3
    } else {
        x.port < y.port
    }
}

/// Entries strictly ascend, so each address/port pair occurs once.
pub open spec fn sorted4(es: Seq<Ipv4Entry>) -> bool {
    forall|a: int, b: int| 0 <= a < b < es.len() ==> lt4(#[trigger] es[a], #[trigger] es[b])
}

/// An encodable IPv4 list: at most 65535 entries, since the count is 16
/// bits, held in the fixed order.
pub open spec fn wf_list4(es: Seq<Ipv4Entry>) -> bool {
    &&& es.len() <= 65535
    &&& sorted4(es)
}

/// Wire image of one entry: the four octets, then the port in 16-bit
/// little-endian.
pub open spec fn enc_addr4(e: Ipv4Entry) -> Seq<u8> {
    seq![e.a0, e.a1, e.a2, e.a3] + spec_u16_to_le_bytes(e.port)
}

/// Wire image of the entries, in the order held.
pub open spec fn enc_addr4_seq(es: Seq<Ipv4Entry>) -> Seq<u8>
    decreases es.len(),
{
    if es.len() == 0 {
        Seq::empty()
    } else {
        enc_addr4(es[0]) + enc_addr4_seq(es.skip(1))
    }
}

/// Wire image of the list body: the entry count in 16-bit little-endian,
/// then the entries.
pub open spec fn enc_list4(es: Seq<Ipv4Entry>) -> Seq<u8> {
    spec_u16_to_le_bytes(es.len() as u16) + enc_addr4_seq(es)
}

/// Reads one entry at cursor `i`.
pub open spec fn dec_addr4(s: Seq<u8>, i: int) -> Option<(int, Ipv4Entry)> {
    if 0 <= i && i + 6 <= s.len() {
        match dec_u16(s, i + 4) {
            None => None,
            Some((i1, port)) => Some(
                (i1, Ipv4Entry { a0: s[i], a1: s[i + 1], a2: s[i + 2], a3: s[i + 3], port }),
            ),
        }
    } else {
        None
    }
}

/// Reads `n` entries at cursor `i`, in input order.
pub open spec fn dec_addr4_seq(s: Seq<u8>, i: int, n: nat) -> Option<(int, Seq<Ipv4Entry>)>
    decreases n,
{
    if n == 0 {
        Some((i, Seq::empty()))
    } else {
        match dec_addr4(s, i) {
            None => None,
            Some((i1, e)) => match dec_addr4_seq(s, i1, (n - 1) as nat) {
                None => None,
                Some((i2, rest)) => Some((i2, seq![e] + rest)),
            },
        }
    }
}

/// Places an entry into the ordered list: before the first larger entry,
/// dropped when the same entry is already present — the list is a set.
pub open spec fn insert4(es: Seq<Ipv4Entry>, e: Ipv4Entry) -> Seq<Ipv4Entry>
    decreases es.len(),
{
    if es.len() == 0 {
        seq![e]
    } else if lt4(e, es[0]) {
        seq![e] + es
    } else if e == es[0] {
        es
    } else {
        seq![es[0]] + insert4(es.skip(1), e)
    }
}

/// Folds raw entries, in input order, into an ordered, deduplicated list.
pub open spec fn fold4(raw: Seq<Ipv4Entry>) -> Seq<Ipv4Entry>
    decreases raw.len(),
{
    if raw.len() == 0 {
        Seq::empty()
    } else {
        insert4(fold4(raw.drop_last()), raw.last())
    }
}

/// Reads a list body at cursor `i`: the count, then that many entries,
/// collected into the fixed order.
pub open spec fn dec_list4(s: Seq<u8>, i: int) -> Option<(int, Seq<Ipv4Entry>)> {
    match dec_u16(s, i) {
        None => None,
        Some((i1, n)) => match dec_addr4_seq(s, i1, n as nat) {
            None => None,
            Some((i2, raw)) => Some((i2, fold4(raw))),
        },
    }
}

/// Inserting keeps entries ordered and grows the length by at most one.
pub proof fn lemma_insert4_props(es: Seq<Ipv4Entry>, e: Ipv4Entry)
    requires
        sorted4(es),
    ensures
        sorted4(insert4(es, e)),
        insert4(es, e).len() <= es.len() + 1,
        insert4(es, e).len() >= 1,
        forall|k: int|
            0 <= k < insert4(es, e).len() ==> !lt4(#[trigger] insert4(es, e)[k], e) || (es.len() > 0
                && !lt4(insert4(es, e)[k], es[0])),
    decreases es.len(),
{
    if es.len() == 0 {
    } else if lt4(e, es[0]) {
    } else if e == es[0] {
    } else {
        assert(sorted4(es.skip(1)));
        lemma_insert4_props(es.skip(1), e);
        let r = seq![es[0]] + insert4(es.skip(1), e);
        assert(lt4(es[0], e));
        assert forall|a: int, b: int| 0 <= a < b < r.len() implies lt4(
            #[trigger] r[a],
            #[trigger] r[b],
        ) by {
            if a > 0 {
                assert(r[a] == insert4(es.skip(1), e)[a - 1]);
            } else {
                assert(r[b] == insert4(es.skip(1), e)[b - 1]);
                if es.len() > 1 {
                    assert(es.skip(1)[0] == es[1]);
                }
            }
        }
    }
}

/// Folding raw entries yields an ordered list no larger than the raw input.
pub proof fn lemma_fold4_props(raw: Seq<Ipv4Entry>)
    ensures
        sorted4(fold4(raw)),
        fold4(raw).len() <= raw.len(),
    decreases raw.len(),
{
    if raw.len() > 0 {
        lemma_fold4_props(raw.drop_last());
        lemma_insert4_props(fold4(raw.drop_last()), raw.last());
    }
}

/// Inserting an entry larger than every entry present appends at the end.
pub proof fn lemma_insert4_append(es: Seq<Ipv4Entry>, e: Ipv4Entry)
    requires
        forall|k: int| 0 <= k < es.len() ==> lt4(#[trigger] es[k], e),
    ensures
        insert4(es, e) == es.push(e),
    decreases es.len(),
{
    if es.len() == 0 {
        assert(insert4(es, e) =~= es.push(e));
    } else {
        lemma_insert4_append(es.skip(1), e);
        assert(insert4(es, e) =~= es.push(e));
    }
}

/// Folding a list already in the fixed order gives it back unchanged.
pub proof fn lemma_fold4_of_sorted(es: Seq<Ipv4Entry>)
    requires
        sorted4(es),
    ensures
        fold4(es) == es,
    decreases es.len(),
{
    if es.len() > 0 {
        assert(sorted4(es.drop_last()));
        lemma_fold4_of_sorted(es.drop_last());
        lemma_insert4_append(es.drop_last(), es.last());
        assert(es.drop_last().push(es.last()) =~= es);
    }
}

/// Entry images concatenate.
pub proof fn lemma_enc_addr4_seq_concat(a: Seq<Ipv4Entry>, b: Seq<Ipv4Entry>)
    ensures
        enc_addr4_seq(a + b) == enc_addr4_seq(a) + enc_addr4_seq(b),
    decreases a.len(),
{
    if a.len() == 0 {
        assert(a + b =~= b);
        assert(enc_addr4_seq(a) + enc_addr4_seq(b) =~= enc_addr4_seq(b));
    } else {
        lemma_enc_addr4_seq_concat(a.skip(1), b);
        assert((a + b).skip(1) =~= a.skip(1) + b);
        assert(enc_addr4_seq(a + b) =~= enc_addr4_seq(a) + enc_addr4_seq(b));
    }
}

/// Each entry image is six bytes long.
pub proof fn lemma_enc_addr4_seq_len(es: Seq<Ipv4Entry>)
    ensures
        enc_addr4_seq(es).len() == 6 * es.len(),
    decreases es.len(),
{
    lemma_le_lengths();
    if es.len() > 0 {
        lemma_enc_addr4_seq_len(es.skip(1));
    }
}

/// Reading `n` embedded entry images yields the encoded entries back.
pub proof fn lemma_addr4_seq_round_trip(es: Seq<Ipv4Entry>, s: Seq<u8>, i: int)
    requires
        0 <= i,
        i + enc_addr4_seq(es).len() <= s.len(),
        s.subrange(i, i + enc_addr4_seq(es).len()) == enc_addr4_seq(es),
    ensures
        dec_addr4_seq(s, i, es.len()) == Some((i + enc_addr4_seq(es).len(), es)),
    decreases es.len(),
{
    lemma_le_lengths();
    lemma_enc_addr4_seq_len(es);
    if es.len() > 0 {
        let img = enc_addr4_seq(es);
        let e0 = enc_addr4(es[0]);
        assert(e0.len() == 6);
        lemma_embedded_index(s, i, img, 0);
        lemma_embedded_index(s, i, img, 1);
        lemma_embedded_index(s, i, img, 2);
        lemma_embedded_index(s, i, img, 3);
        assert(img[0] == es[0].a0 && img[1] == es[0].a1 && img[2] == es[0].a2 && img[3]
            == es[0].a3);
        lemma_embedded_subrange(s, i, img, 4, 6);
        assert(img.subrange(4, 6) =~= spec_u16_to_le_bytes(es[0].port));
        lemma_dec_u16_of(s, i + 4, es[0].port);
        assert(dec_addr4(s, i) == Some((i + 6, es[0])));
        lemma_enc_addr4_seq_len(es.skip(1));
        lemma_embedded_subrange(s, i, img, 6, img.len() as int);
        assert(img.subrange(6, img.len() as int) =~= enc_addr4_seq(es.skip(1)));
        lemma_addr4_seq_round_trip(es.skip(1), s, i + 6);
        assert(seq![es[0]] + es.skip(1) =~= es);
    }
}

/// Reading an embedded list-body image yields the encoded list back.
pub proof fn lemma_list4_round_trip(es: Seq<Ipv4Entry>, s: Seq<u8>, i: int)
    requires
        wf_list4(es),
        0 <= i,
        i + enc_list4(es).len() <= s.len(),
        s.subrange(i, i + enc_list4(es).len()) == enc_list4(es),
    ensures
        dec_list4(s, i) == Some((i + enc_list4(es).len(), es)),
{
    lemma_le_lengths();
    lemma_enc_addr4_seq_len(es);
    let img = enc_list4(es);
    lemma_embedded_subrange(s, i, img, 0, 2);
    assert(img.subrange(0, 2) =~= spec_u16_to_le_bytes(es.len() as u16));
    lemma_dec_u16_of(s, i, es.len() as u16);
    lemma_embedded_subrange(s, i, img, 2, img.len() as int);
    assert(img.subrange(2, img.len() as int) =~= enc_addr4_seq(es));
    lemma_addr4_seq_round_trip(es, s, i + 2);
    lemma_fold4_of_sorted(es);
}

/// Where the scan for `e` stops, the insert either finds `e` already
/// present or splices it in before position `k`.
pub proof fn lemma_insert4_at(es: Seq<Ipv4Entry>, e: Ipv4Entry, k: int)
    requires
        0 <= k <= es.len(),
        forall|m: int| 0 <= m < k ==> lt4(#[trigger] es[m], e),
        k < es.len() ==> !lt4(es[k], e),
    ensures
        insert4(es, e) == if k < es.len() && es[k] == e {
            es
        } else {
            es.take(k) + seq![e] + es.skip(k)
        },
    decreases k,
{
    if k == 0 {
        if es.len() == 0 {
            assert(insert4(es, e) =~= es.take(0) + seq![e] + es.skip(0));
        } else if es[0] == e {
        } else {
            assert(lt4(e, es[0]));
            assert(insert4(es, e) =~= es.take(0) + seq![e] + es.skip(0));
        }
    } else {
        assert(lt4(es[0], e));
        lemma_insert4_at(es.skip(1), e, k - 1);
        if k < es.len() && es[k] == e {
            assert(es.skip(1)[k - 1] == es[k]);
            assert(insert4(es, e) =~= es) by {
                assert(insert4(es.skip(1), e) == es.skip(1));
            }
        } else {
            assert(insert4(es, e) =~= es.take(k) + seq![e] + es.skip(k)) by {
                assert(es.skip(1).take(k - 1) =~= es.take(k).skip(1));
                assert(es.skip(1).skip(k - 1) =~= es.skip(k));
            }
        }
    }
}

/// Places one entry into the ordered list vector, leaving the vector
/// unchanged when the entry is already present.
fn insert_addr4(entries: &mut Vec<Ipv4Entry>, e: Ipv4Entry)
    ensures
        final(entries)@ == insert4(old(entries)@, e),
{
    let n = entries.len();
    let mut k: usize = 0;
    while k < n && addr4_lt(&entries[k], &e)
        invariant
            k <= n,
            n == entries@.len(),
            entries@ == old(entries)@,
            forall|m: int| 0 <= m < k ==> lt4(#[trigger] entries@[m], e),
        decreases n - k,
    {
        k = k + 1;
    }
    proof {
        lemma_insert4_at(entries@, e, k as int);
    }
    if k < n && entries[k] == e {
        return ;
    }
    entries.insert(k, e);
    proof {
        assert(entries@ =~= old(entries)@.take(k as int) + seq![e] + old(entries)@.skip(k as int));
    }
}

fn parse_list4(buf: &[u8], pos: usize) -> (r: Result<(usize, Vec<Ipv4Entry>), Error>)
    ensures
        match r {
            Ok((p, v)) => dec_list4(buf@, pos as int) == Some((p as int, v@)) && wf_list4(v@),
            Err(e) => dec_list4(buf@, pos as int) is None && e is DataParseError,
        },
{
    let (p1, n) = match read_u16(buf, pos) {
        Ok(x) => x,
        Err(e) => return Err(e),
    };
    let mut entries: Vec<Ipv4Entry> = Vec::new();
    let ghost mut raw: Seq<Ipv4Entry> = Seq::empty();
    let mut cur = p1;
    let mut k: usize = 0;
    while k < n as usize
        invariant
            k <= n,
            raw.len() == k,
            entries@ == fold4(raw),
            dec_u16(buf@, pos as int) == Some((p1 as int, n)),
            dec_addr4_seq(buf@, p1 as int, n as nat) == match dec_addr4_seq(
                buf@,
                cur as int,
                (n - k) as nat,
            ) {
                Some((j, rest)) => Some((j, raw + rest)),
                None => None,
            },
        decreases n - k,
    {
        if cur >= buf.len() || buf.len() - cur < 4 {
            proof {
                assert(dec_addr4(buf@, cur as int) is None);
            }
            return Err(data_parse_error("server address is truncated"));
        }
        let a0 = *vstd::slice::slice_index_get(buf, cur);
        let a1 = *vstd::slice::slice_index_get(buf, cur + 1);
        let a2 = *vstd::slice::slice_index_get(buf, cur + 2);
        let a3 = *vstd::slice::slice_index_get(buf, cur + 3);
        let (q1, port) = match read_u16(buf, cur + 4) {
            Ok(x) => x,
            Err(er) => {
                proof {
                    assert(dec_addr4(buf@, cur as int) is None);
                }
                return Err(er);
            },
        };
        let e = Ipv4Entry { a0, a1, a2, a3, port };
        let ghost prev_raw = raw;
        insert_addr4(&mut entries, e);
        proof {
            raw = raw.push(e);
            assert(raw.drop_last() =~= prev_raw);
            assert(dec_addr4(buf@, cur as int) == Some((q1 as int, e)));
            assert(dec_addr4_seq(buf@, cur as int, (n - k) as nat) == match dec_addr4_seq(
                buf@,
                q1 as int,
                (n - k - 1) as nat,
            ) {
                Some((j, rest)) => Some((j, seq![e] + rest)),
                None => None,
            });
            assert(forall|rest: Seq<Ipv4Entry>| prev_raw + (seq![e] + rest) =~= raw + rest);
        }
        cur = q1;
        k = k + 1;
    }
    proof {
        assert(dec_addr4_seq(buf@, cur as int, 0) == Some::<(int, Seq<Ipv4Entry>)>(
            (cur as int, Seq::empty()),
        ));
        assert(raw + Seq::<Ipv4Entry>::empty() =~= raw);
        lemma_fold4_props(raw);
    }
    Ok((cur, entries))
}

/// The addresses a master server answers an IPv4 list query with, held in
/// ascending address order.
pub type V4Set = Vec<Ipv4Entry>;

impl ByteWriter for V4Set {
    open spec fn enc_ok(&self) -> bool {
        wf_list4(self@)
    }

    open spec fn enc(&self) -> Seq<u8> {
        enc_list4(self@)
    }

    fn write_pkt(&self, out: &mut Vec<u8>) -> (r: Result<(), Error>) {
        let n = self.len();
        if n > 65535 {
            return Err(io_error("a server list may hold at most 65535 entries"));
        }
        let mut k: usize = 0;
        while k < n
            invariant
                k <= n,
                n == self@.len(),
                n <= 65535,
                forall|m: int| 0 < m <= k && m < n ==> lt4(#[trigger] self@[m - 1], self@[m]),
                out@ == old(out)@,
            decreases n - k,
        {
            if k + 1 < n {
                if !addr4_lt(&self[k], &self[k + 1]) {
                    return Err(io_error("server list entries must be strictly ascending"));
                }
            }
            k = k + 1;
        }
        proof {
            assert forall|a: int, b: int| 0 <= a < b < self@.len() implies lt4(
                #[trigger] self@[a],
                #[trigger] self@[b],
            ) by {
                lemma_adjacent_sorted4(self@, a, b);
            }
        }
        push_u16(out, n as u16);
        let mut w: usize = 0;
        while w < n
            invariant
                w <= n,
                n == self@.len(),
                wf_list4(self@),
                out@ == old(out)@ + spec_u16_to_le_bytes(n as u16) + enc_addr4_seq(
                    self@.take(w as int),
                ),
            decreases n - w,
        {
            out.push(self[w].a0);
            out.push(self[w].a1);
            out.push(self[w].a2);
            out.push(self[w].a3);
            push_u16(out, self[w].port);
            proof {
                assert(self@.take(w as int + 1) =~= self@.take(w as int) + seq![self@[w as int]]);
                lemma_enc_addr4_seq_concat(self@.take(w as int), seq![self@[w as int]]);
                assert(seq![self@[w as int]].skip(1) =~= Seq::<Ipv4Entry>::empty());
                assert(enc_addr4_seq(Seq::<Ipv4Entry>::empty()) =~= Seq::<u8>::empty());
                assert(enc_addr4_seq(seq![self@[w as int]]) =~= enc_addr4(self@[w as int]));
                assert(out@ =~= old(out)@ + spec_u16_to_le_bytes(n as u16) + enc_addr4_seq(
                    self@.take(w as int + 1),
                ));
            }
            w = w + 1;
        }
        proof {
            assert(self@.take(n as int) =~= self@);
            assert(out@ =~= old(out)@ + enc_list4(self@));
        }
        Ok(())
    }
}

/// In a list whose adjacent entries ascend, entries ascend across any
/// distance.
pub proof fn lemma_adjacent_sorted4(es: Seq<Ipv4Entry>, a: int, b: int)
    requires
        forall|m: int| 0 < m < es.len() ==> lt4(#[trigger] es[m - 1], es[m]),
        0 <= a < b < es.len(),
    ensures
        lt4(es[a], es[b]),
    decreases b - a,
{
    if a + 1 == b {
        assert(lt4(es[b - 1], es[b]));
    } else {
        lemma_adjacent_sorted4(es, a, b - 1);
        assert(lt4(es[b - 1], es[b]));
    }
}

// ==== IPv6 entries ==========================================================

/// One IPv6 server address: the eight 16-bit segments in their printed
/// order, and the port.
#[derive(Clone, Copy, Debug, PartialEq, Eq, Structural)]
pub struct Ipv6Entry {
    pub s0: u16,
    pub s1: u16,
    pub s2: u16,
    pub s3: u16,
    pub s4: u16,
    pub s5: u16,
    pub s6: u16,
    pub s7: u16,
    pub port: u16,
}

/// Ascending numeric address, then ascending port.
pub open spec fn lt6(x: Ipv6Entry, y: Ipv6Entry) -> bool {
    if x.s0 != y.s0 {
        x.s0 < y.s0
    } else if x.s1 != y.s1 {
        x.s1 < y.s1
    } else if x.s2 != y.s2 {
        x.s2 < y.s2
    } else if x.s3 != y.s3 {
        x.s3 < y.s3
    } else if x.s4 != y.s4 {
        x.s4 < y.s4
    } else if x.s5 != y.s5 {
        x.s5 < y.s5
    } else if x.s6 != y.s6 {
        x.s6 < y.s6
    } else if x.s7 != y.s7 {
        x.s7 < y.s7
    } else {
        x.port < y.port
    }
}

fn addr6_lt(x: &Ipv6Entry, y: &Ipv6Entry) -> (r: bool)
    ensures
        r == lt6(*x, *y),
{
    if x.s0 != y.s0 {
        x.s0 < y.s0
    } else if x.s1 != y.s1 {
        x.s1 < y.s1
    } else if x.s2 != y.s2 {
        x.s2 < y.s2
    } else if x.s3 != y.s3 {
        x.s3 < y.s3
    } else if x.s4 != y.s4 {
        x.s4 < y.s4
    } else if x.s5 != y.s5 {
        x.s5 < y.s5
    } else if x.s6 != y.s6 {
        x.s6 < y.s6
    } else if x.s7 != y.s7 {
        x.s7 < y.s7
    } else {
        x.port < y.port
    }
}

/// Entries strictly ascend, so each address/port pair occurs once.
pub open spec fn sorted6(es: Seq<Ipv6Entry>) -> bool {
    forall|a: int, b: int| 0 <= a < b < es.len() ==> lt6(#[trigger] es[a], #[trigger] es[b])
}

/// An encodable IPv6 list: at most 65535 entries, held in the fixed order.
pub open spec fn wf_list6(es: Seq<Ipv6Entry>) -> bool {
    &&& es.len() <= 65535
    &&& sorted6(es)
}

/// Wire image of one entry: the eight segments, then the port, each in
/// 16-bit little-endian.
pub open spec fn enc_addr6(e: Ipv6Entry) -> Seq<u8> {
    spec_u16_to_le_bytes(e.s0) + spec_u16_to_le_bytes(e.s1) + spec_u16_to_le_bytes(e.s2)
        + spec_u16_to_le_bytes(e.s3) + spec_u16_to_le_bytes(e.s4) + spec_u16_to_le_bytes(e.s5)
        + spec_u16_to_le_bytes(e.s6) + spec_u16_to_le_bytes(e.s7) + spec_u16_to_le_bytes(e.port)
}

/// Wire image of the entries, in the order held.
pub open spec fn enc_addr6_seq(es: Seq<Ipv6Entry>) -> Seq<u8>
    decreases es.len(),
{
    if es.len() == 0 {
        Seq::empty()
    } else {
        enc_addr6(es[0]) + enc_addr6_seq(es.skip(1))
    }
}

/// Wire image of the list body: the entry count in 16-bit little-endian,
/// then the entries.
pub open spec fn enc_list6(es: Seq<Ipv6Entry>) -> Seq<u8> {
    spec_u16_to_le_bytes(es.len() as u16) + enc_addr6_seq(es)
}

/// Reads one entry at cursor `i`.
pub open spec fn dec_addr6(s: Seq<u8>, i: int) -> Option<(int, Ipv6Entry)> {
    match dec_u16(s, i) {
        None => None,
        Some((i1, s0)) => match dec_u16(s, i1) {
            None => None,
            Some((i2, s1)) => match dec_u16(s, i2) {
                None => None,
                Some((i3, s2)) => match dec_u16(s, i3) {
                    None => None,
                    Some((i4, s3)) => match dec_u16(s, i4) {
                        None => None,
                        Some((i5, s4)) => match dec_u16(s, i5) {
                            None => None,
                            Some((i6, s5)) => match dec_u16(s, i6) {
                                None => None,
                                Some((i7, s6)) => match dec_u16(s, i7) {
                                    None => None,
                                    Some((i8, s7)) => match dec_u16(s, i8) {
                                        None => None,
                                        Some((i9, port)) => Some(
                                            (i9, Ipv6Entry { s0, s1, s2, s3, s4, s5, s6, s7, port }),
                                        ),
                                    },
                                },
                            },
                        },
                    },
                },
            },
        },
    }
}

/// Reads `n` entries at cursor `i`, in input order.
pub open spec fn dec_addr6_seq(s: Seq<u8>, i: int, n: nat) -> Option<(int, Seq<Ipv6Entry>)>
    decreases n,
{
    if n == 0 {
        Some((i, Seq::empty()))
    } else {
        match dec_addr6(s, i) {
            None => None,
            Some((i1, e)) => match dec_addr6_seq(s, i1, (n - 1) as nat) {
                None => None,
                Some((i2, rest)) => Some((i2, seq![e] + rest)),
            },
        }
    }
}

/// Places an entry into the ordered list: before the first larger entry,
/// dropped when the same entry is already present — the list is a set.
pub open spec fn insert6(es: Seq<Ipv6Entry>, e: Ipv6Entry) -> Seq<Ipv6Entry>
    decreases es.len(),
{
    if es.len() == 0 {
        seq![e]
    } else if lt6(e, es[0]) {
        seq![e] + es
    } else if e == es[0] {
        es
    } else {
        seq![es[0]] + insert6(es.skip(1), e)
    }
}

/// Folds raw entries, in input order, into an ordered, deduplicated list.
pub open spec fn fold6(raw: Seq<Ipv6Entry>) -> Seq<Ipv6Entry>
    decreases raw.len(),
{
    if raw.len() == 0 {
        Seq::empty()
    } else {
        insert6(fold6(raw.drop_last()), raw.last())
    }
}

/// Reads a list body at cursor `i`: the count, then that many entries,
/// collected into the fixed order.
pub open spec fn dec_list6(s: Seq<u8>, i: int) -> Option<(int, Seq<Ipv6Entry>)> {
    match dec_u16(s, i) {
        None => None,
        Some((i1, n)) => match dec_addr6_seq(s, i1, n as nat) {
            None => None,
            Some((i2, raw)) => Some((i2, fold6(raw))),
        },
    }
}

/// Inserting keeps entries ordered and grows the length by at most one.
pub proof fn lemma_insert6_props(es: Seq<Ipv6Entry>, e: Ipv6Entry)
    requires
        sorted6(es),
    ensures
        sorted6(insert6(es, e)),
        insert6(es, e).len() <= es.len() + 1,
        insert6(es, e).len() >= 1,
        forall|k: int|
            0 <= k < insert6(es, e).len() ==> !lt6(#[trigger] insert6(es, e)[k], e) || (es.len() > 0
                && !lt6(insert6(es, e)[k], es[0])),
    decreases es.len(),
{
    if es.len() == 0 {
    } else if lt6(e, es[0]) {
    } else if e == es[0] {
    } else {
        assert(sorted6(es.skip(1)));
        lemma_insert6_props(es.skip(1), e);
        let r = seq![es[0]] + insert6(es.skip(1), e);
        assert(lt6(es[0], e));
        assert forall|a: int, b: int| 0 <= a < b < r.len() implies lt6(
            #[trigger] r[a],
            #[trigger] r[b],
        ) by {
            if a > 0 {
                assert(r[a] == insert6(es.skip(1), e)[a - 1]);
            } else {
                assert(r[b] == insert6(es.skip(1), e)[b - 1]);
                if es.len() > 1 {
                    assert(es.skip(1)[0] == es[1]);
                }
            }
        }
    }
}

/// Folding raw entries yields an ordered list no larger than the raw input.
pub proof fn lemma_fold6_props(raw: Seq<Ipv6Entry>)
    ensures
        sorted6(fold6(raw)),
        fold6(raw).len() <= raw.len(),
    decreases raw.len(),
{
    if raw.len() > 0 {
        lemma_fold6_props(raw.drop_last());
        lemma_insert6_props(fold6(raw.drop_last()), raw.last());
    }
}

/// Inserting an entry larger than every entry present appends at the end.
pub proof fn lemma_insert6_append(es: Seq<Ipv6Entry>, e: Ipv6Entry)
    requires
        forall|k: int| 0 <= k < es.len() ==> lt6(#[trigger] es[k], e),
    ensures
        insert6(es, e) == es.push(e),
    decreases es.len(),
{
    if es.len() == 0 {
        assert(insert6(es, e) =~= es.push(e));
    } else {
        lemma_insert6_append(es.skip(1), e);
        assert(insert6(es, e) =~= es.push(e));
    }
}

/// Folding a list already in the fixed order gives it back unchanged.
pub proof fn lemma_fold6_of_sorted(es: Seq<Ipv6Entry>)
    requires
        sorted6(es),
    ensures
        fold6(es) == es,
    decreases es.len(),
{
    if es.len() > 0 {
        assert(sorted6(es.drop_last()));
        lemma_fold6_of_sorted(es.drop_last());
        lemma_insert6_append(es.drop_last(), es.last());
        assert(es.drop_last().push(es.last()) =~= es);
    }
}

/// Entry images concatenate.
pub proof fn lemma_enc_addr6_seq_concat(a: Seq<Ipv6Entry>, b: Seq<Ipv6Entry>)
    ensures
        enc_addr6_seq(a + b) == enc_addr6_seq(a) + enc_addr6_seq(b),
    decreases a.len(),
{
    if a.len() == 0 {
        assert(a + b =~= b);
        assert(enc_addr6_seq(a) + enc_addr6_seq(b) =~= enc_addr6_seq(b));
    } else {
        lemma_enc_addr6_seq_concat(a.skip(1), b);
        assert((a + b).skip(1) =~= a.skip(1) + b);
        assert(enc_addr6_seq(a + b) =~= enc_addr6_seq(a) + enc_addr6_seq(b));
    }
}

/// Each entry image is eighteen bytes long.
pub proof fn lemma_enc_addr6_seq_len(es: Seq<Ipv6Entry>)
    ensures
        enc_addr6_seq(es).len() == 18 * es.len(),
    decreases es.len(),
{
    lemma_le_lengths();
    if es.len() > 0 {
        lemma_enc_addr6_seq_len(es.skip(1));
    }
}

/// Reading one embedded entry image yields the encoded entry back.
proof fn lemma_addr6_round_trip(e: Ipv6Entry, s: Seq<u8>, i: int)
    requires
        0 <= i,
        i + 18 <= s.len(),
        s.subrange(i, i + 18) == enc_addr6(e),
    ensures
        dec_addr6(s, i) == Some((i + 18, e)),
{
    lemma_le_lengths();
    let img = enc_addr6(e);
    lemma_embedded_subrange(s, i, img, 0, 2);
    assert(img.subrange(0, 2) =~= spec_u16_to_le_bytes(e.s0));
    lemma_dec_u16_of(s, i, e.s0);
    lemma_embedded_subrange(s, i, img, 2, 4);
    assert(img.subrange(2, 4) =~= spec_u16_to_le_bytes(e.s1));
    lemma_dec_u16_of(s, i + 2, e.s1);
    lemma_embedded_subrange(s, i, img, 4, 6);
    assert(img.subrange(4, 6) =~= spec_u16_to_le_bytes(e.s2));
    lemma_dec_u16_of(s, i + 4, e.s2);
    lemma_embedded_subrange(s, i, img, 6, 8);
    assert(img.subrange(6, 8) =~= spec_u16_to_le_bytes(e.s3));
    lemma_dec_u16_of(s, i + 6, e.s3);
    lemma_embedded_subrange(s, i, img, 8, 10);
    assert(img.subrange(8, 10) =~= spec_u16_to_le_bytes(e.s4));
    lemma_dec_u16_of(s, i + 8, e.s4);
    lemma_embedded_subrange(s, i, img, 10, 12);
    assert(img.subrange(10, 12) =~= spec_u16_to_le_bytes(e.s5));
    lemma_dec_u16_of(s, i + 10, e.s5);
    lemma_embedded_subrange(s, i, img, 12, 14);
    assert(img.subrange(12, 14) =~= spec_u16_to_le_bytes(e.s6));
    lemma_dec_u16_of(s, i + 12, e.s6);
    lemma_embedded_subrange(s, i, img, 14, 16);
    assert(img.subrange(14, 16) =~= spec_u16_to_le_bytes(e.s7));
    lemma_dec_u16_of(s, i + 14, e.s7);
    lemma_embedded_subrange(s, i, img, 16, 18);
    assert(img.subrange(16, 18) =~= spec_u16_to_le_bytes(e.port));
    lemma_dec_u16_of(s, i + 16, e.port);
}

/// Reading `n` embedded entry images yields the encoded entries back.
pub proof fn lemma_addr6_seq_round_trip(es: Seq<Ipv6Entry>, s: Seq<u8>, i: int)
    requires
        0 <= i,
        i + enc_addr6_seq(es).len() <= s.len(),
        s.subrange(i, i + enc_addr6_seq(es).len()) == enc_addr6_seq(es),
    ensures
        dec_addr6_seq(s, i, es.len()) == Some((i + enc_addr6_seq(es).len(), es)),
    decreases es.len(),
{
    lemma_le_lengths();
    lemma_enc_addr6_seq_len(es);
    if es.len() > 0 {
        let img = enc_addr6_seq(es);
        lemma_embedded_subrange(s, i, img, 0, 18);
        assert(img.subrange(0, 18) =~= enc_addr6(es[0]));
        lemma_addr6_round_trip(es[0], s, i);
        lemma_enc_addr6_seq_len(es.skip(1));
        lemma_embedded_subrange(s, i, img, 18, img.len() as int);
        assert(img.subrange(18, img.len() as int) =~= enc_addr6_seq(es.skip(1)));
        lemma_addr6_seq_round_trip(es.skip(1), s, i + 18);
        assert(seq![es[0]] + es.skip(1) =~= es);
    }
}

/// Reading an embedded list-body image yields the encoded list back.
pub proof fn lemma_list6_round_trip(es: Seq<Ipv6Entry>, s: Seq<u8>, i: int)
    requires
        wf_list6(es),
        0 <= i,
        i + enc_list6(es).len() <= s.len(),
        s.subrange(i, i + enc_list6(es).len()) == enc_list6(es),
    ensures
        dec_list6(s, i) == Some((i + enc_list6(es).len(), es)),
{
    lemma_le_lengths();
    lemma_enc_addr6_seq_len(es);
    let img = enc_list6(es);
    lemma_embedded_subrange(s, i, img, 0, 2);
    assert(img.subrange(0, 2) =~= spec_u16_to_le_bytes(es.len() as u16));
    lemma_dec_u16_of(s, i, es.len() as u16);
    lemma_embedded_subrange(s, i, img, 2, img.len() as int);
    assert(img.subrange(2, img.len() as int) =~= enc_addr6_seq(es));
    lemma_addr6_seq_round_trip(es, s, i + 2);
    lemma_fold6_of_sorted(es);
}

/// Where the scan for `e` stops, the insert either finds `e` already
/// present or splices it in before position `k`.
pub proof fn lemma_insert6_at(es: Seq<Ipv6Entry>, e: Ipv6Entry, k: int)
    requires
        0 <= k <= es.len(),
        forall|m: int| 0 <= m < k ==> lt6(#[trigger] es[m], e),
        k < es.len() ==> !lt6(es[k], e),
    ensures
        insert6(es, e) == if k < es.len() && es[k] == e {
            es
        } else {
            es.take(k) + seq![e] + es.skip(k)
        },
    decreases k,
{
    if k == 0 {
        if es.len() == 0 {
            assert(insert6(es, e) =~= es.take(0) + seq![e] + es.skip(0));
        } else if es[0] == e {
        } else {
            assert(lt6(e, es[0]));
            assert(insert6(es, e) =~= es.take(0) + seq![e] + es.skip(0));
        }
    } else {
        assert(lt6(es[0], e));
        lemma_insert6_at(es.skip(1), e, k - 1);
        if k < es.len() && es[k] == e {
            assert(es.skip(1)[k - 1] == es[k]);
            assert(insert6(es, e) =~= es) by {
                assert(insert6(es.skip(1), e) == es.skip(1));
            }
        } else {
            assert(insert6(es, e) =~= es.take(k) + seq![e] + es.skip(k)) by {
                assert(es.skip(1).take(k - 1) =~= es.take(k).skip(1));
                assert(es.skip(1).skip(k - 1) =~= es.skip(k));
            }
        }
    }
}

/// Places one entry into the ordered list vector, leaving the vector
/// unchanged when the entry is already present.
fn insert_addr6(entries: &mut Vec<Ipv6Entry>, e: Ipv6Entry)
    ensures
        final(entries)@ == insert6(old(entries)@, e),
{
    let n = entries.len();
    let mut k: usize = 0;
    while k < n && addr6_lt(&entries[k], &e)
        invariant
            k <= n,
            n == entries@.len(),
            entries@ == old(entries)@,
            forall|m: int| 0 <= m < k ==> lt6(#[trigger] entries@[m], e),
        decreases n - k,
    {
        k = k + 1;
    }
    proof {
        lemma_insert6_at(entries@, e, k as int);
    }
    if k < n && entries[k] == e {
        return ;
    }
    entries.insert(k, e);
    proof {
        assert(entries@ =~= old(entries)@.take(k as int) + seq![e] + old(entries)@.skip(k as int));
    }
}

fn parse_list6(buf: &[u8], pos: usize) -> (r: Result<(usize, Vec<Ipv6Entry>), Error>)
    ensures
        match r {
            Ok((p, v)) => dec_list6(buf@, pos as int) == Some((p as int, v@)) && wf_list6(v@),
            Err(e) => dec_list6(buf@, pos as int) is None && e is DataParseError,
        },
{
    let (p1, n) = match read_u16(buf, pos) {
        Ok(x) => x,
        Err(e) => return Err(e),
    };
    let mut entries: Vec<Ipv6Entry> = Vec::new();
    let ghost mut raw: Seq<Ipv6Entry> = Seq::empty();
    let mut cur = p1;
    let mut k: usize = 0;
    while k < n as usize
        invariant
            k <= n,
            raw.len() == k,
            entries@ == fold6(raw),
            dec_u16(buf@, pos as int) == Some((p1 as int, n)),
            dec_addr6_seq(buf@, p1 as int, n as nat) == match dec_addr6_seq(
                buf@,
                cur as int,
                (n - k) as nat,
            ) {
                Some((j, rest)) => Some((j, raw + rest)),
                None => None,
            },
        decreases n - k,
    {
        let (q0, e) = match parse_addr6(buf, cur) {
            Ok(x) => x,
            Err(er) => {
                return Err(er);
            },
        };
        let ghost prev_raw = raw;
        insert_addr6(&mut entries, e);
        proof {
            raw = raw.push(e);
            assert(raw.drop_last() =~= prev_raw);
            assert(dec_addr6_seq(buf@, cur as int, (n - k) as nat) == match dec_addr6_seq(
                buf@,
                q0 as int,
                (n - k - 1) as nat,
            ) {
                Some((j, rest)) => Some((j, seq![e] + rest)),
                None => None,
            });
            assert(forall|rest: Seq<Ipv6Entry>| prev_raw + (seq![e] + rest) =~= raw + rest);
        }
        cur = q0;
        k = k + 1;
    }
    proof {
        assert(dec_addr6_seq(buf@, cur as int, 0) == Some::<(int, Seq<Ipv6Entry>)>(
            (cur as int, Seq::empty()),
        ));
        assert(raw + Seq::<Ipv6Entry>::empty() =~= raw);
        lemma_fold6_props(raw);
    }
    Ok((cur, entries))
}

fn parse_addr6(buf: &[u8], pos: usize) -> (r: Result<(usize, Ipv6Entry), Error>)
    ensures
        match r {
            Ok((p, v)) => dec_addr6(buf@, pos as int) == Some((p as int, v)),
            Err(e) => dec_addr6(buf@, pos as int) is None && e is DataParseError,
        },
{
    let (p1, s0) = match read_u16(buf, pos) {
        Ok(x) => x,
        Err(e) => return Err(e),
    };
    let (p2, s1) = match read_u16(buf, p1) {
        Ok(x) => x,
        Err(e) => return Err(e),
    };
    let (p3, s2) = match read_u16(buf, p2) {
        Ok(x) => x,
        Err(e) => return Err(e),
    };
    let (p4, s3) = match read_u16(buf, p3) {
        Ok(x) => x,
        Err(e) => return Err(e),
    };
    let (p5, s4) = match read_u16(buf, p4) {
        Ok(x) => x,
        Err(e) => return Err(e),
    };
    let (p6, s5) = match read_u16(buf, p5) {
        Ok(x) => x,
        Err(e) => return Err(e),
    };
    let (p7, s6) = match read_u16(buf, p6) {
        Ok(x) => x,
        Err(e) => return Err(e),
    };
    let (p8, s7) = match read_u16(buf, p7) {
        Ok(x) => x,
        Err(e) => return Err(e),
    };
    let (p9, port) = match read_u16(buf, p8) {
        Ok(x) => x,
        Err(e) => return Err(e),
    };
    Ok((p9, Ipv6Entry { s0, s1, s2, s3, s4, s5, s6, s7, port }))
}

/// The addresses a master server answers an IPv6 list query with, held in
/// ascending address order.
pub type V6Set = Vec<Ipv6Entry>;

impl ByteWriter for V6Set {
    open spec fn enc_ok(&self) -> bool {
        wf_list6(self@)
    }

    open spec fn enc(&self) -> Seq<u8> {
        enc_list6(self@)
    }

    fn write_pkt(&self, out: &mut Vec<u8>) -> (r: Result<(), Error>) {
        let n = self.len();
        if n > 65535 {
            return Err(io_error("a server list may hold at most 65535 entries"));
        }
        let mut k: usize = 0;
        while k < n
            invariant
                k <= n,
                n == self@.len(),
                n <= 65535,
                forall|m: int| 0 < m <= k && m < n ==> lt6(#[trigger] self@[m - 1], self@[m]),
                out@ == old(out)@,
            decreases n - k,
        {
            if k + 1 < n {
                if !addr6_lt(&self[k], &self[k + 1]) {
                    return Err(io_error("server list entries must be strictly ascending"));
                }
            }
            k = k + 1;
        }
        proof {
            assert forall|a: int, b: int| 0 <= a < b < self@.len() implies lt6(
                #[trigger] self@[a],
                #[trigger] self@[b],
            ) by {
                lemma_adjacent_sorted6(self@, a, b);
            }
        }
        push_u16(out, n as u16);
        let mut w: usize = 0;
        while w < n
            invariant
                w <= n,
                n == self@.len(),
                wf_list6(self@),
                out@ == old(out)@ + spec_u16_to_le_bytes(n as u16) + enc_addr6_seq(
                    self@.take(w as int),
                ),
            decreases n - w,
        {
            push_u16(out, self[w].s0);
            push_u16(out, self[w].s1);
            push_u16(out, self[w].s2);
            push_u16(out, self[w].s3);
            push_u16(out, self[w].s4);
            push_u16(out, self[w].s5);
            push_u16(out, self[w].s6);
            push_u16(out, self[w].s7);
            push_u16(out, self[w].port);
            proof {
                assert(self@.take(w as int + 1) =~= self@.take(w as int) + seq![self@[w as int]]);
                lemma_enc_addr6_seq_concat(self@.take(w as int), seq![self@[w as int]]);
                assert(seq![self@[w as int]].skip(1) =~= Seq::<Ipv6Entry>::empty());
                assert(enc_addr6_seq(Seq::<Ipv6Entry>::empty()) =~= Seq::<u8>::empty());
                assert(enc_addr6_seq(seq![self@[w as int]]) =~= enc_addr6(self@[w as int]));
                assert(out@ =~= old(out)@ + spec_u16_to_le_bytes(n as u16) + enc_addr6_seq(
                    self@.take(w as int + 1),
                ));
            }
            w = w + 1;
        }
        proof {
            assert(self@.take(n as int) =~= self@);
            assert(out@ =~= old(out)@ + enc_list6(self@));
        }
        Ok(())
    }
}

/// In a list whose adjacent entries ascend, entries ascend across any
/// distance.
pub proof fn lemma_adjacent_sorted6(es: Seq<Ipv6Entry>, a: int, b: int)
    requires
        forall|m: int| 0 < m < es.len() ==> lt6(#[trigger] es[m - 1], es[m]),
        0 <= a < b < es.len(),
    ensures
        lt6(es[a], es[b]),
    decreases b - a,
{
    if a + 1 == b {
        assert(lt6(es[b - 1], es[b]));
    } else {
        lemma_adjacent_sorted6(es, a, b - 1);
        assert(lt6(es[b - 1], es[b]));
    }
}

// ==== The list payload ======================================================

/// A master server's address list: one address family per packet.
#[derive(Clone, Debug, PartialEq)]
pub enum ServerList {
    IPv4(V4Set),
    IPv6(V6Set),
}

/// The address list as the contracts see it.
pub enum SpecServerList {
    IPv4(Seq<Ipv4Entry>),
    IPv6(Seq<Ipv6Entry>),
}

impl View for ServerList {
    type V = SpecServerList;

    open spec fn view(&self) -> SpecServerList {
        match self {
            ServerList::IPv4(es) => SpecServerList::IPv4(es@),
            ServerList::IPv6(es) => SpecServerList::IPv6(es@),
        }
    }
}

/// An encodable address list.
pub open spec fn wf_server_list(l: SpecServerList) -> bool {
    match l {
        SpecServerList::IPv4(es) => wf_list4(es),
        SpecServerList::IPv6(es) => wf_list6(es),
    }
}

/// Wire image: the family byte — 1 for IPv4, 2 for IPv6 — then the list
/// body.
pub open spec fn enc_server_list(l: SpecServerList) -> Seq<u8> {
    match l {
        SpecServerList::IPv4(es) => seq![1u8] + enc_list4(es),
        SpecServerList::IPv6(es) => seq![2u8] + enc_list6(es),
    }
}

/// Reads an address list at cursor `i`: the family byte decides the entry
/// shape. A family byte other than 1 or 2 reads as nothing.
pub open spec fn dec_server_list(s: Seq<u8>, i: int) -> Option<(int, SpecServerList)> {
    match dec_u8(s, i) {
        None => None,
        Some((i1, fam)) => {
            if fam == 1 {
                match dec_list4(s, i1) {
                    None => None,
                    Some((i2, es)) => Some((i2, SpecServerList::IPv4(es))),
                }
            } else if fam == 2 {
                match dec_list6(s, i1) {
                    None => None,
                    Some((i2, es)) => Some((i2, SpecServerList::IPv6(es))),
                }
            } else {
                None
            }
        },
    }
}

/// Reading an embedded address-list image yields the encoded list back.
pub proof fn lemma_server_list_round_trip(l: SpecServerList, s: Seq<u8>, i: int)
    requires
        wf_server_list(l),
        0 <= i,
        i + enc_server_list(l).len() <= s.len(),
        s.subrange(i, i + enc_server_list(l).len()) == enc_server_list(l),
    ensures
        dec_server_list(s, i) == Some((i + enc_server_list(l).len(), l)),
{
    let img = enc_server_list(l);
    lemma_embedded_index(s, i, img, 0);
    match l {
        SpecServerList::IPv4(es) => {
            lemma_embedded_subrange(s, i, img, 1, img.len() as int);
            assert(img.subrange(1, img.len() as int) =~= enc_list4(es));
            lemma_list4_round_trip(es, s, i + 1);
        },
        SpecServerList::IPv6(es) => {
            lemma_embedded_subrange(s, i, img, 1, img.len() as int);
            assert(img.subrange(1, img.len() as int) =~= enc_list6(es));
            lemma_list6_round_trip(es, s, i + 1);
        },
    }
}

/// Parses an address list of `buf` at `pos`. Fails with a parse error on
/// truncated input or on a family byte other than 1 or 2.
pub fn parse_master_response(buf: &[u8], pos: usize) -> (r: Result<(usize, ServerList), Error>)
    ensures
        match r {
            Ok((p, v)) => dec_server_list(buf@, pos as int) == Some((p as int, v@))
                && wf_server_list(v@),
            Err(e) => dec_server_list(buf@, pos as int) is None && e is DataParseError,
        },
{
    let (p1, fam) = match read_u8(buf, pos) {
        Ok(x) => x,
        Err(e) => return Err(e),
    };
    match ServerType::from_num(fam) {
        Some(ServerType::IPv4) => {
            let (p2, es) = match parse_list4(buf, p1) {
                Ok(x) => x,
                Err(e) => return Err(e),
            };
            Ok((p2, ServerList::IPv4(es)))
        },
        Some(ServerType::IPv6) => {
            let (p2, es) = match parse_list6(buf, p1) {
                Ok(x) => x,
                Err(e) => return Err(e),
            };
            Ok((p2, ServerList::IPv6(es)))
        },
        None => Err(data_parse_error("unknown address family")),
    }
}

impl ByteWriter for ServerList {
    open spec fn enc_ok(&self) -> bool {
        wf_server_list(self@)
    }

    open spec fn enc(&self) -> Seq<u8> {
        enc_server_list(self@)
    }

    fn write_pkt(&self, buf: &mut Vec<u8>) -> (r: Result<(), Error>) {
        match self {
            ServerList::IPv4(data) => {
                buf.push(1);
                match data.write_pkt(buf) {
                    Ok(()) => (),
                    Err(e) => return Err(e),
                };
            },
            ServerList::IPv6(data) => {
                buf.push(2);
                match data.write_pkt(buf) {
                    Ok(()) => (),
                    Err(e) => return Err(e),
                };
            },
        }
        proof {
            assert(buf@ =~= old(buf)@ + self.enc());
        }
        Ok(())
    }
}

} // verus!
