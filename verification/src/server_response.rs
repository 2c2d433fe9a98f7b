use vstd::prelude::*;

verus! {

use vstd::bytes::*;
use vstd::slice::*;
use crate::errors::Error;
use crate::errors::data_parse_error;
use crate::errors::io_error;
use crate::util::ByteWriter;
use crate::util::bool_byte;
use crate::util::dec_str;
use crate::util::dec_u16;
use crate::util::dec_u32;
use crate::util::dec_u8;
use crate::util::enc_str;
use crate::util::has_no_nul;
use crate::util::lemma_dec_str_of_enc;
use crate::util::lemma_dec_u16_of;
use crate::util::lemma_dec_u32_of;
use crate::util::lemma_embedded_index;
use crate::util::lemma_embedded_subrange;
use crate::util::lemma_le_lengths;
use crate::util::push_u16;
use crate::util::push_u32;
use crate::util::read_string;
use crate::util::read_u16;
use crate::util::read_u32;
use crate::util::read_u8;
use crate::util::write_string;
use crate::util::zero_bytes;

// ==== Capacity counters (the protocol's second revision) ====================

/// Company and spectator capacity counters.
#[derive(Clone, Debug, PartialEq)]
pub struct V2Data {
    pub max_companies: u8,
    pub current_companies: u8,
    pub max_spectators: u8,
}

/// Wire image: the three counters, one byte each.
pub open spec fn enc_v2(d: V2Data) -> Seq<u8> {
    seq![d.max_companies, d.current_companies, d.max_spectators]
}

/// Reads the capacity counters at cursor `i`.
pub open spec fn dec_v2(s: Seq<u8>, i: int) -> Option<(int, V2Data)> {
    match dec_u8(s, i) {
        None => None,
        Some((i1, max_companies)) => match dec_u8(s, i1) {
            None => None,
            Some((i2, current_companies)) => match dec_u8(s, i2) {
                None => None,
                Some((i3, max_spectators)) => Some(
                    (i3, V2Data { max_companies, current_companies, max_spectators }),
                ),
            },
        },
    }
}

/// Reading an embedded counter image yields the encoded value back.
pub proof fn lemma_v2_round_trip(d: V2Data, s: Seq<u8>, i: int)
    requires
        0 <= i,
        i + 3 <= s.len(),
        s.subrange(i, i + 3) == enc_v2(d),
    ensures
        dec_v2(s, i) == Some((i + 3, d)),
{
    lemma_embedded_index(s, i, enc_v2(d), 0);
    lemma_embedded_index(s, i, enc_v2(d), 1);
    lemma_embedded_index(s, i, enc_v2(d), 2);
}

fn parse_v2_data(buf: &[u8], pos: usize) -> (r: Result<(usize, V2Data), Error>)
    ensures
        match r {
            Ok((p, v)) => dec_v2(buf@, pos as int) == Some((p as int, v)),
            Err(e) => dec_v2(buf@, pos as int) is None && e is DataParseError,
        },
{
    let (p1, max_companies) = match read_u8(buf, pos) {
        Ok(x) => x,
        Err(e) => return Err(e),
    };
    let (p2, current_companies) = match read_u8(buf, p1) {
        Ok(x) => x,
        Err(e) => return Err(e),
    };
    let (p3, max_spectators) = match read_u8(buf, p2) {
        Ok(x) => x,
        Err(e) => return Err(e),
    };
    Ok((p3, V2Data { max_companies, current_companies, max_spectators }))
}

impl ByteWriter for V2Data {
    open spec fn enc_ok(&self) -> bool {
        true
    }

    open spec fn enc(&self) -> Seq<u8> {
        enc_v2(*self)
    }

    fn write_pkt(&self, out: &mut Vec<u8>) -> (r: Result<(), Error>) {
        out.push(self.max_companies);
        out.push(self.current_companies);
        out.push(self.max_spectators);
        proof {
            assert(out@ =~= old(out)@ + self.enc());
        }
        Ok(())
    }
}

// ==== Date range (the protocol's third revision) ============================

/// The in-game current date and the game's start date, as 32-bit
/// seconds-since-epoch timestamps.
#[derive(Clone, Debug, PartialEq)]
pub struct V3Data {
    pub game_date: u32,
    pub start_date: u32,
}

/// Wire image: the two timestamps in 32-bit little-endian.
pub open spec fn enc_v3(d: V3Data) -> Seq<u8> {
    spec_u32_to_le_bytes(d.game_date) + spec_u32_to_le_bytes(d.start_date)
}

/// Reads the date range at cursor `i`.
pub open spec fn dec_v3(s: Seq<u8>, i: int) -> Option<(int, V3Data)> {
    match dec_u32(s, i) {
        None => None,
        Some((i1, game_date)) => match dec_u32(s, i1) {
            None => None,
            Some((i2, start_date)) => Some((i2, V3Data { game_date, start_date })),
        },
    }
}

/// Reading an embedded date-range image yields the encoded value back.
pub proof fn lemma_v3_round_trip(d: V3Data, s: Seq<u8>, i: int)
    requires
        0 <= i,
        i + 8 <= s.len(),
        s.subrange(i, i + 8) == enc_v3(d),
    ensures
        dec_v3(s, i) == Some((i + 8, d)),
{
    lemma_le_lengths();
    let img = enc_v3(d);
    lemma_embedded_subrange(s, i, img, 0, 4);
    assert(img.subrange(0, 4) =~= spec_u32_to_le_bytes(d.game_date));
    lemma_dec_u32_of(s, i, d.game_date);
    lemma_embedded_subrange(s, i, img, 4, 8);
    assert(img.subrange(4, 8) =~= spec_u32_to_le_bytes(d.start_date));
    lemma_dec_u32_of(s, i + 4, d.start_date);
}

fn parse_v3_data(buf: &[u8], pos: usize) -> (r: Result<(usize, V3Data), Error>)
    ensures
        match r {
            Ok((p, v)) => dec_v3(buf@, pos as int) == Some((p as int, v)),
            Err(e) => dec_v3(buf@, pos as int) is None && e is DataParseError,
        },
{
    let (p1, game_date) = match read_u32(buf, pos) {
        Ok(x) => x,
        Err(e) => return Err(e),
    };
    let (p2, start_date) = match read_u32(buf, p1) {
        Ok(x) => x,
        Err(e) => return Err(e),
    };
    Ok((p2, V3Data { game_date, start_date }))
}

impl ByteWriter for V3Data {
    open spec fn enc_ok(&self) -> bool {
        true
    }

    open spec fn enc(&self) -> Seq<u8> {
        enc_v3(*self)
    }

    fn write_pkt(&self, out: &mut Vec<u8>) -> (r: Result<(), Error>) {
        push_u32(out, self.game_date);
        push_u32(out, self.start_date);
        proof {
            assert(out@ =~= old(out)@ + self.enc());
        }
        Ok(())
    }
}

// ==== Active content (the protocol's fourth revision) =======================

/// A content fingerprint: exactly sixteen bytes.
#[derive(Clone, Debug, PartialEq)]
pub struct NewGRFHash(pub Vec<u8>);

impl View for NewGRFHash {
    type V = Seq<u8>;

    open spec fn view(&self) -> Seq<u8> {
        self.0@
    }
}

/// The length a content fingerprint must have.
pub open spec fn wf_hash(h: Seq<u8>) -> bool {
    h.len() == 16
}

/// The ids of an entry sequence are strictly ascending, so every id occurs
/// once and the encoder's output order is fixed.
pub open spec fn sorted_ids(es: Seq<(u32, Seq<u8>)>) -> bool {
    forall|a: int, b: int| 0 <= a < b < es.len() ==> (#[trigger] es[a]).0 < (#[trigger] es[b]).0
}

/// Every fingerprint in the sequence has its required length.
pub open spec fn wf_hashes(es: Seq<(u32, Seq<u8>)>) -> bool {
    forall|k: int| 0 <= k < es.len() ==> wf_hash((#[trigger] es[k]).1)
}

/// An encodable active-content set: at most 255 entries, ascending ids,
/// sixteen-byte fingerprints.
pub open spec fn wf_v4_entries(es: Seq<(u32, Seq<u8>)>) -> bool {
    &&& es.len() <= 255
    &&& sorted_ids(es)
    &&& wf_hashes(es)
}

/// The set of content a server has active, as id/fingerprint pairs held in
/// ascending id order.
#[derive(Clone, Debug, PartialEq)]
pub struct V4Data {
    pub active_newgrf: Vec<(u32, NewGRFHash)>,
}

/// The id/fingerprint pairs a raw entry vector holds, as the contracts see
/// them.
pub open spec fn newgrf_view(v: Seq<(u32, NewGRFHash)>) -> Seq<(u32, Seq<u8>)> {
    Seq::new(v.len(), |i: int| (v[i].0, v[i].1@))
}

impl View for V4Data {
    type V = Seq<(u32, Seq<u8>)>;

    open spec fn view(&self) -> Seq<(u32, Seq<u8>)> {
        newgrf_view(self.active_newgrf@)
    }
}

/// Wire image of one entry: the id in 32-bit little-endian, then the
/// sixteen fingerprint bytes.
pub open spec fn enc_v4_entry(e: (u32, Seq<u8>)) -> Seq<u8> {
    spec_u32_to_le_bytes(e.0) + e.1
}

/// Wire image of the entries, in the order held.
pub open spec fn enc_v4_entries(es: Seq<(u32, Seq<u8>)>) -> Seq<u8>
    decreases es.len(),
{
    if es.len() == 0 {
        Seq::empty()
    } else {
        enc_v4_entry(es[0]) + enc_v4_entries(es.skip(1))
    }
}

/// Wire image of the whole set: the entry count as one byte, then the
/// entries in ascending id order.
pub open spec fn enc_v4(es: Seq<(u32, Seq<u8>)>) -> Seq<u8> {
    seq![es.len() as u8] + enc_v4_entries(es)
}

/// Reads one entry at cursor `i`.
pub open spec fn dec_v4_entry(s: Seq<u8>, i: int) -> Option<(int, (u32, Seq<u8>))> {
    match dec_u32(s, i) {
        None => None,
        Some((i1, id)) => {
            if i1 + 16 <= s.len() {
                Some((i1 + 16, (id, s.subrange(i1, i1 + 16))))
            } else {
                None
            }
        },
    }
}

/// Reads `n` entries at cursor `i`, in input order.
pub open spec fn dec_v4_entries(s: Seq<u8>, i: int, n: nat) -> Option<(int, Seq<(u32, Seq<u8>)>)>
    decreases n,
{
    if n == 0 {
        Some((i, Seq::empty()))
    } else {
        match dec_v4_entry(s, i) {
            None => None,
            Some((i1, e)) => match dec_v4_entries(s, i1, (n - 1) as nat) {
                None => None,
                Some((i2, rest)) => Some((i2, seq![e] + rest)),
            },
        }
    }
}

/// Places an entry into an id-ordered sequence: before the first larger id,
/// replacing an equal id. A later entry for the same id wins, as it does
/// when the raw pairs are folded into a map.
pub open spec fn v4_insert(es: Seq<(u32, Seq<u8>)>, id: u32, h: Seq<u8>) -> Seq<(u32, Seq<u8>)>
    decreases es.len(),
{
    if es.len() == 0 {
        seq![(id, h)]
    } else if id < es[0].0 {
        seq![(id, h)] + es
    } else if id == es[0].0 {
        seq![(id, h)] + es.skip(1)
    } else {
        seq![es[0]] + v4_insert(es.skip(1), id, h)
    }
}

/// Folds raw id/fingerprint pairs, in input order, into an id-ordered
/// sequence.
pub open spec fn v4_fold(raw: Seq<(u32, Seq<u8>)>) -> Seq<(u32, Seq<u8>)>
    decreases raw.len(),
{
    if raw.len() == 0 {
        Seq::empty()
    } else {
        v4_insert(v4_fold(raw.drop_last()), raw.last().0, raw.last().1)
    }
}

/// Reads an active-content set at cursor `i`: the count byte, then that many
/// entries, folded into id order.
pub open spec fn dec_v4(s: Seq<u8>, i: int) -> Option<(int, Seq<(u32, Seq<u8>)>)> {
    match dec_u8(s, i) {
        None => None,
        Some((i1, n)) => match dec_v4_entries(s, i1, n as nat) {
            None => None,
            Some((i2, raw)) => Some((i2, v4_fold(raw))),
        },
    }
}

// ---- facts about insert and fold ----

/// Inserting keeps ids ordered, keeps fingerprints well-formed, grows the
/// length by at most one, and keeps every id at or above the smaller of the
/// old front id and the new id.
pub proof fn lemma_v4_insert_props(es: Seq<(u32, Seq<u8>)>, id: u32, h: Seq<u8>)
    requires
        sorted_ids(es),
        wf_hashes(es),
        wf_hash(h),
    ensures
        sorted_ids(v4_insert(es, id, h)),
        wf_hashes(v4_insert(es, id, h)),
        v4_insert(es, id, h).len() <= es.len() + 1,
        v4_insert(es, id, h).len() >= 1,
        forall|k: int|
            0 <= k < v4_insert(es, id, h).len() ==> (#[trigger] v4_insert(es, id, h)[k]).0 >= id
                || (es.len() > 0 && v4_insert(es, id, h)[k].0 >= es[0].0),
    decreases es.len(),
{
    if es.len() == 0 {
    } else if id < es[0].0 {
    } else if id == es[0].0 {
    } else {
        assert(sorted_ids(es.skip(1)));
        assert(wf_hashes(es.skip(1)));
        lemma_v4_insert_props(es.skip(1), id, h);
        let r = seq![es[0]] + v4_insert(es.skip(1), id, h);
        assert forall|a: int, b: int| 0 <= a < b < r.len() implies (#[trigger] r[a]).0 < (
        #[trigger] r[b]).0 by {
            if a > 0 {
                assert(r[a] == v4_insert(es.skip(1), id, h)[a - 1]);
            } else {
                assert(r[b] == v4_insert(es.skip(1), id, h)[b - 1]);
                if es.len() > 1 {
                    assert(es.skip(1)[0] == es[1]);
                }
            }
        }
    }
}

/// Folding raw pairs yields an ordered, well-formed set no larger than the
/// raw input.
pub proof fn lemma_v4_fold_props(raw: Seq<(u32, Seq<u8>)>)
    requires
        wf_hashes(raw),
    ensures
        sorted_ids(v4_fold(raw)),
        wf_hashes(v4_fold(raw)),
        v4_fold(raw).len() <= raw.len(),
    decreases raw.len(),
{
    if raw.len() > 0 {
        assert(wf_hashes(raw.drop_last()));
        lemma_v4_fold_props(raw.drop_last());
        assert(wf_hash(raw.last().1));
        lemma_v4_insert_props(v4_fold(raw.drop_last()), raw.last().0, raw.last().1);
    }
}

/// Inserting an id larger than every id present appends at the end.
pub proof fn lemma_v4_insert_append(es: Seq<(u32, Seq<u8>)>, id: u32, h: Seq<u8>)
    requires
        forall|k: int| 0 <= k < es.len() ==> (#[trigger] es[k]).0 < id,
    ensures
        v4_insert(es, id, h) == es.push((id, h)),
    decreases es.len(),
{
    if es.len() == 0 {
        assert(v4_insert(es, id, h) =~= es.push((id, h)));
    } else {
        lemma_v4_insert_append(es.skip(1), id, h);
        assert(v4_insert(es, id, h) =~= es.push((id, h)));
    }
}

/// Folding a sequence that is already in ascending id order gives it back
/// unchanged.
pub proof fn lemma_v4_fold_of_sorted(es: Seq<(u32, Seq<u8>)>)
    requires
        sorted_ids(es),
    ensures
        v4_fold(es) == es,
    decreases es.len(),
{
    if es.len() > 0 {
        assert(sorted_ids(es.drop_last()));
        lemma_v4_fold_of_sorted(es.drop_last());
        lemma_v4_insert_append(es.drop_last(), es.last().0, es.last().1);
        assert(es.drop_last().push((es.last().0, es.last().1)) =~= es);
    }
}

/// Entry images concatenate: the image of `a + b` is the image of `a`
/// followed by the image of `b`.
pub proof fn lemma_enc_v4_entries_concat(a: Seq<(u32, Seq<u8>)>, b: Seq<(u32, Seq<u8>)>)
    ensures
        enc_v4_entries(a + b) == enc_v4_entries(a) + enc_v4_entries(b),
    decreases a.len(),
{
    if a.len() == 0 {
        assert(a + b =~= b);
        assert(enc_v4_entries(a) + enc_v4_entries(b) =~= enc_v4_entries(b));
    } else {
        lemma_enc_v4_entries_concat(a.skip(1), b);
        assert((a + b).skip(1) =~= a.skip(1) + b);
        assert(enc_v4_entries(a + b) =~= enc_v4_entries(a) + enc_v4_entries(b));
    }
}

/// With well-formed fingerprints each entry image is twenty bytes long.
pub proof fn lemma_enc_v4_entries_len(es: Seq<(u32, Seq<u8>)>)
    requires
        wf_hashes(es),
    ensures
        enc_v4_entries(es).len() == 20 * es.len(),
    decreases es.len(),
{
    lemma_le_lengths();
    if es.len() > 0 {
        assert(wf_hashes(es.skip(1)));
        lemma_enc_v4_entries_len(es.skip(1));
    }
}

/// Reading `n` embedded entry images yields the encoded entries back.
pub proof fn lemma_v4_entries_round_trip(es: Seq<(u32, Seq<u8>)>, s: Seq<u8>, i: int)
    requires
        wf_hashes(es),
        0 <= i,
        i + enc_v4_entries(es).len() <= s.len(),
        s.subrange(i, i + enc_v4_entries(es).len()) == enc_v4_entries(es),
    ensures
        dec_v4_entries(s, i, es.len()) == Some((i + enc_v4_entries(es).len(), es)),
    decreases es.len(),
{
    lemma_le_lengths();
    lemma_enc_v4_entries_len(es);
    if es.len() > 0 {
        let img = enc_v4_entries(es);
        let e0 = enc_v4_entry(es[0]);
        assert(e0.len() == 20);
        // the first entry sits at the front of the image
        lemma_embedded_subrange(s, i, img, 0, 4);
        assert(img.subrange(0, 4) =~= spec_u32_to_le_bytes(es[0].0));
        lemma_dec_u32_of(s, i, es[0].0);
        lemma_embedded_subrange(s, i, img, 4, 20);
        assert(img.subrange(4, 20) =~= es[0].1);
        assert(dec_v4_entry(s, i) == Some((i + 20, (es[0].0, es[0].1))));
        assert((es[0].0, es[0].1) == es[0]);
        // the remaining entries sit just past it
        assert(wf_hashes(es.skip(1)));
        lemma_enc_v4_entries_len(es.skip(1));
        lemma_embedded_subrange(s, i, img, 20, img.len() as int);
        assert(img.subrange(20, img.len() as int) =~= enc_v4_entries(es.skip(1)));
        lemma_v4_entries_round_trip(es.skip(1), s, i + 20);
        assert(seq![es[0]] + es.skip(1) =~= es);
    }
}

/// Reading an embedded active-content image yields the encoded set back.
pub proof fn lemma_v4_round_trip(es: Seq<(u32, Seq<u8>)>, s: Seq<u8>, i: int)
    requires
        wf_v4_entries(es),
        0 <= i,
        i + enc_v4(es).len() <= s.len(),
        s.subrange(i, i + enc_v4(es).len()) == enc_v4(es),
    ensures
        dec_v4(s, i) == Some((i + enc_v4(es).len(), es)),
{
    lemma_enc_v4_entries_len(es);
    let img = enc_v4(es);
    lemma_embedded_index(s, i, img, 0);
    assert(img[0] == es.len() as u8);
    lemma_embedded_subrange(s, i, img, 1, img.len() as int);
    assert(img.subrange(1, img.len() as int) =~= enc_v4_entries(es));
    lemma_v4_entries_round_trip(es, s, i + 1);
    lemma_v4_fold_of_sorted(es);
}

// ---- executable codec ----

/// Where the scan for `id` stops, the insert takes one of three shapes:
/// replace the equal id, or splice the new pair in before position `k`.
pub proof fn lemma_v4_insert_at(es: Seq<(u32, Seq<u8>)>, id: u32, h: Seq<u8>, k: int)
    requires
        0 <= k <= es.len(),
        forall|m: int| 0 <= m < k ==> (#[trigger] es[m]).0 < id,
        k < es.len() ==> es[k].0 >= id,
    ensures
        v4_insert(es, id, h) == if k < es.len() && es[k].0 == id {
            es.take(k) + seq![(id, h)] + es.skip(k + 1)
        } else {
            es.take(k) + seq![(id, h)] + es.skip(k)
        },
    decreases k,
{
    if k == 0 {
        if es.len() == 0 {
            assert(v4_insert(es, id, h) =~= es.take(0) + seq![(id, h)] + es.skip(0));
        } else if es[0].0 == id {
            assert(v4_insert(es, id, h) =~= es.take(0) + seq![(id, h)] + es.skip(1));
        } else {
            assert(v4_insert(es, id, h) =~= es.take(0) + seq![(id, h)] + es.skip(0));
        }
    } else {
        assert(es[0].0 < id);
        lemma_v4_insert_at(es.skip(1), id, h, k - 1);
        if k < es.len() && es[k].0 == id {
            assert(es.skip(1)[k - 1] == es[k]);
            assert(v4_insert(es, id, h) =~= es.take(k) + seq![(id, h)] + es.skip(k + 1)) by {
                assert(es.skip(1).take(k - 1) =~= es.take(k).skip(1));
                assert(es.skip(1).skip(k) =~= es.skip(k + 1));
            }
        } else {
            assert(v4_insert(es, id, h) =~= es.take(k) + seq![(id, h)] + es.skip(k)) by {
                assert(es.skip(1).take(k - 1) =~= es.take(k).skip(1));
                assert(es.skip(1).skip(k - 1) =~= es.skip(k));
            }
        }
    }
}

/// Places one id/fingerprint pair into the ordered entry vector, replacing
/// the entry with the same id if one is present.
fn insert_newgrf(entries: &mut Vec<(u32, NewGRFHash)>, id: u32, hash: NewGRFHash)
    ensures
        newgrf_view(final(entries)@) == v4_insert(newgrf_view(old(entries)@), id, hash@),
{
    let ghost orig = newgrf_view(entries@);
    let n = entries.len();
    let mut k: usize = 0;
    while k < n && entries[k].0 < id
        invariant
            k <= n,
            n == entries@.len(),
            entries@ == old(entries)@,
            orig == newgrf_view(entries@),
            forall|m: int| 0 <= m < k ==> (#[trigger] orig[m]).0 < id,
        decreases n - k,
    {
        proof {
            assert(orig[k as int] == (entries@[k as int].0, entries@[k as int].1@));
        }
        k = k + 1;
    }
    proof {
        if k < n {
            assert(orig[k as int] == (entries@[k as int].0, entries@[k as int].1@));
        }
        lemma_v4_insert_at(orig, id, hash@, k as int);
    }
    if k < n && entries[k].0 == id {
        entries.remove(k);
        entries.insert(k, (id, hash));
        proof {
            assert(newgrf_view(entries@) =~= orig.take(k as int) + seq![(id, hash@)] + orig.skip(
                k as int + 1,
            ));
        }
    } else {
        entries.insert(k, (id, hash));
        proof {
            assert(newgrf_view(entries@) =~= orig.take(k as int) + seq![(id, hash@)] + orig.skip(
                k as int,
            ));
        }
    }
}

/// Parses an active-content set of `buf` at `pos`: the count byte, then that
/// many id/fingerprint entries, collected in ascending id order.
fn parse_v4_data(buf: &[u8], pos: usize) -> (r: Result<(usize, V4Data), Error>)
    ensures
        match r {
            Ok((p, v)) => dec_v4(buf@, pos as int) == Some((p as int, v@)) && wf_v4_entries(v@),
            Err(e) => dec_v4(buf@, pos as int) is None && e is DataParseError,
        },
{
    let (p1, n) = match read_u8(buf, pos) {
        Ok(x) => x,
        Err(e) => return Err(e),
    };
    let mut entries: Vec<(u32, NewGRFHash)> = Vec::new();
    let ghost mut raw: Seq<(u32, Seq<u8>)> = Seq::empty();
    let mut cur = p1;
    let mut k: usize = 0;
    while k < n as usize
        invariant
            k <= n,
            pos < p1 <= cur <= buf@.len(),
            raw.len() == k,
            wf_hashes(raw),
            newgrf_view(entries@) == v4_fold(raw),
            dec_v4_entries(buf@, p1 as int, n as nat) == match dec_v4_entries(
                buf@,
                cur as int,
                (n - k) as nat,
            ) {
                Some((j, rest)) => Some((j, raw + rest)),
                None => None,
            },
            dec_u8(buf@, pos as int) == Some((p1 as int, n)),
        decreases n - k,
    {
        let (q1, id) = match read_u32(buf, cur) {
            Ok(x) => x,
            Err(e) => {
                proof {
                    assert(dec_v4_entries(buf@, cur as int, (n - k) as nat) is None);
                }
                return Err(e);
            },
        };
        if q1 >= buf.len() || buf.len() - q1 < 16 {
            return Err(data_parse_error("content fingerprint is truncated"));
        }
        let hash_bytes = slice_to_vec(slice_subrange(buf, q1, q1 + 16));
        let hash = NewGRFHash(hash_bytes);
        let ghost prev_raw = raw;
        insert_newgrf(&mut entries, id, hash);
        proof {
            raw = raw.push((id, hash@));
            assert(raw.drop_last() =~= prev_raw);
            assert(v4_fold(raw) == v4_insert(v4_fold(prev_raw), id, hash@));
            assert(dec_v4_entry(buf@, cur as int) == Some((q1 + 16, (id, hash@))));
            assert forall|m: int| 0 <= m < raw.len() implies wf_hash((#[trigger] raw[m]).1) by {
                if m < prev_raw.len() {
                    assert(raw[m] == prev_raw[m]);
                }
            }
            assert(dec_v4_entries(buf@, cur as int, (n - k) as nat) == match dec_v4_entries(
                buf@,
                q1 + 16,
                (n - k - 1) as nat,
            ) {
                Some((j, rest)) => Some((j, seq![(id, hash@)] + rest)),
                None => None,
            });
            assert(forall|rest: Seq<(u32, Seq<u8>)>|
                prev_raw + (seq![(id, hash@)] + rest) =~= raw + rest);
        }
        cur = q1 + 16;
        k = k + 1;
    }
    proof {
        assert(dec_v4_entries(buf@, cur as int, 0) == Some::<(int, Seq<(u32, Seq<u8>)>)>(
            (cur as int, Seq::empty()),
        ));
        assert(raw + Seq::<(u32, Seq<u8>)>::empty() =~= raw);
        lemma_v4_fold_props(raw);
    }
    Ok((cur, V4Data { active_newgrf: entries }))
}

impl ByteWriter for V4Data {
    open spec fn enc_ok(&self) -> bool {
        wf_v4_entries(self@)
    }

    open spec fn enc(&self) -> Seq<u8> {
        enc_v4(self@)
    }

    fn write_pkt(&self, out: &mut Vec<u8>) -> (r: Result<(), Error>) {
        let n = self.active_newgrf.len();
        if n > 255 {
            return Err(io_error("an active content set may hold at most 255 entries"));
        }
        // validate before writing, so a malformed set leaves `out` untouched
        let mut k: usize = 0;
        while k < n
            invariant
                k <= n,
                n == self.active_newgrf@.len(),
                n <= 255,
                forall|m: int| 0 <= m < k ==> wf_hash((#[trigger] self@[m]).1),
                forall|m: int| 0 < m <= k && m < n ==> (#[trigger] self@[m - 1]).0 < self@[m].0,
                out@ == old(out)@,
            decreases n - k,
        {
            proof {
                assert(self@[k as int] == (self.active_newgrf@[k as int].0,
                self.active_newgrf@[k as int].1@));
            }
            if self.active_newgrf[k].1.0.len() != 16 {
                return Err(io_error("a content fingerprint must be sixteen bytes"));
            }
            if k + 1 < n {
                proof {
                    assert(self@[k as int + 1] == (self.active_newgrf@[k as int + 1].0,
                    self.active_newgrf@[k as int + 1].1@));
                }
                if self.active_newgrf[k].0 >= self.active_newgrf[k + 1].0 {
                    return Err(io_error("active content ids must be strictly ascending"));
                }
            }
            k = k + 1;
        }
        proof {
            assert forall|a: int, b: int| 0 <= a < b < self@.len() implies (#[trigger] self@[a]).0
                < (#[trigger] self@[b]).0 by {
                lemma_adjacent_sorted(self@, a, b);
            }
        }
        out.push(n as u8);
        let mut w: usize = 0;
        while w < n
            invariant
                w <= n,
                n == self.active_newgrf@.len(),
                wf_v4_entries(self@),
                out@ == old(out)@ + seq![n as u8] + enc_v4_entries(self@.take(w as int)),
            decreases n - w,
        {
            proof {
                assert(self@[w as int] == (self.active_newgrf@[w as int].0,
                self.active_newgrf@[w as int].1@));
            }
            push_u32(out, self.active_newgrf[w].0);
            out.extend_from_slice(self.active_newgrf[w].1.0.as_slice());
            proof {
                assert(self@.take(w as int + 1) =~= self@.take(w as int) + seq![self@[w as int]]);
                lemma_enc_v4_entries_concat(self@.take(w as int), seq![self@[w as int]]);
                assert(seq![self@[w as int]].skip(1) =~= Seq::<(u32, Seq<u8>)>::empty());
                assert(enc_v4_entries(Seq::<(u32, Seq<u8>)>::empty()) =~= Seq::<u8>::empty());
                assert(enc_v4_entries(seq![self@[w as int]]) =~= enc_v4_entry(self@[w as int]));
                assert(out@ =~= old(out)@ + seq![n as u8] + enc_v4_entries(
                    self@.take(w as int + 1),
                ));
            }
            w = w + 1;
        }
        proof {
            assert(self@.take(n as int) =~= self@);
            assert(out@ =~= old(out)@ + enc_v4(self@));
        }
        Ok(())
    }
}

/// In a sequence whose adjacent ids ascend, ids ascend across any distance.
pub proof fn lemma_adjacent_sorted(es: Seq<(u32, Seq<u8>)>, a: int, b: int)
    requires
        forall|m: int| 0 < m < es.len() ==> (#[trigger] es[m - 1]).0 < es[m].0,
        0 <= a < b < es.len(),
    ensures
        es[a].0 < es[b].0,
    decreases b - a,
{
    if a + 1 == b {
        assert(es[b - 1].0 < es[b].0);
    } else {
        lemma_adjacent_sorted(es, a, b - 1);
        assert(es[b - 1].0 < es[b].0);
    }
}

// ==== The versioned protocol block ==========================================

/// The leading block of a status response. Each revision is strictly
/// additive: the fourth carries the active-content set, the date range and
/// the counters, the third the date range and the counters, the second the
/// counters alone.
#[derive(Clone, Debug, PartialEq)]
pub enum ProtocolVer {
    V1,
    V2(V2Data),
    V3(V2Data, V3Data),
    V4(V2Data, V3Data, V4Data),
}

/// The protocol block as the contracts see it.
pub enum SpecProtocolVer {
    V1,
    V2(V2Data),
    V3(V2Data, V3Data),
    V4(V2Data, V3Data, Seq<(u32, Seq<u8>)>),
}

impl View for ProtocolVer {
    type V = SpecProtocolVer;

    open spec fn view(&self) -> SpecProtocolVer {
        match self {
            ProtocolVer::V1 => SpecProtocolVer::V1,
            ProtocolVer::V2(a) => SpecProtocolVer::V2(*a),
            ProtocolVer::V3(a, b) => SpecProtocolVer::V3(*a, *b),
            ProtocolVer::V4(a, b, c) => SpecProtocolVer::V4(*a, *b, c@),
        }
    }
}

/// The discriminant byte of a protocol block, 1 through 4.
pub open spec fn pv_num(p: SpecProtocolVer) -> u8 {
    match p {
        SpecProtocolVer::V1 => 1,
        SpecProtocolVer::V2(..) => 2,
        SpecProtocolVer::V3(..) => 3,
        SpecProtocolVer::V4(..) => 4,
    }
}

/// An encodable protocol block: only the active-content set can be out of
/// bounds.
pub open spec fn wf_pv(p: SpecProtocolVer) -> bool {
    match p {
        SpecProtocolVer::V4(_, _, es) => wf_v4_entries(es),
        _ => true,
    }
}

/// Wire image: the version byte, then the nested blocks most specific first
/// (the fourth revision's block, then the third's, then the second's).
pub open spec fn enc_pv(p: SpecProtocolVer) -> Seq<u8> {
    match p {
        SpecProtocolVer::V1 => seq![1u8],
        SpecProtocolVer::V2(v2) => seq![2u8] + enc_v2(v2),
        SpecProtocolVer::V3(v2, v3) => seq![3u8] + enc_v3(v3) + enc_v2(v2),
        SpecProtocolVer::V4(v2, v3, es) => seq![4u8] + enc_v4(es) + enc_v3(v3) + enc_v2(v2),
    }
}

/// Reads a protocol block at cursor `i`: the version byte decides which
/// nested blocks follow, most specific first. A version byte outside 1
/// through 4 reads as nothing.
pub open spec fn dec_pv(s: Seq<u8>, i: int) -> Option<(int, SpecProtocolVer)> {
    match dec_u8(s, i) {
        None => None,
        Some((i1, num)) => {
            if num == 1 {
                Some((i1, SpecProtocolVer::V1))
            } else if num == 2 {
                match dec_v2(s, i1) {
                    None => None,
                    Some((i2, v2)) => Some((i2, SpecProtocolVer::V2(v2))),
                }
            } else if num == 3 {
                match dec_v3(s, i1) {
                    None => None,
                    Some((i2, v3)) => match dec_v2(s, i2) {
                        None => None,
                        Some((i3, v2)) => Some((i3, SpecProtocolVer::V3(v2, v3))),
                    },
                }
            } else if num == 4 {
                match dec_v4(s, i1) {
                    None => None,
                    Some((i2, es)) => match dec_v3(s, i2) {
                        None => None,
                        Some((i3, v3)) => match dec_v2(s, i3) {
                            None => None,
                            Some((i4, v2)) => Some((i4, SpecProtocolVer::V4(v2, v3, es))),
                        },
                    },
                }
            } else {
                None
            }
        },
    }
}

/// Reading an embedded protocol-block image yields the encoded block back.
pub proof fn lemma_pv_round_trip(p: SpecProtocolVer, s: Seq<u8>, i: int)
    requires
        wf_pv(p),
        0 <= i,
        i + enc_pv(p).len() <= s.len(),
        s.subrange(i, i + enc_pv(p).len()) == enc_pv(p),
    ensures
        dec_pv(s, i) == Some((i + enc_pv(p).len(), p)),
{
    lemma_le_lengths();
    let img = enc_pv(p);
    lemma_embedded_index(s, i, img, 0);
    match p {
        SpecProtocolVer::V1 => {
        },
        SpecProtocolVer::V2(v2) => {
            lemma_embedded_subrange(s, i, img, 1, 4);
            assert(img.subrange(1, 4) =~= enc_v2(v2));
            lemma_v2_round_trip(v2, s, i + 1);
        },
        SpecProtocolVer::V3(v2, v3) => {
            lemma_embedded_subrange(s, i, img, 1, 9);
            assert(img.subrange(1, 9) =~= enc_v3(v3));
            lemma_v3_round_trip(v3, s, i + 1);
            lemma_embedded_subrange(s, i, img, 9, 12);
            assert(img.subrange(9, 12) =~= enc_v2(v2));
            lemma_v2_round_trip(v2, s, i + 9);
        },
        SpecProtocolVer::V4(v2, v3, es) => {
            lemma_enc_v4_entries_len(es);
            let c = 1 + enc_v4(es).len() as int;
            lemma_embedded_subrange(s, i, img, 1, c);
            assert(img.subrange(1, c) =~= enc_v4(es));
            lemma_v4_round_trip(es, s, i + 1);
            lemma_embedded_subrange(s, i, img, c, c + 8);
            assert(img.subrange(c, c + 8) =~= enc_v3(v3));
            lemma_v3_round_trip(v3, s, i + c);
            lemma_embedded_subrange(s, i, img, c + 8, c + 11);
            assert(img.subrange(c + 8, c + 11) =~= enc_v2(v2));
            lemma_v2_round_trip(v2, s, i + c + 8);
        },
    }
}

impl ProtocolVer {
    /// The version byte this block is written with.
    pub fn to_num(&self) -> (r: u8)
        ensures
            r == pv_num(self@),
    {
        match *self {
            ProtocolVer::V1 => 1,
            ProtocolVer::V2(..) => 2,
            ProtocolVer::V3(..) => 3,
            ProtocolVer::V4(..) => 4,
        }
    }
}

/// Parses a protocol block of `buf` at `pos`. Fails with a parse error on
/// truncated input or on a version byte outside 1 through 4.
pub fn protocol_ver(buf: &[u8], pos: usize) -> (r: Result<(usize, ProtocolVer), Error>)
    ensures
        match r {
            Ok((p, v)) => dec_pv(buf@, pos as int) == Some((p as int, v@)) && wf_pv(v@),
            Err(e) => dec_pv(buf@, pos as int) is None && e is DataParseError,
        },
{
    let (p1, num) = match read_u8(buf, pos) {
        Ok(x) => x,
        Err(e) => return Err(e),
    };
    if num == 1 {
        Ok((p1, ProtocolVer::V1))
    } else if num == 2 {
        let (p2, v2) = match parse_v2_data(buf, p1) {
            Ok(x) => x,
            Err(e) => return Err(e),
        };
        Ok((p2, ProtocolVer::V2(v2)))
    } else if num == 3 {
        let (p2, v3) = match parse_v3_data(buf, p1) {
            Ok(x) => x,
            Err(e) => return Err(e),
        };
        let (p3, v2) = match parse_v2_data(buf, p2) {
            Ok(x) => x,
            Err(e) => return Err(e),
        };
        Ok((p3, ProtocolVer::V3(v2, v3)))
    } else if num == 4 {
        let (p2, v4) = match parse_v4_data(buf, p1) {
            Ok(x) => x,
            Err(e) => return Err(e),
        };
        let (p3, v3) = match parse_v3_data(buf, p2) {
            Ok(x) => x,
            Err(e) => return Err(e),
        };
        let (p4, v2) = match parse_v2_data(buf, p3) {
            Ok(x) => x,
            Err(e) => return Err(e),
        };
        Ok((p4, ProtocolVer::V4(v2, v3, v4)))
    } else {
        Err(data_parse_error("unknown protocol version"))
    }
}

impl ByteWriter for ProtocolVer {
    open spec fn enc_ok(&self) -> bool {
        wf_pv(self@)
    }

    open spec fn enc(&self) -> Seq<u8> {
        enc_pv(self@)
    }

    fn write_pkt(&self, out: &mut Vec<u8>) -> (r: Result<(), Error>) {
        out.push(self.to_num());
        match self {
            ProtocolVer::V1 => {
            },
            ProtocolVer::V2(v2data) => {
                match v2data.write_pkt(out) {
                    Ok(()) => (),
                    Err(e) => return Err(e),
                };
            },
            ProtocolVer::V3(v2data, v3data) => {
                match v3data.write_pkt(out) {
                    Ok(()) => (),
                    Err(e) => return Err(e),
                };
                match v2data.write_pkt(out) {
                    Ok(()) => (),
                    Err(e) => return Err(e),
                };
            },
            ProtocolVer::V4(v2data, v3data, v4data) => {
                match v4data.write_pkt(out) {
                    Ok(()) => (),
                    Err(e) => return Err(e),
                };
                match v3data.write_pkt(out) {
                    Ok(()) => (),
                    Err(e) => return Err(e),
                };
                match v2data.write_pkt(out) {
                    Ok(()) => (),
                    Err(e) => return Err(e),
                };
            },
        }
        proof {
            assert(out@ =~= old(out)@ + self.enc());
        }
        Ok(())
    }
}

// ==== The status response ===================================================

/// A game server's answer to a status query: the versioned protocol block,
/// then the server's and the game's descriptive fields.
#[derive(Clone, Debug, PartialEq)]
pub struct ServerResponse {
    pub protocol_ver: ProtocolVer,
    pub server_name: Vec<u8>,
    pub server_revision: Vec<u8>,
    pub server_lang: u8,
    pub use_password: bool,
    pub clients_max: u8,
    pub clients_on: u8,
    pub spectators_on: u8,
    pub map_name: Vec<u8>,
    pub map_width: u16,
    pub map_height: u16,
    pub map_set: u8,
    pub dedicated: bool,
}

/// The status response as the contracts see it.
pub struct SpecServerResponse {
    pub protocol_ver: SpecProtocolVer,
    pub server_name: Seq<u8>,
    pub server_revision: Seq<u8>,
    pub server_lang: u8,
    pub use_password: bool,
    pub clients_max: u8,
    pub clients_on: u8,
    pub spectators_on: u8,
    pub map_name: Seq<u8>,
    pub map_width: u16,
    pub map_height: u16,
    pub map_set: u8,
    pub dedicated: bool,
}

impl View for ServerResponse {
    type V = SpecServerResponse;

    open spec fn view(&self) -> SpecServerResponse {
        SpecServerResponse {
            protocol_ver: self.protocol_ver@,
            server_name: self.server_name@,
            server_revision: self.server_revision@,
            server_lang: self.server_lang,
            use_password: self.use_password,
            clients_max: self.clients_max,
            clients_on: self.clients_on,
            spectators_on: self.spectators_on,
            map_name: self.map_name@,
            map_width: self.map_width,
            map_height: self.map_height,
            map_set: self.map_set,
            dedicated: self.dedicated,
        }
    }
}

/// How many reserved bytes follow the counters: exactly four below the third
/// protocol revision, none from it on.
pub open spec fn reserved_len(p: SpecProtocolVer) -> nat {
    if pv_num(p) < 3 {
        4
    } else {
        0
    }
}

/// An encodable status response: an encodable protocol block and text fields
/// without embedded zero bytes.
pub open spec fn wf_server_response(r: SpecServerResponse) -> bool {
    &&& wf_pv(r.protocol_ver)
    &&& has_no_nul(r.server_name)
    &&& has_no_nul(r.server_revision)
    &&& has_no_nul(r.map_name)
}

/// Wire image: the protocol block, the two terminated texts, the language
/// byte, the password flag, the three counters, the reserved block of old
/// revisions, the terminated map name, the map dimensions in 16-bit
/// little-endian, the seed-set byte and the dedicated flag.
pub open spec fn enc_server_response(r: SpecServerResponse) -> Seq<u8> {
    enc_pv(r.protocol_ver) + enc_str(r.server_name) + enc_str(r.server_revision) + seq![
        r.server_lang,
        bool_byte(r.use_password),
        r.clients_max,
        r.clients_on,
        r.spectators_on,
    ] + zero_bytes(reserved_len(r.protocol_ver)) + enc_str(r.map_name) + spec_u16_to_le_bytes(
        r.map_width,
    ) + spec_u16_to_le_bytes(r.map_height) + seq![r.map_set, bool_byte(r.dedicated)]
}

/// Reads a status response at cursor `i`. Exactly four bytes after the
/// counters are skipped below the third protocol revision, none from it on;
/// their content is not inspected. Flag bytes read as true on any nonzero
/// value.
pub open spec fn dec_server_response(s: Seq<u8>, i: int) -> Option<(int, SpecServerResponse)> {
    match dec_pv(s, i) {
        None => None,
        Some((i1, protocol_ver)) => match dec_str(s, i1) {
            None => None,
            Some((i2, server_name)) => match dec_str(s, i2) {
                None => None,
                Some((i3, server_revision)) => match dec_u8(s, i3) {
                    None => None,
                    Some((i4, server_lang)) => match dec_u8(s, i4) {
                        None => None,
                        Some((i5, pw)) => match dec_u8(s, i5) {
                            None => None,
                            Some((i6, clients_max)) => match dec_u8(s, i6) {
                                None => None,
                                Some((i7, clients_on)) => match dec_u8(s, i7) {
                                    None => None,
                                    Some((i8, spectators_on)) => {
                                        let i9 = i8 + reserved_len(protocol_ver);
                                        if i9 > s.len() {
                                            None
                                        } else {
                                            match dec_str(s, i9) {
                                                None => None,
                                                Some((i10, map_name)) => match dec_u16(s, i10) {
                                                    None => None,
                                                    Some((i11, map_width)) => match dec_u16(
                                                        s,
                                                        i11,
                                                    ) {
                                                        None => None,
                                                        Some((i12, map_height)) => match dec_u8(
                                                            s,
                                                            i12,
                                                        ) {
                                                            None => None,
                                                            Some((i13, map_set)) => match dec_u8(
                                                                s,
                                                                i13,
                                                            ) {
                                                                None => None,
                                                                Some((i14, db)) => Some(
                                                                    (
                                                                        i14,
                                                                        SpecServerResponse {
                                                                            protocol_ver,
                                                                            server_name,
                                                                            server_revision,
                                                                            server_lang,
                                                                            use_password: pw != 0,
                                                                            clients_max,
                                                                            clients_on,
                                                                            spectators_on,
                                                                            map_name,
                                                                            map_width,
                                                                            map_height,
                                                                            map_set,
                                                                            dedicated: db != 0,
                                                                        },
                                                                    ),
                                                                ),
                                                            },
                                                        },
                                                    },
                                                },
                                            }
                                        }
                                    },
                                },
                            },
                        },
                    },
                },
            },
        },
    }
}

/// Reading an embedded status-response image yields the encoded value back.
pub proof fn lemma_server_response_round_trip(r: SpecServerResponse, s: Seq<u8>, i: int)
    requires
        wf_server_response(r),
        0 <= i,
        i + enc_server_response(r).len() <= s.len(),
        s.subrange(i, i + enc_server_response(r).len()) == enc_server_response(r),
    ensures
        dec_server_response(s, i) == Some((i + enc_server_response(r).len(), r)),
{
    lemma_le_lengths();
    let img = enc_server_response(r);
    let a = enc_pv(r.protocol_ver).len() as int;
    let o2 = a + r.server_name.len() + 1;
    let o3 = o2 + r.server_revision.len() + 1;
    let o4 = o3 + 5;
    let o5 = o4 + reserved_len(r.protocol_ver);
    let o6 = o5 + r.map_name.len() + 1;
    let o7 = o6 + 4;
    let total = o7 + 2;
    assert(img.len() == total);
    lemma_embedded_subrange(s, i, img, 0, a);
    assert(img.subrange(0, a) =~= enc_pv(r.protocol_ver));
    lemma_pv_round_trip(r.protocol_ver, s, i);
    lemma_embedded_subrange(s, i, img, a, o2);
    assert(img.subrange(a, o2) =~= enc_str(r.server_name));
    lemma_dec_str_of_enc(s, i + a, r.server_name);
    lemma_embedded_subrange(s, i, img, o2, o3);
    assert(img.subrange(o2, o3) =~= enc_str(r.server_revision));
    lemma_dec_str_of_enc(s, i + o2, r.server_revision);
    lemma_embedded_index(s, i, img, o3);
    assert(img[o3] == r.server_lang);
    lemma_embedded_index(s, i, img, o3 + 1);
    assert(img[o3 + 1] == bool_byte(r.use_password));
    lemma_embedded_index(s, i, img, o3 + 2);
    assert(img[o3 + 2] == r.clients_max);
    lemma_embedded_index(s, i, img, o3 + 3);
    assert(img[o3 + 3] == r.clients_on);
    lemma_embedded_index(s, i, img, o3 + 4);
    assert(img[o3 + 4] == r.spectators_on);
    lemma_embedded_subrange(s, i, img, o5, o6);
    assert(img.subrange(o5, o6) =~= enc_str(r.map_name));
    lemma_dec_str_of_enc(s, i + o5, r.map_name);
    lemma_embedded_subrange(s, i, img, o6, o6 + 2);
    assert(img.subrange(o6, o6 + 2) =~= spec_u16_to_le_bytes(r.map_width));
    lemma_dec_u16_of(s, i + o6, r.map_width);
    lemma_embedded_subrange(s, i, img, o6 + 2, o7);
    assert(img.subrange(o6 + 2, o7) =~= spec_u16_to_le_bytes(r.map_height));
    lemma_dec_u16_of(s, i + o6 + 2, r.map_height);
    lemma_embedded_index(s, i, img, o7);
    assert(img[o7] == r.map_set);
    lemma_embedded_index(s, i, img, o7 + 1);
    assert(img[o7 + 1] == bool_byte(r.dedicated));
    assert((bool_byte(r.use_password) != 0) == r.use_password);
    assert((bool_byte(r.dedicated) != 0) == r.dedicated);
}

/// Version gating of the reserved block: below the third protocol revision
/// a status-response image carries exactly four zero bytes between the
/// spectator counter and the map name, and from the third revision on it
/// carries none — the image's length accounts for every other field
/// exactly. The reader mirrors this: `dec_server_response` advances the
/// cursor by `reserved_len` of the protocol block it just read, and by
/// nothing else, before the map name.
pub proof fn lemma_version_gating(r: SpecServerResponse)
    requires
        wf_server_response(r),
    ensures
        pv_num(r.protocol_ver) < 3 ==> reserved_len(r.protocol_ver) == 4,
        pv_num(r.protocol_ver) >= 3 ==> reserved_len(r.protocol_ver) == 0,
        enc_server_response(r).len() == enc_pv(r.protocol_ver).len() + r.server_name.len()
            + r.server_revision.len() + r.map_name.len() + 14 + reserved_len(r.protocol_ver),
        ({
            let o4 = enc_pv(r.protocol_ver).len() + r.server_name.len() + r.server_revision.len()
                + 7;
            enc_server_response(r).subrange(
                o4 as int,
                o4 + reserved_len(r.protocol_ver) as int,
            ) == zero_bytes(reserved_len(r.protocol_ver))
        }),
{
    lemma_le_lengths();
    let img = enc_server_response(r);
    let a = enc_pv(r.protocol_ver).len() as int;
    let o4 = a + r.server_name.len() + r.server_revision.len() + 7;
    assert(img.subrange(o4, o4 + reserved_len(r.protocol_ver)) =~= zero_bytes(
        reserved_len(r.protocol_ver),
    ));
}

/// Parses a status response of `buf` at `pos`.
pub fn parse_server_response(buf: &[u8], pos: usize) -> (r: Result<(usize, ServerResponse), Error>)
    ensures
        match r {
            Ok((p, v)) => dec_server_response(buf@, pos as int) == Some((p as int, v@))
                && wf_server_response(v@),
            Err(e) => dec_server_response(buf@, pos as int) is None && e is DataParseError,
        },
{
    let (p1, protocol_ver) = match self::protocol_ver(buf, pos) {
        Ok(x) => x,
        Err(e) => return Err(e),
    };
    let (p2, server_name) = match read_string(buf, p1) {
        Ok(x) => x,
        Err(e) => return Err(e),
    };
    let (p3, server_revision) = match read_string(buf, p2) {
        Ok(x) => x,
        Err(e) => return Err(e),
    };
    let (p4, server_lang) = match read_u8(buf, p3) {
        Ok(x) => x,
        Err(e) => return Err(e),
    };
    let (p5, pw) = match read_u8(buf, p4) {
        Ok(x) => x,
        Err(e) => return Err(e),
    };
    let (p6, clients_max) = match read_u8(buf, p5) {
        Ok(x) => x,
        Err(e) => return Err(e),
    };
    let (p7, clients_on) = match read_u8(buf, p6) {
        Ok(x) => x,
        Err(e) => return Err(e),
    };
    let (p8, spectators_on) = match read_u8(buf, p7) {
        Ok(x) => x,
        Err(e) => return Err(e),
    };
    let p9 = if protocol_ver.to_num() < 3 {
        if p8 >= buf.len() || buf.len() - p8 < 4 {
            return Err(data_parse_error("reserved block is truncated"));
        }
        p8 + 4
    } else {
        p8
    };
    let (p10, map_name) = match read_string(buf, p9) {
        Ok(x) => x,
        Err(e) => return Err(e),
    };
    let (p11, map_width) = match read_u16(buf, p10) {
        Ok(x) => x,
        Err(e) => return Err(e),
    };
    let (p12, map_height) = match read_u16(buf, p11) {
        Ok(x) => x,
        Err(e) => return Err(e),
    };
    let (p13, map_set) = match read_u8(buf, p12) {
        Ok(x) => x,
        Err(e) => return Err(e),
    };
    let (p14, db) = match read_u8(buf, p13) {
        Ok(x) => x,
        Err(e) => return Err(e),
    };
    Ok(
        (
            p14,
            ServerResponse {
                protocol_ver,
                server_name,
                server_revision,
                server_lang,
                use_password: pw > 0,
                clients_max,
                clients_on,
                spectators_on,
                map_name,
                map_width,
                map_height,
                map_set,
                dedicated: db > 0,
            },
        ),
    )
}

impl ByteWriter for ServerResponse {
    open spec fn enc_ok(&self) -> bool {
        wf_server_response(self@)
    }

    open spec fn enc(&self) -> Seq<u8> {
        enc_server_response(self@)
    }

    #[verifier::rlimit(50)]
    fn write_pkt(&self, buf: &mut Vec<u8>) -> (r: Result<(), Error>) {
        match self.protocol_ver.write_pkt(buf) {
            Ok(()) => (),
            Err(e) => return Err(e),
        };
        match write_string(buf, &self.server_name) {
            Ok(()) => (),
            Err(e) => return Err(e),
        };
        match write_string(buf, &self.server_revision) {
            Ok(()) => (),
            Err(e) => return Err(e),
        };
        buf.push(self.server_lang);
        buf.push(if self.use_password {
            1
        } else {
            0
        });
        buf.push(self.clients_max);
        buf.push(self.clients_on);
        buf.push(self.spectators_on);
        if self.protocol_ver.to_num() < 3 {
            buf.push(0);
            buf.push(0);
            buf.push(0);
            buf.push(0);
            proof {
                assert(seq![0u8, 0u8, 0u8, 0u8] =~= zero_bytes(4));
            }
        }
        match write_string(buf, &self.map_name) {
            Ok(()) => (),
            Err(e) => return Err(e),
        };
        push_u16(buf, self.map_width);
        push_u16(buf, self.map_height);
        buf.push(self.map_set);
        buf.push(if self.dedicated {
            1
        } else {
            0
        });
        proof {
            assert(zero_bytes(0) =~= Seq::<u8>::empty());
            assert(buf@ =~= old(buf)@ + self.enc());
        }
        Ok(())
    }
}

} // verus!
