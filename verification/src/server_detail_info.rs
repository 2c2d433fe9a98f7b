use vstd::prelude::*;

verus! {

use vstd::bytes::*;
use crate::errors::Error;
use crate::errors::io_error;
use crate::util::bool_byte;
use crate::util::contains_nul;
use crate::util::dec_str;
use crate::util::dec_u16;
use crate::util::dec_u32;
use crate::util::dec_u64;
use crate::util::dec_u8;
use crate::util::enc_str;
use crate::util::has_no_nul;
use crate::util::lemma_dec_str_of_enc;
use crate::util::lemma_dec_u16_of;
use crate::util::lemma_dec_u32_of;
use crate::util::lemma_dec_u64_of;
use crate::util::lemma_embedded_index;
use crate::util::lemma_embedded_subrange;
use crate::util::lemma_le_lengths;
use crate::util::push_u16;
use crate::util::push_u32;
use crate::util::push_u64;
use crate::util::read_string;
use crate::util::read_u16;
use crate::util::read_u32;
use crate::util::read_u64;
use crate::util::read_u8;
use crate::util::write_string;

/// The five vehicle categories a company's tallies are reported for.
#[derive(Copy, Clone, Debug, PartialEq, Eq, Hash)]
pub enum NetworkVehicleType {
    Train,
    Lorry,
    Bus,
    Plane,
    Ship,
}

/// Per-category counts. The wire serializes them positionally, always in the
/// order train, lorry, bus, plane, ship, with no keys; a count the sender
/// does not track is simply zero.
#[derive(Copy, Clone, Debug, PartialEq)]
pub struct VehicleCounts {
    pub train: u16,
    pub lorry: u16,
    pub bus: u16,
    pub plane: u16,
    pub ship: u16,
}

impl VehicleCounts {
    /// The count held for one category.
    pub fn get(&self, t: NetworkVehicleType) -> (r: u16)
        ensures
            r == count_of(*self, t),
    {
        match t {
            NetworkVehicleType::Train => self.train,
            NetworkVehicleType::Lorry => self.lorry,
            NetworkVehicleType::Bus => self.bus,
            NetworkVehicleType::Plane => self.plane,
            NetworkVehicleType::Ship => self.ship,
        }
    }
}

/// The count a tally holds for one category.
pub open spec fn count_of(c: VehicleCounts, t: NetworkVehicleType) -> u16 {
    match t {
        NetworkVehicleType::Train => c.train,
        NetworkVehicleType::Lorry => c.lorry,
        NetworkVehicleType::Bus => c.bus,
        NetworkVehicleType::Plane => c.plane,
        NetworkVehicleType::Ship => c.ship,
    }
}

/// Wire image of a tally: the five counts in 16-bit little-endian, in the
/// fixed category order.
pub open spec fn enc_counts(c: VehicleCounts) -> Seq<u8> {
    spec_u16_to_le_bytes(c.train) + spec_u16_to_le_bytes(c.lorry) + spec_u16_to_le_bytes(c.bus)
        + spec_u16_to_le_bytes(c.plane) + spec_u16_to_le_bytes(c.ship)
}

/// Reads a tally at cursor `i`, assuming the fixed category order.
pub open spec fn dec_counts(s: Seq<u8>, i: int) -> Option<(int, VehicleCounts)> {
    match dec_u16(s, i) {
        None => None,
        Some((i1, train)) => match dec_u16(s, i1) {
            None => None,
            Some((i2, lorry)) => match dec_u16(s, i2) {
                None => None,
                Some((i3, bus)) => match dec_u16(s, i3) {
                    None => None,
                    Some((i4, plane)) => match dec_u16(s, i4) {
                        None => None,
                        Some((i5, ship)) => Some((i5, VehicleCounts { train, lorry, bus, plane, ship })),
                    },
                },
            },
        },
    }
}

/// Reading an embedded tally image yields the encoded tally back.
pub proof fn lemma_counts_round_trip(c: VehicleCounts, s: Seq<u8>, i: int)
    requires
        0 <= i,
        i + 10 <= s.len(),
        s.subrange(i, i + 10) == enc_counts(c),
    ensures
        dec_counts(s, i) == Some((i + 10, c)),
{
    lemma_le_lengths();
    let img = enc_counts(c);
    lemma_embedded_subrange(s, i, img, 0, 2);
    assert(img.subrange(0, 2) =~= spec_u16_to_le_bytes(c.train));
    lemma_dec_u16_of(s, i, c.train);
    lemma_embedded_subrange(s, i, img, 2, 4);
    assert(img.subrange(2, 4) =~= spec_u16_to_le_bytes(c.lorry));
    lemma_dec_u16_of(s, i + 2, c.lorry);
    lemma_embedded_subrange(s, i, img, 4, 6);
    assert(img.subrange(4, 6) =~= spec_u16_to_le_bytes(c.bus));
    lemma_dec_u16_of(s, i + 4, c.bus);
    lemma_embedded_subrange(s, i, img, 6, 8);
    assert(img.subrange(6, 8) =~= spec_u16_to_le_bytes(c.plane));
    lemma_dec_u16_of(s, i + 6, c.plane);
    lemma_embedded_subrange(s, i, img, 8, 10);
    assert(img.subrange(8, 10) =~= spec_u16_to_le_bytes(c.ship));
    lemma_dec_u16_of(s, i + 8, c.ship);
}

fn parse_counts(buf: &[u8], pos: usize) -> (r: Result<(usize, VehicleCounts), Error>)
    ensures
        match r {
            Ok((p, v)) => dec_counts(buf@, pos as int) == Some((p as int, v)),
            Err(e) => dec_counts(buf@, pos as int) is None && e is DataParseError,
        },
{
    let (p1, train) = match read_u16(buf, pos) {
        Ok(x) => x,
        Err(e) => return Err(e),
    };
    let (p2, lorry) = match read_u16(buf, p1) {
        Ok(x) => x,
        Err(e) => return Err(e),
    };
    let (p3, bus) = match read_u16(buf, p2) {
        Ok(x) => x,
        Err(e) => return Err(e),
    };
    let (p4, plane) = match read_u16(buf, p3) {
        Ok(x) => x,
        Err(e) => return Err(e),
    };
    let (p5, ship) = match read_u16(buf, p4) {
        Ok(x) => x,
        Err(e) => return Err(e),
    };
    Ok((p5, VehicleCounts { train, lorry, bus, plane, ship }))
}

fn push_counts(out: &mut Vec<u8>, c: VehicleCounts)
    ensures
        final(out)@ == old(out)@ + enc_counts(c),
{
    push_u16(out, c.train);
    push_u16(out, c.lorry);
    push_u16(out, c.bus);
    push_u16(out, c.plane);
    push_u16(out, c.ship);
    proof {
        assert(out@ =~= old(out)@ + enc_counts(c));
    }
}

// ==== One company's roster entry ============================================

/// One company's roster entry: identity, founding year, financials, the
/// performance score, and the per-category vehicle and station tallies.
#[derive(Clone, Debug, PartialEq)]
pub struct CompanyInfo {
    pub index: u8,
    pub name: Vec<u8>,
    pub inaugurated_year: u32,
    pub company_value: u64,
    pub money: u64,
    pub income: u64,
    pub performance_history: u16,
    pub has_password: bool,
    pub num_vehicles: VehicleCounts,
    pub num_stations: VehicleCounts,
    pub is_ai: bool,
}

/// A roster entry as the contracts see it.
pub struct SpecCompanyInfo {
    pub index: u8,
    pub name: Seq<u8>,
    pub inaugurated_year: u32,
    pub company_value: u64,
    pub money: u64,
    pub income: u64,
    pub performance_history: u16,
    pub has_password: bool,
    pub num_vehicles: VehicleCounts,
    pub num_stations: VehicleCounts,
    pub is_ai: bool,
}

impl View for CompanyInfo {
    type V = SpecCompanyInfo;

    open spec fn view(&self) -> SpecCompanyInfo {
        SpecCompanyInfo {
            index: self.index,
            name: self.name@,
            inaugurated_year: self.inaugurated_year,
            company_value: self.company_value,
            money: self.money,
            income: self.income,
            performance_history: self.performance_history,
            has_password: self.has_password,
            num_vehicles: self.num_vehicles,
            num_stations: self.num_stations,
            is_ai: self.is_ai,
        }
    }
}

/// An encodable roster entry: its name can be terminated.
pub open spec fn wf_company(c: SpecCompanyInfo) -> bool {
    has_no_nul(c.name)
}

/// Wire image: index byte, terminated name, founding year in 32-bit
/// little-endian, the three 64-bit financials, the 16-bit performance score,
/// the password flag, the vehicle tally, the station tally, the AI flag.
pub open spec fn enc_company(c: SpecCompanyInfo) -> Seq<u8> {
    seq![c.index] + enc_str(c.name) + spec_u32_to_le_bytes(c.inaugurated_year)
        + spec_u64_to_le_bytes(c.company_value) + spec_u64_to_le_bytes(c.money)
        + spec_u64_to_le_bytes(c.income) + spec_u16_to_le_bytes(c.performance_history) + seq![
        bool_byte(c.has_password),
    ] + enc_counts(c.num_vehicles) + enc_counts(c.num_stations) + seq![bool_byte(c.is_ai)]
}

/// Reads a roster entry at cursor `i`. Flag bytes read as true on any
/// nonzero value.
pub open spec fn dec_company(s: Seq<u8>, i: int) -> Option<(int, SpecCompanyInfo)> {
    match dec_u8(s, i) {
        None => None,
        Some((i1, index)) => match dec_str(s, i1) {
            None => None,
            Some((i2, name)) => match dec_u32(s, i2) {
                None => None,
                Some((i3, inaugurated_year)) => match dec_u64(s, i3) {
                    None => None,
                    Some((i4, company_value)) => match dec_u64(s, i4) {
                        None => None,
                        Some((i5, money)) => match dec_u64(s, i5) {
                            None => None,
                            Some((i6, income)) => match dec_u16(s, i6) {
                                None => None,
                                Some((i7, performance_history)) => match dec_u8(s, i7) {
                                    None => None,
                                    Some((i8, pw)) => match dec_counts(s, i8) {
                                        None => None,
                                        Some((i9, num_vehicles)) => match dec_counts(s, i9) {
                                            None => None,
                                            Some((i10, num_stations)) => match dec_u8(s, i10) {
                                                None => None,
                                                Some((i11, ai)) => Some(
                                                    (
                                                        i11,
                                                        SpecCompanyInfo {
                                                            index,
                                                            name,
                                                            inaugurated_year,
                                                            company_value,
                                                            money,
                                                            income,
                                                            performance_history,
                                                            has_password: pw != 0,
                                                            num_vehicles,
                                                            num_stations,
                                                            is_ai: ai != 0,
                                                        },
                                                    ),
                                                ),
                                            },
                                        },
                                    },
                                },
                            },
                        },
                    },
                },
            },
        },
    }
}

/// Reading an embedded roster-entry image yields the encoded entry back.
pub proof fn lemma_company_round_trip(c: SpecCompanyInfo, s: Seq<u8>, i: int)
    requires
        wf_company(c),
        0 <= i,
        i + enc_company(c).len() <= s.len(),
        s.subrange(i, i + enc_company(c).len()) == enc_company(c),
    ensures
        dec_company(s, i) == Some((i + enc_company(c).len(), c)),
{
    lemma_le_lengths();
    let img = enc_company(c);
    let w = c.name.len() as int;
    assert(img.len() == w + 54);
    lemma_embedded_index(s, i, img, 0);
    assert(img[0] == c.index);
    lemma_embedded_subrange(s, i, img, 1, w + 2);
    assert(img.subrange(1, w + 2) =~= enc_str(c.name));
    lemma_dec_str_of_enc(s, i + 1, c.name);
    lemma_embedded_subrange(s, i, img, w + 2, w + 6);
    assert(img.subrange(w + 2, w + 6) =~= spec_u32_to_le_bytes(c.inaugurated_year));
    lemma_dec_u32_of(s, i + w + 2, c.inaugurated_year);
    lemma_embedded_subrange(s, i, img, w + 6, w + 14);
    assert(img.subrange(w + 6, w + 14) =~= spec_u64_to_le_bytes(c.company_value));
    lemma_dec_u64_of(s, i + w + 6, c.company_value);
    lemma_embedded_subrange(s, i, img, w + 14, w + 22);
    assert(img.subrange(w + 14, w + 22) =~= spec_u64_to_le_bytes(c.money));
    lemma_dec_u64_of(s, i + w + 14, c.money);
    lemma_embedded_subrange(s, i, img, w + 22, w + 30);
    assert(img.subrange(w + 22, w + 30) =~= spec_u64_to_le_bytes(c.income));
    lemma_dec_u64_of(s, i + w + 22, c.income);
    lemma_embedded_subrange(s, i, img, w + 30, w + 32);
    assert(img.subrange(w + 30, w + 32) =~= spec_u16_to_le_bytes(c.performance_history));
    lemma_dec_u16_of(s, i + w + 30, c.performance_history);
    lemma_embedded_index(s, i, img, w + 32);
    assert(img[w + 32] == bool_byte(c.has_password));
    lemma_embedded_subrange(s, i, img, w + 33, w + 43);
    assert(img.subrange(w + 33, w + 43) =~= enc_counts(c.num_vehicles));
    lemma_counts_round_trip(c.num_vehicles, s, i + w + 33);
    lemma_embedded_subrange(s, i, img, w + 43, w + 53);
    assert(img.subrange(w + 43, w + 53) =~= enc_counts(c.num_stations));
    lemma_counts_round_trip(c.num_stations, s, i + w + 43);
    lemma_embedded_index(s, i, img, w + 53);
    assert(img[w + 53] == bool_byte(c.is_ai));
    assert((bool_byte(c.has_password) != 0) == c.has_password);
    assert((bool_byte(c.is_ai) != 0) == c.is_ai);
}

/// Parses a roster entry of `buf` at `pos`.
pub fn parse_company_info(buf: &[u8], pos: usize) -> (r: Result<(usize, CompanyInfo), Error>)
    ensures
        match r {
            Ok((p, v)) => dec_company(buf@, pos as int) == Some((p as int, v@)) && wf_company(v@),
            Err(e) => dec_company(buf@, pos as int) is None && e is DataParseError,
        },
{
    let (p1, index) = match read_u8(buf, pos) {
        Ok(x) => x,
        Err(e) => return Err(e),
    };
    let (p2, name) = match read_string(buf, p1) {
        Ok(x) => x,
        Err(e) => return Err(e),
    };
    let (p3, inaugurated_year) = match read_u32(buf, p2) {
        Ok(x) => x,
        Err(e) => return Err(e),
    };
    let (p4, company_value) = match read_u64(buf, p3) {
        Ok(x) => x,
        Err(e) => return Err(e),
    };
    let (p5, money) = match read_u64(buf, p4) {
        Ok(x) => x,
        Err(e) => return Err(e),
    };
    let (p6, income) = match read_u64(buf, p5) {
        Ok(x) => x,
        Err(e) => return Err(e),
    };
    let (p7, performance_history) = match read_u16(buf, p6) {
        Ok(x) => x,
        Err(e) => return Err(e),
    };
    let (p8, pw) = match read_u8(buf, p7) {
        Ok(x) => x,
        Err(e) => return Err(e),
    };
    let (p9, num_vehicles) = match parse_counts(buf, p8) {
        Ok(x) => x,
        Err(e) => return Err(e),
    };
    let (p10, num_stations) = match parse_counts(buf, p9) {
        Ok(x) => x,
        Err(e) => return Err(e),
    };
    let (p11, ai) = match read_u8(buf, p10) {
        Ok(x) => x,
        Err(e) => return Err(e),
    };
    Ok(
        (
            p11,
            CompanyInfo {
                index,
                name,
                inaugurated_year,
                company_value,
                money,
                income,
                performance_history,
                has_password: pw > 0,
                num_vehicles,
                num_stations,
                is_ai: ai > 0,
            },
        ),
    )
}

impl CompanyInfo {
    /// Appends the roster-entry wire image to `buf`. Fails, leaving `buf` as
    /// it was, only when the company name holds an embedded zero byte.
    #[verifier::rlimit(50)]
    pub fn write_pkt(&self, buf: &mut Vec<u8>) -> (r: Result<(), Error>)
        ensures
            match r {
                Ok(()) => wf_company(self@) && final(buf)@ == old(buf)@ + enc_company(self@),
                Err(e) => !wf_company(self@) && final(buf)@ == old(buf)@ && e is IOError,
            },
    {
        if contains_nul(&self.name) {
            return Err(io_error("a company name may not hold an embedded zero byte"));
        }
        buf.push(self.index);
        match write_string(buf, &self.name) {
            Ok(()) => (),
            Err(e) => return Err(e),
        };
        push_u32(buf, self.inaugurated_year);
        push_u64(buf, self.company_value);
        push_u64(buf, self.money);
        push_u64(buf, self.income);
        push_u16(buf, self.performance_history);
        buf.push(if self.has_password {
            1
        } else {
            0
        });
        push_counts(buf, self.num_vehicles);
        push_counts(buf, self.num_stations);
        buf.push(if self.is_ai {
            1
        } else {
            0
        });
        proof {
            assert(buf@ =~= old(buf)@ + enc_company(self@));
        }
        Ok(())
    }
}

// ==== The roster ============================================================

/// The game's company roster: a format version byte and the entries.
#[derive(Clone, Debug, PartialEq)]
pub struct ServerDetailInfo {
    pub company_info_version: u8,
    pub companies: Vec<CompanyInfo>,
}

/// The roster as the contracts see it.
pub struct SpecServerDetailInfo {
    pub company_info_version: u8,
    pub companies: Seq<SpecCompanyInfo>,
}

/// The roster entries a vector holds, as the contracts see them.
pub open spec fn companies_view(v: Seq<CompanyInfo>) -> Seq<SpecCompanyInfo> {
    Seq::new(v.len(), |i: int| v[i]@)
}

impl View for ServerDetailInfo {
    type V = SpecServerDetailInfo;

    open spec fn view(&self) -> SpecServerDetailInfo {
        SpecServerDetailInfo {
            company_info_version: self.company_info_version,
            companies: companies_view(self.companies@),
        }
    }
}

/// An encodable roster: at most 255 entries, since the count is one byte,
/// and each entry encodable.
pub open spec fn wf_detail(d: SpecServerDetailInfo) -> bool {
    &&& d.companies.len() <= 255
    &&& forall|k: int| 0 <= k < d.companies.len() ==> wf_company(#[trigger] d.companies[k])
}

/// Wire image of the entries, in roster order.
pub open spec fn enc_companies(cs: Seq<SpecCompanyInfo>) -> Seq<u8>
    decreases cs.len(),
{
    if cs.len() == 0 {
        Seq::empty()
    } else {
        enc_company(cs[0]) + enc_companies(cs.skip(1))
    }
}

/// Wire image of the roster: the format version byte, the entry count as
/// one byte, then the entries. The count is derived from the entries held,
/// never stored separately.
pub open spec fn enc_detail(d: SpecServerDetailInfo) -> Seq<u8> {
    seq![d.company_info_version, d.companies.len() as u8] + enc_companies(d.companies)
}

/// Reads `n` roster entries at cursor `i`.
pub open spec fn dec_companies(s: Seq<u8>, i: int, n: nat) -> Option<(int, Seq<SpecCompanyInfo>)>
    decreases n,
{
    if n == 0 {
        Some((i, Seq::empty()))
    } else {
        match dec_company(s, i) {
            None => None,
            Some((i1, c)) => match dec_companies(s, i1, (n - 1) as nat) {
                None => None,
                Some((i2, rest)) => Some((i2, seq![c] + rest)),
            },
        }
    }
}

/// Reads a roster at cursor `i`: the format version byte, the count byte,
/// then that many entries.
pub open spec fn dec_detail(s: Seq<u8>, i: int) -> Option<(int, SpecServerDetailInfo)> {
    match dec_u8(s, i) {
        None => None,
        Some((i1, company_info_version)) => match dec_u8(s, i1) {
            None => None,
            Some((i2, n)) => match dec_companies(s, i2, n as nat) {
                None => None,
                Some((i3, companies)) => Some(
                    (i3, SpecServerDetailInfo { company_info_version, companies }),
                ),
            },
        },
    }
}

/// Entry images concatenate: the image of `a + b` is the image of `a`
/// followed by the image of `b`.
pub proof fn lemma_enc_companies_concat(a: Seq<SpecCompanyInfo>, b: Seq<SpecCompanyInfo>)
    ensures
        enc_companies(a + b) == enc_companies(a) + enc_companies(b),
    decreases a.len(),
{
    if a.len() == 0 {
        assert(a + b =~= b);
        assert(enc_companies(a) + enc_companies(b) =~= enc_companies(b));
    } else {
        lemma_enc_companies_concat(a.skip(1), b);
        assert((a + b).skip(1) =~= a.skip(1) + b);
        assert(enc_companies(a + b) =~= enc_companies(a) + enc_companies(b));
    }
}

/// Reading `n` embedded entry images yields the encoded entries back.
pub proof fn lemma_companies_round_trip(cs: Seq<SpecCompanyInfo>, s: Seq<u8>, i: int)
    requires
        forall|k: int| 0 <= k < cs.len() ==> wf_company(#[trigger] cs[k]),
        0 <= i,
        i + enc_companies(cs).len() <= s.len(),
        s.subrange(i, i + enc_companies(cs).len()) == enc_companies(cs),
    ensures
        dec_companies(s, i, cs.len()) == Some((i + enc_companies(cs).len(), cs)),
    decreases cs.len(),
{
    if cs.len() > 0 {
        let img = enc_companies(cs);
        let c0 = enc_company(cs[0]).len() as int;
        lemma_embedded_subrange(s, i, img, 0, c0);
        assert(img.subrange(0, c0) =~= enc_company(cs[0]));
        lemma_company_round_trip(cs[0], s, i);
        assert(forall|k: int|
            0 <= k < cs.skip(1).len() ==> wf_company(#[trigger] cs.skip(1)[k]));
        lemma_embedded_subrange(s, i, img, c0, img.len() as int);
        assert(img.subrange(c0, img.len() as int) =~= enc_companies(cs.skip(1)));
        lemma_companies_round_trip(cs.skip(1), s, i + c0);
        assert(seq![cs[0]] + cs.skip(1) =~= cs);
    }
}

/// Reading an embedded roster image yields the encoded roster back.
pub proof fn lemma_detail_round_trip(d: SpecServerDetailInfo, s: Seq<u8>, i: int)
    requires
        wf_detail(d),
        0 <= i,
        i + enc_detail(d).len() <= s.len(),
        s.subrange(i, i + enc_detail(d).len()) == enc_detail(d),
    ensures
        dec_detail(s, i) == Some((i + enc_detail(d).len(), d)),
{
    let img = enc_detail(d);
    lemma_embedded_index(s, i, img, 0);
    assert(img[0] == d.company_info_version);
    lemma_embedded_index(s, i, img, 1);
    assert(img[1] == d.companies.len() as u8);
    lemma_embedded_subrange(s, i, img, 2, img.len() as int);
    assert(img.subrange(2, img.len() as int) =~= enc_companies(d.companies));
    lemma_companies_round_trip(d.companies, s, i + 2);
}

/// Parses a roster of `buf` at `pos`.
pub fn parse_server_detail_info(buf: &[u8], pos: usize) -> (r: Result<
    (usize, ServerDetailInfo),
    Error,
>)
    ensures
        match r {
            Ok((p, v)) => dec_detail(buf@, pos as int) == Some((p as int, v@)) && wf_detail(v@),
            Err(e) => dec_detail(buf@, pos as int) is None && e is DataParseError,
        },
{
    let (p1, company_info_version) = match read_u8(buf, pos) {
        Ok(x) => x,
        Err(e) => return Err(e),
    };
    let (p2, n) = match read_u8(buf, p1) {
        Ok(x) => x,
        Err(e) => return Err(e),
    };
    let mut companies: Vec<CompanyInfo> = Vec::new();
    let mut cur = p2;
    let mut k: usize = 0;
    while k < n as usize
        invariant
            k <= n,
            companies@.len() == k,
            forall|m: int| 0 <= m < k ==> wf_company(#[trigger] companies_view(companies@)[m]),
            dec_u8(buf@, pos as int) == Some((p1 as int, company_info_version)),
            dec_u8(buf@, p1 as int) == Some((p2 as int, n)),
            dec_companies(buf@, p2 as int, n as nat) == match dec_companies(
                buf@,
                cur as int,
                (n - k) as nat,
            ) {
                Some((j, rest)) => Some((j, companies_view(companies@) + rest)),
                None => None,
            },
        decreases n - k,
    {
        let ghost prev = companies_view(companies@);
        let (q1, c) = match parse_company_info(buf, cur) {
            Ok(x) => x,
            Err(e) => {
                proof {
                    assert(dec_companies(buf@, cur as int, (n - k) as nat) is None);
                }
                return Err(e);
            },
        };
        companies.push(c);
        proof {
            assert(companies_view(companies@) =~= prev + seq![c@]);
            assert(dec_companies(buf@, cur as int, (n - k) as nat) == match dec_companies(
                buf@,
                q1 as int,
                (n - k - 1) as nat,
            ) {
                Some((j, rest)) => Some((j, seq![c@] + rest)),
                None => None,
            });
            assert(forall|rest: Seq<SpecCompanyInfo>|
                prev + (seq![c@] + rest) =~= (prev + seq![c@]) + rest);
        }
        cur = q1;
        k = k + 1;
    }
    proof {
        assert(dec_companies(buf@, cur as int, 0) == Some::<(int, Seq<SpecCompanyInfo>)>(
            (cur as int, Seq::empty()),
        ));
        assert(companies_view(companies@) + Seq::<SpecCompanyInfo>::empty() =~= companies_view(
            companies@,
        ));
    }
    Ok((cur, ServerDetailInfo { company_info_version, companies }))
}

impl ServerDetailInfo {
    /// Appends the roster wire image to `buf`. Fails, leaving `buf` as it
    /// was, when the roster holds more than 255 entries — the count byte
    /// cannot carry more — or when a company name holds an embedded zero
    /// byte.
    pub fn write_pkt(&self, buf: &mut Vec<u8>) -> (r: Result<(), Error>)
        ensures
            match r {
                Ok(()) => wf_detail(self@) && final(buf)@ == old(buf)@ + enc_detail(self@),
                Err(e) => !wf_detail(self@) && final(buf)@ == old(buf)@ && e is IOError,
            },
    {
        let n = self.companies.len();
        if n > 255 {
            return Err(io_error("a roster may hold at most 255 companies"));
        }
        let mut k: usize = 0;
        while k < n
            invariant
                k <= n,
                n == self.companies@.len(),
                n <= 255,
                forall|m: int| 0 <= m < k ==> wf_company(#[trigger] self@.companies[m]),
                buf@ == old(buf)@,
            decreases n - k,
        {
            if contains_nul(&self.companies[k].name) {
                return Err(io_error("a company name may not hold an embedded zero byte"));
            }
            proof {
                assert(self@.companies[k as int] == self.companies@[k as int]@);
            }
            k = k + 1;
        }
        buf.push(self.company_info_version);
        buf.push(n as u8);
        let mut w: usize = 0;
        while w < n
            invariant
                w <= n,
                n == self.companies@.len(),
                wf_detail(self@),
                buf@ == old(buf)@ + seq![self.company_info_version, n as u8] + enc_companies(
                    self@.companies.take(w as int),
                ),
            decreases n - w,
        {
            proof {
                assert(self@.companies[w as int] == self.companies@[w as int]@);
            }
            match self.companies[w].write_pkt(buf) {
                Ok(()) => (),
                Err(e) => return Err(e),
            };
            proof {
                assert(self@.companies.take(w as int + 1) =~= self@.companies.take(w as int)
                    + seq![self@.companies[w as int]]);
                lemma_enc_companies_concat(
                    self@.companies.take(w as int),
                    seq![self@.companies[w as int]],
                );
                assert(seq![self@.companies[w as int]].skip(1) =~= Seq::<SpecCompanyInfo>::empty());
                assert(enc_companies(Seq::<SpecCompanyInfo>::empty()) =~= Seq::<u8>::empty());
                assert(enc_companies(seq![self@.companies[w as int]]) =~= enc_company(
                    self@.companies[w as int],
                ));
                assert(buf@ =~= old(buf)@ + seq![self.company_info_version, n as u8]
                    + enc_companies(self@.companies.take(w as int + 1)));
            }
            w = w + 1;
        }
        proof {
            assert(self@.companies.take(n as int) =~= self@.companies);
            assert(old(buf)@ + seq![self.company_info_version, n as u8] + enc_companies(
                self@.companies,
            ) =~= old(buf)@ + enc_detail(self@));
        }
        Ok(())
    }
}

} // verus!
