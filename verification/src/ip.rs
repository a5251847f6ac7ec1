//! The interval-indexed IP-to-ASN table: built from the lines of a
//! range file (`<cidr>\t<asn-id>` per line, `;` starting a comment),
//! kept sorted by interval start, and answering point queries by a
//! floor search over the starts followed by a containment check.

use std::sync::Arc;
use vstd::prelude::*;

use crate::addr::{
    block_first, block_last, parse_ip_spec, IpAddress,
};
use crate::asn::{AsnDatabase, AsnView, AutonomousSystemNumber};
use crate::text::{dec_u32, first_at_idx, has_char, lemma_first_at_unique};
use vstd::arithmetic::power2::pow2;

verus! {

/// One address interval and the autonomous system it belongs to.
pub struct IpAsnRecord {
    pub start: IpAddress,
    pub end: IpAddress,
    pub asn: Option<Arc<AutonomousSystemNumber>>,
}

/// The fields of an interval record as mathematical values.
pub ghost struct IpAsnRecordView {
    pub start: IpAddress,
    pub end: IpAddress,
    pub asn: Option<AsnView>,
}

impl View for IpAsnRecord {
    type V = IpAsnRecordView;

    open spec fn view(&self) -> IpAsnRecordView {
        IpAsnRecordView { start: self.start, end: self.end, asn: self.asn.deep_view() }
    }
}

impl DeepView for IpAsnRecord {
    type V = IpAsnRecordView;

    open spec fn deep_view(&self) -> IpAsnRecordView {
        self.view()
    }
}

/// The interval starts strictly increase.
pub open spec fn records_sorted(rs: Seq<IpAsnRecordView>) -> bool {
    forall|i: int, j: int|
        0 <= i < j < rs.len() ==> #[trigger] rs[i].start.key() < #[trigger] rs[j].start.key()
}

/// No interval reaches into a later one.
pub open spec fn records_disjoint(rs: Seq<IpAsnRecordView>) -> bool {
    forall|i: int, j: int|
        0 <= i < j < rs.len() ==> #[trigger] rs[i].end.key() < #[trigger] rs[j].start.key()
}

/// The IP-to-ASN table: interval records sorted by start address.
pub struct IpAsnDatabase {
    records: Vec<IpAsnRecord>,
}

impl View for IpAsnDatabase {
    type V = Seq<IpAsnRecordView>;

    closed spec fn view(&self) -> Seq<IpAsnRecordView> {
        self.records.deep_view()
    }
}

// ---------------------------------------------------------------------------
// Point lookup

/// Index of the last record whose start does not exceed `ip`.
pub open spec fn floor_idx(rs: Seq<IpAsnRecordView>, ip: IpAddress) -> Option<int>
    decreases rs.len(),
{
    if rs.len() == 0 {
        None
    } else if rs.last().start.key() <= ip.key() {
        Some(rs.len() - 1)
    } else {
        floor_idx(rs.drop_last(), ip)
    }
}

/// The record a point query returns: the floor record by start
/// address, and only if the address lies within its bounds.
pub open spec fn lookup_spec(rs: Seq<IpAsnRecordView>, ip: IpAddress) -> Option<IpAsnRecordView> {
    match floor_idx(rs, ip) {
        Some(j) => if ip.key() <= rs[j].end.key() {
            Some(rs[j])
        } else {
            None
        },
        None => None,
    }
}

proof fn lemma_floor_props(rs: Seq<IpAsnRecordView>, ip: IpAddress)
    ensures
        match floor_idx(rs, ip) {
            Some(j) => 0 <= j < rs.len() && rs[j].start.key() <= ip.key(),
            None => true,
        },
    decreases rs.len(),
{
    if rs.len() > 0 && !(rs.last().start.key() <= ip.key()) {
        lemma_floor_props(rs.drop_last(), ip);
    }
}

/// What the floor index is, given a boundary `b`: every record before
/// `b` starts at or below `ip`, every record from `b` on starts above.
proof fn lemma_floor_from_bounds(rs: Seq<IpAsnRecordView>, ip: IpAddress, b: int)
    requires
        0 <= b <= rs.len(),
        forall|k: int| 0 <= k < b ==> #[trigger] rs[k].start.key() <= ip.key(),
        forall|k: int| b <= k < rs.len() ==> #[trigger] rs[k].start.key() > ip.key(),
    ensures
        floor_idx(rs, ip) == if b == 0 {
            None::<int>
        } else {
            Some(b - 1)
        },
    decreases rs.len(),
{
    if rs.len() == 0 {
    } else if rs.last().start.key() <= ip.key() {
        assert(b == rs.len());
    } else {
        assert(b <= rs.len() - 1);
        lemma_floor_from_bounds(rs.drop_last(), ip, b);
    }
}

impl IpAsnDatabase {
    /// The table is well formed: records sorted by start.
    pub open spec fn wf(&self) -> bool {
        records_sorted(self@)
    }

    /// The interval record containing `ip`: the record with the
    /// greatest start not exceeding `ip`, and only if `ip` also lies
    /// at or below that record's end.
    pub fn lookup(&self, ip: IpAddress) -> (r: Option<&IpAsnRecord>)
        requires
            self.wf(),
        ensures
            match r {
                Some(rec) => lookup_spec(self@, ip) == Some(rec@),
                None => lookup_spec(self@, ip) == None::<IpAsnRecordView>,
            },
    {
        proof {
            assert(forall|k: int|
                0 <= k < self.records@.len() ==> #[trigger] self.records@[k]@ == self@[k]);
        }
        let n: usize = self.records.len();
        let mut lo: usize = 0;
        let mut hi: usize = n;
        while lo < hi
            invariant
                lo <= hi <= n,
                n == self.records@.len(),
                self.wf(),
                self@ == self.records.deep_view(),
                forall|k: int| 0 <= k < lo ==> #[trigger] self@[k].start.key() <= ip.key(),
                forall|k: int| hi <= k < n ==> #[trigger] self@[k].start.key() > ip.key(),
            decreases hi - lo,
        {
            let mid: usize = lo + (hi - lo) / 2;
            proof {
                assert(self.records@[mid as int]@ == self@[mid as int]);
            }
            if self.records[mid].start.le(&ip) {
                proof {
                    assert forall|k: int| 0 <= k <= mid implies #[trigger] self@[k].start.key()
                        <= ip.key() by {
                        if k < mid {
                            assert(self@[k].start.key() < self@[mid as int].start.key());
                        }
                    }
                }
                lo = mid + 1;
            } else {
                proof {
                    assert forall|k: int| mid <= k < n implies #[trigger] self@[k].start.key()
                        > ip.key() by {
                        if k > mid {
                            assert(self@[mid as int].start.key() < self@[k].start.key());
                        }
                    }
                }
                hi = mid;
            }
        }
        proof {
            lemma_floor_from_bounds(self@, ip, lo as int);
        }
        if lo == 0 {
            None
        } else {
            let rec = &self.records[lo - 1];
            proof {
                assert(self.records@[lo - 1]@ == self@[lo - 1]);
            }
            if ip.le(&rec.end) {
                Some(rec)
            } else {
                None
            }
        }
    }
}

// ---------------------------------------------------------------------------
// Laws of the point lookup

/// Any address within a loaded record resolves to that record — in
/// particular to its autonomous system — provided the loaded
/// intervals are disjoint, as well-formed input guarantees.
pub proof fn lemma_lookup_within_record(rs: Seq<IpAsnRecordView>, i: int, ip: IpAddress)
    requires
        records_sorted(rs),
        records_disjoint(rs),
        0 <= i < rs.len(),
        rs[i].start.key() <= ip.key() <= rs[i].end.key(),
    ensures
        lookup_spec(rs, ip) == Some(rs[i]),
{
    assert(forall|k: int| 0 <= k < i + 1 ==> #[trigger] rs[k].start.key() <= ip.key());
    assert(forall|k: int| i + 1 <= k < rs.len() ==> #[trigger] rs[k].start.key() > ip.key());
    lemma_floor_from_bounds(rs, ip, i + 1);
}

/// An address strictly below every loaded interval resolves to nothing.
pub proof fn lemma_lookup_below_all(rs: Seq<IpAsnRecordView>, ip: IpAddress)
    requires
        records_sorted(rs),
        forall|k: int| 0 <= k < rs.len() ==> ip.key() < #[trigger] rs[k].start.key(),
    ensures
        lookup_spec(rs, ip) == None::<IpAsnRecordView>,
{
    lemma_floor_from_bounds(rs, ip, 0);
}

/// An address contained in no loaded interval resolves to nothing,
/// also in a gap past some record's end: the floor record alone never
/// answers, its end bound must cover the address too.
pub proof fn lemma_lookup_outside_all(rs: Seq<IpAsnRecordView>, ip: IpAddress)
    requires
        records_sorted(rs),
        forall|k: int|
            0 <= k < rs.len() ==> !(#[trigger] rs[k].start.key() <= ip.key() <= rs[k].end.key()),
    ensures
        lookup_spec(rs, ip) == None::<IpAsnRecordView>,
{
    lemma_floor_props(rs, ip);
}

// ---------------------------------------------------------------------------
// Loading

/// The record an interval file line denotes, if any: the address and
/// prefix length before and after the `/`, the id after the tab; the
/// interval spans the whole block around the address.
pub open spec fn parse_ip_block_spec(line: Seq<char>, asn_table: Map<u32, AsnView>) -> Option<
    IpAsnRecordView,
> {
    if !has_char(line, '/') || !has_char(line, '\t') {
        None
    } else {
        let sl = first_at_idx(line, '/');
        let tb = first_at_idx(line, '\t');
        if tb <= sl {
            None
        } else {
            match (dec_u32(line.subrange(sl + 1, tb)), dec_u32(line.skip(tb + 1))) {
                (Some(plen), Some(asn_id)) => {
                    let asn = if asn_table.contains_key(asn_id) {
                        Some(asn_table[asn_id])
                    } else {
                        None
                    };
                    match parse_ip_spec(line.take(sl)) {
                        Some(IpAddress::V4(a)) => if plen <= 32 {
                            let size = pow2((32 - plen) as nat) as int;
                            Some(
                                IpAsnRecordView {
                                    start: IpAddress::V4(block_first(a as int, size) as u32),
                                    end: IpAddress::V4(block_last(a as int, size) as u32),
                                    asn,
                                },
                            )
                        } else {
                            None
                        },
                        Some(IpAddress::V6(a)) => if plen <= 128 {
                            let size = pow2((128 - plen) as nat) as int;
                            Some(
                                IpAsnRecordView {
                                    start: IpAddress::V6(block_first(a as int, size) as u128),
                                    end: IpAddress::V6(block_last(a as int, size) as u128),
                                    asn,
                                },
                            )
                        } else {
                            None
                        },
                        None => None,
                    }
                },
                _ => None,
            }
        }
    }
}

/// Parse one interval file line against the registry table.
pub fn parse_ip_block(line: &str, asn_database: &AsnDatabase) -> (r: Option<IpAsnRecord>)
    ensures
        r.deep_view() == parse_ip_block_spec(line@, asn_database@),
{
    let n: usize = line.unicode_len();
    let sl: usize = match crate::text::find_char(line, '/') {
        Some(i) => i,
        None => {
            return None;
        },
    };
    let tb: usize = match crate::text::find_char(line, '\t') {
        Some(i) => i,
        None => {
            return None;
        },
    };
    proof {
        lemma_first_at_unique(line@, '/', sl as int, first_at_idx(line@, '/'));
        lemma_first_at_unique(line@, '\t', tb as int, first_at_idx(line@, '\t'));
    }
    if tb <= sl {
        return None;
    }
    let plen: u32 = match crate::text::parse_u32_dec(line.substring_char(sl + 1, tb)) {
        Some(v) => v,
        None => {
            return None;
        },
    };
    let asn_id: u32 = match crate::text::parse_u32_dec(line.substring_char(tb + 1, n)) {
        Some(v) => v,
        None => {
            return None;
        },
    };
    proof {
        assert(line@.subrange(0, sl as int) =~= line@.take(sl as int));
        assert(line@.subrange(tb + 1, n as int) =~= line@.skip(tb + 1));
    }
    let asn = asn_database.lookup(asn_id);
    match crate::addr::parse_ip_address(line.substring_char(0, sl)) {
        Some(IpAddress::V4(a)) => {
            if plen <= 32 {
                let bounds = crate::addr::cidr_block_v4(a, plen as u8);
                Some(
                    IpAsnRecord {
                        start: IpAddress::V4(bounds.0),
                        end: IpAddress::V4(bounds.1),
                        asn,
                    },
                )
            } else {
                None
            }
        },
        Some(IpAddress::V6(a)) => {
            if plen <= 128 {
                let bounds = crate::addr::cidr_block_v6(a, plen as u8);
                Some(
                    IpAsnRecord {
                        start: IpAddress::V6(bounds.0),
                        end: IpAddress::V6(bounds.1),
                        asn,
                    },
                )
            } else {
                None
            }
        },
        None => None,
    }
}

// ---------------------------------------------------------------------------
// Sorted insertion

/// Insert a record into a start-sorted sequence, replacing the record
/// with the same start if there is one — the insertion order of an
/// ordered map keyed by interval start.
pub open spec fn insert_sorted(rs: Seq<IpAsnRecordView>, r: IpAsnRecordView) -> Seq<
    IpAsnRecordView,
>
    decreases rs.len(),
{
    if rs.len() == 0 {
        seq![r]
    } else if rs.last().start.key() < r.start.key() {
        rs.push(r)
    } else if rs.last().start.key() == r.start.key() {
        rs.drop_last().push(r)
    } else {
        insert_sorted(rs.drop_last(), r).push(rs.last())
    }
}

proof fn lemma_insert_sorted_at(rs: Seq<IpAsnRecordView>, r: IpAsnRecordView, p: int)
    requires
        0 <= p <= rs.len(),
        forall|k: int| 0 <= k < p ==> #[trigger] rs[k].start.key() < r.start.key(),
        forall|k: int| p <= k < rs.len() ==> #[trigger] rs[k].start.key() > r.start.key(),
    ensures
        insert_sorted(rs, r) == rs.insert(p, r),
    decreases rs.len(),
{
    if rs.len() == 0 {
        assert(insert_sorted(rs, r) =~= rs.insert(0, r));
    } else if rs.last().start.key() < r.start.key() {
        assert(p == rs.len());
        assert(rs.push(r) =~= rs.insert(p, r));
    } else {
        assert(p <= rs.len() - 1);
        lemma_insert_sorted_at(rs.drop_last(), r, p);
        assert(rs.drop_last().insert(p, r).push(rs.last()) =~= rs.insert(p, r));
    }
}

proof fn lemma_insert_sorted_replace(rs: Seq<IpAsnRecordView>, r: IpAsnRecordView, p: int)
    requires
        records_sorted(rs),
        0 <= p < rs.len(),
        forall|k: int| 0 <= k < p ==> #[trigger] rs[k].start.key() < r.start.key(),
        rs[p].start.key() == r.start.key(),
    ensures
        insert_sorted(rs, r) == rs.update(p, r),
    decreases rs.len(),
{
    if p == rs.len() - 1 {
        assert(rs.drop_last().push(r) =~= rs.update(p, r));
    } else {
        assert(rs.last().start.key() > r.start.key());
        lemma_insert_sorted_replace(rs.drop_last(), r, p);
        assert(rs.drop_last().update(p, r).push(rs.last()) =~= rs.update(p, r));
    }
}

/// The table a sequence of interval file lines denotes: comment lines
/// and lines that do not parse are skipped, the rest are inserted in
/// start order.
pub open spec fn ip_records_of(lines: Seq<Seq<char>>, asn_table: Map<u32, AsnView>) -> Seq<
    IpAsnRecordView,
>
    decreases lines.len(),
{
    if lines.len() == 0 {
        Seq::<IpAsnRecordView>::empty()
    } else {
        let prev = ip_records_of(lines.drop_last(), asn_table);
        let line = lines.last();
        if line.len() > 0 && line[0] == ';' {
            prev
        } else {
            match parse_ip_block_spec(line, asn_table) {
                Some(r) => insert_sorted(prev, r),
                None => prev,
            }
        }
    }
}

/// Insert a record into the sorted vector, replacing an equal start.
#[verifier::loop_isolation(false)]
fn insert_record(records: &mut Vec<IpAsnRecord>, rec: IpAsnRecord)
    requires
        records_sorted(old(records).deep_view()),
    ensures
        final(records).deep_view() == insert_sorted(old(records).deep_view(), rec@),
        records_sorted(final(records).deep_view()),
{
    let ghost rs = old(records).deep_view();
    proof {
        assert(forall|k: int|
            0 <= k < records@.len() ==> #[trigger] records@[k]@ == rs[k]);
    }
    let n: usize = records.len();
    let mut lo: usize = 0;
    let mut hi: usize = n;
    while lo < hi
        invariant
            lo <= hi <= n,
            forall|k: int| 0 <= k < lo ==> #[trigger] rs[k].start.key() < rec@.start.key(),
            forall|k: int| hi <= k < n ==> #[trigger] rs[k].start.key() >= rec@.start.key(),
        decreases hi - lo,
    {
        let mid: usize = lo + (hi - lo) / 2;
        proof {
            assert(records@[mid as int]@ == rs[mid as int]);
        }
        let here = &records[mid];
        if here.start.le(&rec.start) && !rec.start.le(&here.start) {
            // strictly below the new start
            proof {
                assert forall|k: int| 0 <= k <= mid implies #[trigger] rs[k].start.key()
                    < rec@.start.key() by {
                    if k < mid {
                        assert(rs[k].start.key() < rs[mid as int].start.key());
                    }
                }
            }
            lo = mid + 1;
        } else {
            proof {
                assert forall|k: int| mid <= k < n implies #[trigger] rs[k].start.key()
                    >= rec@.start.key() by {
                    if k > mid {
                        assert(rs[mid as int].start.key() < rs[k].start.key());
                    }
                }
            }
            hi = mid;
        }
    }
    // lo is the first position whose start is at or above the new one
    if lo < n {
        proof {
            assert(records@[lo as int]@ == rs[lo as int]);
        }
        let same = records[lo].start.le(&rec.start) && rec.start.le(&records[lo].start);
        if same {
            proof {
                lemma_insert_sorted_replace(rs, rec@, lo as int);
            }
            records.set(lo, rec);
            proof {
                assert(records.deep_view() =~= rs.update(lo as int, rec@));
                assert(records_sorted(records.deep_view()));
            }
            return ;
        }
    }
    proof {
        assert(forall|k: int| lo <= k < n ==> #[trigger] rs[k].start.key() > rec@.start.key());
        lemma_insert_sorted_at(rs, rec@, lo as int);
        rs.insert_ensures(lo as int, rec@);
    }
    records.insert(lo, rec);
    proof {
        assert(records.deep_view() =~= rs.insert(lo as int, rec@));
        assert(records_sorted(records.deep_view())) by {
            assert(forall|i: int, j: int|
                0 <= i < j < rs.insert(lo as int, rec@).len() ==> #[trigger] rs.insert(
                    lo as int,
                    rec@,
                )[i].start.key() < #[trigger] rs.insert(lo as int, rec@)[j].start.key());
        }
    }
}

/// Build the interval table from the lines of a range file.
#[verifier::loop_isolation(false)]
pub fn build_ip_asn_database(lines: &Vec<String>, asn_database: &AsnDatabase) -> (db:
    IpAsnDatabase)
    ensures
        db@ == ip_records_of(lines.deep_view(), asn_database@),
        db.wf(),
{
    let mut records: Vec<IpAsnRecord> = Vec::new();
    let n: usize = lines.len();
    let mut i: usize = 0;
    proof {
        assert(lines.deep_view().take(0) =~= Seq::<Seq<char>>::empty());
        assert(records.deep_view() =~= ip_records_of(lines.deep_view().take(0), asn_database@));
    }
    while i < n
        invariant
            i <= n,
            records.deep_view() == ip_records_of(lines.deep_view().take(i as int), asn_database@),
            records_sorted(records.deep_view()),
        decreases n - i,
    {
        proof {
            assert(lines.deep_view()[i as int] == lines@[i as int]@);
            assert(lines.deep_view().take(i + 1).drop_last() =~= lines.deep_view().take(i as int));
        }
        let line = lines[i].as_str();
        if !crate::text::starts_with_char(line, ';') {
            match parse_ip_block(line, asn_database) {
                Some(rec) => {
                    insert_record(&mut records, rec);
                },
                None => {},
            }
        }
        i = i + 1;
    }
    proof {
        assert(lines.deep_view().take(n as int) =~= lines.deep_view());
    }
    IpAsnDatabase { records }
}

} // verus!
