//! The aggregator: one per-address result merged from the interval
//! index, the GeoIP collaborator's record and the reverse-DNS names,
//! and one per-domain result built from a DNS record set and the
//! per-address results of every address it names.
//!
//! The collaborators answer outside the library — the GeoIP reader is
//! queried in process, the DNS worker over its message queue — and
//! their answers are handed in as plain values: an absent value means
//! the collaborator had none, which never fails the lookup.

use std::sync::Arc;
use vstd::prelude::*;

use crate::addr::{parse_ip_spec, IpAddress};
use crate::asn::{AsnView, AutonomousSystemNumber};
use crate::dns::{
    DnsLookupResult, DnsLookupResultMx, DnsLookupResultSoa, DnsLookupResultView, MxView, SoaView,
};
use crate::ip::{lookup_spec, records_sorted, IpAsnDatabase, IpAsnRecordView};

verus! {

/// How an input string is dispatched.
#[derive(Debug, Clone, Copy, PartialEq, Eq, Structural)]
pub enum QueryKind {
    /// The input is an IP address: look it up directly.
    Ip(IpAddress),
    /// Anything else is tried as a domain name.
    Domain,
}

/// Dispatch an input string: an address lookup when it parses as an
/// IP address, a domain lookup otherwise.
pub fn classify_query(input: &str) -> (r: QueryKind)
    ensures
        r == (match parse_ip_spec(input@) {
            Some(ip) => QueryKind::Ip(ip),
            None => QueryKind::Domain,
        }),
{
    match crate::addr::parse_ip_address(input) {
        Some(ip) => QueryKind::Ip(ip),
        None => QueryKind::Domain,
    }
}

/// One address's aggregated result: the owning autonomous system from
/// the interval index, the collaborator's city record carried through
/// opaquely, and the reverse-DNS names.
#[derive(Debug, Clone)]
pub struct IpLookupResult {
    pub ip: IpAddress,
    pub asn: Option<Arc<AutonomousSystemNumber>>,
    pub geo: Option<String>,
    pub reverse_dns: Option<Vec<String>>,
}

/// The fields of a per-address result as mathematical values.
#[verifier::ext_equal]
pub ghost struct IpLookupResultView {
    pub ip: IpAddress,
    pub asn: Option<AsnView>,
    pub geo: Option<Seq<char>>,
    pub reverse_dns: Option<Seq<Seq<char>>>,
}

impl View for IpLookupResult {
    type V = IpLookupResultView;

    open spec fn view(&self) -> IpLookupResultView {
        IpLookupResultView {
            ip: self.ip,
            asn: self.asn.deep_view(),
            geo: self.geo.deep_view(),
            reverse_dns: self.reverse_dns.deep_view(),
        }
    }
}

impl DeepView for IpLookupResult {
    type V = IpLookupResultView;

    open spec fn deep_view(&self) -> IpLookupResultView {
        self.view()
    }
}

/// One domain's aggregated result: the per-address results of the
/// record set's addresses, partitioned by family, and the name-record
/// fields copied through unchanged.
#[derive(Debug, Clone)]
pub struct DomainLookupResult {
    pub domain: String,
    pub ipv4: Vec<IpLookupResult>,
    pub ipv6: Vec<IpLookupResult>,
    pub cname: Vec<String>,
    pub ns: Vec<String>,
    pub mx: Vec<DnsLookupResultMx>,
    pub txt: Vec<String>,
    pub soa: Option<DnsLookupResultSoa>,
}

/// The fields of a per-domain result as mathematical values.
#[verifier::ext_equal]
pub ghost struct DomainLookupResultView {
    pub domain: Seq<char>,
    pub ipv4: Seq<IpLookupResultView>,
    pub ipv6: Seq<IpLookupResultView>,
    pub cname: Seq<Seq<char>>,
    pub ns: Seq<Seq<char>>,
    pub mx: Seq<MxView>,
    pub txt: Seq<Seq<char>>,
    pub soa: Option<SoaView>,
}

impl View for DomainLookupResult {
    type V = DomainLookupResultView;

    open spec fn view(&self) -> DomainLookupResultView {
        DomainLookupResultView {
            domain: self.domain@,
            ipv4: self.ipv4.deep_view(),
            ipv6: self.ipv6.deep_view(),
            cname: self.cname.deep_view(),
            ns: self.ns.deep_view(),
            mx: self.mx.deep_view(),
            txt: self.txt.deep_view(),
            soa: self.soa.deep_view(),
        }
    }
}

impl DeepView for DomainLookupResult {
    type V = DomainLookupResultView;

    open spec fn deep_view(&self) -> DomainLookupResultView {
        self.view()
    }
}

/// What the collaborators answered for one address: the city record,
/// and the reverse-DNS names (absent when the worker was unreachable
/// or the query failed).
pub struct IpSideData {
    pub geo: Option<String>,
    pub reverse_dns: Option<Vec<String>>,
}

/// The collaborator answers as mathematical values.
#[verifier::ext_equal]
pub ghost struct IpSideDataView {
    pub geo: Option<Seq<char>>,
    pub reverse_dns: Option<Seq<Seq<char>>>,
}

impl View for IpSideData {
    type V = IpSideDataView;

    open spec fn view(&self) -> IpSideDataView {
        IpSideDataView { geo: self.geo.deep_view(), reverse_dns: self.reverse_dns.deep_view() }
    }
}

impl DeepView for IpSideData {
    type V = IpSideDataView;

    open spec fn deep_view(&self) -> IpSideDataView {
        self.view()
    }
}

/// The handler every request shares: the interval index, immutable
/// after load and shared by reference.
#[derive(Clone)]
pub struct LookupHandler {
    pub ip_asn_database: Arc<IpAsnDatabase>,
}

/// Wrap the loaded interval index for shared use by request handlers.
pub fn create_lookup_handler(ip_asn_database: IpAsnDatabase) -> (h: LookupHandler)
    ensures
        h.ip_asn_database@ == ip_asn_database@,
{
    LookupHandler { ip_asn_database: Arc::new(ip_asn_database) }
}

/// The per-address result as a mathematical value: the ASN of the
/// interval record containing the address, if one is loaded, and the
/// collaborator answers carried through.
pub open spec fn ip_lookup_view(
    records: Seq<IpAsnRecordView>,
    ip: IpAddress,
    geo: Option<Seq<char>>,
    reverse_dns: Option<Seq<Seq<char>>>,
) -> IpLookupResultView {
    IpLookupResultView {
        ip,
        asn: match lookup_spec(records, ip) {
            Some(rec) => rec.asn,
            None => None,
        },
        geo,
        reverse_dns,
    }
}

/// The per-domain result as a mathematical value: the i-th A address
/// is aggregated with the i-th collaborator answer, the j-th AAAA
/// address with the answer after all A addresses; the name-record
/// fields come through unchanged.
pub open spec fn domain_lookup_view(
    records: Seq<IpAsnRecordView>,
    domain: Seq<char>,
    dns: DnsLookupResultView,
    extras: Seq<IpSideDataView>,
) -> DomainLookupResultView {
    DomainLookupResultView {
        domain,
        ipv4: Seq::new(
            dns.a.len(),
            |i: int| ip_lookup_view(
                records,
                IpAddress::V4(dns.a[i]),
                extras[i].geo,
                extras[i].reverse_dns,
            ),
        ),
        ipv6: Seq::new(
            dns.aaaa.len(),
            |j: int| ip_lookup_view(
                records,
                IpAddress::V6(dns.aaaa[j]),
                extras[dns.a.len() + j].geo,
                extras[dns.a.len() + j].reverse_dns,
            ),
        ),
        cname: dns.cname,
        ns: dns.ns,
        mx: dns.mx,
        txt: dns.txt,
        soa: dns.soa,
    }
}

impl LookupHandler {
    /// The handler is usable: its interval index is well formed.
    pub open spec fn wf(&self) -> bool {
        records_sorted(self.ip_asn_database@)
    }

    /// Aggregate one address: the interval index answers the owning
    /// autonomous system, and the collaborator answers — city record
    /// and reverse-DNS names — are carried through unchanged. An
    /// absent collaborator answer stays absent; it never fails the
    /// lookup.
    pub fn lookup_ip(&self, ip: IpAddress, geo: Option<String>, reverse_dns: Option<Vec<String>>)
        -> (r: IpLookupResult)
        requires
            self.wf(),
        ensures
            r@ == ip_lookup_view(
                self.ip_asn_database@,
                ip,
                geo.deep_view(),
                reverse_dns.deep_view(),
            ),
    {
        let asn = match self.ip_asn_database.lookup(ip) {
            Some(rec) => match &rec.asn {
                Some(a) => Some(crate::asn::arc_clone(a)),
                None => None,
            },
            None => None,
        };
        IpLookupResult { ip, asn, geo, reverse_dns }
    }

    /// Aggregate one domain: look up every address of the record set
    /// — the A addresses, then the AAAA addresses, each with its own
    /// collaborator answers — and copy the name-record fields through
    /// unchanged. A record set with no addresses yields empty address
    /// lists, never an error.
    #[verifier::loop_isolation(false)]
    pub fn lookup_domain(&self, domain: String, dns: DnsLookupResult, extras: Vec<IpSideData>)
        -> (r: DomainLookupResult)
        requires
            self.wf(),
            extras@.len() == dns.a@.len() + dns.aaaa@.len(),
        ensures
            r@ == domain_lookup_view(self.ip_asn_database@, domain@, dns@, extras.deep_view()),
    {
        let ghost target = domain_lookup_view(
            self.ip_asn_database@,
            domain@,
            dns@,
            extras.deep_view(),
        );
        let ghost all_extras = extras.deep_view();
        let na: usize = dns.a.len();
        let naaaa: usize = dns.aaaa.len();
        let mut rest = extras;
        let mut ipv4: Vec<IpLookupResult> = Vec::new();
        let mut i: usize = 0;
        proof {
            assert(ipv4.deep_view() =~= target.ipv4.take(0));
            assert(rest.deep_view() =~= all_extras.skip(0));
        }
        while i < na
            invariant
                i <= na,
                na == dns.a@.len(),
                naaaa == dns.aaaa@.len(),
                all_extras.len() == na + naaaa,
                self.wf(),
                target == domain_lookup_view(self.ip_asn_database@, domain@, dns@, all_extras),
                rest.deep_view() == all_extras.skip(i as int),
                ipv4.deep_view() == target.ipv4.take(i as int),
            decreases na - i,
        {
            proof {
                assert(all_extras.skip(i as int).len() == all_extras.len() - i);
                assert(rest.deep_view()[0] == rest@[0]@);
                assert(all_extras[i as int] == rest.deep_view()[0]);
            }
            let ghost rest_prev = rest.deep_view();
            let side = rest.remove(0);
            let one = self.lookup_ip(IpAddress::V4(dns.a[i]), side.geo, side.reverse_dns);
            let ghost ipv4_prev = ipv4.deep_view();
            ipv4.push(one);
            proof {
                assert(rest.deep_view() =~= rest_prev.remove(0));
                assert(rest_prev.remove(0) =~= all_extras.skip(i + 1));
                assert(ipv4.deep_view() =~= ipv4_prev.push(one@));
                assert(one@ == target.ipv4[i as int]);
                assert(ipv4_prev.push(one@) =~= target.ipv4.take(i + 1));
            }
            i = i + 1;
        }
        let mut ipv6: Vec<IpLookupResult> = Vec::new();
        let mut j: usize = 0;
        proof {
            assert(ipv6.deep_view() =~= target.ipv6.take(0));
        }
        while j < naaaa
            invariant
                j <= naaaa,
                na == dns.a@.len(),
                naaaa == dns.aaaa@.len(),
                all_extras.len() == na + naaaa,
                self.wf(),
                target == domain_lookup_view(self.ip_asn_database@, domain@, dns@, all_extras),
                rest.deep_view() == all_extras.skip(na + j),
                ipv6.deep_view() == target.ipv6.take(j as int),
            decreases naaaa - j,
        {
            proof {
                assert(all_extras.skip(na + j).len() == all_extras.len() - na - j);
                assert(rest.deep_view()[0] == rest@[0]@);
                assert(all_extras[na + j] == rest.deep_view()[0]);
            }
            let ghost rest_prev = rest.deep_view();
            let side = rest.remove(0);
            let one = self.lookup_ip(IpAddress::V6(dns.aaaa[j]), side.geo, side.reverse_dns);
            let ghost ipv6_prev = ipv6.deep_view();
            ipv6.push(one);
            proof {
                assert(rest.deep_view() =~= rest_prev.remove(0));
                assert(rest_prev.remove(0) =~= all_extras.skip(na + j + 1));
                assert(ipv6.deep_view() =~= ipv6_prev.push(one@));
                assert(one@ == target.ipv6[j as int]);
                assert(ipv6_prev.push(one@) =~= target.ipv6.take(j + 1));
            }
            j = j + 1;
        }
        let r = DomainLookupResult {
            domain,
            ipv4,
            ipv6,
            cname: dns.cname,
            ns: dns.ns,
            mx: dns.mx,
            txt: dns.txt,
            soa: dns.soa,
        };
        proof {
            assert(r@.ipv4 =~= target.ipv4);
            assert(r@.ipv6 =~= target.ipv6);
            assert(r@ =~= target);
        }
        r
    }
}

} // verus!
