//! DNS record sets and the decisions of the resolution worker.
//!
//! The worker itself runs outside the library: it owns the resolver,
//! receives requests over a queue, issues the seven per-record-type
//! sub-queries concurrently and replies on a single-use channel. The
//! library holds what can be decided without the resolver: how a
//! requested domain is normalized and validated, and how the seven
//! sub-query outcomes merge into one record set, each failed sub-query
//! softly yielding its empty value.

use vstd::prelude::*;

use crate::text::strip_trailing;

verus! {

/// One mail-exchanger record: preference and exchange host.
#[derive(Debug, Clone)]
pub struct DnsLookupResultMx {
    pub preference: u16,
    pub exchange: String,
}

/// The fields of a mail-exchanger record as mathematical values.
pub ghost struct MxView {
    pub preference: u16,
    pub exchange: Seq<char>,
}

impl View for DnsLookupResultMx {
    type V = MxView;

    open spec fn view(&self) -> MxView {
        MxView { preference: self.preference, exchange: self.exchange@ }
    }
}

impl DeepView for DnsLookupResultMx {
    type V = MxView;

    open spec fn deep_view(&self) -> MxView {
        self.view()
    }
}

/// A start-of-authority record; the numeric fields are carried
/// verbatim as 32-bit unsigned values.
#[derive(Debug, Clone)]
pub struct DnsLookupResultSoa {
    pub mname: String,
    pub rname: String,
    pub serial: u32,
    pub refresh: u32,
    pub retry: u32,
    pub expire: u32,
    pub minimum: u32,
}

/// The fields of a start-of-authority record as mathematical values.
pub ghost struct SoaView {
    pub mname: Seq<char>,
    pub rname: Seq<char>,
    pub serial: u32,
    pub refresh: u32,
    pub retry: u32,
    pub expire: u32,
    pub minimum: u32,
}

impl View for DnsLookupResultSoa {
    type V = SoaView;

    open spec fn view(&self) -> SoaView {
        SoaView {
            mname: self.mname@,
            rname: self.rname@,
            serial: self.serial,
            refresh: self.refresh,
            retry: self.retry,
            expire: self.expire,
            minimum: self.minimum,
        }
    }
}

impl DeepView for DnsLookupResultSoa {
    type V = SoaView;

    open spec fn deep_view(&self) -> SoaView {
        self.view()
    }
}

/// The record set answered for one domain: addresses as numeric
/// values, names as strings, produced fresh per lookup.
#[derive(Debug, Clone)]
pub struct DnsLookupResult {
    pub a: Vec<u32>,
    pub aaaa: Vec<u128>,
    pub cname: Vec<String>,
    pub ns: Vec<String>,
    pub mx: Vec<DnsLookupResultMx>,
    pub txt: Vec<String>,
    pub soa: Option<DnsLookupResultSoa>,
}

/// The fields of a record set as mathematical values.
pub ghost struct DnsLookupResultView {
    pub a: Seq<u32>,
    pub aaaa: Seq<u128>,
    pub cname: Seq<Seq<char>>,
    pub ns: Seq<Seq<char>>,
    pub mx: Seq<MxView>,
    pub txt: Seq<Seq<char>>,
    pub soa: Option<SoaView>,
}

impl View for DnsLookupResult {
    type V = DnsLookupResultView;

    open spec fn view(&self) -> DnsLookupResultView {
        DnsLookupResultView {
            a: self.a@,
            aaaa: self.aaaa@,
            cname: self.cname.deep_view(),
            ns: self.ns.deep_view(),
            mx: self.mx.deep_view(),
            txt: self.txt.deep_view(),
            soa: self.soa.deep_view(),
        }
    }
}

impl DeepView for DnsLookupResult {
    type V = DnsLookupResultView;

    open spec fn deep_view(&self) -> DnsLookupResultView {
        self.view()
    }
}

/// The record set with every field empty and no start of authority.
pub open spec fn empty_dns_view() -> DnsLookupResultView {
    DnsLookupResultView {
        a: Seq::<u32>::empty(),
        aaaa: Seq::<u128>::empty(),
        cname: Seq::<Seq<char>>::empty(),
        ns: Seq::<Seq<char>>::empty(),
        mx: Seq::<MxView>::empty(),
        txt: Seq::<Seq<char>>::empty(),
        soa: None,
    }
}

impl DnsLookupResult {
    /// The empty record set: the reply for a rejected name or an
    /// unreachable worker.
    pub fn empty() -> (r: DnsLookupResult)
        ensures
            r@ == empty_dns_view(),
    {
        let r = DnsLookupResult {
            a: Vec::new(),
            aaaa: Vec::new(),
            cname: Vec::new(),
            ns: Vec::new(),
            mx: Vec::new(),
            txt: Vec::new(),
            soa: None,
        };
        proof {
            assert(r@.cname =~= empty_dns_view().cname);
            assert(r@.ns =~= empty_dns_view().ns);
            assert(r@.mx =~= empty_dns_view().mx);
            assert(r@.txt =~= empty_dns_view().txt);
        }
        r
    }

    /// Merge the outcomes of the seven per-record-type sub-queries
    /// into one record set. Each sub-query fails soft: an outcome that
    /// is absent — its query failed or timed out — contributes its
    /// empty value to that field only, and the fields of the other
    /// sub-queries keep their answers untouched.
    pub fn assemble(
        a: Option<Vec<u32>>,
        aaaa: Option<Vec<u128>>,
        cname: Option<Vec<String>>,
        ns: Option<Vec<String>>,
        mx: Option<Vec<DnsLookupResultMx>>,
        txt: Option<Vec<String>>,
        soa: Option<DnsLookupResultSoa>,
    ) -> (r: DnsLookupResult)
        ensures
            r@.a == (match a {
                Some(v) => v@,
                None => Seq::<u32>::empty(),
            }),
            r@.aaaa == (match aaaa {
                Some(v) => v@,
                None => Seq::<u128>::empty(),
            }),
            r@.cname == (match cname {
                Some(v) => v.deep_view(),
                None => Seq::<Seq<char>>::empty(),
            }),
            r@.ns == (match ns {
                Some(v) => v.deep_view(),
                None => Seq::<Seq<char>>::empty(),
            }),
            r@.mx == (match mx {
                Some(v) => v.deep_view(),
                None => Seq::<MxView>::empty(),
            }),
            r@.txt == (match txt {
                Some(v) => v.deep_view(),
                None => Seq::<Seq<char>>::empty(),
            }),
            r@.soa == soa.deep_view(),
    {
        let r = DnsLookupResult {
            a: match a {
                Some(v) => v,
                None => Vec::new(),
            },
            aaaa: match aaaa {
                Some(v) => v,
                None => Vec::new(),
            },
            cname: match cname {
                Some(v) => v,
                None => Vec::new(),
            },
            ns: match ns {
                Some(v) => v,
                None => Vec::new(),
            },
            mx: match mx {
                Some(v) => v,
                None => Vec::new(),
            },
            txt: match txt {
                Some(v) => v,
                None => Vec::new(),
            },
            soa,
        };
        proof {
            if cname is None {
                assert(r@.cname =~= Seq::<Seq<char>>::empty());
            }
            if ns is None {
                assert(r@.ns =~= Seq::<Seq<char>>::empty());
            }
            if mx is None {
                assert(r@.mx =~= Seq::<MxView>::empty());
            }
            if txt is None {
                assert(r@.txt =~= Seq::<Seq<char>>::empty());
            }
        }
        r
    }
}

// ---------------------------------------------------------------------------
// Reverse-lookup names

/// Strip the trailing root-label dots from the names a reverse lookup
/// returned.
pub fn clean_reverse_names(names: &Vec<String>) -> (r: Vec<String>)
    ensures
        r.deep_view() == names.deep_view().map_values(
            |n: Seq<char>| strip_trailing(n, '.'),
        ),
{
    let ghost target = names.deep_view().map_values(|n: Seq<char>| strip_trailing(n, '.'));
    let mut r: Vec<String> = Vec::new();
    let n: usize = names.len();
    let mut i: usize = 0;
    proof {
        assert(r.deep_view() =~= target.take(0));
    }
    while i < n
        invariant
            i <= n,
            n == names@.len(),
            target == names.deep_view().map_values(|nm: Seq<char>| strip_trailing(nm, '.')),
            r.deep_view() == target.take(i as int),
        decreases n - i,
    {
        proof {
            assert(names.deep_view()[i as int] == names@[i as int]@);
        }
        let cleaned = crate::text::strip_trailing_chars(names[i].as_str(), '.');
        let ghost prev = r.deep_view();
        r.push(cleaned);
        proof {
            assert(r.deep_view() =~= prev.push(cleaned@));
            assert(prev.push(cleaned@) =~= target.take(i + 1));
        }
        i = i + 1;
    }
    proof {
        assert(target.take(n as int) =~= target);
    }
    r
}

// ---------------------------------------------------------------------------
// Domain names

/// A domain with the trailing root dot appended when absent.
pub open spec fn normalized_domain(s: Seq<char>) -> Seq<char> {
    if s.len() > 0 && s.last() == '.' {
        s
    } else {
        s.push('.')
    }
}

/// Append the trailing root dot when the domain lacks one.
pub fn normalize_domain(domain: &str) -> (r: String)
    ensures
        r@ == normalized_domain(domain@),
{
    if crate::text::ends_with_char(domain, '.') {
        domain.to_owned()
    } else {
        proof {
            reveal_strlit(".");
        }
        let r = domain.to_owned().concat(".");
        proof {
            assert(domain@ + "."@ =~= normalized_domain(domain@));
        }
        r
    }
}

#[verifier::external_type_specification]
#[verifier::external_body]
#[verifier::reject_recursive_types(Octets)]
pub struct ExDname<Octets: ?Sized>(domain::base::name::Dname<Octets>);

/// What the `domain` crate accepts as an absolute domain name written
/// in master format; acceptance depends on the characters alone.
pub uninterp spec fn dname_accepts(s: Seq<char>) -> bool;

/// Relies on domain's `Dname::from_chars`: it builds a domain name
/// from the characters alone, accepting or rejecting deterministically,
/// and does not panic.
#[verifier::external_body]
fn parse_dname(s: &str) -> (r: Option<domain::base::name::Dname<Vec<u8>>>)
    ensures
        r.is_some() == dname_accepts(s@),
{
    domain::base::name::Dname::from_chars(s.chars()).ok()
}

/// What the worker decides before it touches the resolver: the
/// normalized domain, and the parsed name to query — or nothing, in
/// which case the reply is the empty record set without any sub-query
/// being issued.
pub struct DomainQueryPlan {
    pub normalized: String,
    pub dname: Option<domain::base::name::Dname<Vec<u8>>>,
}

/// Normalize a requested domain and validate it as a DNS name.
pub fn plan_domain_lookup(domain: &str) -> (p: DomainQueryPlan)
    ensures
        p.normalized@ == normalized_domain(domain@),
        p.dname.is_some() == dname_accepts(normalized_domain(domain@)),
{
    let normalized = normalize_domain(domain);
    let dname = parse_dname(normalized.as_str());
    DomainQueryPlan { normalized, dname }
}

} // verus!
