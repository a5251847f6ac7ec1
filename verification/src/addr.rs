//! IP addresses as plain numeric values, with the ordering the interval
//! index relies on and the block arithmetic used when loading CIDR lines.

use vstd::prelude::*;
use vstd::arithmetic::power2::{lemma2_to64, lemma_pow2_adds, lemma_pow2_pos, pow2};

verus! {

/// An IP address held as its numeric value: a 32-bit number for IPv4,
/// a 128-bit number for IPv6.
#[derive(Clone, Copy, PartialEq, Eq, Structural, Debug)]
pub enum IpAddress {
    V4(u32),
    V6(u128),
}

impl IpAddress {
    /// Position of the address in one total order: every IPv4 address
    /// comes before every IPv6 address, and each family is ordered
    /// numerically. This is the key order of the interval index.
    pub open spec fn key(self) -> int {
        match self {
            IpAddress::V4(a) => a as int,
            IpAddress::V6(a) => a as int + 0x1_0000_0000,
        }
    }

    pub open spec fn spec_is_v4(&self) -> bool {
        self matches IpAddress::V4(_)
    }

    #[verifier::when_used_as_spec(spec_is_v4)]
    pub fn is_v4(&self) -> (r: bool)
        ensures
            r == self.spec_is_v4(),
    {
        match self {
            IpAddress::V4(_) => true,
            IpAddress::V6(_) => false,
        }
    }

    /// Whether `self` comes no later than `other` in the key order.
    pub fn le(&self, other: &IpAddress) -> (r: bool)
        ensures
            r == (self.key() <= other.key()),
    {
        match (self, other) {
            (IpAddress::V4(a), IpAddress::V4(b)) => a <= b,
            (IpAddress::V4(_), IpAddress::V6(_)) => true,
            (IpAddress::V6(_), IpAddress::V4(_)) => false,
            (IpAddress::V6(a), IpAddress::V6(b)) => a <= b,
        }
    }
}

/// 2 to the power `e`, computed by doubling.
fn pow2_u128(e: usize) -> (r: u128)
    requires
        e <= 127,
    ensures
        r == pow2(e as nat),
{
    proof {
        lemma2_to64();
    }
    let mut r: u128 = 1;
    let mut i: usize = 0;
    while i < e
        invariant
            i <= e,
            e <= 127,
            r == pow2(i as nat),
        decreases e - i,
    {
        proof {
            lemma_pow2_adds(i as nat, 1);
            lemma2_to64();
            lemma_pow2_bound((i + 1) as nat, 127);
        }
        r = r * 2;
        i = i + 1;
    }
    r
}

/// `pow2` stays within bounds below 2^128.
proof fn lemma_pow2_bound(e: nat, cap: nat)
    requires
        e <= cap,
        cap <= 127,
    ensures
        pow2(e) <= pow2(cap) <= u128::MAX,
{
    if e < cap {
        vstd::arithmetic::power2::lemma_pow2_strictly_increases(e, cap);
    }
    if cap < 127 {
        vstd::arithmetic::power2::lemma_pow2_strictly_increases(cap, 127);
    }
    lemma_pow2_adds(63, 64);
    lemma2_to64();
    vstd::arithmetic::power2::lemma2_to64_rest();
}

/// First and last numeric address of the block that spans `size`
/// consecutive addresses around `addr`, where `size` is the power of two
/// belonging to the prefix length.
pub open spec fn block_first(addr: int, size: int) -> int {
    addr - addr % size
}

pub open spec fn block_last(addr: int, size: int) -> int {
    block_first(addr, size) + size - 1
}

/// First and last address of the IPv4 block `addr/prefix`
/// (network and broadcast address).
pub fn cidr_block_v4(addr: u32, prefix: u8) -> (r: (u32, u32))
    requires
        prefix <= 32,
    ensures
        r.0 == block_first(addr as int, pow2((32 - prefix) as nat) as int),
        r.1 == block_last(addr as int, pow2((32 - prefix) as nat) as int),
{
    let size: u128 = pow2_u128(32 - prefix as usize);
    let a: u128 = addr as u128;
    proof {
        lemma_pow2_pos((32 - prefix) as nat);
        lemma_pow2_pos(prefix as nat);
        lemma_pow2_adds((32 - prefix) as nat, prefix as nat);
        lemma2_to64();
        lemma_block_within(a as int, size as int, pow2(prefix as nat) as int, 0x1_0000_0000);
    }
    let start: u128 = a - a % size;
    ((start) as u32, (start + (size - 1)) as u32)
}

/// First and last address of the IPv6 block `addr/prefix`.
pub fn cidr_block_v6(addr: u128, prefix: u8) -> (r: (u128, u128))
    requires
        prefix <= 128,
    ensures
        r.0 == block_first(addr as int, pow2((128 - prefix) as nat) as int),
        r.1 == block_last(addr as int, pow2((128 - prefix) as nat) as int),
{
    if prefix == 0 {
        proof {
            lemma_pow2_adds(64, 64);
            lemma2_to64();
            vstd::arithmetic::div_mod::lemma_small_mod(addr as nat, pow2(128));
        }
        (0, u128::MAX)
    } else {
        let size: u128 = pow2_u128(128 - prefix as usize);
        proof {
            lemma_pow2_pos((128 - prefix) as nat);
            lemma_pow2_pos(prefix as nat);
            lemma_pow2_adds((128 - prefix) as nat, prefix as nat);
            lemma_pow2_adds(64, 64);
            lemma2_to64();
            lemma_block_within(
                addr as int,
                size as int,
                pow2(prefix as nat) as int,
                pow2(128) as int,
            );
        }
        let start: u128 = addr - addr % size;
        (start, start + (size - 1))
    }
}

/// A block that starts at a multiple of its size ends before the next
/// multiple of the address space size.
proof fn lemma_block_within(a: int, size: int, k: int, space: int)
    requires
        0 <= a < space,
        0 < size,
        0 < k,
        size * k == space,
    ensures
        0 <= a - a % size,
        a - a % size + size <= space,
    decreases 0int,
{
    vstd::arithmetic::div_mod::lemma_fundamental_div_mod(a, size);
    vstd::arithmetic::div_mod::lemma_mod_bound(a, size);
    let q = a / size;
    assert(a - a % size == size * q);
    assert(q < k) by (nonlinear_arith)
        requires
            size * q <= a,
            a < space,
            size * k == space,
            0 < size,
            0 < k,
    ;
    assert(size * q + size <= size * k) by (nonlinear_arith)
        requires
            q < k,
            0 < size,
    ;
}


// ---------------------------------------------------------------------------
// Textual forms

/// One octet of a dotted-decimal IPv4 address: one to three digits,
/// value at most 255, no leading zero.
pub open spec fn ipv4_octet_ok(p: Seq<char>) -> bool {
    &&& 1 <= p.len() <= 3
    &&& crate::text::all_digits(p)
    &&& crate::text::dec_val(p) <= 255
    &&& (p[0] != '0' || p.len() == 1)
}

/// The value of a dotted-decimal IPv4 string, if it is one.
pub open spec fn parse_ipv4_spec(s: Seq<char>) -> Option<u32> {
    let parts = crate::text::split_on(s, '.');
    if parts.len() == 4 && (forall|i: int| 0 <= i < 4 ==> ipv4_octet_ok(#[trigger] parts[i])) {
        Some(
            (((crate::text::dec_val(parts[0]) * 256 + crate::text::dec_val(parts[1])) * 256
                + crate::text::dec_val(parts[2])) * 256 + crate::text::dec_val(parts[3])) as u32,
        )
    } else {
        None
    }
}

/// Parse one dotted-decimal octet.
fn parse_octet(p: &str) -> (r: Option<u32>)
    ensures
        match r {
            Some(v) => ipv4_octet_ok(p@) && v == crate::text::dec_val(p@),
            None => !ipv4_octet_ok(p@),
        },
{
    let n: usize = p.unicode_len();
    if n == 0 || n > 3 {
        return None;
    }
    if n > 1 && p.get_char(0) == '0' {
        return None;
    }
    match crate::text::parse_u32_dec(p) {
        Some(v) => if v <= 255 {
            Some(v)
        } else {
            None
        },
        None => {
            proof {
                if crate::text::all_digits(p@) {
                    crate::text::lemma_dec_val_nonneg(p@);
                }
            }
            None
        },
    }
}

/// Parse a dotted-decimal IPv4 address.
pub fn parse_ipv4(s: &str) -> (r: Option<u32>)
    ensures
        r == parse_ipv4_spec(s@),
{
    let parts = crate::text::split_str(s, '.');
    if parts.len() != 4 {
        return None;
    }
    proof {
        assert(forall|i: int| 0 <= i < 4 ==> parts.deep_view()[i] == #[trigger] parts@[i]@);
    }
    let o0 = match parse_octet(parts[0].as_str()) {
        Some(v) => v,
        None => {
            return None;
        },
    };
    let o1 = match parse_octet(parts[1].as_str()) {
        Some(v) => v,
        None => {
            return None;
        },
    };
    let o2 = match parse_octet(parts[2].as_str()) {
        Some(v) => v,
        None => {
            return None;
        },
    };
    let o3 = match parse_octet(parts[3].as_str()) {
        Some(v) => v,
        None => {
            return None;
        },
    };
    Some(((o0 * 256 + o1) * 256 + o2) * 256 + o3)
}

/// One group of an IPv6 address: one to four hexadecimal digits.
pub open spec fn ipv6_group_ok(p: Seq<char>) -> bool {
    1 <= p.len() <= 4 && crate::text::all_hex_digits(p)
}

pub open spec fn all_groups_ok(gs: Seq<Seq<char>>) -> bool {
    forall|i: int| 0 <= i < gs.len() ==> ipv6_group_ok(#[trigger] gs[i])
}

/// The value of a sequence of 16-bit groups, highest group first;
/// an empty group counts as zero.
pub open spec fn groups_val(gs: Seq<Seq<char>>) -> int
    decreases gs.len(),
{
    if gs.len() == 0 {
        0
    } else {
        groups_val(gs.drop_last()) * 0x10000 + crate::text::hex_val(gs.last())
    }
}

pub open spec fn zero_groups(n: int) -> Seq<Seq<char>> {
    Seq::new(n as nat, |i: int| Seq::<char>::empty())
}

/// Index of the first empty part, if any.
pub open spec fn first_empty(gs: Seq<Seq<char>>) -> Option<int>
    decreases gs.len(),
{
    if gs.len() == 0 {
        None
    } else if gs[0].len() == 0 {
        Some(0)
    } else {
        match first_empty(gs.drop_first()) {
            Some(i) => Some(i + 1),
            None => None,
        }
    }
}

proof fn lemma_first_empty_some(gs: Seq<Seq<char>>, e: int)
    requires
        0 <= e < gs.len(),
        gs[e].len() == 0,
        forall|j: int| 0 <= j < e ==> #[trigger] gs[j].len() > 0,
    ensures
        first_empty(gs) == Some(e),
    decreases e,
{
    if e > 0 {
        lemma_first_empty_some(gs.drop_first(), e - 1);
    }
}

proof fn lemma_first_empty_none(gs: Seq<Seq<char>>)
    requires
        forall|j: int| 0 <= j < gs.len() ==> #[trigger] gs[j].len() > 0,
    ensures
        first_empty(gs) == None::<int>,
    decreases gs.len(),
{
    if gs.len() > 0 {
        lemma_first_empty_none(gs.drop_first());
    }
}

/// The tail of the IPv6 grammar once the position of the `::` marker is
/// settled: `lparts` are the groups before it, `rparts` the raw parts
/// after it. A lone empty part on the right stands for "nothing after
/// the marker"; no part on the right at all means a stray final colon.
pub open spec fn ipv6_tail(lparts: Seq<Seq<char>>, rparts: Seq<Seq<char>>) -> Option<u128> {
    if rparts.len() == 0 {
        None
    } else {
        let r = if rparts.len() == 1 && rparts[0].len() == 0 {
            Seq::<Seq<char>>::empty()
        } else {
            rparts
        };
        if all_groups_ok(lparts) && all_groups_ok(r) && lparts.len() + r.len() <= 7 {
            Some(
                groups_val(
                    lparts + zero_groups(8 - lparts.len() - r.len()) + r,
                ) as u128,
            )
        } else {
            None
        }
    }
}

/// The value of an IPv6 string: eight colon-separated hexadecimal
/// groups, or fewer with one `::` standing for the missing zero groups.
pub open spec fn parse_ipv6_spec(s: Seq<char>) -> Option<u128> {
    let parts = crate::text::split_on(s, ':');
    match first_empty(parts) {
        None => if parts.len() == 8 && all_groups_ok(parts) {
            Some(groups_val(parts) as u128)
        } else {
            None
        },
        Some(e) => if e == 0 {
            if parts.len() >= 2 && parts[1].len() == 0 {
                ipv6_tail(Seq::<Seq<char>>::empty(), parts.skip(2))
            } else {
                None
            }
        } else {
            ipv6_tail(parts.take(e), parts.skip(e + 1))
        },
    }
}

/// The value of a group sequence stays below 2^(16 n).
proof fn lemma_groups_val_bound(gs: Seq<Seq<char>>)
    requires
        forall|i: int| 0 <= i < gs.len() ==> crate::text::hex_val(#[trigger] gs[i]) < 0x10000
            && crate::text::hex_val(gs[i]) >= 0,
    ensures
        0 <= groups_val(gs),
        groups_val(gs) < pow2((16 * gs.len()) as nat),
    decreases gs.len(),
{
    lemma2_to64();
    if gs.len() == 0 {
    } else {
        lemma_groups_val_bound(gs.drop_last());
        lemma_pow2_adds((16 * (gs.len() - 1)) as nat, 16);
    }
}

/// Every group value is a 16-bit quantity.
pub open spec fn groups_bounded(gs: Seq<Seq<char>>) -> bool {
    forall|i: int| 0 <= i < gs.len() ==> 0 <= crate::text::hex_val(#[trigger] gs[i]) < 0x10000
}

/// Append one 16-bit group to an accumulated address value.
fn push_group(acc: u128, g: u16, Ghost(gs): Ghost<Seq<Seq<char>>>, Ghost(gv): Ghost<Seq<char>>) -> (r: u128)
    requires
        gs.len() <= 7,
        groups_bounded(gs),
        acc == groups_val(gs),
        0 <= crate::text::hex_val(gv) < 0x10000,
        g as int == crate::text::hex_val(gv),
    ensures
        r == groups_val(gs.push(gv)),
        0 <= r,
{
    proof {
        lemma_groups_val_bound(gs);
        lemma_pow2_bound((16 * gs.len()) as nat, 112);
        lemma_pow2_adds((16 * gs.len()) as nat, 16);
        lemma_pow2_adds(64, 64);
        lemma2_to64();
        if gs.len() < 7 {
            vstd::arithmetic::power2::lemma_pow2_strictly_increases(
                (16 * gs.len() + 16) as nat,
                128,
            );
        }
        assert(gs.push(gv).drop_last() =~= gs);
        assert(gs.push(gv).last() == gv);
    }
    acc * 0x10000 + g as u128
}

/// Parse one colon-separated group, reporting whether it is a valid one.
fn parse_group(p: &str) -> (r: Option<u16>)
    ensures
        match r {
            Some(g) => ipv6_group_ok(p@) && g as int == crate::text::hex_val(p@)
                && 0 <= crate::text::hex_val(p@) < 0x10000,
            None => !ipv6_group_ok(p@),
        },
{
    proof {
        if ipv6_group_ok(p@) {
            crate::text::lemma_hex_val_bound(p@);
        }
    }
    crate::text::parse_hex16(p)
}

/// The compressed tail of an IPv6 address: groups `0 .. le` of `parts`
/// stand before the `::` marker, parts from `rs` on stand after it.
#[verifier::loop_isolation(false)]
fn ipv6_tail_exec(parts: &Vec<String>, le: usize, rs: usize) -> (r: Option<u128>)
    requires
        le < rs <= parts@.len(),
    ensures
        r == ipv6_tail(parts.deep_view().take(le as int), parts.deep_view().skip(rs as int)),
{
    let ghost pview = parts.deep_view();
    proof {
        assert(forall|j: int| 0 <= j < parts@.len() ==> pview[j] == #[trigger] parts@[j]@);
    }
    let ghost lparts = pview.take(le as int);
    let ghost rparts = pview.skip(rs as int);
    let np: usize = parts.len();
    let rlen: usize = np - rs;
    if rlen == 0 {
        return None;
    }
    let rempty: bool = rlen == 1 && parts[rs].unicode_len() == 0;
    let ghost rv = if rempty { Seq::<Seq<char>>::empty() } else { rparts };
    let nr: usize = if rempty { 0 } else { rlen };
    let nl: usize = le;
    if nl + nr > 7 {
        return None;
    }
    let zeros: usize = 8 - nl - nr;

    let mut acc: u128 = 0;
    let ghost mut gs: Seq<Seq<char>> = Seq::empty();
    let mut i: usize = 0;
    while i < nl
        invariant
            i <= nl,
            nl < rs <= np,
            np == parts@.len(),
            pview == parts.deep_view(),
            gs == pview.take(i as int),
            gs.len() == i <= 7,
            groups_bounded(gs),
            all_groups_ok(gs),
            acc == groups_val(gs),
        decreases nl - i,
    {
        proof {
            assert(pview[i as int] == parts@[i as int]@);
        }
        match parse_group(parts[i].as_str()) {
            Some(g) => {
                acc = push_group(acc, g, Ghost(gs), Ghost(pview[i as int]));
                proof {
                    gs = gs.push(pview[i as int]);
                    assert(gs =~= pview.take(i + 1));
                }
                i = i + 1;
            },
            None => {
                proof {
                    assert(!ipv6_group_ok(lparts[i as int]));
                }
                return None;
            },
        }
    }
    proof {
        assert(gs =~= lparts);
        assert(all_groups_ok(lparts));
    }
    let mut z: usize = 0;
    while z < zeros
        invariant
            z <= zeros,
            nl + nr <= 7,
            zeros == 8 - nl - nr,
            gs == lparts + zero_groups(z as int),
            gs.len() == nl + z,
            groups_bounded(gs),
            acc == groups_val(gs),
            lparts.len() == nl,
        decreases zeros - z,
    {
        proof {
            assert(crate::text::hex_val(Seq::<char>::empty()) == 0);
        }
        acc = push_group(acc, 0, Ghost(gs), Ghost(Seq::<char>::empty()));
        proof {
            gs = gs.push(Seq::<char>::empty());
            assert(gs =~= lparts + zero_groups(z + 1));
        }
        z = z + 1;
    }
    let ghost lz = lparts + zero_groups(zeros as int);
    let mut k: usize = 0;
    while k < nr
        invariant
            k <= nr,
            nr == rv.len(),
            nr != 0 ==> rv == rparts,
            rs + nr <= np,
            np == parts@.len(),
            pview == parts.deep_view(),
            rparts == pview.skip(rs as int),
            lz == lparts + zero_groups(zeros as int),
            lz.len() == 8 - nr,
            gs == lz + rv.take(k as int),
            gs.len() == 8 - nr + k,
            groups_bounded(gs),
            all_groups_ok(rv.take(k as int)),
            acc == groups_val(gs),
        decreases nr - k,
    {
        proof {
            assert(rv[k as int] == pview[rs + k]);
            assert(pview[rs + k] == parts@[rs + k]@);
        }
        match parse_group(parts[rs + k].as_str()) {
            Some(g) => {
                acc = push_group(acc, g, Ghost(gs), Ghost(rv[k as int]));
                proof {
                    gs = gs.push(rv[k as int]);
                    assert(gs =~= lz + rv.take(k + 1));
                }
                k = k + 1;
            },
            None => {
                proof {
                    assert(!ipv6_group_ok(rv[k as int]));
                }
                return None;
            },
        }
    }
    proof {
        assert(rv.take(nr as int) =~= rv);
        assert(all_groups_ok(rv));
        assert(gs =~= lparts + zero_groups(zeros as int) + rv);
    }
    Some(acc)
}

/// Parse an IPv6 address in hexadecimal-groups form.
#[verifier::loop_isolation(false)]
pub fn parse_ipv6(s: &str) -> (r: Option<u128>)
    ensures
        r == parse_ipv6_spec(s@),
{
    let parts = crate::text::split_str(s, ':');
    let ghost pview = parts.deep_view();
    proof {
        assert(forall|j: int| 0 <= j < parts@.len() ==> pview[j] == #[trigger] parts@[j]@);
    }
    let np: usize = parts.len();
    let mut e: usize = 0;
    while e < np && parts[e].unicode_len() != 0
        invariant
            e <= np,
            np == parts@.len(),
            pview == parts.deep_view(),
            forall|j: int| 0 <= j < e ==> #[trigger] pview[j].len() > 0,
        decreases np - e,
    {
        e = e + 1;
    }
    if e == np {
        // no empty part: eight plain groups or nothing
        proof {
            lemma_first_empty_none(pview);
        }
        if np != 8 {
            return None;
        }
        let mut acc: u128 = 0;
        let ghost mut gs: Seq<Seq<char>> = Seq::empty();
        let mut i: usize = 0;
        while i < 8
            invariant
                i <= 8,
                np == 8,
                np == parts@.len(),
                pview == parts.deep_view(),
                gs == pview.take(i as int),
                gs.len() == i,
                groups_bounded(gs),
                all_groups_ok(gs),
                acc == groups_val(gs),
            decreases 8 - i,
        {
            proof {
                assert(pview[i as int] == parts@[i as int]@);
            }
            match parse_group(parts[i].as_str()) {
                Some(g) => {
                    acc = push_group(acc, g, Ghost(gs), Ghost(pview[i as int]));
                    proof {
                        gs = gs.push(pview[i as int]);
                        assert(gs =~= pview.take(i + 1));
                    }
                    i = i + 1;
                },
                None => {
                    return None;
                },
            }
        }
        proof {
            assert(gs =~= pview);
        }
        Some(acc)
    } else {
        proof {
            lemma_first_empty_some(pview, e as int);
        }
        if e == 0 {
            if np >= 2 && parts[1].unicode_len() == 0 {
                proof {
                    assert(pview.take(0) =~= Seq::<Seq<char>>::empty());
                }
                ipv6_tail_exec(&parts, 0, 2)
            } else {
                None
            }
        } else {
            ipv6_tail_exec(&parts, e, e + 1)
        }
    }
}

/// The address an input string denotes: a dotted-decimal IPv4 address
/// or a hexadecimal-groups IPv6 address.
pub open spec fn parse_ip_spec(s: Seq<char>) -> Option<IpAddress> {
    match parse_ipv4_spec(s) {
        Some(v) => Some(IpAddress::V4(v)),
        None => match parse_ipv6_spec(s) {
            Some(v) => Some(IpAddress::V6(v)),
            None => None,
        },
    }
}

/// Parse an IP address of either family.
pub fn parse_ip_address(s: &str) -> (r: Option<IpAddress>)
    ensures
        r == parse_ip_spec(s@),
{
    match parse_ipv4(s) {
        Some(v) => Some(IpAddress::V4(v)),
        None => match parse_ipv6(s) {
            Some(v) => Some(IpAddress::V6(v)),
            None => None,
        },
    }
}

} // verus!
