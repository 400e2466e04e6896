//! Subnet resolution: turning an interface address plus netmask into a
//! scannable IPv4 range, with the usable-host-count and exclusion rules.
//!
//! Addresses and netmasks are plain `u32` values in network order
//! (`192.168.1.10` is `0xC0A8010A`).

use vstd::arithmetic::div_mod::lemma_fundamental_div_mod;
use vstd::arithmetic::div_mod::lemma_multiply_divide_lt;
use vstd::arithmetic::mul::lemma_mul_inequality;
use vstd::arithmetic::power2::lemma2_to64;
use vstd::arithmetic::power2::lemma_pow2_adds;
use vstd::arithmetic::power2::lemma_pow2_strictly_increases;
use vstd::arithmetic::power2::lemma_pow2_unfold;
use vstd::arithmetic::power2::pow2;
use vstd::prelude::*;

verus! {

/// Usable hosts in an IPv4 prefix: all addresses except network and
/// broadcast, with /31 and /32 special-cased.
pub open spec fn spec_usable_hosts(prefix_len: int) -> int {
    if prefix_len == 32 {
        1
    } else if prefix_len == 31 {
        2
    } else {
        pow2((32 - prefix_len) as nat) - 2
    }
}

pub proof fn lemma_pow2_monotone(a: nat, b: nat)
    requires
        a <= b,
    ensures
        pow2(a) <= pow2(b),
{
    if a < b {
        lemma_pow2_strictly_increases(a, b);
    }
}

/// 2^e, executable; e is at most 32 so the result fits easily in u64.
pub fn pow2_u64(e: u8) -> (r: u64)
    requires
        e <= 32,
    ensures
        r == pow2(e as nat),
{
    let mut total: u64 = 1;
    let mut i: u8 = 0;
    proof {
        lemma2_to64();
    }
    while i < e
        invariant
            i <= e <= 32,
            total == pow2(i as nat),
        decreases e - i,
    {
        proof {
            lemma_pow2_unfold((i + 1) as nat);
            lemma_pow2_monotone((i + 1) as nat, 32);
            lemma2_to64();
        }
        total = total * 2;
        i = i + 1;
    }
    total
}

/// Number of usable host addresses for an IPv4 prefix length.
///
/// `prefix_len > 32` is a programming error and is excluded up front.
pub fn hosts_from_prefix_v4(prefix_len: u8) -> (usable: u32)
    requires
        prefix_len <= 32,
    ensures
        usable == spec_usable_hosts(prefix_len as int),
{
    if prefix_len == 32 {
        1
    } else if prefix_len == 31 {
        2
    } else {
        let total = pow2_u64(32 - prefix_len);
        proof {
            lemma2_to64();
            lemma_pow2_monotone(2, (32 - prefix_len) as nat);
            lemma_pow2_monotone((32 - prefix_len) as nat, 32);
        }
        (total - 2) as u32
    }
}

/// The netmask with `prefix_len` leading one bits, as an integer.
pub open spec fn spec_mask_of(prefix_len: int) -> int {
    0x1_0000_0000 - pow2((32 - prefix_len) as nat)
}

/// The netmask with `prefix_len` leading one bits.
pub fn netmask_for_prefix(prefix_len: u8) -> (mask: u32)
    requires
        prefix_len <= 32,
    ensures
        mask == spec_mask_of(prefix_len as int),
{
    let block = pow2_u64(32 - prefix_len);
    proof {
        lemma2_to64();
        lemma_pow2_monotone((32 - prefix_len) as nat, 32);
        lemma_pow2_monotone(0, (32 - prefix_len) as nat);
    }
    (0x1_0000_0000u64 - block) as u32
}

/// The smallest prefix length `p` at or above `from` whose netmask
/// equals `mask`, if any.  Netmasks are distinct per prefix length, so
/// at most one `p` matches.
pub open spec fn spec_prefix_of_from(mask: u32, from: u8) -> Option<u8>
    decreases 33 - from,
{
    if from > 32 {
        None
    } else if mask == spec_mask_of(from as int) {
        Some(from)
    } else {
        spec_prefix_of_from(mask, (from + 1) as u8)
    }
}

/// The prefix length whose netmask equals `mask`, if `mask` is a valid
/// netmask (a run of ones followed by a run of zeros).
pub open spec fn spec_prefix_of(mask: u32) -> Option<u8> {
    spec_prefix_of_from(mask, 0)
}

/// Derives the prefix length from a netmask; `None` when the mask is
/// not a contiguous run of leading ones.
pub fn prefix_from_netmask(mask: u32) -> (r: Option<u8>)
    ensures
        r == spec_prefix_of(mask),
        r matches Some(p) ==> p <= 32 && mask == spec_mask_of(p as int),
{
    let mut p: u8 = 0;
    loop
        invariant
            p <= 33,
            spec_prefix_of(mask) == spec_prefix_of_from(mask, p),
        decreases 33 - p,
    {
        if p > 32 {
            return None;
        }
        if netmask_for_prefix(p) == mask {
            return Some(p);
        }
        p = p + 1;
    }
}

/// A scannable IPv4 range: the interface address it was derived from,
/// and the prefix length.
#[derive(Clone, Copy, PartialEq, Eq, Structural, Debug)]
pub struct Ipv4Subnet {
    pub addr: u32,
    pub prefix_len: u8,
}

impl Ipv4Subnet {
    pub open spec fn wf(&self) -> bool {
        self.prefix_len <= 32
    }

    /// Number of addresses in one block of this prefix length.
    pub open spec fn spec_block(&self) -> int {
        pow2((32 - self.prefix_len) as nat) as int
    }

    /// The network address: `addr` rounded down to a block boundary.
    pub open spec fn spec_network(&self) -> int {
        self.addr - (self.addr as int) % self.spec_block()
    }

    /// The first usable host address: the network address itself for
    /// /31 and /32, one past it otherwise.
    pub open spec fn spec_first_host(&self) -> int {
        if self.prefix_len >= 31 {
            self.spec_network()
        } else {
            self.spec_network() + 1
        }
    }

    pub open spec fn spec_usable(&self) -> int {
        spec_usable_hosts(self.prefix_len as int)
    }

    /// The whole block, network plus its addresses, stays below 2^32,
    /// so every usable host address fits in a `u32`.
    pub proof fn lemma_network_bound(&self)
        requires
            self.wf(),
        ensures
            0 <= self.spec_network(),
            self.spec_network() % self.spec_block() == 0,
            self.spec_network() + self.spec_block() <= 0x1_0000_0000,
    {
        let a = self.addr as int;
        let b = self.spec_block();
        let m = pow2(self.prefix_len as nat) as int;
        assert(b >= 1) by {
            lemma2_to64();
            lemma_pow2_monotone(0, (32 - self.prefix_len) as nat);
        }
        lemma_fundamental_div_mod(a, b);
        assert(b * m == 0x1_0000_0000) by {
            lemma_pow2_adds((32 - self.prefix_len) as nat, self.prefix_len as nat);
            lemma2_to64();
        }
        assert(a < b * m) by {
            lemma2_to64();
        }
        lemma_multiply_divide_lt(a, b, m);
        let q = a / b;
        assert(q + 1 <= m);
        assert((q + 1) * b <= m * b) by {
            lemma_mul_inequality(q + 1, m, b);
        }
        assert(q * b == b * q) by (nonlinear_arith);
        assert((q + 1) * b == q * b + b) by (nonlinear_arith);
        assert(m * b == b * m) by (nonlinear_arith);
        assert(self.spec_network() == q * b);
        assert(self.spec_network() % b == 0) by {
            assert(a % b == a - q * b);
            assert((q * b) % b == 0) by {
                vstd::arithmetic::div_mod::lemma_mod_multiples_basic(q, b);
            }
        }
        assert(self.spec_network() >= 0) by {
            vstd::arithmetic::div_mod::lemma_remainder_upper(a, b);
        }
    }
}

/// The network address of the subnet, executable.
pub fn network_address(s: &Ipv4Subnet) -> (net: u32)
    requires
        s.wf(),
    ensures
        net == s.spec_network(),
{
    let block = pow2_u64(32 - s.prefix_len);
    proof {
        lemma2_to64();
        lemma_pow2_monotone(0, (32 - s.prefix_len) as nat);
    }
    let a = s.addr as u64;
    proof {
        assert(a as int % block as int <= a as int) by (nonlinear_arith)
            requires
                a >= 0,
                block >= 1,
        ;
    }
    (a - a % block) as u32
}

/// Every usable host address of the subnet, in ascending order.
pub fn host_addrs(s: &Ipv4Subnet) -> (hosts: Vec<u32>)
    requires
        s.wf(),
    ensures
        hosts@.len() == s.spec_usable(),
        forall|i: int|
            0 <= i < hosts@.len() ==> hosts@[i] == s.spec_first_host() + i,
{
    proof {
        s.lemma_network_bound();
        lemma2_to64();
        if s.prefix_len < 31 {
            lemma_pow2_monotone(2, (32 - s.prefix_len) as nat);
        }
    }
    let network = network_address(s);
    let first: u32 = if s.prefix_len >= 31 {
        network
    } else {
        network + 1
    };
    let count = hosts_from_prefix_v4(s.prefix_len);
    let mut hosts: Vec<u32> = Vec::new();
    let mut i: u32 = 0;
    while i < count
        invariant
            i <= count,
            count == s.spec_usable(),
            first == s.spec_first_host(),
            s.spec_first_host() + count <= 0x1_0000_0000,
            hosts@.len() == i,
            forall|j: int| 0 <= j < i ==> hosts@[j] == s.spec_first_host() + j,
        decreases count - i,
    {
        hosts.push(first + i);
        i = i + 1;
    }
    hosts
}

/// Whether an IPv4 address is a loopback address (127.0.0.0/8).
pub open spec fn spec_is_loopback_v4(ip: u32) -> bool {
    ip / 0x100_0000 == 127
}

pub fn is_loopback_v4(ip: u32) -> (r: bool)
    ensures
        r == spec_is_loopback_v4(ip),
{
    ip / 0x100_0000 == 127
}

/// One address of a local interface, as the resolver sees it: an IPv4
/// address with its optional netmask, or an IPv6 address of which only
/// loopback-ness matters (IPv6 sweeping is a declared non-goal).
#[derive(Clone, Copy, Debug)]
pub enum IfaceAddr {
    V4 { ip: u32, netmask: Option<u32> },
    V6 { loopback: bool },
}

/// What to do with one interface address.
#[derive(Clone, Copy, Debug)]
pub enum AddrDecision {
    /// A loopback address: stop processing the whole interface.
    ExcludeInterface,
    /// Not scannable (IPv6, or an invalid netmask): skip this address.
    SkipAddr,
    /// Sweep this subnet.
    Scan(Ipv4Subnet),
}

/// The resolution rule for one interface address: loopback excludes the
/// interface; an absent or zero netmask means host-only (/32); any other
/// netmask must be a contiguous mask or the address is skipped; IPv6 is
/// skipped unless loopback.
pub open spec fn spec_decision(a: IfaceAddr) -> AddrDecision {
    match a {
        IfaceAddr::V6 { loopback } => if loopback {
            AddrDecision::ExcludeInterface
        } else {
            AddrDecision::SkipAddr
        },
        IfaceAddr::V4 { ip, netmask } => if spec_is_loopback_v4(ip) {
            AddrDecision::ExcludeInterface
        } else {
            match netmask {
                None => AddrDecision::Scan(Ipv4Subnet { addr: ip, prefix_len: 32 }),
                Some(mask) => if mask == 0 {
                    AddrDecision::Scan(Ipv4Subnet { addr: ip, prefix_len: 32 })
                } else {
                    match spec_prefix_of(mask) {
                        Some(p) => AddrDecision::Scan(Ipv4Subnet { addr: ip, prefix_len: p }),
                        None => AddrDecision::SkipAddr,
                    }
                },
            }
        },
    }
}

/// Resolves one interface address to a decision.
pub fn resolve_addr(a: &IfaceAddr) -> (d: AddrDecision)
    ensures
        d == spec_decision(*a),
        d matches AddrDecision::Scan(s) ==> s.wf(),
{
    match a {
        IfaceAddr::V6 { loopback } => {
            if *loopback {
                AddrDecision::ExcludeInterface
            } else {
                AddrDecision::SkipAddr
            }
        },
        IfaceAddr::V4 { ip, netmask } => {
            if is_loopback_v4(*ip) {
                AddrDecision::ExcludeInterface
            } else {
                match netmask {
                    None => AddrDecision::Scan(Ipv4Subnet { addr: *ip, prefix_len: 32 }),
                    Some(mask) => {
                        if *mask == 0 {
                            AddrDecision::Scan(Ipv4Subnet { addr: *ip, prefix_len: 32 })
                        } else {
                            match prefix_from_netmask(*mask) {
                                Some(p) => AddrDecision::Scan(
                                    Ipv4Subnet { addr: *ip, prefix_len: p },
                                ),
                                None => AddrDecision::SkipAddr,
                            }
                        }
                    },
                }
            }
        },
    }
}

/// The subnets to sweep for an interface's address list: each address
/// resolves in order, and the first loopback address excludes the rest
/// of the interface.
pub open spec fn spec_resolve_interface(addrs: Seq<IfaceAddr>) -> Seq<Ipv4Subnet>
    decreases addrs.len(),
{
    if addrs.len() == 0 {
        Seq::empty()
    } else {
        match spec_decision(addrs[0]) {
            AddrDecision::ExcludeInterface => Seq::empty(),
            AddrDecision::SkipAddr => spec_resolve_interface(addrs.drop_first()),
            AddrDecision::Scan(s) => seq![s] + spec_resolve_interface(addrs.drop_first()),
        }
    }
}

/// Resolves an interface's whole address list to the subnets to sweep.
pub fn resolve_interface(addrs: &Vec<IfaceAddr>) -> (subnets: Vec<Ipv4Subnet>)
    ensures
        subnets@ == spec_resolve_interface(addrs@),
        forall|i: int| 0 <= i < subnets@.len() ==> (#[trigger] subnets@[i]).wf(),
{
    let mut subnets: Vec<Ipv4Subnet> = Vec::new();
    let mut k: usize = 0;
    proof {
        assert(addrs@.skip(0) =~= addrs@);
        assert(subnets@ + spec_resolve_interface(addrs@) =~= spec_resolve_interface(addrs@));
    }
    while k < addrs.len()
        invariant
            k <= addrs@.len(),
            spec_resolve_interface(addrs@) == subnets@ + spec_resolve_interface(
                addrs@.skip(k as int),
            ),
            forall|i: int| 0 <= i < subnets@.len() ==> (#[trigger] subnets@[i]).wf(),
        decreases addrs@.len() - k,
    {
        let ghost pre = subnets@;
        let ghost restk = addrs@.skip(k as int);
        proof {
            assert(restk[0] == addrs@[k as int]);
            assert(restk.drop_first() =~= addrs@.skip(k as int + 1));
        }
        match resolve_addr(&addrs[k]) {
            AddrDecision::ExcludeInterface => {
                proof {
                    assert(spec_resolve_interface(restk) =~= Seq::<Ipv4Subnet>::empty());
                    assert(pre + Seq::<Ipv4Subnet>::empty() =~= pre);
                }
                return subnets;
            },
            AddrDecision::SkipAddr => {},
            AddrDecision::Scan(s) => {
                subnets.push(s);
                proof {
                    let rest = spec_resolve_interface(restk.drop_first());
                    assert(subnets@ =~= pre + seq![s]);
                    assert(pre + (seq![s] + rest) =~= (pre + seq![s]) + rest);
                }
            },
        }
        k = k + 1;
    }
    proof {
        assert(addrs@.skip(k as int) =~= Seq::<IfaceAddr>::empty());
        assert(subnets@ + Seq::<Ipv4Subnet>::empty() =~= subnets@);
    }
    subnets
}

} // verus!
