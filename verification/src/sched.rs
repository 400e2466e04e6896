//! Rate-limited probe scheduling: per-job dispatch delays, the shared
//! batch timeout, and the job batches for the ICMP and TCP sweep
//! strategies.  The library only plans the batches; dispatching them is
//! the caller's concern.

use crate::subnet::Ipv4Subnet;
use crate::subnet::host_addrs;
use crate::subnet::hosts_from_prefix_v4;
use vstd::prelude::*;

verus! {

/// Target ICMP issue rate, echo requests per second.
pub const ICMP_RATE: u32 = 4096;

/// Target TCP connect issue rate, attempts per second.
pub const TCP_RATE: u32 = 8096;

/// A subnet with more usable hosts than this is never swept: the batch
/// would take too long.
pub const MAX_SWEEP_HOSTS: u32 = 65534;

/// The TCP ports every host is probed on.
pub open spec fn spec_ports() -> Seq<u16> {
    seq![22u16, 80u16, 443u16]
}

/// One scheduled probe: a target address, an optional TCP port (`None`
/// means ICMP echo), the dispatch delay for this job, and the timeout
/// shared by the whole batch.
#[derive(Clone, Copy, PartialEq, Eq, Structural, Debug)]
pub struct ProbeJob {
    pub addr: u32,
    pub port: Option<u16>,
    pub delay_ms: u64,
    pub timeout_s: u64,
}

/// Dispatch delay of the `index`-th job at `rate` issues per second:
/// `floor(index / rate * 1000)` milliseconds.
pub open spec fn spec_delay_ms(index: int, rate: int) -> int {
    index * 1000 / rate
}

/// Timeout shared by a batch of `n` jobs at `rate` issues per second:
/// `ceil((n / rate + 1) * 1.1)` seconds, exactly
/// `ceil((n + rate) * 11 / (10 * rate))`.
pub open spec fn spec_shared_timeout_s(n: int, rate: int) -> int {
    ((n + rate) * 11 + 10 * rate - 1) / (10 * rate)
}

/// Dispatch delay in milliseconds for one job.
pub fn delay_ms(index: u32, rate: u32) -> (d: u64)
    requires
        rate > 0,
    ensures
        d == spec_delay_ms(index as int, rate as int),
{
    (index as u64 * 1000) / (rate as u64)
}

/// Shared timeout in seconds for a batch of `n` jobs.
pub fn shared_timeout_s(n: u32, rate: u32) -> (t: u64)
    requires
        rate > 0,
    ensures
        t == spec_shared_timeout_s(n as int, rate as int),
{
    let nn = n as u64;
    let r = rate as u64;
    ((nn + r) * 11 + 10 * r - 1) / (10 * r)
}

/// The shared timeout is the least whole-second bound at or above
/// `(n / rate + 1) * 1.1`: rendering the rational `(n + rate) * 11 /
/// (10 * rate)` up to the next integer.
pub proof fn lemma_shared_timeout_is_ceiling(n: int, rate: int)
    requires
        n >= 0,
        rate > 0,
    ensures
        spec_shared_timeout_s(n, rate) * (10 * rate) >= (n + rate) * 11,
        (spec_shared_timeout_s(n, rate) - 1) * (10 * rate) < (n + rate) * 11,
{
    let a = (n + rate) * 11;
    let b = 10 * rate;
    let t = (a + b - 1) / b;
    assert((n + rate) * 11 > 0) by (nonlinear_arith)
        requires
            n >= 0 && rate > 0,
    ;
    vstd::arithmetic::div_mod::lemma_fundamental_div_mod(a + b - 1, b);
    let q = (a + b - 1) / b;
    let rem = (a + b - 1) % b;
    assert(0 <= rem < b) by {
        vstd::arithmetic::div_mod::lemma_mod_bound(a + b - 1, b);
    }
    assert(q * b == a + b - 1 - rem);
    assert(t * b >= a);
    assert((t - 1) * b == t * b - b) by (nonlinear_arith);
    assert((t - 1) * b < a);
}

/// The ICMP sweep batch for a subnet: one echo job per usable host, in
/// address order, each with its dispatch delay and the shared timeout.
/// An oversized subnet yields no jobs at all.
pub open spec fn spec_icmp_jobs(s: Ipv4Subnet) -> Seq<ProbeJob> {
    if s.spec_usable() > MAX_SWEEP_HOSTS {
        Seq::empty()
    } else {
        Seq::new(
            s.spec_usable() as nat,
            |i: int|
                ProbeJob {
                    addr: (s.spec_first_host() + i) as u32,
                    port: None,
                    delay_ms: spec_delay_ms(i, ICMP_RATE as int) as u64,
                    timeout_s: spec_shared_timeout_s(s.spec_usable(), ICMP_RATE as int) as u64,
                },
        )
    }
}

/// Plans the ICMP sweep batch for a subnet.
pub fn icmp_jobs(s: &Ipv4Subnet) -> (jobs: Vec<ProbeJob>)
    requires
        s.wf(),
    ensures
        jobs@ == spec_icmp_jobs(*s),
{
    let usable = hosts_from_prefix_v4(s.prefix_len);
    let mut jobs: Vec<ProbeJob> = Vec::new();
    if usable > MAX_SWEEP_HOSTS {
        proof {
            assert(jobs@ =~= spec_icmp_jobs(*s));
        }
        return jobs;
    }
    let hosts = host_addrs(s);
    let timeout = shared_timeout_s(usable, ICMP_RATE);
    let mut i: u32 = 0;
    while i < usable
        invariant
            i <= usable,
            usable == s.spec_usable(),
            usable <= MAX_SWEEP_HOSTS,
            timeout == spec_shared_timeout_s(s.spec_usable(), ICMP_RATE as int),
            hosts@.len() == usable,
            forall|j: int| 0 <= j < usable ==> hosts@[j] == s.spec_first_host() + j,
            jobs@.len() == i,
            forall|j: int| 0 <= j < i ==> jobs@[j] == spec_icmp_jobs(*s)[j],
        decreases usable - i,
    {
        let d = delay_ms(i, ICMP_RATE);
        jobs.push(ProbeJob { addr: hosts[i as usize], port: None, delay_ms: d, timeout_s: timeout });
        i = i + 1;
    }
    proof {
        assert(jobs@ =~= spec_icmp_jobs(*s));
    }
    jobs
}

/// The TCP connect batch for one port: one job per usable host, in
/// address order; the usable-host count sets the shared timeout.
pub open spec fn spec_tcp_jobs_for_port(s: Ipv4Subnet, port: u16) -> Seq<ProbeJob> {
    Seq::new(
        s.spec_usable() as nat,
        |i: int|
            ProbeJob {
                addr: (s.spec_first_host() + i) as u32,
                port: Some(port),
                delay_ms: spec_delay_ms(i, TCP_RATE as int) as u64,
                timeout_s: spec_shared_timeout_s(s.spec_usable(), TCP_RATE as int) as u64,
            },
    )
}

/// The whole TCP sweep batch: the per-port batches for ports 22, 80 and
/// 443 in order.  An oversized subnet yields no jobs at all.
pub open spec fn spec_tcp_jobs(s: Ipv4Subnet) -> Seq<ProbeJob> {
    if s.spec_usable() > MAX_SWEEP_HOSTS {
        Seq::empty()
    } else {
        spec_tcp_jobs_for_port(s, 22) + spec_tcp_jobs_for_port(s, 80) + spec_tcp_jobs_for_port(
            s,
            443,
        )
    }
}

/// Plans the TCP connect batch for a subnet: every usable host crossed
/// with the probed ports.
pub fn tcp_jobs(s: &Ipv4Subnet) -> (jobs: Vec<ProbeJob>)
    requires
        s.wf(),
    ensures
        jobs@ == spec_tcp_jobs(*s),
{
    let usable = hosts_from_prefix_v4(s.prefix_len);
    let mut jobs: Vec<ProbeJob> = Vec::new();
    if usable > MAX_SWEEP_HOSTS {
        proof {
            assert(jobs@ =~= spec_tcp_jobs(*s));
        }
        return jobs;
    }
    let hosts = host_addrs(s);
    let timeout = shared_timeout_s(usable, TCP_RATE);
    let ports: [u16; 3] = [22, 80, 443];
    let mut p: usize = 0;
    while p < 3
        invariant
            p <= 3,
            usable == s.spec_usable(),
            usable <= MAX_SWEEP_HOSTS,
            timeout == spec_shared_timeout_s(s.spec_usable(), TCP_RATE as int),
            hosts@.len() == usable,
            forall|j: int| 0 <= j < usable ==> hosts@[j] == s.spec_first_host() + j,
            ports@ == spec_ports(),
            jobs@.len() == p * usable,
            p == 0 ==> jobs@ =~= Seq::<ProbeJob>::empty(),
            p == 1 ==> jobs@ =~= spec_tcp_jobs_for_port(*s, 22),
            p == 2 ==> jobs@ =~= spec_tcp_jobs_for_port(*s, 22) + spec_tcp_jobs_for_port(*s, 80),
            p == 3 ==> jobs@ =~= spec_tcp_jobs(*s),
        decreases 3 - p,
    {
        let ghost pre = jobs@;
        let port = ports[p];
        let mut i: u32 = 0;
        while i < usable
            invariant
                i <= usable,
                usable == s.spec_usable(),
                usable <= MAX_SWEEP_HOSTS,
                timeout == spec_shared_timeout_s(s.spec_usable(), TCP_RATE as int),
                hosts@.len() == usable,
                forall|j: int| 0 <= j < usable ==> hosts@[j] == s.spec_first_host() + j,
                jobs@.len() == pre.len() + i,
                jobs@ =~= pre + spec_tcp_jobs_for_port(*s, port).take(i as int),
            decreases usable - i,
        {
            let d = delay_ms(i, TCP_RATE);
            jobs.push(
                ProbeJob { addr: hosts[i as usize], port: Some(port), delay_ms: d, timeout_s: timeout },
            );
            i = i + 1;
            proof {
                assert(jobs@ =~= pre + spec_tcp_jobs_for_port(*s, port).take(i as int));
            }
        }
        proof {
            assert(spec_tcp_jobs_for_port(*s, port).take(usable as int) =~= spec_tcp_jobs_for_port(
                *s,
                port,
            ));
            assert(ports@[p as int] == spec_ports()[p as int]);
        }
        p = p + 1;
    }
    jobs
}

/// An oversized subnet — more usable hosts than the sweep cap — gets
/// zero jobs from both strategies, and so contributes nothing to the
/// online set.
pub proof fn lemma_oversized_subnet_no_jobs(s: Ipv4Subnet)
    requires
        s.spec_usable() > MAX_SWEEP_HOSTS,
    ensures
        spec_icmp_jobs(s).len() == 0,
        spec_tcp_jobs(s).len() == 0,
{
}

} // verus!
