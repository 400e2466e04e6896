use netdiscover::agg::{HostAggregator, ProbeResult};
use netdiscover::sched::{delay_ms, icmp_jobs, shared_timeout_s, tcp_jobs};
use netdiscover::subnet::{
    hosts_from_prefix_v4, host_addrs, is_loopback_v4, netmask_for_prefix, network_address,
    prefix_from_netmask, resolve_addr, resolve_interface, AddrDecision, IfaceAddr, Ipv4Subnet,
};
use netdiscover::textfmt::{multiline_to_one_line, report_line_for};

fn ip(a: u8, b: u8, c: u8, d: u8) -> u32 {
    u32::from_be_bytes([a, b, c, d])
}

#[test]
fn usable_hosts_formula() {
    assert_eq!(hosts_from_prefix_v4(32), 1);
    assert_eq!(hosts_from_prefix_v4(31), 2);
    assert_eq!(hosts_from_prefix_v4(30), 2);
    assert_eq!(hosts_from_prefix_v4(24), 254);
    assert_eq!(hosts_from_prefix_v4(16), 65534);
    assert_eq!(hosts_from_prefix_v4(8), 16_777_214);
    assert_eq!(hosts_from_prefix_v4(1), 2_147_483_646);
    assert_eq!(hosts_from_prefix_v4(0), 4_294_967_294);
}

#[test]
fn oversized_subnet_gets_no_jobs() {
    let s = Ipv4Subnet { addr: ip(10, 0, 0, 1), prefix_len: 8 };
    assert!(icmp_jobs(&s).is_empty());
    assert!(tcp_jobs(&s).is_empty());
    // a /16 is exactly at the cap and is still swept
    let t = Ipv4Subnet { addr: ip(10, 1, 0, 1), prefix_len: 16 };
    assert_eq!(icmp_jobs(&t).len(), 65534);
    assert_eq!(tcp_jobs(&t).len(), 3 * 65534);
}

#[test]
fn scheduling_formula_values() {
    assert_eq!(shared_timeout_s(10, 4096), 2);
    assert_eq!(delay_ms(9, 4096), 2);
    assert_eq!(delay_ms(0, 4096), 0);
    assert_eq!(delay_ms(4096, 4096), 1000);
    assert_eq!(delay_ms(9, 8096), 1);
    assert_eq!(shared_timeout_s(0, 4096), 2);
    assert_eq!(shared_timeout_s(65534, 4096), 19);
}

#[test]
fn merge_unions_successes_once() {
    let mut agg = HostAggregator::new();
    let results = vec![
        ProbeResult { addr: ip(192, 168, 1, 9), port: None, success: true },
        ProbeResult { addr: ip(192, 168, 1, 10), port: None, success: false },
        ProbeResult { addr: ip(192, 168, 1, 9), port: Some(22), success: true },
    ];
    agg.merge(&results);
    assert_eq!(agg.online, vec![ip(192, 168, 1, 9)]);
}

#[test]
fn merge_is_idempotent() {
    let results = vec![
        ProbeResult { addr: ip(10, 0, 0, 2), port: Some(80), success: true },
        ProbeResult { addr: ip(10, 0, 0, 1), port: None, success: true },
    ];
    let mut once = HostAggregator::new();
    once.merge(&results);
    let mut twice = HostAggregator::new();
    twice.merge(&results);
    twice.merge(&results);
    assert_eq!(once.online, twice.online);
    assert_eq!(once.online, vec![ip(10, 0, 0, 1), ip(10, 0, 0, 2)]);
}

#[test]
fn merge_is_commutative() {
    let icmp = vec![
        ProbeResult { addr: ip(10, 0, 0, 7), port: None, success: true },
        ProbeResult { addr: ip(10, 0, 0, 3), port: None, success: true },
    ];
    let tcp = vec![
        ProbeResult { addr: ip(10, 0, 0, 3), port: Some(443), success: true },
        ProbeResult { addr: ip(10, 0, 0, 5), port: Some(22), success: true },
    ];
    let mut ab = HostAggregator::new();
    ab.merge(&icmp);
    ab.merge(&tcp);
    let mut ba = HostAggregator::new();
    ba.merge(&tcp);
    ba.merge(&icmp);
    assert_eq!(ab.online, ba.online);
    assert_eq!(ab.online, vec![ip(10, 0, 0, 3), ip(10, 0, 0, 5), ip(10, 0, 0, 7)]);
}

#[test]
fn netmask_prefix_round_trip() {
    assert_eq!(prefix_from_netmask(ip(255, 255, 255, 0)), Some(24));
    assert_eq!(prefix_from_netmask(ip(255, 255, 255, 252)), Some(30));
    assert_eq!(prefix_from_netmask(0), Some(0));
    assert_eq!(prefix_from_netmask(u32::MAX), Some(32));
    assert_eq!(prefix_from_netmask(ip(255, 0, 255, 0)), None);
    for p in 0..=32u8 {
        assert_eq!(prefix_from_netmask(netmask_for_prefix(p)), Some(p));
    }
}

#[test]
fn loopback_detection() {
    assert!(is_loopback_v4(ip(127, 0, 0, 1)));
    assert!(is_loopback_v4(ip(127, 255, 255, 254)));
    assert!(!is_loopback_v4(ip(128, 0, 0, 1)));
    assert!(!is_loopback_v4(ip(192, 168, 1, 10)));
}

#[test]
fn resolve_single_addresses() {
    match resolve_addr(&IfaceAddr::V4 {
        ip: ip(192, 168, 1, 10),
        netmask: Some(ip(255, 255, 255, 252)),
    }) {
        AddrDecision::Scan(s) => {
            assert_eq!(s.addr, ip(192, 168, 1, 10));
            assert_eq!(s.prefix_len, 30);
        }
        other => panic!("expected a subnet, got {:?}", other),
    }
    // absent or zero netmask means host-only
    match resolve_addr(&IfaceAddr::V4 { ip: ip(10, 1, 2, 3), netmask: None }) {
        AddrDecision::Scan(s) => assert_eq!(s.prefix_len, 32),
        other => panic!("expected a subnet, got {:?}", other),
    }
    match resolve_addr(&IfaceAddr::V4 { ip: ip(10, 1, 2, 3), netmask: Some(0) }) {
        AddrDecision::Scan(s) => assert_eq!(s.prefix_len, 32),
        other => panic!("expected a subnet, got {:?}", other),
    }
    // a non-contiguous netmask skips just this address
    assert!(matches!(
        resolve_addr(&IfaceAddr::V4 { ip: ip(10, 1, 2, 3), netmask: Some(ip(255, 0, 255, 0)) }),
        AddrDecision::SkipAddr
    ));
    // loopback excludes the whole interface
    assert!(matches!(
        resolve_addr(&IfaceAddr::V4 { ip: ip(127, 0, 0, 1), netmask: Some(ip(255, 0, 0, 0)) }),
        AddrDecision::ExcludeInterface
    ));
    assert!(matches!(
        resolve_addr(&IfaceAddr::V6 { loopback: true }),
        AddrDecision::ExcludeInterface
    ));
    assert!(matches!(
        resolve_addr(&IfaceAddr::V6 { loopback: false }),
        AddrDecision::SkipAddr
    ));
}

#[test]
fn loopback_first_address_excludes_interface() {
    let addrs = vec![
        IfaceAddr::V4 { ip: ip(127, 0, 0, 1), netmask: Some(ip(255, 0, 0, 0)) },
        IfaceAddr::V4 { ip: ip(192, 168, 1, 10), netmask: Some(ip(255, 255, 255, 252)) },
    ];
    let subnets = resolve_interface(&addrs);
    assert!(subnets.is_empty());
    // and so no jobs at all come from such an interface
    let total: usize = subnets
        .iter()
        .map(|n| icmp_jobs(n).len() + tcp_jobs(n).len())
        .sum();
    assert_eq!(total, 0);
}

#[test]
fn loopback_later_keeps_earlier_addresses() {
    let addrs = vec![
        IfaceAddr::V4 { ip: ip(192, 168, 1, 10), netmask: Some(ip(255, 255, 255, 252)) },
        IfaceAddr::V4 { ip: ip(127, 0, 0, 1), netmask: Some(ip(255, 0, 0, 0)) },
        IfaceAddr::V4 { ip: ip(10, 0, 0, 1), netmask: Some(ip(255, 255, 255, 0)) },
    ];
    let subnets = resolve_interface(&addrs);
    assert_eq!(subnets.len(), 1);
    assert_eq!(subnets[0].addr, ip(192, 168, 1, 10));
    assert_eq!(subnets[0].prefix_len, 30);
}

#[test]
fn host_enumeration() {
    let s = Ipv4Subnet { addr: ip(192, 168, 1, 10), prefix_len: 30 };
    assert_eq!(network_address(&s), ip(192, 168, 1, 8));
    assert_eq!(host_addrs(&s), vec![ip(192, 168, 1, 9), ip(192, 168, 1, 10)]);
    let s31 = Ipv4Subnet { addr: ip(192, 168, 1, 10), prefix_len: 31 };
    assert_eq!(host_addrs(&s31), vec![ip(192, 168, 1, 10), ip(192, 168, 1, 11)]);
    let s32 = Ipv4Subnet { addr: ip(192, 168, 1, 10), prefix_len: 32 };
    assert_eq!(host_addrs(&s32), vec![ip(192, 168, 1, 10)]);
    let s24 = Ipv4Subnet { addr: ip(192, 168, 1, 10), prefix_len: 24 };
    let hosts = host_addrs(&s24);
    assert_eq!(hosts.len(), 254);
    assert_eq!(hosts[0], ip(192, 168, 1, 1));
    assert_eq!(hosts[253], ip(192, 168, 1, 254));
}

#[test]
fn slash_30_sweep_end_to_end() {
    // interface address 192.168.1.10/30: exactly 2 ICMP and 6 TCP jobs
    let dec = resolve_addr(&IfaceAddr::V4 {
        ip: ip(192, 168, 1, 10),
        netmask: Some(ip(255, 255, 255, 252)),
    });
    let s = match dec {
        AddrDecision::Scan(s) => s,
        other => panic!("expected a subnet, got {:?}", other),
    };
    assert_eq!(hosts_from_prefix_v4(s.prefix_len), 2);
    let icmp = icmp_jobs(&s);
    let tcp = tcp_jobs(&s);
    assert_eq!(icmp.len(), 2);
    assert_eq!(tcp.len(), 6);
    assert_eq!(icmp[0].addr, ip(192, 168, 1, 9));
    assert_eq!(icmp[1].addr, ip(192, 168, 1, 10));
    assert_eq!(icmp[0].port, None);
    assert_eq!(tcp[0].port, Some(22));
    assert_eq!(tcp[2].port, Some(80));
    assert_eq!(tcp[5].port, Some(443));
    assert_eq!(tcp[4].addr, ip(192, 168, 1, 9));

    // if every probe fails, the report line says 0 are online out of 2
    let mut agg = HostAggregator::new();
    let icmp_results: Vec<ProbeResult> = icmp
        .iter()
        .map(|j| ProbeResult { addr: j.addr, port: j.port, success: false })
        .collect();
    let tcp_results: Vec<ProbeResult> = tcp
        .iter()
        .map(|j| ProbeResult { addr: j.addr, port: j.port, success: false })
        .collect();
    agg.merge(&icmp_results);
    agg.merge(&tcp_results);
    let line = report_line_for(&s, &agg);
    assert_eq!(line, "192.168.1.10/30 with 2 hosts, 0 are online: {}");
}

#[test]
fn report_line_lists_online_hosts() {
    let s = Ipv4Subnet { addr: ip(192, 168, 1, 10), prefix_len: 30 };
    let mut agg = HostAggregator::new();
    agg.merge(&vec![
        ProbeResult { addr: ip(192, 168, 1, 10), port: Some(80), success: true },
        ProbeResult { addr: ip(192, 168, 1, 9), port: None, success: true },
    ]);
    let line = report_line_for(&s, &agg);
    assert_eq!(
        line,
        "192.168.1.10/30 with 2 hosts, 2 are online: {192.168.1.9, 192.168.1.10}"
    );
}

#[test]
fn job_delays_and_timeouts() {
    let s = Ipv4Subnet { addr: ip(192, 168, 1, 10), prefix_len: 24 };
    let icmp = icmp_jobs(&s);
    assert_eq!(icmp.len(), 254);
    for (i, j) in icmp.iter().enumerate() {
        assert_eq!(j.delay_ms, (i as u64) * 1000 / 4096);
        assert_eq!(j.timeout_s, shared_timeout_s(254, 4096));
    }
    assert_eq!(icmp[0].timeout_s, 2);
    let tcp = tcp_jobs(&s);
    assert_eq!(tcp.len(), 3 * 254);
    // delays restart for each port's pass over the hosts
    assert_eq!(tcp[254].delay_ms, 0);
    assert_eq!(tcp[253].delay_ms, 253 * 1000 / 8096);
    assert_eq!(tcp[0].timeout_s, shared_timeout_s(254, 8096));
}

#[test]
fn multiline_flattening() {
    assert_eq!(multiline_to_one_line("a\n b \nc\n".to_string()), "a b c");
    assert_eq!(multiline_to_one_line("".to_string()), "");
    assert_eq!(multiline_to_one_line("  x  ".to_string()), "x");
    assert_eq!(multiline_to_one_line("line1\r\nline2".to_string()), "line1 line2");
    assert_eq!(multiline_to_one_line("a\n\nb".to_string()), "a  b");
    assert_eq!(multiline_to_one_line("\n\n".to_string()), "");
    assert_eq!(
        multiline_to_one_line("ACME Corp\nBoard X\n1.0\n".to_string()),
        "ACME Corp Board X 1.0"
    );
}
