//! Packet filter.
use thumos::firewall::{
    domain_matches_suffix, extract_query_domain, log_packet_deny, parse_packet,
    surveillance_domains, Action, Direction, FilterRule, Firewall, FirewallStats, Ipv4Address,
    Protocol, DNS_PORT, PROTO_ICMP, PROTO_TCP, PROTO_UDP,
};

fn make_ip_tcp(
    src: [u8; 4],
    dst: [u8; 4],
    src_port: u16,
    dst_port: u16,
) -> Vec<u8> {
    let mut pkt = vec![0u8; 40];
    pkt[0] = 0x45;
    pkt[2] = 0x00;
    pkt[3] = 40;
    pkt[9] = PROTO_TCP;
    pkt[12..16].copy_from_slice(&src);
    pkt[16..20].copy_from_slice(&dst);
    let sp = src_port.to_be_bytes();
    let dp = dst_port.to_be_bytes();
    pkt[20] = sp[0];
    pkt[21] = sp[1];
    pkt[22] = dp[0];
    pkt[23] = dp[1];
    pkt[32] = 0x50;
    pkt
}

fn make_ip_udp(
    src: [u8; 4],
    dst: [u8; 4],
    src_port: u16,
    dst_port: u16,
    udp_payload: &[u8],
) -> Vec<u8> {
    let total = 20 + 8 + udp_payload.len();
    let mut pkt = vec![0u8; total];
    pkt[0] = 0x45;
    let tl = (total as u16).to_be_bytes();
    pkt[2] = tl[0];
    pkt[3] = tl[1];
    pkt[9] = PROTO_UDP;
    pkt[12..16].copy_from_slice(&src);
    pkt[16..20].copy_from_slice(&dst);
    let sp = src_port.to_be_bytes();
    let dp = dst_port.to_be_bytes();
    pkt[20] = sp[0];
    pkt[21] = sp[1];
    pkt[22] = dp[0];
    pkt[23] = dp[1];
    let ul = ((8 + udp_payload.len()) as u16).to_be_bytes();
    pkt[24] = ul[0];
    pkt[25] = ul[1];
    if !udp_payload.is_empty() {
        pkt[28..].copy_from_slice(udp_payload);
    }
    pkt
}

fn make_dns_query(domain: &str) -> Vec<u8> {
    let mut msg = Vec::new();
    msg.extend_from_slice(&[
        0x00, 0x01,
        0x01, 0x00,
        0x00, 0x01,
        0x00, 0x00,
        0x00, 0x00,
        0x00, 0x00,
    ]);
    for label in domain.split('.') {
        let b = label.as_bytes();
        msg.push(b.len() as u8);
        msg.extend_from_slice(b);
    }
    msg.push(0x00);
    msg.extend_from_slice(&[0x00, 0x01, 0x00, 0x01]);
    msg
}

#[test]
fn default_denies_inbound() {
    let mut fw = Firewall::new();
    let pkt = make_ip_tcp([1, 2, 3, 4], [10, 0, 0, 1], 54321, 80);
    assert_eq!(
        fw.evaluate_rx(&pkt),
        Action::Deny,
        "default inbound policy must deny all packets"
    );
}

#[test]
fn default_allows_outbound() {
    let mut fw = Firewall::new();
    let pkt = make_ip_tcp([10, 0, 0, 1], [1, 2, 3, 4], 54321, 80);
    assert_eq!(
        fw.evaluate_tx(&pkt),
        Action::Allow,
        "default outbound policy must allow all packets"
    );
}

#[test]
fn custom_rule_allows_specific_inbound_port() {
    let mut fw = Firewall::new();
    fw.add_rule(FilterRule {
        direction: Direction::Inbound,
        protocol: Some(Protocol::Tcp),
        src_addr: None,
        dst_addr: None,
        dst_port: Some(443),
        action: Action::Allow,
    });

    let allowed = make_ip_tcp([1, 2, 3, 4], [10, 0, 0, 1], 54321, 443);
    assert_eq!(
        fw.evaluate_rx(&allowed),
        Action::Allow,
        "rule allowing TCP port 443 inbound must permit matching packet"
    );

    let denied = make_ip_tcp([1, 2, 3, 4], [10, 0, 0, 1], 54321, 80);
    assert_eq!(
        fw.evaluate_rx(&denied),
        Action::Deny,
        "no rule for port 80: default deny must apply"
    );
}

#[test]
fn first_matching_rule_wins() {
    let mut fw = Firewall::new();

    fw.add_rule(FilterRule {
        direction: Direction::Inbound,
        protocol: None,
        src_addr: None,
        dst_addr: None,
        dst_port: None,
        action: Action::Deny,
    });

    fw.add_rule(FilterRule {
        direction: Direction::Inbound,
        protocol: None,
        src_addr: None,
        dst_addr: None,
        dst_port: None,
        action: Action::Allow,
    });

    let pkt = make_ip_tcp([1, 2, 3, 4], [10, 0, 0, 1], 54321, 80);
    assert_eq!(
        fw.evaluate_rx(&pkt),
        Action::Allow,
        "later-added allow rule was prepended and must win over earlier deny"
    );
}

#[test]
fn dns_blocklist_blocks_surveillance_domain() {
    let mut fw = Firewall::new();
    fw.load_default_blocklist();

    assert!(
        fw.is_dns_blocked("app-measurement.com"),
        "exact surveillance domain must be blocked"
    );
    assert!(
        fw.is_dns_blocked("sub.doubleclick.net"),
        "subdomain of surveillance domain must be blocked"
    );
    assert!(
        fw.is_dns_blocked("analytics.google.com"),
        "analytics.google.com must be blocked"
    );
}

#[test]
fn dns_blocklist_allows_clean_domain() {
    let mut fw = Firewall::new();
    fw.load_default_blocklist();

    assert!(
        !fw.is_dns_blocked("example.com"),
        "example.com must not be blocked"
    );
    assert!(
        !fw.is_dns_blocked("google.com"),
        "google.com itself must not be blocked"
    );
    assert!(
        !fw.is_dns_blocked("notdoubleclick.net"),
        "notdoubleclick.net must not match doubleclick.net suffix"
    );
}

#[test]
fn stats_track_allowed_and_denied() {
    let mut fw = Firewall::new();

    let out_pkt = make_ip_tcp([10, 0, 0, 1], [1, 2, 3, 4], 54321, 80);
    fw.evaluate_tx(&out_pkt);
    fw.evaluate_tx(&out_pkt);

    let in_pkt = make_ip_tcp([1, 2, 3, 4], [10, 0, 0, 1], 54321, 80);
    fw.evaluate_rx(&in_pkt);

    assert_eq!(
        fw.stats().packets_allowed, 2,
        "two outbound packets must be counted as allowed"
    );
    assert_eq!(
        fw.stats().packets_denied, 1,
        "one inbound packet must be counted as denied"
    );
}

#[test]
fn evaluate_rx_parses_tcp_packet() {
    let mut fw = Firewall::new();
    fw.add_rule(FilterRule {
        direction: Direction::Inbound,
        protocol: Some(Protocol::Tcp),
        src_addr: Some(Ipv4Address([10, 0, 0, 2])),
        dst_addr: None,
        dst_port: Some(443),
        action: Action::Allow,
    });

    let pkt = make_ip_tcp([10, 0, 0, 2], [10, 0, 0, 1], 54321, 443);
    assert_eq!(
        fw.evaluate_rx(&pkt),
        Action::Allow,
        "TCP packet from 10.0.0.2 to port 443 must match allow rule"
    );

    let pkt2 = make_ip_tcp([10, 0, 0, 3], [10, 0, 0, 1], 54321, 443);
    assert_eq!(
        fw.evaluate_rx(&pkt2),
        Action::Deny,
        "TCP packet from 10.0.0.3 must not match rule for 10.0.0.2"
    );
}

#[test]
fn evaluate_rx_parses_udp_packet() {
    let mut fw = Firewall::new();
    fw.add_rule(FilterRule {
        direction: Direction::Inbound,
        protocol: Some(Protocol::Udp),
        src_addr: None,
        dst_addr: None,
        dst_port: Some(5353),
        action: Action::Allow,
    });

    let pkt = make_ip_udp([10, 0, 0, 2], [10, 0, 0, 1], 54321, 5353, &[]);
    assert_eq!(
        fw.evaluate_rx(&pkt),
        Action::Allow,
        "UDP packet to port 5353 must match allow rule"
    );

    let pkt2 = make_ip_udp([10, 0, 0, 2], [10, 0, 0, 1], 54321, 5354, &[]);
    assert_eq!(
        fw.evaluate_rx(&pkt2),
        Action::Deny,
        "UDP packet to port 5354 must not match rule for 5353"
    );
}

#[test]
fn load_default_blocklist_populates_entries() {
    let mut fw = Firewall::new();
    assert!(
        fw.dns_block_count() == 0,
        "blocklist must start empty"
    );

    fw.load_default_blocklist();
    assert_eq!(
        fw.dns_block_count(),
        surveillance_domains().len(),
        "blocklist must contain all surveillance domains after loading defaults"
    );

    for domain in surveillance_domains() {
        assert!(
            fw.is_dns_blocked(domain),
            "{domain} must be blocked after loading default blocklist"
        );
    }
}

#[test]
fn dns_blocklist_denies_outbound_dns_query() {
    let mut fw = Firewall::new();
    fw.load_default_blocklist();

    let dns_payload = make_dns_query("app-measurement.com");
    let pkt = make_ip_udp([10, 0, 0, 1], [8, 8, 8, 8], 54321, DNS_PORT, &dns_payload);
    assert_eq!(
        fw.evaluate_tx(&pkt),
        Action::Deny,
        "outbound DNS query for surveillance domain must be denied"
    );
    assert_eq!(
        fw.stats().dns_blocked, 1,
        "dns_blocked counter must increment for blocked DNS query"
    );
}

#[test]
fn dns_blocklist_allows_clean_dns_query() {
    let mut fw = Firewall::new();
    fw.load_default_blocklist();

    let dns_payload = make_dns_query("example.com");
    let pkt = make_ip_udp([10, 0, 0, 1], [8, 8, 8, 8], 54321, DNS_PORT, &dns_payload);
    assert_eq!(
        fw.evaluate_tx(&pkt),
        Action::Allow,
        "outbound DNS query for clean domain must be allowed"
    );
    assert_eq!(
        fw.stats().dns_blocked, 0,
        "dns_blocked counter must not increment for clean domain"
    );
}

#[test]
fn malformed_packet_denied() {
    let mut fw = Firewall::new();
    let garbage = [0xFF_u8; 5];
    assert_eq!(
        fw.evaluate_tx(&garbage),
        Action::Deny,
        "malformed packet must be denied (fail-closed)"
    );
}

#[test]
fn log_action_counts_as_allowed() {
    let mut fw = Firewall::new();
    fw.add_rule(FilterRule {
        direction: Direction::Inbound,
        protocol: None,
        src_addr: None,
        dst_addr: None,
        dst_port: None,
        action: Action::Log,
    });

    let pkt = make_ip_tcp([1, 2, 3, 4], [10, 0, 0, 1], 54321, 80);
    let action = fw.evaluate_rx(&pkt);
    assert_eq!(action, Action::Log, "Log rule must return Log action");
    assert_eq!(
        fw.stats().packets_allowed, 1,
        "Log action must count as allowed"
    );
}

#[test]
fn dns_blocklist_case_insensitive() {
    let mut fw = Firewall::new();
    fw.add_dns_block("Example.COM");

    assert!(
        fw.is_dns_blocked("example.com"),
        "lowercase query must match mixed-case blocklist entry"
    );
    assert!(
        fw.is_dns_blocked("EXAMPLE.COM"),
        "uppercase query must match mixed-case blocklist entry"
    );
}

#[test]
fn the_blocklist_holds_outbound_and_before_rules() {
    let mut fw = Firewall::new();
    fw.add_dns_block("tracker.example");
    for direction in [Direction::Inbound, Direction::Outbound] {
        fw.add_rule(FilterRule {
            direction,
            protocol: None,
            src_addr: None,
            dst_addr: None,
            dst_port: None,
            action: Action::Allow,
        });
    }
    let query = make_dns_query("Sub.Tracker.Example");
    let pkt = make_ip_udp([10, 0, 0, 1], [8, 8, 8, 8], 54321, DNS_PORT, &query);
    assert_eq!(fw.evaluate_tx(&pkt), Action::Deny);
    assert_eq!(fw.evaluate_rx(&pkt), Action::Allow, "only queries that leave are blocked");
    assert_eq!(fw.stats().dns_blocked, 1);
    assert_eq!(fw.stats().packets_denied, 1);
    assert_eq!(fw.rule_count(), 2);
}

#[test]
fn a_packet_without_a_query_is_not_on_the_blocklist() {
    let mut fw = Firewall::new();
    assert_eq!(fw.check_dns_blocklist(&[]), Some(false), "an empty list blocks nothing");
    fw.add_dns_block("tracker.example");
    assert_eq!(fw.check_dns_blocklist(&[]), None);
    assert_eq!(fw.check_dns_blocklist(&[0x45; 20]), None);
    let query = make_dns_query("tracker.example");
    let pkt = make_ip_udp([10, 0, 0, 1], [8, 8, 8, 8], 54321, DNS_PORT, &query);
    assert_eq!(fw.check_dns_blocklist(&pkt), Some(true));
}

#[test]
fn an_unreadable_query_falls_through_to_the_rules() {
    let mut fw = Firewall::new();
    fw.load_default_blocklist();
    let pkt = make_ip_udp([10, 0, 0, 1], [8, 8, 8, 8], 54321, DNS_PORT, b"short");
    assert_eq!(fw.evaluate_tx(&pkt), Action::Allow);
    assert_eq!(fw.evaluate_rx(&pkt), Action::Deny);
}

#[test]
fn rules_match_on_every_stated_field() {
    let mut fw = Firewall::new();
    fw.add_rule(FilterRule {
        direction: Direction::Outbound,
        protocol: Some(Protocol::Tcp),
        src_addr: Some(Ipv4Address([10, 0, 0, 1])),
        dst_addr: Some(Ipv4Address([1, 2, 3, 4])),
        dst_port: Some(25),
        action: Action::Deny,
    });
    let hit = make_ip_tcp([10, 0, 0, 1], [1, 2, 3, 4], 1, 25);
    assert_eq!(fw.evaluate_tx(&hit), Action::Deny);
    let other_dst = make_ip_tcp([10, 0, 0, 1], [1, 2, 3, 5], 1, 25);
    assert_eq!(fw.evaluate_tx(&other_dst), Action::Allow);
    let udp = make_ip_udp([10, 0, 0, 1], [1, 2, 3, 4], 1, 25, &[]);
    assert_eq!(fw.evaluate_tx(&udp), Action::Allow);
}

#[test]
fn packets_are_read_or_refused() {
    let tcp = make_ip_tcp([10, 0, 0, 1], [1, 2, 3, 4], 1, 25);
    let info = parse_packet(&tcp).expect("a TCP packet");
    assert_eq!(info.protocol, Protocol::Tcp);
    assert_eq!(info.src_addr, Ipv4Address([10, 0, 0, 1]));
    assert_eq!(info.dst_addr, Ipv4Address([1, 2, 3, 4]));
    assert_eq!(info.dst_port, Some(25));

    let mut v6 = tcp.clone();
    v6[0] = 0x65;
    assert!(parse_packet(&v6).is_none());
    let mut ping = tcp.clone();
    ping[9] = PROTO_ICMP;
    assert_eq!(
        parse_packet(&ping).map(|p| (p.protocol, p.dst_port)),
        Some((Protocol::Icmp, None))
    );
    let mut unknown = tcp.clone();
    unknown[9] = 200;
    assert!(parse_packet(&unknown).is_none());
    assert!(parse_packet(&[]).is_none());
}

#[test]
fn query_names_are_extracted() {
    assert_eq!(
        extract_query_domain(&make_dns_query("a.bc.example")).as_deref(),
        Some("a.bc.example")
    );
    assert!(extract_query_domain(&[0; 12]).is_none());
    assert!(extract_query_domain(&[]).is_none());
}

#[test]
fn suffixes_match_at_label_boundaries() {
    assert!(domain_matches_suffix(b"a.b.c", b"b.c"));
    assert!(domain_matches_suffix(b"b.c", b"b.c"));
    assert!(!domain_matches_suffix(b"ab.c", b"b.c"));
    assert!(!domain_matches_suffix(b"c", b"b.c"));
}

#[test]
fn diagnostics_name_things() {
    assert_eq!(Action::Allow.to_string(), "allow");
    assert_eq!(Direction::Outbound.to_string(), "outbound");
    let rule = FilterRule {
        direction: Direction::Inbound,
        protocol: Some(Protocol::Udp),
        src_addr: None,
        dst_addr: None,
        dst_port: Some(53),
        action: Action::Deny,
    };
    assert_eq!(rule.to_string(), "inbound deny Udp port 53");
    assert_eq!(
        FirewallStats::default().to_string(),
        "allowed=0, denied=0, dns_blocked=0"
    );
    let event = log_packet_deny(Direction::Inbound, 77);
    assert_eq!(
        (event.pid, event.detail, event.timestamp),
        (0, "inbound packet denied", 77)
    );
}

#[test]
fn a_query_gives_its_name_back() {
    for name in ["a", "example.com", "a.b.c.d.e", "\u{e9}t\u{e9}.example"] {
        let mut query = make_dns_query(name);
        query.extend_from_slice(b"more");
        assert_eq!(extract_query_domain(&query).as_deref(), Some(name));
    }
    let longest = vec!["x"; 128].join(".");
    assert_eq!(
        extract_query_domain(&make_dns_query(&longest)),
        Some(longest)
    );
    let too_long = vec!["x"; 129].join(".");
    assert_eq!(extract_query_domain(&make_dns_query(&too_long)), None);
}
