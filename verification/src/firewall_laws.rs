//! What the packet filter does with the bytes of a packet.
use crate::firewall::{
    as_suffixes, blocked_by, default_domains, first_match, header_len, joined, label_bytes,
    law_query_gives_its_name_back, matches_packet, name_bytes, packet_info, under_suffix, Action,
    Direction, FilterRule, FirewallModel, Protocol,
};
use crate::text::lower;
use crate::text_laws::{law_only_case_is_ignored, same_but_for_case};
use vstd::prelude::*;
use vstd::utf8::*;

verus! {

// ---------------------------------------------------------------------------
// Packets
// ---------------------------------------------------------------------------

/// Where the payload of an IPv4 packet begins: the low half of its first byte counts the
/// words of the header.
pub open spec fn payload_start(packet: Seq<u8>) -> int {
    4 * (packet[0] - 0x40)
}

/// Whether bytes are an IPv4 packet with a whole header and the header of a TCP segment, of
/// a UDP datagram, or an ICMP message behind it.
pub open spec fn is_packet(packet: Seq<u8>) -> bool {
    &&& packet.len() >= 20
    &&& 0x45 <= packet[0] <= 0x4F
    &&& payload_start(packet) <= packet.len()
    &&& (packet[9] == 6 && payload_start(packet) + 20 <= packet.len()) || (packet[9] == 17
        && payload_start(packet) + 8 <= packet.len()) || packet[9] == 1
}

/// Whether a rule speaks of a packet: every constraint that it names holds of the packet's
/// bytes.
pub open spec fn speaks_of(rule: FilterRule, direction: Direction, packet: Seq<u8>) -> bool {
    &&& rule.direction == direction
    &&& rule.protocol == Some(Protocol::Tcp) ==> packet[9] == 6
    &&& rule.protocol == Some(Protocol::Udp) ==> packet[9] == 17
    &&& rule.protocol == Some(Protocol::Icmp) ==> packet[9] == 1
    &&& rule.src_addr matches Some(a) ==> a.0[0] == packet[12] && a.0[1] == packet[13] && a.0[2]
        == packet[14] && a.0[3] == packet[15]
    &&& rule.dst_addr matches Some(a) ==> a.0[0] == packet[16] && a.0[1] == packet[17] && a.0[2]
        == packet[18] && a.0[3] == packet[19]
    &&& rule.dst_port matches Some(port) ==> packet[9] != 1 && port == packet[payload_start(packet)
        + 2] * 256 + packet[payload_start(packet) + 3]
}

proof fn lemma_payload_start(packet: Seq<u8>)
    requires
        packet.len() > 0,
        0x40 <= packet[0] <= 0x4F,
    ensures
        header_len(packet) == payload_start(packet),
{
}

/// Law: exactly the whole IPv4 packets with a TCP, UDP or ICMP payload are read; their
/// addresses are the bytes at 12 and at 16, and the port is the number in the third and
/// fourth byte of the payload.
pub proof fn law_packets_are_read_byte_by_byte(packet: Seq<u8>)
    ensures
        packet_info(packet) is Some <==> is_packet(packet),
        packet_info(packet) matches Some(info) ==> {
            &&& info.protocol == Protocol::Tcp <==> packet[9] == 6
            &&& info.protocol == Protocol::Udp <==> packet[9] == 17
            &&& info.protocol == Protocol::Icmp <==> packet[9] == 1
            &&& info.src_addr == seq![packet[12], packet[13], packet[14], packet[15]]
            &&& info.dst_addr == seq![packet[16], packet[17], packet[18], packet[19]]
            &&& packet[9] == 1 ==> info.dst_port is None
            &&& packet[9] != 1 ==> info.dst_port == Some(
                packet[payload_start(packet) + 2] * 256 + packet[payload_start(packet) + 3],
            )
        },
{
    if packet.len() >= 20 {
        assert(packet[0] / 16 == 4 <==> 0x40 <= packet[0] <= 0x4F);
        assert(packet.subrange(12, 16) =~= seq![packet[12], packet[13], packet[14], packet[15]]);
        assert(packet.subrange(16, 20) =~= seq![packet[16], packet[17], packet[18], packet[19]]);
    }
}

/// Law: a rule matches a packet exactly where every constraint that it names holds of the
/// packet's bytes: an address matches in all four octets.
pub proof fn law_rules_match_what_they_name(
    rule: FilterRule,
    direction: Direction,
    packet: Seq<u8>,
)
    requires
        is_packet(packet),
    ensures
        packet_info(packet) is Some,
        matches_packet(rule, direction, packet_info(packet)->0) <==> speaks_of(
            rule,
            direction,
            packet,
        ),
{
    law_packets_are_read_byte_by_byte(packet);
    let info = packet_info(packet)->0;
    if let Some(a) = rule.src_addr {
        assert(a@.len() == 4);
        assert(a@ == info.src_addr <==> a@ =~= info.src_addr);
        if a.0[0] == packet[12] && a.0[1] == packet[13] && a.0[2] == packet[14] && a.0[3]
            == packet[15] {
            assert(a@ =~= info.src_addr);
        } else {
            assert(a@[0] != info.src_addr[0] || a@[1] != info.src_addr[1] || a@[2]
                != info.src_addr[2] || a@[3] != info.src_addr[3]);
        }
    }
    if let Some(a) = rule.dst_addr {
        assert(a@.len() == 4);
        if a.0[0] == packet[16] && a.0[1] == packet[17] && a.0[2] == packet[18] && a.0[3]
            == packet[19] {
            assert(a@ =~= info.dst_addr);
        } else {
            assert(a@[0] != info.dst_addr[0] || a@[1] != info.dst_addr[1] || a@[2]
                != info.dst_addr[2] || a@[3] != info.dst_addr[3]);
        }
    }
}

/// Law: a rule that names an address, a protocol or a port tells apart every two packets
/// that differ in it: it matches at most one of them.
pub proof fn law_named_fields_tell_packets_apart(
    rule: FilterRule,
    direction: Direction,
    a: Seq<u8>,
    b: Seq<u8>,
)
    requires
        is_packet(a),
        is_packet(b),
        matches_packet(rule, direction, packet_info(a)->0),
        matches_packet(rule, direction, packet_info(b)->0),
    ensures
        rule.src_addr is Some ==> forall|i: int| 12 <= i < 16 ==> #[trigger] a[i] == b[i],
        rule.dst_addr is Some ==> forall|i: int| 16 <= i < 20 ==> #[trigger] a[i] == b[i],
        rule.protocol is Some ==> a[9] == b[9],
        rule.dst_port is Some ==> a[payload_start(a) + 2] == b[payload_start(b) + 2] && a[
        payload_start(a) + 3] == b[payload_start(b) + 3],
{
    law_rules_match_what_they_name(rule, direction, a);
    law_rules_match_what_they_name(rule, direction, b);
}

proof fn lemma_first_match(fw: FirewallModel, packet: Seq<u8>, direction: Direction, from: int)
    requires
        is_packet(packet),
        0 <= from,
    ensures
        match first_match(fw.rules, direction, packet_info(packet)->0, from) {
            Some(action) => exists|i: int|
                from <= i < fw.rules.len() && #[trigger] fw.rules[i].action == action && speaks_of(
                    fw.rules[i],
                    direction,
                    packet,
                ) && forall|j: int|
                    from <= j < i ==> !speaks_of(#[trigger] fw.rules[j], direction, packet),
            None => forall|j: int|
                from <= j < fw.rules.len() ==> !speaks_of(
                    #[trigger] fw.rules[j],
                    direction,
                    packet,
                ),
        },
    decreases fw.rules.len() - from,
{
    if from < fw.rules.len() {
        law_rules_match_what_they_name(fw.rules[from], direction, packet);
        if !speaks_of(fw.rules[from], direction, packet) {
            lemma_first_match(fw, packet, direction, from + 1);
        }
    }
}

/// Law: of the rules that speak of a packet the first decides, unless the packet asks for a
/// blocked domain.
pub proof fn law_first_rule_decides(
    fw: FirewallModel,
    packet: Seq<u8>,
    direction: Direction,
    i: int,
)
    requires
        is_packet(packet),
        !fw.blocks_query(packet, direction),
        0 <= i < fw.rules.len(),
        speaks_of(fw.rules[i], direction, packet),
        forall|j: int| 0 <= j < i ==> !speaks_of(#[trigger] fw.rules[j], direction, packet),
    ensures
        fw.verdict(packet, direction) == fw.rules[i].action,
{
    law_packets_are_read_byte_by_byte(packet);
    lemma_first_match(fw, packet, direction, 0);
}

/// Law: where no rule speaks of a packet, the default of its direction decides.
pub proof fn law_default_decides_without_a_rule(
    fw: FirewallModel,
    packet: Seq<u8>,
    direction: Direction,
)
    requires
        is_packet(packet),
        !fw.blocks_query(packet, direction),
        forall|j: int|
            0 <= j < fw.rules.len() ==> !speaks_of(#[trigger] fw.rules[j], direction, packet),
    ensures
        direction == Direction::Inbound ==> fw.verdict(packet, direction) == fw.default_inbound,
        direction == Direction::Outbound ==> fw.verdict(packet, direction) == fw.default_outbound,
{
    law_packets_are_read_byte_by_byte(packet);
    lemma_first_match(fw, packet, direction, 0);
}

/// Law: bytes that are no packet are dropped in either direction.
pub proof fn law_what_is_no_packet_is_dropped(
    fw: FirewallModel,
    bytes: Seq<u8>,
    direction: Direction,
)
    requires
        !is_packet(bytes),
    ensures
        fw.verdict(bytes, direction) == Action::Deny,
        !fw.blocks_query(bytes, direction),
{
    law_packets_are_read_byte_by_byte(bytes);
}

/// Law: a packet changes nothing but counters. Denied packets are counted as denied and the
/// others as allowed, and blocked queries on top of that as blocked.
pub proof fn law_packets_change_only_counters(
    fw: FirewallModel,
    packet: Seq<u8>,
    direction: Direction,
)
    requires
        fw.can_count(),
    ensures
        ({
            let after = fw.after_packet(packet, direction);
            let denied = fw.verdict(packet, direction) == Action::Deny;
            &&& after.rules == fw.rules
            &&& after.blocklist == fw.blocklist
            &&& after.default_inbound == fw.default_inbound
            &&& after.default_outbound == fw.default_outbound
            &&& after.stats.packets_denied == fw.stats.packets_denied + (if denied {
                1int
            } else {
                0
            })
            &&& after.stats.packets_allowed == fw.stats.packets_allowed + (if denied {
                0int
            } else {
                1
            })
            &&& after.stats.dns_blocked == fw.stats.dns_blocked + (if fw.blocks_query(
                packet,
                direction,
            ) {
                1int
            } else {
                0
            })
            &&& fw.blocks_query(packet, direction) ==> denied
        }),
{
}

// ---------------------------------------------------------------------------
// Blocked domains
// ---------------------------------------------------------------------------

/// Whether a domain is an entry, or ends in a dot and the entry, but for case.
pub open spec fn falls_under(domain: Seq<u8>, entry: Seq<u8>) -> bool {
    ||| same_but_for_case(domain, entry)
    ||| domain.len() > entry.len() && domain[domain.len() - entry.len() - 1] == 0x2E
        && same_but_for_case(domain.skip(domain.len() - entry.len()), entry)
}

/// Law: a domain is blocked exactly where it is an entry of the blocklist or lies below one;
/// a domain that merely ends in the same letters is not.
pub proof fn law_domains_are_blocked_label_by_label(
    entries: Seq<Seq<u8>>,
    domain: Seq<u8>,
)
    ensures
        blocked_by(Seq::new(entries.len(), |i: int| lower(entries[i])), lower(domain)) <==> exists|
            i: int,
        |
            0 <= i < entries.len() && falls_under(domain, #[trigger] entries[i]),
{
    let list = Seq::new(entries.len(), |i: int| lower(entries[i]));
    assert forall|i: int| 0 <= i < entries.len() implies under_suffix(
        lower(domain),
        #[trigger] list[i],
    ) == falls_under(domain, entries[i]) by {
        let rest = domain.len() - entries[i].len();
        law_only_case_is_ignored(domain, entries[i]);
        if rest > 0 {
            let end = domain.skip(rest);
            assert(lower(domain).skip(rest) =~= lower(end));
            law_only_case_is_ignored(end, entries[i]);
            assert(lower(domain)[rest - 1] == 0x2E <==> domain[rest - 1] == 0x2E);
        }
    }
    if blocked_by(list, lower(domain)) {
        let i = choose|i: int|
            0 <= i < list.len() && under_suffix(lower(domain), #[trigger] list[i]);
        assert(falls_under(domain, entries[i]));
    }
    if exists|i: int| 0 <= i < entries.len() && falls_under(domain, #[trigger] entries[i]) {
        let i = choose|i: int| 0 <= i < entries.len() && falls_under(domain, #[trigger] entries[i]);
        assert(under_suffix(lower(domain), list[i]));
    }
}

/// Law: an outbound UDP packet to port 53 that asks for a domain is denied, and counted as
/// blocked, exactly where the domain falls under an entry of the blocklist; where it does
/// not, the blocklist has no say. The same packet coming in is no query.
pub proof fn law_queries_for_blocked_domains_are_denied(
    fw: FirewallModel,
    entries: Seq<Seq<u8>>,
    front: Seq<u8>,
    header: Seq<u8>,
    names: Seq<Seq<char>>,
    tail: Seq<u8>,
)
    requires
        fw.blocklist == Seq::new(entries.len(), |i: int| lower(entries[i])),
        front.len() >= 28,
        0x45 <= front[0] <= 0x4F,
        front.len() == payload_start(front) + 8,
        front[9] == 17,
        front[payload_start(front) + 2] == 0,
        front[payload_start(front) + 3] == 53,
        header.len() == 12,
        header[4] != 0 || header[5] != 0,
        0 < names.len() <= 128,
        forall|i: int|
            0 <= i < names.len() ==> 0 < encode_utf8(#[trigger] names[i]).len() < 0xC0,
    ensures
        ({
            let packet = front + (header + name_bytes(label_bytes(names)) + tail);
            let blocked = exists|i: int|
                0 <= i < entries.len() && falls_under(
                    encode_utf8(joined(names)),
                    #[trigger] entries[i],
                );
            &&& fw.blocks_query(packet, Direction::Outbound) <==> blocked
            &&& blocked ==> fw.verdict(packet, Direction::Outbound) == Action::Deny
            &&& !fw.blocks_query(packet, Direction::Inbound)
        }),
{
    let query = header + name_bytes(label_bytes(names)) + tail;
    let packet = front + query;
    law_query_gives_its_name_back(header, names, tail);
    assert(packet[0] == front[0] && packet[9] == front[9]);
    let p = payload_start(front);
    assert(packet[p + 2] == 0 && packet[p + 3] == 53);
    law_packets_are_read_byte_by_byte(packet);
    assert(packet.skip(header_len(packet) + 8) =~= query);
    law_domains_are_blocked_label_by_label(entries, encode_utf8(joined(names)));
}

/// Law: nothing but an outbound UDP packet to port 53 is taken for a query.
pub proof fn law_other_packets_ask_for_nothing(
    fw: FirewallModel,
    packet: Seq<u8>,
    direction: Direction,
)
    requires
        is_packet(packet),
        direction == Direction::Inbound || packet[9] != 17 || packet[payload_start(packet) + 2]
            != 0 || packet[payload_start(packet) + 3] != 53,
    ensures
        !fw.blocks_query(packet, direction),
{
    law_packets_are_read_byte_by_byte(packet);
}

/// Law: the domains that are blocked by default, and each of them in small letters.
pub proof fn law_the_default_blocklist_names_trackers(i: int)
    requires
        0 <= i < 12,
    ensures
        default_domains().len() == 12,
        default_domains().contains("graph.facebook.com"@),
        default_domains().contains("pixel.facebook.com"@),
        default_domains().contains("analytics.google.com"@),
        default_domains().contains("firebaselogging.googleapis.com"@),
        default_domains().contains("app-measurement.com"@),
        default_domains().contains("crashlytics.com"@),
        default_domains().contains("doubleclick.net"@),
        default_domains().contains("googlesyndication.com"@),
        default_domains().contains("googleadservices.com"@),
        default_domains().contains("analytics.yahoo.com"@),
        default_domains().contains("ads.linkedin.com"@),
        default_domains().contains("bat.bing.com"@),
        as_suffixes(default_domains()).len() == 12,
        same_but_for_case(
            as_suffixes(default_domains())[i],
            encode_utf8(default_domains()[i]),
        ),
{
    let d = default_domains();
    assert(d[0] == "graph.facebook.com"@ && d[1] == "analytics.google.com"@ && d[2]
        == "firebaselogging.googleapis.com"@ && d[3] == "app-measurement.com"@);
    assert(d[4] == "crashlytics.com"@ && d[5] == "doubleclick.net"@ && d[6]
        == "googlesyndication.com"@ && d[7] == "googleadservices.com"@);
    assert(d[8] == "analytics.yahoo.com"@ && d[9] == "ads.linkedin.com"@ && d[10]
        == "bat.bing.com"@ && d[11] == "pixel.facebook.com"@);
    let t = encode_utf8(d[i]);
    assert(lower(lower(t)) =~= lower(t));
    law_only_case_is_ignored(lower(t), t);
}

} // verus!
