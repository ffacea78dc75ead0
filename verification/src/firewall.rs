//! Packet filter and DNS blocklist.
//!
//! A stateless filter over raw IPv4 packets. Rules are tried in order and the
//! first that matches decides; the newest rule comes first. Without a match,
//! inbound packets are denied and outbound packets allowed. A packet that cannot
//! be read is denied. Outbound DNS queries for blocked domains are denied before any
//! rule is tried.
use crate::text::{
    ascii, byte_range, decimal, lemma_encode_concat, lower, push_decimal, same_bytes, to_lower,
    utf8_text,
};
use vstd::prelude::*;
use vstd::utf8::*;

verus! {

broadcast use vstd::string::group_string_axioms;

/// IPv4 minimum header length in bytes.
pub const IPV4_MIN_HEADER_LEN: usize = 20;

/// TCP minimum header length in bytes.
pub const TCP_MIN_HEADER_LEN: usize = 20;

/// UDP header length in bytes.
pub const UDP_HEADER_LEN: usize = 8;

/// IP protocol number for ICMP.
pub const PROTO_ICMP: u8 = 1;

/// IP protocol number for TCP.
pub const PROTO_TCP: u8 = 6;

/// IP protocol number for UDP.
pub const PROTO_UDP: u8 = 17;

/// DNS port number.
pub const DNS_PORT: u16 = 53;

/// DNS message header length in bytes.
pub const DNS_HEADER_LEN: usize = 12;

/// Maximum number of labels read from a DNS name.
pub const MAX_LABELS: usize = 128;

// ---------------------------------------------------------------------------
// Types
// ---------------------------------------------------------------------------

/// Action to take on a packet after rule evaluation.
#[derive(Debug, Clone, Copy, PartialEq, Eq, Structural)]
pub enum Action {
    /// Forward the packet.
    Allow,
    /// Drop the packet.
    Deny,
    /// Forward the packet and log the event.
    Log,
}

/// Traffic direction relative to the device.
#[derive(Debug, Clone, Copy, PartialEq, Eq, Structural)]
pub enum Direction {
    /// Traffic arriving from an external interface.
    Inbound,
    /// Traffic leaving toward an external interface.
    Outbound,
}

/// Layer-4 protocol selector for a [`FilterRule`].
#[derive(Debug, Clone, Copy, PartialEq, Eq, Structural)]
pub enum Protocol {
    /// Match TCP segments.
    Tcp,
    /// Match UDP datagrams.
    Udp,
    /// Match ICMP messages.
    Icmp,
}

impl Action {
    /// The name of the action.
    pub open spec fn name(self) -> Seq<char> {
        match self {
            Action::Allow => "allow"@,
            Action::Deny => "deny"@,
            Action::Log => "log"@,
        }
    }

    /// The name of the action.
    pub fn to_string(&self) -> (r: String)
        ensures
            r@ == self.name(),
    {
        match self {
            Action::Allow => "allow".to_owned(),
            Action::Deny => "deny".to_owned(),
            Action::Log => "log".to_owned(),
        }
    }
}

impl Direction {
    /// The name of the direction.
    pub open spec fn name(self) -> Seq<char> {
        match self {
            Direction::Inbound => "inbound"@,
            Direction::Outbound => "outbound"@,
        }
    }

    /// The name of the direction.
    pub fn to_string(&self) -> (r: String)
        ensures
            r@ == self.name(),
    {
        match self {
            Direction::Inbound => "inbound".to_owned(),
            Direction::Outbound => "outbound".to_owned(),
        }
    }
}

impl Protocol {
    /// The name of the protocol.
    pub open spec fn name(self) -> Seq<char> {
        match self {
            Protocol::Tcp => "Tcp"@,
            Protocol::Udp => "Udp"@,
            Protocol::Icmp => "Icmp"@,
        }
    }

    /// The name of the protocol.
    pub fn to_string(&self) -> (r: String)
        ensures
            r@ == self.name(),
    {
        match self {
            Protocol::Tcp => "Tcp".to_owned(),
            Protocol::Udp => "Udp".to_owned(),
            Protocol::Icmp => "Icmp".to_owned(),
        }
    }
}

/// An IPv4 address represented as four octets.
#[derive(Debug, Clone, Copy, PartialEq, Eq)]
pub struct Ipv4Address(pub [u8; 4]);

impl View for Ipv4Address {
    type V = Seq<u8>;

    open spec fn view(&self) -> Seq<u8> {
        self.0@
    }
}

/// A single firewall rule. All specified fields must match for the rule to fire;
/// `None` matches any value.
#[derive(Debug, Clone, Copy)]
pub struct FilterRule {
    /// Which direction this rule applies to.
    pub direction: Direction,
    /// Protocol constraint.
    pub protocol: Option<Protocol>,
    /// Source IPv4 address constraint.
    pub src_addr: Option<Ipv4Address>,
    /// Destination IPv4 address constraint.
    pub dst_addr: Option<Ipv4Address>,
    /// Destination port constraint.
    pub dst_port: Option<u16>,
    /// Action to take when this rule matches.
    pub action: Action,
}

impl FilterRule {
    /// The rule in a word, for diagnostics.
    pub open spec fn text(self) -> Seq<char> {
        self.direction.name() + " "@ + self.action.name() + (match self.protocol {
            Some(p) => " "@ + p.name(),
            None => Seq::empty(),
        }) + (match self.dst_port {
            Some(port) => " port "@ + ascii(decimal(port as nat)),
            None => Seq::empty(),
        })
    }

    /// The rule in a word, for diagnostics.
    pub fn to_string(&self) -> (r: String)
        ensures
            r@ == self.text(),
    {
        let mut out = self.direction.to_string();
        out.append(" ");
        out.append(self.action.to_string().as_str());
        let ghost start = out@;
        match self.protocol {
            Some(proto) => {
                out.append(" ");
                out.append(proto.to_string().as_str());
            },
            None => {},
        }
        let ghost middle = match self.protocol {
            Some(p) => " "@ + p.name(),
            None => Seq::<char>::empty(),
        };
        assert(out@ =~= start + middle);
        match self.dst_port {
            Some(port) => {
                out.append(" port ");
                push_decimal(&mut out, port as u64);
            },
            None => {},
        }
        assert(out@ =~= self.text());
        out
    }
}

/// Packet statistics tracked by the firewall.
#[derive(Debug, Clone, Copy)]
pub struct FirewallStats {
    /// Total packets that resulted in [`Action::Allow`] or [`Action::Log`].
    pub packets_allowed: u64,
    /// Total packets that resulted in [`Action::Deny`].
    pub packets_denied: u64,
    /// Total DNS queries blocked by the domain blocklist.
    pub dns_blocked: u64,
}

impl Default for FirewallStats {
    fn default() -> (r: Self)
        ensures
            r == (FirewallStats { packets_allowed: 0, packets_denied: 0, dns_blocked: 0 }),
    {
        FirewallStats { packets_allowed: 0, packets_denied: 0, dns_blocked: 0 }
    }
}

impl FirewallStats {
    /// The counters in a word, for diagnostics.
    pub fn to_string(&self) -> (r: String)
        ensures
            r@ == "allowed="@ + ascii(decimal(self.packets_allowed as nat)) + ", denied="@ + ascii(
                decimal(self.packets_denied as nat),
            ) + ", dns_blocked="@ + ascii(decimal(self.dns_blocked as nat)),
    {
        let mut out = "allowed=".to_owned();
        push_decimal(&mut out, self.packets_allowed);
        out.append(", denied=");
        push_decimal(&mut out, self.packets_denied);
        out.append(", dns_blocked=");
        push_decimal(&mut out, self.dns_blocked);
        out
    }

    /// The counters after a packet was acted on.
    pub open spec fn counting(self, action: Action) -> FirewallStats {
        if action == Action::Deny {
            FirewallStats { packets_denied: (self.packets_denied + 1) as u64, ..self }
        } else {
            FirewallStats { packets_allowed: (self.packets_allowed + 1) as u64, ..self }
        }
    }
}

// ---------------------------------------------------------------------------
// Reading packets
// ---------------------------------------------------------------------------

/// Packet header fields used for rule matching.
#[derive(Debug, Clone, Copy)]
pub struct PacketInfo {
    /// The layer-4 protocol.
    pub protocol: Protocol,
    /// Where the packet comes from.
    pub src_addr: Ipv4Address,
    /// Where the packet goes to.
    pub dst_addr: Ipv4Address,
    /// The port it goes to, where the protocol has ports.
    pub dst_port: Option<u16>,
}

/// What a [`PacketInfo`] stands for.
pub struct PacketModel {
    pub protocol: Protocol,
    pub src_addr: Seq<u8>,
    pub dst_addr: Seq<u8>,
    pub dst_port: Option<int>,
}

impl View for PacketInfo {
    type V = PacketModel;

    open spec fn view(&self) -> PacketModel {
        PacketModel {
            protocol: self.protocol,
            src_addr: self.src_addr@,
            dst_addr: self.dst_addr@,
            dst_port: match self.dst_port {
                Some(p) => Some(p as int),
                None => None,
            },
        }
    }
}

/// The number in two bytes, the high byte first.
pub open spec fn be16(d: Seq<u8>, p: int) -> int {
    d[p] * 256 + d[p + 1]
}

/// The length of an IPv4 header in bytes, as its first byte gives it.
pub open spec fn header_len(packet: Seq<u8>) -> int {
    (packet[0] % 16) * 4
}

/// The header fields of an IPv4 packet: version 4, at least twenty bytes of
/// header, and a TCP, UDP or ICMP payload that holds its own header.
pub open spec fn packet_info(packet: Seq<u8>) -> Option<PacketModel> {
    let h = header_len(packet);
    if packet.len() < IPV4_MIN_HEADER_LEN || packet[0] / 16 != 4 || h < IPV4_MIN_HEADER_LEN
        || packet.len() < h {
        None
    } else {
        let src_addr = packet.subrange(12, 16);
        let dst_addr = packet.subrange(16, 20);
        let payload = packet.len() - h;
        if packet[9] == PROTO_TCP && payload >= TCP_MIN_HEADER_LEN {
            Some(
                PacketModel {
                    protocol: Protocol::Tcp,
                    src_addr,
                    dst_addr,
                    dst_port: Some(be16(packet, h + 2)),
                },
            )
        } else if packet[9] == PROTO_UDP && payload >= UDP_HEADER_LEN {
            Some(
                PacketModel {
                    protocol: Protocol::Udp,
                    src_addr,
                    dst_addr,
                    dst_port: Some(be16(packet, h + 2)),
                },
            )
        } else if packet[9] == PROTO_ICMP {
            Some(PacketModel { protocol: Protocol::Icmp, src_addr, dst_addr, dst_port: None })
        } else {
            None
        }
    }
}

/// Reads a big-endian number of two bytes.
fn read_be16(d: &[u8], p: usize) -> (r: u16)
    requires
        p + 1 < d@.len(),
    ensures
        r == be16(d@, p as int),
{
    d[p] as u16 * 256 + d[p + 1] as u16
}

/// Reads the length of the IPv4 header.
fn read_header_len(packet: &[u8]) -> (r: usize)
    requires
        packet@.len() > 0,
    ensures
        r == header_len(packet@),
{
    (packet[0] % 16) as usize * 4
}

/// Reads an address.
fn read_addr(d: &[u8], p: usize) -> (r: Ipv4Address)
    requires
        p + 4 <= d@.len(),
    ensures
        r@ == d@.subrange(p as int, p + 4),
{
    let r = Ipv4Address([d[p], d[p + 1], d[p + 2], d[p + 3]]);
    assert(r@ =~= d@.subrange(p as int, p + 4));
    r
}

/// Parse an IPv4 packet and extract the fields needed for rule matching.
pub fn parse_packet(packet: &[u8]) -> (r: Option<PacketInfo>)
    ensures
        match packet_info(packet@) {
            Some(m) => r is Some && r->0@ == m,
            None => r is None,
        },
{
    if packet.len() < IPV4_MIN_HEADER_LEN {
        return None;
    }
    if packet[0] / 16 != 4 {
        return None;
    }
    let header: usize = read_header_len(packet);
    if header < IPV4_MIN_HEADER_LEN {
        return None;
    }
    if packet.len() < header {
        return None;
    }
    let src_addr = read_addr(packet, 12);
    let dst_addr = read_addr(packet, 16);
    let payload: usize = packet.len() - header;
    if packet[9] == PROTO_TCP {
        if payload < TCP_MIN_HEADER_LEN {
            return None;
        }
        Some(
            PacketInfo {
                protocol: Protocol::Tcp,
                src_addr,
                dst_addr,
                dst_port: Some(read_be16(packet, header + 2)),
            },
        )
    } else if packet[9] == PROTO_UDP {
        if payload < UDP_HEADER_LEN {
            return None;
        }
        Some(
            PacketInfo {
                protocol: Protocol::Udp,
                src_addr,
                dst_addr,
                dst_port: Some(read_be16(packet, header + 2)),
            },
        )
    } else if packet[9] == PROTO_ICMP {
        Some(PacketInfo { protocol: Protocol::Icmp, src_addr, dst_addr, dst_port: None })
    } else {
        None
    }
}

// ---------------------------------------------------------------------------
// Reading DNS queries
// ---------------------------------------------------------------------------

/// The labels of a DNS name from a position on; `n` were read before it. A name
/// ends with an empty label. Compression pointers, labels that are no UTF-8,
/// too many labels and a name that runs out of the message have none.
pub open spec fn name_labels(d: Seq<u8>, pos: int, n: nat) -> Option<Seq<Seq<u8>>>
    decreases d.len() - pos,
{
    if pos < 0 || pos >= d.len() {
        None
    } else if d[pos] == 0 {
        Some(Seq::empty())
    } else {
        let end = pos + 1 + d[pos];
        if d[pos] >= 0xC0 || n >= MAX_LABELS || end > d.len() || !valid_utf8(
            d.subrange(pos + 1, end),
        ) {
            None
        } else {
            prepend_labels(seq![d.subrange(pos + 1, end)], name_labels(d, end, n + 1))
        }
    }
}

/// Labels with others put in front.
pub open spec fn prepend_labels(
    front: Seq<Seq<u8>>,
    r: Option<Seq<Seq<u8>>>,
) -> Option<Seq<Seq<u8>>> {
    match r {
        Some(labels) => Some(front + labels),
        None => None,
    }
}

/// Labels joined by dots.
pub open spec fn dotted(labels: Seq<Seq<u8>>) -> Seq<u8>
    decreases labels.len(),
{
    if labels.len() == 0 {
        Seq::empty()
    } else if labels.len() == 1 {
        labels[0]
    } else {
        dotted(labels.drop_last()) + seq![0x2Eu8] + labels.last()
    }
}

/// The domain that a DNS message asks for: the name of its first question, where
/// it has one that is not the root.
pub open spec fn query_domain(d: Seq<u8>) -> Option<Seq<u8>> {
    if d.len() < DNS_HEADER_LEN || be16(d, 4) == 0 {
        None
    } else {
        match name_labels(d, DNS_HEADER_LEN as int, 0) {
            Some(labels) => if labels.len() == 0 {
                None
            } else {
                Some(dotted(labels))
            },
            None => None,
        }
    }
}

/// Extract the name from the first question in a DNS query message.
pub fn extract_query_domain(data: &[u8]) -> (r: Option<String>)
    ensures
        match query_domain(data@) {
            Some(name) => r is Some && encode_utf8(r->0@) == name,
            None => r is None,
        },
{
    if data.len() < DNS_HEADER_LEN {
        return None;
    }
    if read_be16(data, 4) == 0 {
        return None;
    }
    let ghost d = data@;
    let mut pos: usize = DNS_HEADER_LEN;
    let mut domain = String::new();
    let mut label_count: usize = 0;
    let ghost mut labels: Seq<Seq<u8>> = Seq::empty();
    proof {
        if let Some(rest) = name_labels(d, DNS_HEADER_LEN as int, 0) {
            assert(Seq::<Seq<u8>>::empty() + rest =~= rest);
        }
        assert(encode_utf8(domain@) =~= dotted(labels));
    }
    loop
        invariant_except_break
            DNS_HEADER_LEN <= pos,
            d == data@,
            label_count == labels.len(),
            label_count <= MAX_LABELS,
            name_labels(d, DNS_HEADER_LEN as int, 0) == prepend_labels(
                labels,
                name_labels(d, pos as int, labels.len()),
            ),
            query_domain(d) is Some ==> name_labels(d, DNS_HEADER_LEN as int, 0) is Some,
            encode_utf8(domain@) == dotted(labels),
            labels.len() == 0 <==> domain@.len() == 0,
        ensures
            name_labels(d, DNS_HEADER_LEN as int, 0) == Some(labels),
            encode_utf8(domain@) == dotted(labels),
            labels.len() == 0 <==> domain@.len() == 0,
        decreases d.len() - pos,
    {
        if pos >= data.len() {
            return None;
        }
        let len_byte: u8 = data[pos];
        if len_byte == 0 {
            assert(labels + Seq::<Seq<u8>>::empty() =~= labels);
            break;
        }
        if len_byte >= 0xC0 {
            return None;
        }
        if label_count >= MAX_LABELS {
            return None;
        }
        let label_len: usize = len_byte as usize;
        if data.len() - pos - 1 < label_len {
            return None;
        }
        let label_bytes = byte_range(data, pos + 1, pos + 1 + label_len);
        let label = match utf8_text(label_bytes) {
            Some(s) => s,
            None => {
                return None;
            },
        };
        proof {
            let bytes = label_bytes@;
            let longer = labels.push(bytes);
            assert(longer.drop_last() =~= labels);
            if let Some(rest) = name_labels(d, pos + 1 + label_len, labels.len() + 1) {
                assert(labels + (seq![bytes] + rest) =~= longer + rest);
            }
            lemma_encode_concat(domain@, seq!['.']);
            lemma_encode_concat(domain@.push('.'), label@);
            lemma_encode_concat(domain@, label@);
            assert(domain@ + seq!['.'] =~= domain@.push('.'));
            lemma_dot();
            assert(domain@.len() == 0 ==> domain@ + label@ =~= label@);
            assert(label@.len() == 0 ==> encode_utf8(label@).len() == 0);
        }
        if !domain.as_str().is_empty() {
            domain.push('.');
        }
        domain.append(label);
        proof {
            labels = labels.push(label_bytes@);
        }
        label_count += 1;
        pos = pos + 1 + label_len;
    }
    if domain.as_str().is_empty() {
        None
    } else {
        Some(domain)
    }
}

/// A DNS name on the wire: each label behind its length, and an empty label at the end.
pub open spec fn name_bytes(labels: Seq<Seq<u8>>) -> Seq<u8>
    decreases labels.len(),
{
    if labels.len() == 0 {
        seq![0u8]
    } else {
        seq![labels[0].len() as u8] + labels[0] + name_bytes(labels.drop_first())
    }
}

/// Whether bytes can be a label of a name: not empty, and short enough not to be taken
/// for a compression pointer.
pub open spec fn is_label(label: Seq<u8>) -> bool {
    0 < label.len() < 0xC0 && valid_utf8(label)
}

proof fn lemma_labels_read_back(front: Seq<u8>, labels: Seq<Seq<u8>>, tail: Seq<u8>, n: nat)
    requires
        forall|i: int| 0 <= i < labels.len() ==> is_label(#[trigger] labels[i]),
        n + labels.len() <= MAX_LABELS,
    ensures
        name_labels(front + name_bytes(labels) + tail, front.len() as int, n) == Some(labels),
    decreases labels.len(),
{
    let d = front + name_bytes(labels) + tail;
    let pos = front.len() as int;
    if labels.len() == 0 {
        assert(d[pos] == 0);
        assert(labels =~= Seq::empty());
    } else {
        let label = labels[0];
        let rest = labels.drop_first();
        assert(is_label(label));
        let longer = front + (seq![label.len() as u8] + label);
        assert(name_bytes(labels).len() > label.len());
        assert(d[pos] == label.len());
        let end = pos + 1 + d[pos];
        assert(d =~= longer + name_bytes(rest) + tail);
        assert(d.subrange(pos + 1, end) =~= label);
        assert forall|i: int| 0 <= i < rest.len() implies is_label(#[trigger] rest[i]) by {
            assert(rest[i] == labels[i + 1]);
        }
        lemma_labels_read_back(longer, rest, tail, n + 1);
        assert(end == longer.len());
        assert(seq![label] + rest =~= labels);
    }
}

/// Texts joined by dots.
pub open spec fn joined(names: Seq<Seq<char>>) -> Seq<char>
    decreases names.len(),
{
    if names.len() == 0 {
        Seq::empty()
    } else if names.len() == 1 {
        names[0]
    } else {
        joined(names.drop_last()) + seq!['.'] + names.last()
    }
}

/// The bytes of labels.
pub open spec fn label_bytes(names: Seq<Seq<char>>) -> Seq<Seq<u8>> {
    Seq::new(names.len(), |i: int| encode_utf8(names[i]))
}

proof fn lemma_joined(names: Seq<Seq<char>>)
    ensures
        dotted(label_bytes(names)) == encode_utf8(joined(names)),
    decreases names.len(),
{
    if names.len() == 0 {
        assert(encode_utf8(joined(names)) =~= Seq::<u8>::empty());
    } else if names.len() > 1 {
        let front = names.drop_last();
        lemma_joined(front);
        assert(label_bytes(names).drop_last() =~= label_bytes(front));
        lemma_encode_concat(joined(front), seq!['.']);
        lemma_encode_concat(joined(front) + seq!['.'], names.last());
        lemma_dot();
    }
}

/// Law: a query for a name is read back as that name, its labels joined by dots, whatever
/// stands in the rest of the header and behind the name.
pub proof fn law_query_gives_its_name_back(
    header: Seq<u8>,
    names: Seq<Seq<char>>,
    tail: Seq<u8>,
)
    requires
        header.len() == DNS_HEADER_LEN,
        be16(header, 4) != 0,
        0 < names.len() <= MAX_LABELS,
        forall|i: int|
            0 <= i < names.len() ==> 0 < encode_utf8(#[trigger] names[i]).len() < 0xC0,
    ensures
        query_domain(header + name_bytes(label_bytes(names)) + tail) == Some(
            encode_utf8(joined(names)),
        ),
{
    let labels = label_bytes(names);
    let d = header + name_bytes(labels) + tail;
    assert forall|i: int| 0 <= i < labels.len() implies is_label(#[trigger] labels[i]) by {
        assert(labels[i] == encode_utf8(names[i]));
        encode_utf8_valid_utf8(names[i]);
    }
    lemma_labels_read_back(header, labels, tail, 0);
    assert(d[4] == header[4] && d[5] == header[5]);
    lemma_joined(names);
}

/// The dot is one byte.
proof fn lemma_dot()
    ensures
        encode_utf8(seq!['.']) == seq![0x2Eu8],
{
    let t = seq!['.'];
    assert(is_ascii_chars(t));
    is_ascii_chars_encode_utf8(t);
    assert(t[0] as u8 == encode_utf8(t)[0]);
    assert(encode_utf8(t) =~= seq![0x2Eu8]);
}

// ---------------------------------------------------------------------------
// Matching
// ---------------------------------------------------------------------------

/// Whether a rule applies to a packet that goes in a direction.
pub open spec fn matches_packet(rule: FilterRule, direction: Direction, info: PacketModel) -> bool {
    &&& rule.direction == direction
    &&& rule.protocol matches Some(p) ==> p == info.protocol
    &&& rule.src_addr matches Some(a) ==> a@ == info.src_addr
    &&& rule.dst_addr matches Some(a) ==> a@ == info.dst_addr
    &&& rule.dst_port matches Some(port) ==> info.dst_port == Some(port as int)
}

/// Check whether a single rule matches the given direction and packet info.
pub fn rule_matches(rule: &FilterRule, direction: Direction, info: &PacketInfo) -> (r: bool)
    ensures
        r == matches_packet(*rule, direction, info@),
{
    if rule.direction != direction {
        return false;
    }
    match rule.protocol {
        Some(proto) => {
            if proto != info.protocol {
                return false;
            }
        },
        None => {},
    }
    match rule.src_addr {
        Some(src) => {
            if !same_bytes(src.0.as_slice(), info.src_addr.0.as_slice()) {
                return false;
            }
        },
        None => {},
    }
    match rule.dst_addr {
        Some(dst) => {
            if !same_bytes(dst.0.as_slice(), info.dst_addr.0.as_slice()) {
                return false;
            }
        },
        None => {},
    }
    match rule.dst_port {
        Some(rule_port) => match info.dst_port {
            Some(port) => rule_port == port,
            None => false,
        },
        None => true,
    }
}

/// The action of the first rule from a position on that matches.
pub open spec fn first_match(
    rules: Seq<FilterRule>,
    direction: Direction,
    info: PacketModel,
    from: int,
) -> Option<Action>
    decreases rules.len() - from,
{
    if !(0 <= from < rules.len()) {
        None
    } else if matches_packet(rules[from], direction, info) {
        Some(rules[from].action)
    } else {
        first_match(rules, direction, info, from + 1)
    }
}

/// Whether a domain is a suffix's domain or lies below it.
pub open spec fn under_suffix(domain: Seq<u8>, suffix: Seq<u8>) -> bool {
    let rest = domain.len() - suffix.len();
    domain == suffix || (rest > 0 && domain.skip(rest) == suffix && domain[rest - 1] == 0x2E)
}

/// Check whether a domain equals or is a subdomain of a blocklist suffix.
pub fn domain_matches_suffix(domain: &[u8], suffix: &[u8]) -> (r: bool)
    ensures
        r == under_suffix(domain@, suffix@),
{
    if same_bytes(domain, suffix) {
        return true;
    }
    if domain.len() <= suffix.len() {
        return false;
    }
    let rest: usize = domain.len() - suffix.len();
    let end = byte_range(domain, rest, domain.len());
    assert(end@ =~= domain@.skip(rest as int));
    same_bytes(end, suffix) && domain[rest - 1] == 0x2E
}

/// Whether a lower-case domain lies under any of the suffixes.
pub open spec fn blocked_by(blocklist: Seq<Seq<u8>>, domain: Seq<u8>) -> bool {
    exists|i: int| 0 <= i < blocklist.len() && under_suffix(domain, #[trigger] blocklist[i])
}

/// The bytes of a text with ASCII capitals made small.
fn lowered(s: &str) -> (v: Vec<u8>)
    ensures
        v@ == lower(encode_utf8(s@)),
{
    let b = s.as_bytes();
    let mut v: Vec<u8> = Vec::new();
    let mut i: usize = 0;
    while i < b.len()
        invariant
            i <= b@.len(),
            b@ == encode_utf8(s@),
            v@ == lower(b@).take(i as int),
        decreases b@.len() - i,
    {
        v.push(to_lower(b[i]));
        i += 1;
        assert(v@ =~= lower(b@).take(i as int));
    }
    assert(lower(b@).take(b@.len() as int) =~= lower(b@));
    v
}

// ---------------------------------------------------------------------------
// The firewall
// ---------------------------------------------------------------------------

/// Packet filter combining an ordered rule set, a DNS domain blocklist,
/// direction-specific default policies, and per-action statistics.
pub struct Firewall {
    /// Ordered list of filter rules. First match wins.
    rules: Vec<FilterRule>,
    /// Lower-case domain suffixes to block in DNS queries.
    dns_blocklist: Vec<Vec<u8>>,
    /// Packet statistics.
    stats: FirewallStats,
    /// Default action for inbound packets when no rule matches.
    default_inbound: Action,
    /// Default action for outbound packets when no rule matches.
    default_outbound: Action,
}

/// What a [`Firewall`] stands for.
#[verifier::ext_equal]
pub struct FirewallModel {
    pub rules: Seq<FilterRule>,
    pub blocklist: Seq<Seq<u8>>,
    pub stats: FirewallStats,
    pub default_inbound: Action,
    pub default_outbound: Action,
}

/// What blocked suffixes stand for.
pub open spec fn suffixes(list: Seq<Vec<u8>>) -> Seq<Seq<u8>> {
    Seq::new(list.len(), |i: int| list[i]@)
}

impl View for Firewall {
    type V = FirewallModel;

    closed spec fn view(&self) -> FirewallModel {
        FirewallModel {
            rules: self.rules@,
            blocklist: suffixes(self.dns_blocklist@),
            stats: self.stats,
            default_inbound: self.default_inbound,
            default_outbound: self.default_outbound,
        }
    }
}

impl FirewallModel {
    /// Whether a packet that goes in a direction is a DNS query for a blocked domain. Only
    /// what goes out is a query.
    pub open spec fn blocks_query(self, packet: Seq<u8>, direction: Direction) -> bool {
        match packet_info(packet) {
            None => false,
            Some(info) => direction == Direction::Outbound && info.protocol == Protocol::Udp
                && info.dst_port == Some(DNS_PORT as int) && match query_domain(packet.skip(header_len(packet) + UDP_HEADER_LEN)) {
                Some(domain) => blocked_by(self.blocklist, lower(domain)),
                None => false,
            },
        }
    }

    /// What is done with a packet.
    pub open spec fn verdict(self, packet: Seq<u8>, direction: Direction) -> Action {
        match packet_info(packet) {
            None => Action::Deny,
            Some(info) => if self.blocks_query(packet, direction) {
                Action::Deny
            } else {
                match first_match(self.rules, direction, info, 0) {
                    Some(action) => action,
                    None => match direction {
                        Direction::Inbound => self.default_inbound,
                        Direction::Outbound => self.default_outbound,
                    },
                }
            },
        }
    }

    /// The counters after a blocked query, if the packet is one.
    pub open spec fn query_counted(self, packet: Seq<u8>, direction: Direction) -> FirewallModel {
        if self.blocks_query(packet, direction) {
            FirewallModel {
                stats: FirewallStats {
                    dns_blocked: (self.stats.dns_blocked + 1) as u64,
                    ..self.stats
                },
                ..self
            }
        } else {
            self
        }
    }

    /// The firewall after a packet: only its counters change.
    pub open spec fn after_packet(self, packet: Seq<u8>, direction: Direction) -> FirewallModel {
        let counted = self.query_counted(packet, direction);
        FirewallModel { stats: counted.stats.counting(self.verdict(packet, direction)), ..counted }
    }

    /// Whether the counters can count one more packet.
    pub open spec fn can_count(self) -> bool {
        self.stats.packets_allowed < u64::MAX && self.stats.packets_denied < u64::MAX
            && self.stats.dns_blocked < u64::MAX
    }
}

/// The surveillance domains that are blocked by default.
pub open spec fn default_domains() -> Seq<Seq<char>> {
    seq![
        "graph.facebook.com"@,
        "analytics.google.com"@,
        "firebaselogging.googleapis.com"@,
        "app-measurement.com"@,
        "crashlytics.com"@,
        "doubleclick.net"@,
        "googlesyndication.com"@,
        "googleadservices.com"@,
        "analytics.yahoo.com"@,
        "ads.linkedin.com"@,
        "bat.bing.com"@,
        "pixel.facebook.com"@,
    ]
}

/// The surveillance domains that are blocked by default.
pub fn surveillance_domains() -> (r: [&'static str; 12])
    ensures
        r@.len() == default_domains().len(),
        forall|i: int| 0 <= i < r@.len() ==> (#[trigger] r@[i])@ == default_domains()[i],
{
    [
        "graph.facebook.com",
        "analytics.google.com",
        "firebaselogging.googleapis.com",
        "app-measurement.com",
        "crashlytics.com",
        "doubleclick.net",
        "googlesyndication.com",
        "googleadservices.com",
        "analytics.yahoo.com",
        "ads.linkedin.com",
        "bat.bing.com",
        "pixel.facebook.com",
    ]
}

/// The suffixes of domains as the blocklist holds them.
pub open spec fn as_suffixes(domains: Seq<Seq<char>>) -> Seq<Seq<u8>> {
    Seq::new(domains.len(), |i: int| lower(encode_utf8(domains[i])))
}

impl Firewall {
    /// Create a firewall with default policies: deny all inbound, allow all
    /// outbound, without rules or DNS blocklist entries.
    pub fn new() -> (r: Self)
        ensures
            r@ == (FirewallModel {
                rules: Seq::empty(),
                blocklist: Seq::empty(),
                stats: FirewallStats { packets_allowed: 0, packets_denied: 0, dns_blocked: 0 },
                default_inbound: Action::Deny,
                default_outbound: Action::Allow,
            }),
    {
        let r = Firewall {
            rules: Vec::new(),
            dns_blocklist: Vec::new(),
            stats: FirewallStats::default(),
            default_inbound: Action::Deny,
            default_outbound: Action::Allow,
        };
        assert(r@.blocklist =~= Seq::empty());
        r
    }

    /// Prepend a rule to the rule list, which gives it the highest priority.
    pub fn add_rule(&mut self, rule: FilterRule)
        ensures
            final(self)@ == (FirewallModel {
                rules: seq![rule] + old(self)@.rules,
                ..old(self)@
            }),
    {
        self.rules.insert(0, rule);
        assert(self@.rules =~= seq![rule] + old(self)@.rules);
    }

    /// The number of rules.
    pub fn rule_count(&self) -> (r: usize)
        ensures
            r == self@.rules.len(),
    {
        self.rules.len()
    }

    /// Add a domain suffix to the DNS blocklist. Case does not matter.
    pub fn add_dns_block(&mut self, suffix: &str)
        ensures
            final(self)@ == (FirewallModel {
                blocklist: old(self)@.blocklist.push(lower(encode_utf8(suffix@))),
                ..old(self)@
            }),
    {
        self.dns_blocklist.push(lowered(suffix));
        assert(self@.blocklist =~= old(self)@.blocklist.push(lower(encode_utf8(suffix@))));
    }

    /// The number of entries in the DNS blocklist.
    pub fn dns_block_count(&self) -> (r: usize)
        ensures
            r == self@.blocklist.len(),
    {
        self.dns_blocklist.len()
    }

    /// Evaluate an inbound (RX) packet.
    pub fn evaluate_rx(&mut self, packet: &[u8]) -> (action: Action)
        requires
            old(self)@.can_count(),
        ensures
            action == old(self)@.verdict(packet@, Direction::Inbound),
            final(self)@ == old(self)@.after_packet(packet@, Direction::Inbound),
    {
        let action = self.classify(packet, Direction::Inbound);
        self.record(action);
        action
    }

    /// Evaluate an outbound (TX) packet.
    pub fn evaluate_tx(&mut self, packet: &[u8]) -> (action: Action)
        requires
            old(self)@.can_count(),
        ensures
            action == old(self)@.verdict(packet@, Direction::Outbound),
            final(self)@ == old(self)@.after_packet(packet@, Direction::Outbound),
    {
        let action = self.classify(packet, Direction::Outbound);
        self.record(action);
        action
    }

    /// Check whether a hostname equals a blocklist entry or is a subdomain of
    /// one. Case does not matter.
    pub fn is_dns_blocked(&self, hostname: &str) -> (r: bool)
        ensures
            r == blocked_by(self@.blocklist, lower(encode_utf8(hostname@))),
    {
        let name = lowered(hostname);
        let mut i: usize = 0;
        while i < self.dns_blocklist.len()
            invariant
                i <= self.dns_blocklist@.len(),
                name@ == lower(encode_utf8(hostname@)),
                forall|j: int|
                    0 <= j < i ==> !under_suffix(name@, #[trigger] self@.blocklist[j]),
            decreases self.dns_blocklist@.len() - i,
        {
            assert(self@.blocklist[i as int] == self.dns_blocklist@[i as int]@);
            if domain_matches_suffix(name.as_slice(), self.dns_blocklist[i].as_slice()) {
                return true;
            }
            i += 1;
        }
        false
    }

    /// Return a reference to the firewall statistics.
    pub fn stats(&self) -> (r: &FirewallStats)
        ensures
            *r == self@.stats,
    {
        &self.stats
    }

    /// Append the default surveillance domains to the DNS blocklist.
    pub fn load_default_blocklist(&mut self)
        ensures
            final(self)@ == (FirewallModel {
                blocklist: old(self)@.blocklist + as_suffixes(default_domains()),
                ..old(self)@
            }),
    {
        let domains = surveillance_domains();
        let ghost all = as_suffixes(default_domains());
        let mut i: usize = 0;
        assert(self@.blocklist + all.take(0) =~= self@.blocklist);
        while i < 12
            invariant
                i <= 12,
                domains@.len() == 12,
                all == as_suffixes(default_domains()),
                all.len() == 12,
                forall|j: int|
                    0 <= j < domains@.len() ==> (#[trigger] domains@[j])@ == default_domains()[j],
                self@ == (FirewallModel {
                    blocklist: old(self)@.blocklist + all.take(i as int),
                    ..old(self)@
                }),
            decreases 12 - i,
        {
            self.add_dns_block(domains[i]);
            assert(all.take(i + 1) =~= all.take(i as int).push(all[i as int]));
            assert(self@.blocklist =~= old(self)@.blocklist + all.take(i + 1));
            i += 1;
        }
        assert(all.take(12) =~= all);
    }

    /// Read a packet and classify it against blocklist and rules; blocked DNS
    /// queries are counted.
    pub fn classify(&mut self, packet: &[u8], direction: Direction) -> (action: Action)
        requires
            old(self)@.can_count(),
        ensures
            action == old(self)@.verdict(packet@, direction),
            final(self)@ == old(self)@.query_counted(packet@, direction),
    {
        let info = match parse_packet(packet) {
            Some(info) => info,
            None => {
                return Action::Deny;
            },
        };
        if direction == Direction::Outbound && info.protocol == Protocol::Udp && info.dst_port
            == Some(DNS_PORT) && self.check_dns_blocklist(packet) == Some(true) {
            self.stats = FirewallStats {
                packets_allowed: self.stats.packets_allowed,
                packets_denied: self.stats.packets_denied,
                dns_blocked: self.stats.dns_blocked + 1,
            };
            return Action::Deny;
        }
        assert(!self@.blocks_query(packet@, direction));
        let mut i: usize = 0;
        while i < self.rules.len()
            invariant
                i <= self.rules@.len(),
                self@ == old(self)@,
                packet_info(packet@) == Some(info@),
                !self@.blocks_query(packet@, direction),
                first_match(self@.rules, direction, info@, 0) == first_match(
                    self@.rules,
                    direction,
                    info@,
                    i as int,
                ),
            decreases self.rules@.len() - i,
        {
            if rule_matches(&self.rules[i], direction, &info) {
                return self.rules[i].action;
            }
            i += 1;
        }
        match direction {
            Direction::Inbound => self.default_inbound,
            Direction::Outbound => self.default_outbound,
        }
    }

    /// Look up the domain that a UDP packet asks for in the blocklist: `None` if
    /// there is none to be read.
    pub fn check_dns_blocklist(&self, packet: &[u8]) -> (r: Option<bool>)
        ensures
            r == if self@.blocklist.len() == 0 {
                Some(false)
            } else if packet@.len() == 0 || packet@.len() < header_len(packet@) + UDP_HEADER_LEN {
                None
            } else {
                match query_domain(packet@.skip(header_len(packet@) + UDP_HEADER_LEN)) {
                    Some(domain) => Some(blocked_by(self@.blocklist, lower(domain))),
                    None => None,
                }
            },
    {
        if self.dns_blocklist.len() == 0 {
            return Some(false);
        }
        if packet.len() == 0 {
            return None;
        }
        let dns_start: usize = read_header_len(packet) + UDP_HEADER_LEN;
        if packet.len() < dns_start {
            return None;
        }
        let payload = byte_range(packet, dns_start, packet.len());
        assert(payload@ =~= packet@.skip(dns_start as int));
        match extract_query_domain(payload) {
            Some(domain) => Some(self.is_dns_blocked(domain.as_str())),
            None => None,
        }
    }

    /// Update statistics based on the action taken.
    pub fn record(&mut self, action: Action)
        requires
            old(self)@.can_count() || (action == Action::Deny && old(self)@.stats.packets_denied
                < u64::MAX),
        ensures
            final(self)@ == (FirewallModel {
                stats: old(self)@.stats.counting(action),
                ..old(self)@
            }),
    {
        match action {
            Action::Allow | Action::Log => {
                self.stats.packets_allowed = self.stats.packets_allowed + 1;
            },
            Action::Deny => {
                self.stats.packets_denied = self.stats.packets_denied + 1;
            },
        }
    }
}

// ---------------------------------------------------------------------------
// Audit
// ---------------------------------------------------------------------------

/// An entry for the audit log.
#[derive(Debug, Clone, Copy, PartialEq, Eq)]
pub struct PacketDenyEvent {
    /// The process the event is booked on; packets belong to none.
    pub pid: u32,
    /// What happened.
    pub detail: &'static str,
    /// When it happened.
    pub timestamp: u64,
}

/// The audit entry for a denied packet.
pub fn log_packet_deny(direction: Direction, timestamp: u64) -> (r: PacketDenyEvent)
    ensures
        r.pid == 0,
        r.timestamp == timestamp,
        r.detail@ == direction.name() + " packet denied"@,
{
    proof {
        reveal_strlit("inbound packet denied");
        reveal_strlit("outbound packet denied");
        reveal_strlit("inbound");
        reveal_strlit("outbound");
        reveal_strlit(" packet denied");
        assert("inbound packet denied"@ =~= "inbound"@ + " packet denied"@);
        assert("outbound packet denied"@ =~= "outbound"@ + " packet denied"@);
    }
    let detail = match direction {
        Direction::Inbound => "inbound packet denied",
        Direction::Outbound => "outbound packet denied",
    };
    PacketDenyEvent { pid: 0, detail, timestamp }
}

// ---------------------------------------------------------------------------
// Laws
// ---------------------------------------------------------------------------

/// Law: a packet that cannot be read is denied in either direction, whatever the
/// rules say.
pub proof fn law_unreadable_packets_are_denied(
    fw: FirewallModel,
    packet: Seq<u8>,
    direction: Direction,
)
    requires
        packet_info(packet) is None,
    ensures
        fw.verdict(packet, direction) == Action::Deny,
{
}

/// Law: the blocklist has no say on inbound packets: rules and default decide them.
pub proof fn law_blocklist_leaves_inbound_alone(
    fw: FirewallModel,
    blocklist: Seq<Seq<u8>>,
    packet: Seq<u8>,
)
    ensures
        (FirewallModel { blocklist, ..fw }).verdict(packet, Direction::Inbound) == fw.verdict(
            packet,
            Direction::Inbound,
        ),
{
}

/// Law: no rule lets a query for a blocked domain through.
pub proof fn law_blocklist_precedes_rules(
    fw: FirewallModel,
    rules: Seq<FilterRule>,
    packet: Seq<u8>,
    direction: Direction,
)
    requires
        fw.blocks_query(packet, direction),
    ensures
        (FirewallModel { rules, ..fw }).verdict(packet, direction) == Action::Deny,
{
    let other = FirewallModel { rules, ..fw };
    assert(other.blocks_query(packet, direction));
}

/// Law: the rule added last decides every readable packet that it matches and
/// that asks for no blocked domain.
pub proof fn law_newest_rule_decides(
    fw: FirewallModel,
    rule: FilterRule,
    packet: Seq<u8>,
    direction: Direction,
)
    requires
        packet_info(packet) is Some,
        !fw.blocks_query(packet, direction),
        matches_packet(rule, direction, packet_info(packet)->0),
    ensures
        (FirewallModel { rules: seq![rule] + fw.rules, ..fw }).verdict(packet, direction)
            == rule.action,
{
    let other = FirewallModel { rules: seq![rule] + fw.rules, ..fw };
    assert(!other.blocks_query(packet, direction));
    assert(other.rules[0] == rule);
}

/// Law: a rule that does not match leaves the decision to the rules before it.
pub proof fn law_other_rules_stay_in_force(
    fw: FirewallModel,
    rule: FilterRule,
    packet: Seq<u8>,
    direction: Direction,
)
    requires
        packet_info(packet) matches Some(info) ==> !matches_packet(rule, direction, info),
    ensures
        (FirewallModel { rules: seq![rule] + fw.rules, ..fw }).verdict(packet, direction)
            == fw.verdict(packet, direction),
{
    let other = FirewallModel { rules: seq![rule] + fw.rules, ..fw };
    assert(other.blocks_query(packet, direction) == fw.blocks_query(packet, direction));
    if let Some(info) = packet_info(packet) {
        assert(other.rules[0] == rule);
        lemma_first_match_shift(fw.rules, rule, direction, info, 0);
    }
}

proof fn lemma_first_match_shift(
    rules: Seq<FilterRule>,
    rule: FilterRule,
    direction: Direction,
    info: PacketModel,
    from: int,
)
    requires
        0 <= from,
    ensures
        first_match(seq![rule] + rules, direction, info, from + 1) == first_match(
            rules,
            direction,
            info,
            from,
        ),
    decreases rules.len() - from,
{
    if from < rules.len() {
        assert((seq![rule] + rules)[from + 1] == rules[from]);
        lemma_first_match_shift(rules, rule, direction, info, from + 1);
    }
}

/// Law: every packet is counted once, as allowed or as denied.
pub proof fn law_each_packet_counts_once(fw: FirewallModel, packet: Seq<u8>, direction: Direction)
    requires
        fw.can_count(),
    ensures
        fw.after_packet(packet, direction).stats.packets_allowed
            + fw.after_packet(packet, direction).stats.packets_denied == fw.stats.packets_allowed
            + fw.stats.packets_denied + 1,
        fw.after_packet(packet, direction).stats.packets_denied > fw.stats.packets_denied
            <==> fw.verdict(packet, direction) == Action::Deny,
{
}

/// Law: blocking a domain blocks it and everything below it, in any case of its
/// letters.
pub proof fn law_subdomains_are_blocked(blocklist: Seq<Seq<u8>>, suffix: Seq<u8>, below: Seq<u8>)
    requires
        blocklist.contains(lower(suffix)),
    ensures
        blocked_by(blocklist, lower(suffix)),
        blocked_by(blocklist, lower(below + seq![0x2Eu8] + suffix)),
{
    let i = choose|i: int| 0 <= i < blocklist.len() && blocklist[i] == lower(suffix);
    assert(under_suffix(lower(suffix), blocklist[i]));
    let domain = lower(below + seq![0x2Eu8] + suffix);
    let rest = domain.len() - lower(suffix).len();
    assert(domain.skip(rest) =~= lower(suffix));
    assert(domain[rest - 1] == 0x2E);
    assert(under_suffix(domain, blocklist[i]));
}

} // verus!
