use crate::mac_address::MacAddress;
use vstd::prelude::*;

verus! {

/// An IPv4 address as the 32-bit number whose big-endian bytes it is.
#[derive(Clone, Copy, PartialEq, Eq, Hash, Debug, Structural)]
pub struct Ipv4Address {
    pub bits: u32,
}

/// An address of a network interface: IPv4, or IPv6 as a 128-bit number.
#[derive(Clone, Copy, PartialEq, Eq, Debug, Structural)]
pub enum IpAddress {
    V4(Ipv4Address),
    V6(u128),
}

/// A hardware address together with the IPv4 address it answers to.
#[derive(Clone, Copy, Debug)]
pub struct NetworkAddresses {
    pub mac: MacAddress,
    pub ip: Ipv4Address,
}

impl NetworkAddresses {
    pub fn new(mac: MacAddress, ip: Ipv4Address) -> (r: NetworkAddresses)
        ensures
            r.mac == mac,
            r.ip == ip,
    {
        NetworkAddresses { mac, ip }
    }
}

/// What one captured frame says about presence.
#[derive(Clone, Copy, Debug)]
pub enum Event {
    Ignored,
    /// A device asked for an address lease: it has just joined.
    Connected(MacAddress),
    /// A device answered or announced an address binding: it is there.
    Alive { mac: MacAddress, ip: Ipv4Address },
}

pub const ETHERNET_HEADER_LEN: usize = 14;
pub const ETHERTYPE_IPV4: u16 = 0x0800;
pub const ETHERTYPE_ARP: u16 = 0x0806;
pub const IPV4_MIN_HEADER_LEN: usize = 20;
pub const IP_PROTOCOL_UDP: u8 = 17;
pub const UDP_HEADER_LEN: usize = 8;
pub const DHCP_CLIENT_PORT: u16 = 68;
pub const DHCP_SERVER_PORT: u16 = 67;
pub const ARP_PACKET_LEN: usize = 28;
pub const ARP_HARDWARE_ETHERNET: u16 = 1;
pub const ARP_OP_REQUEST: u16 = 1;
pub const ARP_OP_REPLY: u16 = 2;
/// The length of an Ethernet frame that carries one ARP packet.
pub const ARP_FRAME_LEN: usize = 42;

/// The big-endian 16-bit number at `i`.
pub open spec fn be16(d: Seq<u8>, i: int) -> int {
    d[i] * 256 + d[i + 1]
}

/// The big-endian 32-bit number at `i`.
pub open spec fn be32(d: Seq<u8>, i: int) -> int {
    d[i] * 16777216 + d[i + 1] * 65536 + d[i + 2] * 256 + d[i + 3]
}

/// Where the IPv4 payload of an Ethernet frame starts: after the header,
/// whose length field counts 4-byte words, and never before 20 bytes.
pub open spec fn ipv4_payload_start(d: Seq<u8>) -> int {
    let ihl = (d[14] % 16) * 4;
    14 + if ihl < 20 { 20 } else { ihl }
}

/// How many bytes of the IPv4 payload the frame holds: the total length
/// less the header, as far as the frame reaches.
pub open spec fn ipv4_payload_len(d: Seq<u8>) -> int {
    let declared = be16(d, 16) - (d[14] % 16) * 4;
    let declared = if declared < 0 { 0 } else { declared };
    let start = ipv4_payload_start(d);
    let avail = if start <= d.len() { d.len() - start } else { 0 };
    if declared < avail { declared } else { avail }
}

/// A frame in which a client sends a UDP datagram from the DHCP client port
/// to the DHCP server port.
pub open spec fn dhcp_client_frame(d: Seq<u8>) -> bool {
    &&& d.len() >= 14 + 20
    &&& be16(d, 12) == ETHERTYPE_IPV4
    &&& d[23] == IP_PROTOCOL_UDP
    &&& ipv4_payload_len(d) >= 8
    &&& be16(d, ipv4_payload_start(d)) == DHCP_CLIENT_PORT
    &&& be16(d, ipv4_payload_start(d) + 2) == DHCP_SERVER_PORT
}

/// A frame that carries an ARP reply, or an ARP request whose sender and
/// target protocol addresses are the same (an announcement).
pub open spec fn arp_alive_frame(d: Seq<u8>) -> bool {
    &&& d.len() >= 14 + 28
    &&& be16(d, 12) == ETHERTYPE_ARP
    &&& (be16(d, 20) == ARP_OP_REPLY || (be16(d, 20) == ARP_OP_REQUEST && d.subrange(28, 32)
        == d.subrange(38, 42)))
}

/// The four bytes of an IPv4 address, most significant first.
pub open spec fn ip_bytes(ip: Ipv4Address) -> Seq<u8> {
    seq![
        (ip.bits / 16777216) as u8,
        ((ip.bits / 65536) % 256) as u8,
        ((ip.bits / 256) % 256) as u8,
        (ip.bits % 256) as u8,
    ]
}

/// The Ethernet frame holding an ARP request from `us` to `them`, sent to
/// `them` alone rather than broadcast.
pub open spec fn arp_request_bytes(us: NetworkAddresses, them: NetworkAddresses) -> Seq<u8> {
    them.mac.0@ + us.mac.0@ + seq![8u8, 6u8] + seq![0u8, 1u8, 8u8, 0u8, 6u8, 4u8, 0u8, 1u8]
        + us.mac.0@ + ip_bytes(us.ip) + them.mac.0@ + ip_bytes(them.ip)
}

fn read_be16(d: &[u8], i: usize) -> (r: u16)
    requires
        i + 1 < d@.len(),
    ensures
        r == be16(d@, i as int),
{
    (d[i] as u16) * 256 + d[i + 1] as u16
}

fn read_mac(d: &[u8], i: usize) -> (r: MacAddress)
    requires
        i + 6 <= d@.len(),
    ensures
        r.0@ == d@.subrange(i as int, i + 6),
{
    let r = MacAddress([d[i], d[i + 1], d[i + 2], d[i + 3], d[i + 4], d[i + 5]]);
    assert(r.0@ =~= d@.subrange(i as int, i + 6));
    r
}

fn read_ipv4(d: &[u8], i: usize) -> (r: Ipv4Address)
    requires
        i + 4 <= d@.len(),
    ensures
        r.bits == be32(d@, i as int),
{
    Ipv4Address {
        bits: (d[i] as u32) * 16777216 + (d[i + 1] as u32) * 65536 + (d[i + 2] as u32) * 256
            + d[i + 3] as u32,
    }
}

/// Tells what one captured link-layer frame says about presence. It never
/// fails: a frame that is short, malformed or of no interest is `Ignored`.
pub fn parse_packet(data: &[u8]) -> (r: Event)
    ensures
        match r {
            Event::Connected(m) => dhcp_client_frame(data@) && m.0@ == data@.subrange(6, 12),
            Event::Alive { mac, ip } => arp_alive_frame(data@) && mac.0@ == data@.subrange(22, 28)
                && ip.bits == be32(data@, 28),
            Event::Ignored => !dhcp_client_frame(data@) && !arp_alive_frame(data@),
        },
{
    if data.len() < ETHERNET_HEADER_LEN {
        return Event::Ignored;
    }
    let ethertype = read_be16(data, 12);
    if ethertype == ETHERTYPE_IPV4 {
        parse_ipv4_packet(data)
    } else if ethertype == ETHERTYPE_ARP {
        parse_arp_packet(data)
    } else {
        Event::Ignored
    }
}

fn parse_ipv4_packet(data: &[u8]) -> (r: Event)
    requires
        data@.len() >= 14,
        be16(data@, 12) == ETHERTYPE_IPV4,
    ensures
        match r {
            Event::Connected(m) => dhcp_client_frame(data@) && m.0@ == data@.subrange(6, 12),
            Event::Alive { .. } => false,
            Event::Ignored => !dhcp_client_frame(data@),
        },
{
    if data.len() < ETHERNET_HEADER_LEN + IPV4_MIN_HEADER_LEN {
        return Event::Ignored;
    }
    if data[ETHERNET_HEADER_LEN + 9] != IP_PROTOCOL_UDP {
        return Event::Ignored;
    }
    let ihl = ((data[ETHERNET_HEADER_LEN] % 16) as usize) * 4;
    let start = ETHERNET_HEADER_LEN + if ihl < IPV4_MIN_HEADER_LEN { IPV4_MIN_HEADER_LEN } else { ihl };
    let total = read_be16(data, 16) as usize;
    let declared = if total < ihl { 0 } else { total - ihl };
    let avail = if start <= data.len() { data.len() - start } else { 0 };
    let len = if declared < avail { declared } else { avail };
    assert(start == ipv4_payload_start(data@));
    assert(len == ipv4_payload_len(data@));
    if len < UDP_HEADER_LEN {
        return Event::Ignored;
    }
    let source = read_be16(data, start);
    let destination = read_be16(data, start + 2);
    if source == DHCP_CLIENT_PORT && destination == DHCP_SERVER_PORT {
        Event::Connected(read_mac(data, 6))
    } else {
        Event::Ignored
    }
}

fn parse_arp_packet(data: &[u8]) -> (r: Event)
    requires
        data@.len() >= 14,
        be16(data@, 12) == ETHERTYPE_ARP,
    ensures
        match r {
            Event::Alive { mac, ip } => arp_alive_frame(data@) && mac.0@ == data@.subrange(22, 28)
                && ip.bits == be32(data@, 28),
            Event::Connected(_) => false,
            Event::Ignored => !arp_alive_frame(data@),
        },
{
    if data.len() < ETHERNET_HEADER_LEN + ARP_PACKET_LEN {
        return Event::Ignored;
    }
    let op = read_be16(data, 20);
    let same_proto = data[28] == data[38] && data[29] == data[39] && data[30] == data[40]
        && data[31] == data[41];
    proof {
        if same_proto {
            assert(data@.subrange(28, 32) =~= data@.subrange(38, 42));
        } else if data@.subrange(28, 32) == data@.subrange(38, 42) {
            assert(data@.subrange(28, 32)[0] == data@.subrange(38, 42)[0]);
            assert(data@.subrange(28, 32)[1] == data@.subrange(38, 42)[1]);
            assert(data@.subrange(28, 32)[2] == data@.subrange(38, 42)[2]);
            assert(data@.subrange(28, 32)[3] == data@.subrange(38, 42)[3]);
        }
    }
    if (op == ARP_OP_REQUEST && same_proto) || op == ARP_OP_REPLY {
        Event::Alive { mac: read_mac(data, 22), ip: read_ipv4(data, 28) }
    } else {
        Event::Ignored
    }
}

fn push_mac(v: &mut Vec<u8>, m: &MacAddress)
    ensures
        final(v)@ == old(v)@ + m.0@,
{
    let mut i: usize = 0;
    let ghost start = v@;
    while i < 6
        invariant
            i <= 6,
            v@ == start + m.0@.subrange(0, i as int),
        decreases 6 - i,
    {
        v.push(m.0[i]);
        assert(v@ =~= start + m.0@.subrange(0, i + 1));
        i = i + 1;
    }
    assert(m.0@.subrange(0, 6) =~= m.0@);
}

fn push_ip(v: &mut Vec<u8>, ip: Ipv4Address)
    ensures
        final(v)@ == old(v)@ + ip_bytes(ip),
{
    let ghost start = v@;
    v.push((ip.bits / 16777216) as u8);
    v.push(((ip.bits / 65536) % 256) as u8);
    v.push(((ip.bits / 256) % 256) as u8);
    v.push((ip.bits % 256) as u8);
    assert(v@ =~= start + ip_bytes(ip));
}

/// The 42-byte frame of a unicast ARP request that asks `them` for its
/// address on behalf of `us`: Ethernet to `them`'s hardware address, hardware
/// type Ethernet, protocol IPv4, address lengths 6 and 4, operation request.
pub fn arp_request_frame(us: &NetworkAddresses, them: &NetworkAddresses) -> (r: Vec<u8>)
    ensures
        r@ == arp_request_bytes(*us, *them),
        r@.len() == ARP_FRAME_LEN,
{
    let mut v: Vec<u8> = Vec::new();
    push_mac(&mut v, &them.mac);
    push_mac(&mut v, &us.mac);
    v.push(8);
    v.push(6);
    v.push(0);
    v.push(1);
    v.push(8);
    v.push(0);
    v.push(6);
    v.push(4);
    v.push(0);
    v.push(1);
    push_mac(&mut v, &us.mac);
    push_ip(&mut v, us.ip);
    push_mac(&mut v, &them.mac);
    push_ip(&mut v, them.ip);
    assert(v@ =~= arp_request_bytes(*us, *them));
    v
}

} // verus!
