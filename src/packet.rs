use vstd::prelude::*;

verus! {

/// Length of an Ethernet header.
pub const ETH_HDR_LEN: usize = 14;

/// Minimum length of an IPv4 header.
pub const IPV4_MIN_HDR_LEN: usize = 20;

/// Length of the fixed IPv6 header.
pub const IPV6_HDR_LEN: usize = 40;

pub const ETHERTYPE_IPV4: u16 = 0x0800;

pub const ETHERTYPE_IPV6: u16 = 0x86DD;

pub const PROTO_TCP: u8 = 6;

pub const PROTO_UDP: u8 = 17;

/// What the parser learned of a frame.
#[derive(Clone, Copy, Debug, PartialEq, Eq, Structural)]
pub enum Classification {
    /// The frame is not subject to shaping and is accepted as it is.
    Bypass,
    /// A TCP or UDP frame toward `port`, billed as `len` bytes.
    Shaped { port: u16, len: u64 },
}

/// Big-endian 16-bit value at offset `i`.
pub open spec fn be16(f: Seq<u8>, i: int) -> int {
    f[i] as int * 256 + f[i + 1] as int
}

/// Next-header values of IPv6 extension headers, which are not walked.
pub open spec fn is_ipv6_extension(nh: u8) -> bool {
    nh == 0 || nh == 43 || nh == 44 || nh == 50 || nh == 51 || nh == 60
}

pub open spec fn is_shaped_protocol(p: u8) -> bool {
    p == PROTO_TCP || p == PROTO_UDP
}

/// Header length in bytes of the IPv4 header that starts right after the Ethernet header.
pub open spec fn ipv4_header_len(f: Seq<u8>) -> int {
    (f[14] & 0x0f) as int * 4
}

pub open spec fn min_int(a: int, b: int) -> int {
    if a <= b { a } else { b }
}

/// Classification of an IPv4 packet carried in frame `f`.
pub open spec fn classify_ipv4(f: Seq<u8>) -> Classification {
    if f.len() < 14 + 20 {
        Classification::Bypass
    } else {
        let hl = ipv4_header_len(f);
        let t = 14 + hl;
        if hl < 20 || !is_shaped_protocol(f[23]) || f.len() < t + 4 {
            Classification::Bypass
        } else {
            Classification::Shaped {
                port: be16(f, t + 2) as u16,
                len: min_int(be16(f, 16), f.len() as int) as u64,
            }
        }
    }
}

/// Classification of an IPv6 packet carried in frame `f`.
pub open spec fn classify_ipv6(f: Seq<u8>) -> Classification {
    if f.len() < 14 + 40 {
        Classification::Bypass
    } else {
        let nh = f[20];
        if is_ipv6_extension(nh) || !is_shaped_protocol(nh) || f.len() < 14 + 40 + 4 {
            Classification::Bypass
        } else {
            Classification::Shaped {
                port: be16(f, 56) as u16,
                len: min_int(40 + be16(f, 18), f.len() as int) as u64,
            }
        }
    }
}

/// Classification of an Ethernet frame.
pub open spec fn classify_spec(f: Seq<u8>) -> Classification {
    if f.len() < 14 {
        Classification::Bypass
    } else if be16(f, 12) == ETHERTYPE_IPV4 as int {
        classify_ipv4(f)
    } else if be16(f, 12) == ETHERTYPE_IPV6 as int {
        classify_ipv6(f)
    } else {
        Classification::Bypass
    }
}

fn read_be16(f: &[u8], i: usize) -> (r: u16)
    requires
        i + 1 < f@.len(),
    ensures
        r as int == be16(f@, i as int),
{
    (f[i] as u16) * 256 + (f[i + 1] as u16)
}

fn min_u64(a: u64, b: u64) -> (r: u64)
    ensures
        r as int == min_int(a as int, b as int),
{
    if a <= b { a } else { b }
}

fn classify_ipv4_frame(f: &[u8]) -> (r: Classification)
    requires
        f@.len() >= 14,
    ensures
        r == classify_ipv4(f@),
{
    if f.len() < ETH_HDR_LEN + IPV4_MIN_HDR_LEN {
        return Classification::Bypass;
    }
    let hl: usize = ((f[ETH_HDR_LEN] & 0x0f) as usize) * 4;
    let t: usize = ETH_HDR_LEN + hl;
    if hl < IPV4_MIN_HDR_LEN || !(f[ETH_HDR_LEN + 9] == PROTO_TCP || f[ETH_HDR_LEN + 9]
        == PROTO_UDP) || f.len() < t + 4 {
        return Classification::Bypass;
    }
    let port = read_be16(f, t + 2);
    let total = read_be16(f, ETH_HDR_LEN + 2);
    Classification::Shaped { port, len: min_u64(total as u64, f.len() as u64) }
}

fn classify_ipv6_frame(f: &[u8]) -> (r: Classification)
    requires
        f@.len() >= 14,
    ensures
        r == classify_ipv6(f@),
{
    if f.len() < ETH_HDR_LEN + IPV6_HDR_LEN {
        return Classification::Bypass;
    }
    let nh = f[ETH_HDR_LEN + 6];
    let ext = nh == 0 || nh == 43 || nh == 44 || nh == 50 || nh == 51 || nh == 60;
    if ext || !(nh == PROTO_TCP || nh == PROTO_UDP) || f.len() < ETH_HDR_LEN + IPV6_HDR_LEN + 4 {
        return Classification::Bypass;
    }
    let port = read_be16(f, ETH_HDR_LEN + IPV6_HDR_LEN + 2);
    let payload = read_be16(f, ETH_HDR_LEN + 4);
    Classification::Shaped { port, len: min_u64(40 + payload as u64, f.len() as u64) }
}

/// Parses an Ethernet frame down to the transport destination port.
/// Every read is preceded by a length check; any shortfall, unknown
/// EtherType, malformed header or other protocol gives `Bypass`.
pub fn classify(f: &[u8]) -> (r: Classification)
    ensures
        r == classify_spec(f@),
{
    if f.len() < ETH_HDR_LEN {
        return Classification::Bypass;
    }
    let ethertype = read_be16(f, 12);
    if ethertype == ETHERTYPE_IPV4 {
        classify_ipv4_frame(f)
    } else if ethertype == ETHERTYPE_IPV6 {
        classify_ipv6_frame(f)
    } else {
        Classification::Bypass
    }
}

/// A well-formed IPv4 frame carrying TCP or UDP is classified by the
/// destination port found two bytes into its transport header.
pub proof fn lemma_ipv4_port_extracted(f: Seq<u8>)
    requires
        f.len() >= 14 + 20,
        be16(f, 12) == ETHERTYPE_IPV4 as int,
        ipv4_header_len(f) >= 20,
        is_shaped_protocol(f[23]),
        f.len() >= 14 + ipv4_header_len(f) + 4,
    ensures
        classify_spec(f) matches Classification::Shaped { port, len }
            && port as int == be16(f, 14 + ipv4_header_len(f) + 2),
{
    let t = 14 + ipv4_header_len(f);
    assert(0 <= be16(f, t + 2) < 65536);
}

/// A frame no longer than an Ethernet header is never shaped.
pub proof fn lemma_header_only_frame_bypasses(f: Seq<u8>)
    requires
        f.len() <= 14,
    ensures
        classify_spec(f) == Classification::Bypass,
{
}

/// An IPv4 header whose length field is below five words is never shaped.
pub proof fn lemma_short_ihl_bypasses(f: Seq<u8>)
    requires
        f.len() >= 14 + 20,
        be16(f, 12) == ETHERTYPE_IPV4 as int,
        f[14] & 0x0f < 5,
    ensures
        classify_spec(f) == Classification::Bypass,
{
}

/// An IPv6 packet whose next header is an extension header is never shaped.
pub proof fn lemma_ipv6_extension_bypasses(f: Seq<u8>)
    requires
        f.len() >= 14 + 40,
        be16(f, 12) == ETHERTYPE_IPV6 as int,
        is_ipv6_extension(f[20]),
    ensures
        classify_spec(f) == Classification::Bypass,
{
}

} // verus!
