use bitswing::bucket::{RateLimit, SCALE, UNLIMITED};
use bitswing::map::{MapError, RateLimitMap, DEFAULT_PORT, MAX_ENTRIES};
use bitswing::packet::{classify, Classification};
use bitswing::shaper::{shaper, try_shaper, XDP_DROP, XDP_PASS};
use bitswing::Verdict;

fn eth(ethertype: u16, payload: &[u8]) -> Vec<u8> {
    let mut f = vec![0u8; 12];
    f.push((ethertype >> 8) as u8);
    f.push(ethertype as u8);
    f.extend_from_slice(payload);
    f
}

/// IPv4 frame with header length `ihl` words, protocol `proto`, destination
/// port `port`, the given total length field, padded to `frame_len` bytes.
fn ipv4(ihl: u8, proto: u8, port: u16, total_len: u16, frame_len: usize) -> Vec<u8> {
    let hl = (ihl as usize) * 4;
    let mut ip = vec![0u8; hl.max(20)];
    ip[0] = 0x40 | ihl;
    ip[2] = (total_len >> 8) as u8;
    ip[3] = total_len as u8;
    ip[9] = proto;
    let mut tp = vec![0x12, 0x34, (port >> 8) as u8, port as u8];
    ip.append(&mut tp);
    let mut f = eth(0x0800, &ip);
    if f.len() < frame_len {
        f.resize(frame_len, 0);
    }
    f
}

fn ipv6(next_header: u8, port: u16, payload_len: u16, frame_len: usize) -> Vec<u8> {
    let mut ip = vec![0u8; 40];
    ip[0] = 0x60;
    ip[4] = (payload_len >> 8) as u8;
    ip[5] = payload_len as u8;
    ip[6] = next_header;
    ip.extend_from_slice(&[0x00, 0x50, (port >> 8) as u8, port as u8]);
    let mut f = eth(0x86DD, &ip);
    if f.len() < frame_len {
        f.resize(frame_len, 0);
    }
    f
}

fn tcp_frame(port: u16) -> Vec<u8> {
    ipv4(5, 6, port, 1500, 1514)
}

fn arp_frame() -> Vec<u8> {
    eth(0x0806, &[0u8; 28])
}

#[test]
fn classify_ipv4_tcp_reads_destination_port() {
    let f = ipv4(5, 6, 8080, 1500, 1514);
    assert_eq!(classify(&f), Classification::Shaped { port: 8080, len: 1500 });
}

#[test]
fn classify_ipv4_udp_with_options_reads_port_after_options() {
    let f = ipv4(7, 17, 53, 100, 128);
    assert_eq!(classify(&f), Classification::Shaped { port: 53, len: 100 });
}

#[test]
fn classify_billing_is_clamped_to_frame_length() {
    let f = ipv4(5, 6, 80, 9000, 60);
    assert_eq!(classify(&f), Classification::Shaped { port: 80, len: 60 });
}

#[test]
fn classify_header_only_frame_bypasses() {
    let f = eth(0x0800, &[]);
    assert_eq!(f.len(), 14);
    assert_eq!(classify(&f), Classification::Bypass);
}

#[test]
fn classify_short_frames_bypass() {
    assert_eq!(classify(&[]), Classification::Bypass);
    assert_eq!(classify(&[0u8; 13]), Classification::Bypass);
    let f = ipv4(5, 6, 80, 1500, 0);
    assert_eq!(classify(&f[..37]), Classification::Bypass);
}

#[test]
fn classify_ihl_four_bypasses() {
    let f = ipv4(4, 6, 80, 1500, 1514);
    assert_eq!(classify(&f), Classification::Bypass);
}

#[test]
fn classify_other_protocol_bypasses() {
    let f = ipv4(5, 1, 80, 1500, 1514);
    assert_eq!(classify(&f), Classification::Bypass);
}

#[test]
fn classify_ipv6_tcp() {
    let f = ipv6(6, 443, 1000, 1054);
    assert_eq!(classify(&f), Classification::Shaped { port: 443, len: 1040 });
}

#[test]
fn classify_ipv6_extension_header_bypasses() {
    for nh in [0u8, 43, 44, 50, 51, 60] {
        let f = ipv6(nh, 443, 1000, 1054);
        assert_eq!(classify(&f), Classification::Bypass);
    }
}

#[test]
fn classify_non_ip_bypasses() {
    assert_eq!(classify(&arp_frame()), Classification::Bypass);
}

#[test]
fn new_entry_starts_full() {
    let e = RateLimit::new(1000, 2000);
    assert_eq!(e.tokens, 2000 * SCALE);
    assert_eq!(e.last_refill_ns, 0);
    assert_eq!((e.passed_bytes, e.dropped_bytes), (0, 0));
}

#[test]
fn refill_adds_rate_times_elapsed() {
    let mut e = RateLimit::new(1000, 5000);
    e.tokens = 0;
    e.last_refill_ns = 1_000_000_000;
    e.refill(1_500_000_000);
    assert_eq!(e.tokens, 500 * SCALE);
    assert_eq!(e.last_refill_ns, 1_500_000_000);
    e.refill(1_500_000_001);
    // 1000 bytes/s over 1 ns earns 1024/1e6 scaled tokens: rounds to zero.
    assert_eq!(e.tokens, 500 * SCALE);
    e.refill(100_000_000_000);
    assert_eq!(e.tokens, 5000 * SCALE);
}

#[test]
fn refill_keeps_sub_byte_resolution() {
    let mut e = RateLimit::new(1, 10);
    e.tokens = 0;
    e.refill(1_000_000);
    // One byte per second over 1 ms is 1024 * 1e-3 scaled tokens.
    assert_eq!(e.tokens, 1);
}

#[test]
fn clock_regression_refills_nothing() {
    let mut e = RateLimit::new(1000, 5000);
    e.tokens = 7;
    e.last_refill_ns = 10_000;
    e.refill(5_000);
    assert_eq!(e.tokens, 7);
    assert_eq!(e.last_refill_ns, 10_000);
}

#[test]
fn offer_accepts_then_drops_when_empty() {
    let mut e = RateLimit::new(1000, 1000);
    assert_eq!(e.offer(0, 600), Verdict::Accept);
    assert_eq!(e.tokens, 400 * SCALE);
    assert_eq!(e.offer(0, 600), Verdict::Drop);
    assert_eq!(e.passed_bytes, 600);
    assert_eq!(e.dropped_bytes, 600);
    assert_eq!(e.offer(200_000_000, 600), Verdict::Accept);
    assert_eq!(e.tokens, 0);
}

#[test]
fn offer_zero_rate_drops() {
    let mut e = RateLimit::new(0, 1000);
    assert_eq!(e.offer(5, 1), Verdict::Drop);
    assert_eq!(e.dropped_bytes, 1);
    assert_eq!(e.tokens, 1000 * SCALE);
}

#[test]
fn offer_unlimited_accepts_without_change() {
    let mut e = RateLimit::new(UNLIMITED, 0);
    let before = e;
    assert_eq!(e.offer(5, u64::MAX), Verdict::Accept);
    assert_eq!(e, before);
}

#[test]
fn counters_saturate() {
    let mut e = RateLimit::new(0, 0);
    e.dropped_bytes = u64::MAX - 1;
    e.offer(0, 10);
    assert_eq!(e.dropped_bytes, u64::MAX);
}

#[test]
fn with_policy_clamps_tokens_and_keeps_state() {
    let mut e = RateLimit::new(1000, 1000);
    e.last_refill_ns = 42;
    e.passed_bytes = 9;
    let n = e.with_policy(500, 100);
    assert_eq!((n.bps, n.burst, n.tokens), (500, 100, 100 * SCALE));
    assert_eq!((n.last_refill_ns, n.passed_bytes), (42, 9));
}

#[test]
fn map_insert_get_remove() {
    let mut m = RateLimitMap::new();
    assert_eq!(m.insert(80, RateLimit::new(1, 1)), Ok(()));
    assert!(m.contains(80));
    assert_eq!(m.get(80), Some(RateLimit::new(1, 1)));
    assert_eq!(m.get(81), None);
    m.remove(80);
    assert_eq!(m.len(), 0);
}

#[test]
fn map_full_refuses_new_key() {
    let mut m = RateLimitMap::new();
    for p in 0..MAX_ENTRIES as u16 {
        assert_eq!(m.insert(p, RateLimit::new(1, 1)), Ok(()));
    }
    assert_eq!(m.insert(5000, RateLimit::new(1, 1)), Err(MapError::Full));
    assert_eq!(m.insert(3, RateLimit::new(2, 2)), Ok(()));
    assert_eq!(m.len(), MAX_ENTRIES);
}

#[test]
fn shaper_returns_xdp_codes() {
    let mut m = RateLimitMap::new();
    m.insert(25, RateLimit::new(0, 0)).unwrap();
    assert_eq!(shaper(&mut m, &tcp_frame(25), 1), XDP_DROP);
    assert_eq!(shaper(&mut m, &arp_frame(), 1), XDP_PASS);
}

#[test]
fn absent_port_falls_through_to_default() {
    let mut m = RateLimitMap::new();
    m.insert(DEFAULT_PORT, RateLimit::new(0, 0)).unwrap();
    assert_eq!(try_shaper(&mut m, &tcp_frame(1234), 1), Verdict::Drop);
    assert_eq!(m.get(DEFAULT_PORT).unwrap().dropped_bytes, 1500);
}

#[test]
fn absent_default_accepts() {
    let mut m = RateLimitMap::new();
    m.insert(22, RateLimit::new(0, 0)).unwrap();
    assert_eq!(try_shaper(&mut m, &tcp_frame(1234), 1), Verdict::Accept);
    assert_eq!(m.get(22).unwrap().dropped_bytes, 0);
}

#[test]
fn ihl_four_is_accepted_without_lookup() {
    let mut m = RateLimitMap::new();
    m.insert(DEFAULT_PORT, RateLimit::new(0, 0)).unwrap();
    m.insert(80, RateLimit::new(0, 0)).unwrap();
    let f = ipv4(4, 6, 80, 1500, 1514);
    assert_eq!(try_shaper(&mut m, &f, 1), Verdict::Accept);
    assert_eq!(m.get(80).unwrap().dropped_bytes, 0);
    assert_eq!(m.get(DEFAULT_PORT).unwrap().dropped_bytes, 0);
}

#[test]
fn ipv6_extension_header_is_not_shaped() {
    let mut m = RateLimitMap::new();
    m.insert(DEFAULT_PORT, RateLimit::new(0, 0)).unwrap();
    let f = ipv6(43, 443, 1000, 1054);
    assert_eq!(try_shaper(&mut m, &f, 1), Verdict::Accept);
    assert_eq!(m.get(DEFAULT_PORT).unwrap().dropped_bytes, 0);
}

#[test]
fn window_stays_within_burst_plus_rate() {
    // Rule {bps = 10_000, burst = 3_000}; 200 frames of 100 bytes over 1 s.
    let mut e = RateLimit::new(10_000, 3_000);
    let mut accepted: u64 = 0;
    for i in 0..200u64 {
        if e.offer(i * 5_000_000, 100) == Verdict::Accept {
            accepted += 100;
        }
        assert!(e.tokens <= 3_000 * SCALE);
    }
    assert!(accepted <= 3_000 + 10_000);
    assert!(accepted >= 10_000 - 3_000);
}
