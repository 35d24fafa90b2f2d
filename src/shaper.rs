use vstd::prelude::*;

use crate::Verdict;
use crate::bucket::RateLimit;
use crate::map::{RateLimitMap, DEFAULT_PORT};
use crate::packet::{classify, classify_spec, Classification};

verus! {

/// XDP action code that drops the frame.
pub const XDP_DROP: u32 = 1;

/// XDP action code that passes the frame on.
pub const XDP_PASS: u32 = 2;

/// The key whose entry governs traffic toward `port`: the port's own entry,
/// else the default one.
pub open spec fn governing_key(m: Map<u16, RateLimit>, port: u16) -> u16 {
    if m.contains_key(port) {
        port
    } else {
        DEFAULT_PORT
    }
}

/// Map and verdict after the datapath has seen frame `f` at time `now`.
pub open spec fn process_spec(m: Map<u16, RateLimit>, f: Seq<u8>, now: u64) -> (
    Map<u16, RateLimit>,
    Verdict,
) {
    match classify_spec(f) {
        Classification::Bypass => (m, Verdict::Accept),
        Classification::Shaped { port, len } => {
            let key = governing_key(m, port);
            if !m.contains_key(key) {
                (m, Verdict::Accept)
            } else {
                let (e, v) = m[key].offer_spec(now, len);
                (m.insert(key, e), v)
            }
        },
    }
}

pub open spec fn action_of(v: Verdict) -> u32 {
    match v {
        Verdict::Accept => XDP_PASS,
        Verdict::Drop => XDP_DROP,
    }
}

/// Decides on one frame: classifies it, finds the governing entry and
/// charges its bucket. Anything that cannot be classified, and a frame for
/// which neither its port nor the default key has an entry, is accepted.
pub fn try_shaper(map: &mut RateLimitMap, frame: &[u8], now: u64) -> (v: Verdict)
    requires
        old(map).wf(),
    ensures
        final(map).wf(),
        (final(map)@, v) == process_spec(old(map)@, frame@, now),
        final(map)@.dom() == old(map)@.dom(),
        forall|k: u16| #[trigger] old(map)@.contains_key(k) ==> final(map)@[k].last_refill_ns
            >= old(map)@[k].last_refill_ns,
{
    match classify(frame) {
        Classification::Bypass => Verdict::Accept,
        Classification::Shaped { port, len } => {
            let key = if map.contains(port) { port } else { DEFAULT_PORT };
            match map.get(key) {
                None => Verdict::Accept,
                Some(entry) => {
                    let mut e = entry;
                    let v = e.offer(now, len);
                    // The key is present, so storing the entry back cannot fail.
                    let _ = map.insert(key, e);
                    proof {
                        assert(map@.dom() =~= old(map)@.dom());
                    }
                    v
                },
            }
        },
    }
}

/// The datapath entry point: the XDP action for one frame.
pub fn shaper(map: &mut RateLimitMap, frame: &[u8], now: u64) -> (r: u32)
    requires
        old(map).wf(),
    ensures
        final(map).wf(),
        final(map)@ == process_spec(old(map)@, frame@, now).0,
        r == action_of(process_spec(old(map)@, frame@, now).1),
{
    match try_shaper(map, frame, now) {
        Verdict::Accept => XDP_PASS,
        Verdict::Drop => XDP_DROP,
    }
}

/// A frame toward a port without an entry is charged to the default key;
/// with no default entry either, it is accepted and the map is left alone.
pub proof fn lemma_absent_key_falls_through(m: Map<u16, RateLimit>, f: Seq<u8>, now: u64)
    requires
        classify_spec(f) is Shaped,
        !m.contains_key(classify_spec(f)->port),
    ensures
        m.contains_key(DEFAULT_PORT) ==> process_spec(m, f, now) == ({
            let (e, v) = m[DEFAULT_PORT].offer_spec(now, classify_spec(f)->len);
            (m.insert(DEFAULT_PORT, e), v)
        }),
        !m.contains_key(DEFAULT_PORT) ==> process_spec(m, f, now) == (m, Verdict::Accept),
{
}

} // verus!
