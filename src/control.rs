use vstd::prelude::*;
use std::collections::HashMap;

use crate::bucket::RateLimit;
use crate::config::{Config, Rule};
use crate::map::{RateLimitMap, MapError, MAX_ENTRIES, DEFAULT_PORT};

verus! {

broadcast use vstd::std_specs::hash::group_hash_axioms;

/// The rules a configuration installs, in order: the default key first,
/// with a one-second burst, then each rule as written.
pub open spec fn policy_seq(default_bps: u32, rules: Seq<Rule>) -> Seq<Rule> {
    seq![Rule { port: DEFAULT_PORT, bps: default_bps, burst: default_bps }] + rules
}

/// The policy `(bps, burst)` of each key after installing `s` in order:
/// a later rule for a port replaces an earlier one.
pub open spec fn plan_map(s: Seq<Rule>) -> Map<u16, (u32, u32)>
    decreases s.len(),
{
    if s.len() == 0 {
        Map::empty()
    } else {
        let r = s.last();
        plan_map(s.drop_last()).insert(r.port, (r.bps, r.burst))
    }
}

/// The policy of each key that configuration `c` asks for.
pub open spec fn config_plan(c: Config) -> Map<u16, (u32, u32)> {
    plan_map(policy_seq(c.default_rate_limit_bps, c.rules@))
}

/// The entry of key `k` once `plan` is applied to `m`: an existing entry
/// takes the new policy and keeps its state; a new key starts full.
pub open spec fn updated_entry(m: Map<u16, RateLimit>, plan: Map<u16, (u32, u32)>, k: u16) -> RateLimit {
    if m.contains_key(k) {
        m[k].with_policy_spec(plan[k].0, plan[k].1)
    } else {
        RateLimit::new_spec(plan[k].0, plan[k].1)
    }
}

/// The map after applying `plan` to `m`: exactly the planned keys remain.
pub open spec fn applied(m: Map<u16, RateLimit>, plan: Map<u16, (u32, u32)>) -> Map<u16, RateLimit> {
    Map::new(|k: u16| plan.contains_key(k), |k: u16| updated_entry(m, plan, k))
}

/// Applying `plan` to `m` stays within the map's capacity: insertions come
/// before deletions, so old and new keys are present together.
pub open spec fn fits(m: Map<u16, RateLimit>, plan: Map<u16, (u32, u32)>) -> bool {
    m.dom().union(plan.dom()).len() <= MAX_ENTRIES
}

/// Port `k` is among the first `i` rules of `s`.
pub open spec fn listed(s: Seq<Rule>, i: int, k: u16) -> bool {
    exists|j: int| 0 <= j < i && s[j].port == k
}

proof fn lemma_plan_map_dom(s: Seq<Rule>)
    ensures
        plan_map(s).dom().finite(),
        forall|k: u16| #[trigger] plan_map(s).contains_key(k) <==> listed(s, s.len() as int, k),
    decreases s.len(),
{
    if s.len() > 0 {
        let p = s.drop_last();
        lemma_plan_map_dom(p);
        assert forall|k: u16| #[trigger]
            plan_map(s).contains_key(k) <==> listed(s, s.len() as int, k) by {
            if plan_map(s).contains_key(k) {
                if k == s.last().port {
                    assert(s[s.len() - 1].port == k);
                } else {
                    let j = choose|j: int| 0 <= j < p.len() && p[j].port == k;
                    assert(s[j].port == k);
                }
            }
            if listed(s, s.len() as int, k) {
                let j = choose|j: int| 0 <= j < s.len() && s[j].port == k;
                if j < s.len() - 1 {
                    assert(p[j].port == k);
                }
            }
        }
    }
}

/// The rules configuration `cfg` installs, default key first.
pub fn policy_entries(cfg: &Config) -> (r: Vec<Rule>)
    ensures
        r@ == policy_seq(cfg.default_rate_limit_bps, cfg.rules@),
{
    let mut r: Vec<Rule> = Vec::new();
    r.push(
        Rule {
            port: DEFAULT_PORT,
            bps: cfg.default_rate_limit_bps,
            burst: cfg.default_rate_limit_bps,
        },
    );
    let mut i: usize = 0;
    while i < cfg.rules.len()
        invariant
            i <= cfg.rules@.len(),
            r@ == policy_seq(cfg.default_rate_limit_bps, cfg.rules@.take(i as int)),
        decreases cfg.rules@.len() - i,
    {
        r.push(cfg.rules[i]);
        proof {
            assert(cfg.rules@.take(i + 1) =~= cfg.rules@.take(i as int).push(cfg.rules@[i as int]));
            assert(policy_seq(cfg.default_rate_limit_bps, cfg.rules@.take(i + 1)) =~= policy_seq(
                cfg.default_rate_limit_bps,
                cfg.rules@.take(i as int),
            ).push(cfg.rules@[i as int]));
        }
        i = i + 1;
    }
    proof {
        assert(cfg.rules@.take(i as int) =~= cfg.rules@);
    }
    r
}

fn plan_of(s: &Vec<Rule>) -> (r: HashMap<u16, (u32, u32)>)
    ensures
        r@ == plan_map(s@),
{
    let mut r: HashMap<u16, (u32, u32)> = HashMap::new();
    let mut i: usize = 0;
    while i < s.len()
        invariant
            i <= s@.len(),
            r@ == plan_map(s@.take(i as int)),
        decreases s@.len() - i,
    {
        r.insert(s[i].port, (s[i].bps, s[i].burst));
        proof {
            assert(s@.take(i + 1).drop_last() =~= s@.take(i as int));
        }
        i = i + 1;
    }
    proof {
        assert(s@.take(i as int) =~= s@);
    }
    r
}

/// Installs configuration `cfg` into `map` in a single pass: each planned
/// key is inserted or updated first, then every key the plan does not name
/// is deleted, so the default entry is never missing. Fails when the keys
/// old and new together exceed the map's capacity; the map then holds part
/// of the update.
pub fn apply_config(map: &mut RateLimitMap, cfg: &Config) -> (r: Result<(), MapError>)
    requires
        old(map).wf(),
    ensures
        final(map).wf(),
        r is Ok <==> fits(old(map)@, config_plan(*cfg)),
        r is Ok ==> final(map)@ == applied(old(map)@, config_plan(*cfg)),
{
    let targets = policy_entries(cfg);
    let plan = plan_of(&targets);
    let ghost m0 = map@;
    let ghost u = m0.dom().union(plan@.dom());
    proof {
        lemma_plan_map_dom(targets@);
    }
    let mut i: usize = 0;
    while i < targets.len()
        invariant
            map.wf(),
            i <= targets@.len(),
            plan@ == plan_map(targets@),
            plan@ == config_plan(*cfg),
            m0 == old(map)@,
            m0.dom().finite(),
            plan@.dom().finite(),
            u == m0.dom().union(plan@.dom()),
            forall|k: u16| #[trigger] plan@.contains_key(k) <==> listed(targets@, targets@.len() as int, k),
            forall|k: u16| #[trigger]
                map@.contains_key(k) <==> (m0.contains_key(k) || listed(targets@, i as int, k)),
            forall|k: u16| #[trigger]
                listed(targets@, i as int, k) ==> map@[k] == updated_entry(m0, plan@, k),
            forall|k: u16|
                m0.contains_key(k) && !listed(targets@, i as int, k) ==> #[trigger] map@[k] == m0[k],
        decreases targets@.len() - i,
    {
        let port = targets[i].port;
        assert(listed(targets@, targets@.len() as int, port));
        let entry = match plan.get(&port) {
            Some(pol) => match map.get(port) {
                Some(e) => e.with_policy(pol.0, pol.1),
                None => RateLimit::new(pol.0, pol.1),
            },
            None => {
                proof {
                    assert(false);
                }
                RateLimit::new(0, 0)
            },
        };
        proof {
            assert(map@.dom() <= u);
        }
        match map.insert(port, entry) {
            Ok(()) => {},
            Err(e) => {
                proof {
                    assert(!map@.contains_key(port));
                    assert(map@.dom().insert(port).len() == map@.dom().len() + 1);
                    assert(map@.dom().insert(port) <= u);
                    assert(u.finite());
                    vstd::set_lib::lemma_len_subset(map@.dom().insert(port), u);
                }
                return Err(e);
            },
        }
        proof {
            assert forall|k: u16| #[trigger]
                map@.contains_key(k) <==> (m0.contains_key(k) || listed(targets@, i + 1, k)) by {
                if listed(targets@, i + 1, k) && k != port {
                    let j = choose|j: int| 0 <= j < i + 1 && targets@[j].port == k;
                    assert(listed(targets@, i as int, k));
                }
                if k == port {
                    assert(targets@[i as int].port == k);
                }
            }
            assert forall|k: u16| #[trigger]
                listed(targets@, i + 1, k) implies map@[k] == updated_entry(m0, plan@, k) by {
                if k != port {
                    let j = choose|j: int| 0 <= j < i + 1 && targets@[j].port == k;
                    assert(listed(targets@, i as int, k));
                }
            }
            assert forall|k: u16|
                m0.contains_key(k) && !listed(targets@, i + 1, k) implies #[trigger] map@[k]
                == m0[k] by {
                if k == port {
                    assert(targets@[i as int].port == k);
                }
                if listed(targets@, i as int, k) {
                    let j = choose|j: int| 0 <= j < i && targets@[j].port == k;
                    assert(targets@[j].port == k);
                }
            }
        }
        i = i + 1;
    }
    proof {
        assert(map@.dom() =~= u);
    }
    // Ports are sixteen bits wide, so one sweep over all of them finds
    // every key the plan does not name.
    let mut p: u32 = 0;
    while p < 65536
        invariant
            map.wf(),
            p <= 65536,
            plan@ == config_plan(*cfg),
            m0 == old(map)@,
            forall|k: u16| #[trigger]
                map@.contains_key(k) <==> (plan@.contains_key(k) || (m0.contains_key(k) && k
                    >= p)),
            forall|k: u16|
                plan@.contains_key(k) ==> #[trigger] map@[k] == updated_entry(m0, plan@, k),
        decreases 65536 - p,
    {
        let port = p as u16;
        if !plan.contains_key(&port) && map.contains(port) {
            map.remove(port);
        }
        p = p + 1;
    }
    proof {
        assert(map@ =~= applied(m0, plan@));
    }
    Ok(())
}

/// Applying a configuration to the map it produced changes nothing, and
/// still fits: reloading the same configuration is the same as loading it once.
pub proof fn lemma_reload_idempotent(m: Map<u16, RateLimit>, c: Config)
    requires
        m.dom().finite(),
        fits(m, config_plan(c)),
    ensures
        fits(applied(m, config_plan(c)), config_plan(c)),
        applied(applied(m, config_plan(c)), config_plan(c)) == applied(m, config_plan(c)),
{
    let plan = config_plan(c);
    let m1 = applied(m, plan);
    lemma_plan_map_dom(policy_seq(c.default_rate_limit_bps, c.rules@));
    assert(m1.dom() =~= plan.dom());
    assert(m1.dom().union(plan.dom()) =~= plan.dom());
    vstd::set_lib::lemma_len_subset(plan.dom(), m.dom().union(plan.dom()));
    assert(applied(m1, plan) =~= m1);
}

} // verus!
