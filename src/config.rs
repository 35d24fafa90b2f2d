use vstd::prelude::*;

verus! {

/// Largest rate or burst a configuration can give (the unlimited sentinel).
pub const MAX_RATE: i64 = 0xFFFF_FFFF;

/// One `[[rules]]` block as the document states it, before validation.
#[derive(Clone, Copy, Debug, PartialEq, Eq)]
pub struct RawRule {
    pub port: i64,
    pub rate_limit_bps: i64,
    pub burst_bytes: Option<i64>,
}

/// The configuration document as read, before validation.
#[derive(Clone, Debug)]
pub struct RawConfig {
    pub interface: String,
    pub default_rate_limit_bps: i64,
    pub rules: Vec<RawRule>,
}

/// A validated rule: the policy of one port key.
#[derive(Clone, Copy, Debug, PartialEq, Eq, Structural)]
pub struct Rule {
    pub port: u16,
    pub bps: u32,
    pub burst: u32,
}

/// A validated configuration.
#[derive(Clone, Debug)]
pub struct Config {
    pub interface: String,
    pub default_rate_limit_bps: u32,
    pub rules: Vec<Rule>,
}

#[derive(Clone, Copy, Debug, PartialEq, Eq, Structural)]
pub enum ConfigError {
    /// `default_rate_limit_bps` is negative or above `MAX_RATE`.
    DefaultRateOutOfRange,
    /// The rule at `index` names a port outside `[1, 65535]`.
    PortOutOfRange { index: usize },
    /// The rule at `index` has a rate that is negative or above `MAX_RATE`.
    RateOutOfRange { index: usize },
    /// The rule at `index` has a burst that is negative or above `MAX_RATE`.
    BurstOutOfRange { index: usize },
}

pub open spec fn valid_rate(x: i64) -> bool {
    0 <= x <= MAX_RATE
}

pub open spec fn valid_port(p: i64) -> bool {
    1 <= p <= 65535
}

pub open spec fn valid_burst(b: Option<i64>) -> bool {
    match b {
        Some(x) => valid_rate(x),
        None => true,
    }
}

pub open spec fn raw_rule_valid(r: RawRule) -> bool {
    valid_port(r.port) && valid_rate(r.rate_limit_bps) && valid_burst(r.burst_bytes)
}

/// The error a rule gives, checked field by field in document order.
pub open spec fn rule_error(r: RawRule, index: usize) -> ConfigError {
    if !valid_port(r.port) {
        ConfigError::PortOutOfRange { index }
    } else if !valid_rate(r.rate_limit_bps) {
        ConfigError::RateOutOfRange { index }
    } else {
        ConfigError::BurstOutOfRange { index }
    }
}

/// The validated form of a valid raw rule; a missing burst is one second of rate.
pub open spec fn rule_of(r: RawRule) -> Rule {
    Rule {
        port: r.port as u16,
        bps: r.rate_limit_bps as u32,
        burst: match r.burst_bytes {
            Some(b) => b as u32,
            None => r.rate_limit_bps as u32,
        },
    }
}

fn validate_rule(r: RawRule, index: usize) -> (res: Result<Rule, ConfigError>)
    ensures
        raw_rule_valid(r) ==> res == Ok::<Rule, ConfigError>(rule_of(r)),
        !raw_rule_valid(r) ==> res == Err::<Rule, ConfigError>(rule_error(r, index)),
{
    if r.port < 1 || r.port > 65535 {
        return Err(ConfigError::PortOutOfRange { index });
    }
    if r.rate_limit_bps < 0 || r.rate_limit_bps > MAX_RATE {
        return Err(ConfigError::RateOutOfRange { index });
    }
    let burst = match r.burst_bytes {
        Some(b) => {
            if b < 0 || b > MAX_RATE {
                return Err(ConfigError::BurstOutOfRange { index });
            }
            b as u32
        },
        None => r.rate_limit_bps as u32,
    };
    Ok(Rule { port: r.port as u16, bps: r.rate_limit_bps as u32, burst })
}

/// Checks the document's values and converts them: the default rate must be
/// in range, and so must each rule's port, rate and burst. The first
/// offending value, in document order, is reported.
pub fn validate(raw: RawConfig) -> (res: Result<Config, ConfigError>)
    ensures
        res is Ok <==> valid_rate(raw.default_rate_limit_bps) && forall|i: int|
            0 <= i < raw.rules@.len() ==> #[trigger] raw_rule_valid(raw.rules@[i]),
        res matches Ok(c) ==> {
            &&& c.interface@ == raw.interface@
            &&& c.default_rate_limit_bps == raw.default_rate_limit_bps
            &&& c.rules@ == raw.rules@.map_values(|r: RawRule| rule_of(r))
        },
        !valid_rate(raw.default_rate_limit_bps) ==> res == Err::<Config, ConfigError>(
            ConfigError::DefaultRateOutOfRange,
        ),
        valid_rate(raw.default_rate_limit_bps) && res is Err ==> exists|i: int|
            0 <= i < raw.rules@.len() && !raw_rule_valid(raw.rules@[i]) && (forall|j: int|
                0 <= j < i ==> #[trigger] raw_rule_valid(raw.rules@[j])) && res
                == Err::<Config, ConfigError>(rule_error(raw.rules@[i], i as usize)),
{
    if raw.default_rate_limit_bps < 0 || raw.default_rate_limit_bps > MAX_RATE {
        return Err(ConfigError::DefaultRateOutOfRange);
    }
    let mut rules: Vec<Rule> = Vec::new();
    let mut i: usize = 0;
    while i < raw.rules.len()
        invariant
            i <= raw.rules@.len(),
            valid_rate(raw.default_rate_limit_bps),
            rules@ == raw.rules@.take(i as int).map_values(|r: RawRule| rule_of(r)),
            forall|j: int| 0 <= j < i ==> #[trigger] raw_rule_valid(raw.rules@[j]),
        decreases raw.rules@.len() - i,
    {
        match validate_rule(raw.rules[i], i) {
            Ok(rule) => {
                rules.push(rule);
                proof {
                    assert(raw.rules@.take(i + 1) =~= raw.rules@.take(i as int).push(
                        raw.rules@[i as int],
                    ));
                }
            },
            Err(e) => {
                assert(!raw_rule_valid(raw.rules@[i as int]));
                return Err(e);
            },
        }
        i = i + 1;
    }
    proof {
        assert(raw.rules@.take(i as int) =~= raw.rules@);
    }
    Ok(Config {
        interface: raw.interface,
        default_rate_limit_bps: raw.default_rate_limit_bps as u32,
        rules,
    })
}

} // verus!
