//! Network-layer configuration, built from environment-variable values.
//!
//! The caller reads the environment and passes the raw values in; absent
//! values fall back to the documented defaults.

use vstd::prelude::*;
use vstd::string::*;
use vstd::string::StrSliceExecFns;

verus! {

/// The flavour of the wider network layer a node connects through.
#[derive(Clone, Copy, Debug, PartialEq, Eq, Structural)]
pub enum NetType {
    Central,
    Hybrid,
}

impl Default for NetType {
    /// The default network flavour.
    fn default() -> (r: Self)
        ensures
            r == NetType::Central,
    {
        NetType::Central
    }
}

/// A span of time, as whole seconds and the nanosecond remainder.
#[derive(Clone, Copy, Debug, PartialEq, Eq, Structural)]
pub struct DurationVal {
    pub secs: u64,
    pub nanos: u32,
}

/// What configuration parsing can refuse.
#[derive(Clone, Copy, Debug, PartialEq, Eq, Structural)]
pub enum ConfigError {
    InvalidNetType,
    InvalidDuration,
}

/// What the human-readable duration grammar accepts on a string — seconds
/// and nanoseconds — or nothing where it refuses; a function of the
/// characters alone.
pub uninterp spec fn parsed_duration(s: Seq<char>) -> Option<(u64, u32)>;

/// Whether the character is an ASCII decimal digit, the only digits the
/// duration grammar reads.
pub open spec fn spec_is_ascii_digit(c: char) -> bool {
    48 <= c as u32 <= 57
}

/// How many ASCII decimal digits the string holds in all.
pub open spec fn digit_tally(s: Seq<char>) -> int
    decreases s.len(),
{
    if s.len() == 0 {
        0
    } else {
        digit_tally(s.drop_last()) + if spec_is_ascii_digit(s.last()) {
            1int
        } else {
            0int
        }
    }
}

/// Counts the ASCII decimal digits of a string.
fn count_ascii_digits(s: &str) -> (r: usize)
    ensures
        r == digit_tally(s@),
{
    let n = s.unicode_len();
    let mut i: usize = 0;
    let mut count: usize = 0;
    while i < n
        invariant
            i <= n == s@.len(),
            count == digit_tally(s@.subrange(0, i as int)),
            count <= i,
        decreases n - i,
    {
        let c = s.get_char(i);
        if (c as u32) >= 48 && (c as u32) <= 57 {
            count = count + 1;
        }
        proof {
            assert(s@.subrange(0, i + 1).drop_last() =~= s@.subrange(0, i as int));
            assert(s@.subrange(0, i + 1).last() == s@[i as int]);
        }
        i = i + 1;
    }
    proof {
        assert(s@.subrange(0, s@.len() as int) =~= s@);
    }
    count
}

/// Whether the character can open a sub-second unit name when an `s`
/// follows it.  Every nanosecond-producing unit name of the duration
/// grammar — the `ns`, `us`, `µs` and `ms` families — contains one of the
/// pairs `ns`, `us`, `µs`, `ms`, `os`, `is`; of the whole-second unit
/// names only `mins` does.
pub open spec fn spec_subsecond_head(c: char) -> bool {
    c == 'n' || c == 'u' || c == 'm' || c == 'o' || c == 'i' || c as u32 == 0xb5
}

/// Whether the string holds any syntax that can produce nanoseconds: a
/// decimal point, or a letter pair that every sub-second unit name
/// contains.  Without such syntax the parser's nanosecond register stays
/// zero on every path.
pub open spec fn spec_subsecond_syntax(s: Seq<char>) -> bool {
    (exists|i: int| 0 <= i < s.len() && #[trigger] s[i] == '.') || (exists|i: int|
        0 <= i && i + 1 < s.len() && spec_subsecond_head(#[trigger] s[i]) && s[i + 1] == 's')
}

/// Scans a string for sub-second syntax.
fn has_subsecond_syntax(s: &str) -> (r: bool)
    ensures
        r == spec_subsecond_syntax(s@),
{
    let n = s.unicode_len();
    let mut i: usize = 0;
    while i < n
        invariant
            i <= n == s@.len(),
            forall|j: int| 0 <= j < i ==> #[trigger] s@[j] != '.',
            forall|j: int|
                0 <= j && j < i && j + 1 < s@.len() ==> !(spec_subsecond_head(#[trigger] s@[j])
                    && s@[j + 1] == 's'),
        decreases n - i,
    {
        let c = s.get_char(i);
        if c == '.' {
            return true;
        }
        if i + 1 < n {
            let c2 = s.get_char(i + 1);
            if (c == 'n' || c == 'u' || c == 'm' || c == 'o' || c == 'i' || (c as u32) == 0xb5)
                && c2 == 's' {
                return true;
            }
        }
        i = i + 1;
    }
    false
}

/// Relies on `humantime::parse_duration`: the result is a function of the
/// input characters alone.  The parser's one panic sits where accumulated
/// seconds hit the 64-bit limit exactly while a full second of
/// nanoseconds waits to be carried; every other overflow is checked and
/// returns an error.  The precondition rules the panic out on either of
/// two grounds: with no sub-second syntax in the input the nanosecond
/// register stays zero and the carry never happens, whatever the numbers;
/// and with at most eleven digits in all, every number is below 10^11, so
/// the seconds total stays under 10^11 times the largest unit — far below
/// the limit — fractional parts included.
#[verifier::external_body]
fn parse_duration_str(s: &str) -> (r: Result<DurationVal, ConfigError>)
    requires
        !spec_subsecond_syntax(s@) || digit_tally(s@) <= 11,
    ensures
        r is Ok <==> parsed_duration(s@) is Some,
        r matches Ok(v) ==> parsed_duration(s@) == Some((v.secs, v.nanos)),
        r matches Err(e) ==> e == ConfigError::InvalidDuration,
{
    match humantime::parse_duration(s) {
        Ok(d) => Ok(DurationVal { secs: d.as_secs(), nanos: d.subsec_nanos() }),
        Err(_) => Err(ConfigError::InvalidDuration),
    }
}

/// Whether a duration value is admitted to the parser: any value with no
/// sub-second syntax, or one of at most eleven digits in all.  Every
/// sensible interval is; the bound only keeps the parser clear of its
/// 64-bit edge, which needs numbers near 2^64 together with a full
/// nanosecond carry.
pub open spec fn spec_duration_parseable(s: Seq<char>) -> bool {
    !spec_subsecond_syntax(s) || digit_tally(s) <= 11
}

/// Whether a network-flavour value is one of the accepted names.
pub open spec fn spec_net_type_of(s: Seq<char>) -> Option<NetType> {
    if s == "central"@ {
        Some(NetType::Central)
    } else if s == "hybrid"@ {
        Some(NetType::Hybrid)
    } else {
        None
    }
}

/// Parses a network-flavour name, lower case as the variants are listed.
pub fn parse_net_type(s: &str) -> (r: Result<NetType, ConfigError>)
    ensures
        spec_net_type_of(s@) matches Some(t) ==> r == Ok::<NetType, ConfigError>(t),
        spec_net_type_of(s@) is None ==> r == Err::<NetType, ConfigError>(
            ConfigError::InvalidNetType,
        ),
{
    let v = String::from_str(s);
    if v == String::from_str("central") {
        Ok(NetType::Central)
    } else if v == String::from_str("hybrid") {
        Ok(NetType::Hybrid)
    } else {
        Err(ConfigError::InvalidNetType)
    }
}

/// The network layer's configuration.
#[derive(Debug)]
pub struct Config {
    pub net_type: NetType,
    pub ping_interval: DurationVal,
    pub host: String,
}

impl Config {
    /// Builds the configuration from the environment-variable values, each
    /// absent one replaced by its default: the central flavour, a ping
    /// interval of fifteen seconds, and the local relay address.
    /// A ping-interval value that combines sub-second syntax with more
    /// than eleven digits in all is refused before the parser runs (see
    /// [`spec_duration_parseable`]).
    pub fn from_env(net_type: Option<&str>, ping_interval: Option<&str>, host: Option<&str>) -> (r:
        Result<Config, ConfigError>)
        ensures
            r is Ok <==> ((match net_type {
                None => true,
                Some(s) => spec_net_type_of(s@) is Some,
            }) && (match ping_interval {
                None => true,
                Some(p) => spec_duration_parseable(p@) && parsed_duration(p@) is Some,
            })),
            r matches Ok(c) ==> {
                &&& (match net_type {
                    None => c.net_type == NetType::Central,
                    Some(s) => Some(c.net_type) == spec_net_type_of(s@),
                })
                &&& (match ping_interval {
                    None => c.ping_interval == (DurationVal { secs: 15, nanos: 0 }),
                    Some(p) => parsed_duration(p@) == Some((c.ping_interval.secs,
                    c.ping_interval.nanos)),
                })
                &&& (match host {
                    None => c.host@ == "127.0.0.1:7464"@,
                    Some(h) => c.host@ == h@,
                })
            },
            r matches Err(e) ==> ((e == ConfigError::InvalidNetType && (match net_type {
                None => false,
                Some(s) => spec_net_type_of(s@) is None,
            })) || (e == ConfigError::InvalidDuration && (match ping_interval {
                None => false,
                Some(p) => !spec_duration_parseable(p@) || parsed_duration(p@) is None,
            }))),
    {
        let nt = match net_type {
            None => NetType::Central,
            Some(s) => {
                match parse_net_type(s) {
                    Ok(t) => t,
                    Err(e) => {
                        return Err(e);
                    },
                }
            },
        };
        let ping = match ping_interval {
            None => DurationVal { secs: 15, nanos: 0 },
            Some(p) => {
                if has_subsecond_syntax(p) && count_ascii_digits(p) > 11 {
                    return Err(ConfigError::InvalidDuration);
                }
                match parse_duration_str(p) {
                    Ok(d) => d,
                    Err(e) => {
                        return Err(e);
                    },
                }
            },
        };
        let host_val = match host {
            None => String::from_str("127.0.0.1:7464"),
            Some(h) => String::from_str(h),
        };
        Ok(Config { net_type: nt, ping_interval: ping, host: host_val })
    }
}

} // verus!
