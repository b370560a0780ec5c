//! Settings read from key/value pairs (the process environment in the
//! program): what is required, what defaults apply, and how a value that
//! cannot be read is refused, naming its key.

use vstd::prelude::*;
use crate::text::{chars_of, decimal, digit_char};

verus! {

/// The log filter used when `RUST_LOG` is not set.
pub const DEFAULT_LOG_FILTER: &'static str = "todo_app=debug,tower_http=info,sqlx=warn";

pub const DEFAULT_PORT: u16 = 3000;

pub const DEFAULT_MAX_CONNECTIONS: u32 = 5;

pub const DEFAULT_LOG_DIR: &'static str = "logs";

/// An IP address: the four octets of an IPv4 address, or the eight
/// segments of an IPv6 address.
#[derive(Debug, Clone, Copy, PartialEq, Eq)]
pub enum HostAddr {
    V4([u8; 4]),
    V6([u16; 8]),
}

/// The address the server listens on.
#[derive(Debug, Clone, Copy, PartialEq, Eq)]
pub struct BindAddr {
    pub host: HostAddr,
    pub port: u16,
}

/// The host used when `HOST` is not set: `127.0.0.1`.
pub open spec fn spec_default_host() -> HostAddr {
    HostAddr::V4([127u8, 0u8, 0u8, 1u8])
}

/// The host used when `HOST` is not set: `127.0.0.1`.
pub fn default_host() -> (r: HostAddr)
    ensures
        r == spec_default_host(),
{
    let octets: [u8; 4] = [127u8, 0u8, 0u8, 1u8];
    assert(octets@ =~= [127u8, 0u8, 0u8, 1u8]@);
    HostAddr::V4(octets)
}

/// Why the configuration could not be built.
#[derive(Debug)]
pub enum ConfigError {
    /// A required key is not set.
    Missing(&'static str),
    /// A key is set to a value that cannot be read.
    Invalid { key: &'static str, value: String, reason: String },
}

/// `ConfigError` as plain text values.
pub enum ConfigErrorView {
    Missing(Seq<char>),
    Invalid { key: Seq<char>, value: Seq<char>, reason: Seq<char> },
}

impl View for ConfigError {
    type V = ConfigErrorView;

    open spec fn view(&self) -> ConfigErrorView {
        match self {
            ConfigError::Missing(k) => ConfigErrorView::Missing(k@),
            ConfigError::Invalid { key, value, reason } => ConfigErrorView::Invalid {
                key: key@,
                value: value@,
                reason: reason@,
            },
        }
    }
}

/// The configuration of the service.
#[derive(Debug, Clone)]
pub struct Config {
    pub database_url: String,
    pub max_connections: u32,
    pub bind_addr: BindAddr,
    pub log_dir: String,
    pub log_filter: String,
}

/// `Config` as plain values.
pub struct ConfigView {
    pub database_url: Seq<char>,
    pub max_connections: u32,
    pub bind_addr: BindAddr,
    pub log_dir: Seq<char>,
    pub log_filter: Seq<char>,
}

impl View for Config {
    type V = ConfigView;

    open spec fn view(&self) -> ConfigView {
        ConfigView {
            database_url: self.database_url@,
            max_connections: self.max_connections,
            bind_addr: self.bind_addr,
            log_dir: self.log_dir@,
            log_filter: self.log_filter@,
        }
    }
}

// ---------------------------------------------------------------------------
// Looking a key up
// ---------------------------------------------------------------------------

/// Key/value pairs as text.
pub open spec fn pairs_view(vars: Seq<(String, String)>) -> Seq<(Seq<char>, Seq<char>)> {
    vars.map_values(|p: (String, String)| (p.0@, p.1@))
}

/// The value of the first pair whose key is `key`, if any.
pub open spec fn lookup(vars: Seq<(Seq<char>, Seq<char>)>, key: Seq<char>) -> Option<Seq<char>>
    decreases vars.len(),
{
    if vars.len() == 0 {
        None
    } else if vars[0].0 == key {
        Some(vars[0].1)
    } else {
        lookup(vars.drop_first(), key)
    }
}

proof fn lemma_lookup_skip(vars: Seq<(Seq<char>, Seq<char>)>, key: Seq<char>, i: int)
    requires
        0 <= i < vars.len(),
        vars[i].0 != key,
    ensures
        lookup(vars.skip(i), key) == lookup(vars.skip(i + 1), key),
{
    assert(vars.skip(i).drop_first() =~= vars.skip(i + 1));
}

/// The value set for `key`: that of the first pair with this key.
pub fn lookup_value(vars: &Vec<(String, String)>, key: &str) -> (r: Option<String>)
    ensures
        match r {
            Some(v) => lookup(pairs_view(vars@), key@) == Some(v@),
            None => lookup(pairs_view(vars@), key@) is None,
        },
{
    let wanted = String::from_str(key);
    let ghost pv = pairs_view(vars@);
    let mut i: usize = 0;
    assert(pv.skip(0) =~= pv);
    while i < vars.len()
        invariant
            pv == pairs_view(vars@),
            i <= vars.len(),
            wanted@ == key@,
            lookup(pv, key@) == lookup(pv.skip(i as int), key@),
        decreases vars.len() - i,
    {
        if vars[i].0 == wanted {
            return Some(vars[i].1.clone());
        }
        proof {
            lemma_lookup_skip(pv, key@, i as int);
        }
        i = i + 1;
    }
    None
}

// ---------------------------------------------------------------------------
// Reading unsigned integers
// ---------------------------------------------------------------------------

/// Whether `c` is one of `0`..`9`.
pub open spec fn is_digit(c: char) -> bool {
    48 <= c as u32 <= 57
}

/// The value of a digit character.
pub open spec fn digit_value(c: char) -> int {
    c as u32 - 48
}

/// The reason given for a value with a character that is not a digit.
pub open spec fn invalid_digit_text() -> Seq<char> {
    "invalid digit found in string"@
}

/// The reason given for a value larger than the type holds.
pub open spec fn too_large_text() -> Seq<char> {
    "number too large to fit in target type"@
}

/// The reason given for an empty value.
pub open spec fn empty_text() -> Seq<char> {
    "cannot parse integer from empty string"@
}

/// Reads `s` digit by digit after `acc`: the first character that is not a
/// digit is refused; a value above `max` is refused as soon as it is reached.
pub open spec fn digits_value(s: Seq<char>, acc: int, max: int) -> Result<int, Seq<char>>
    decreases s.len(),
{
    if s.len() == 0 {
        Ok(acc)
    } else if !is_digit(s[0]) {
        Err(invalid_digit_text())
    } else if acc * 10 + digit_value(s[0]) > max {
        Err(too_large_text())
    } else {
        digits_value(s.drop_first(), acc * 10 + digit_value(s[0]), max)
    }
}

/// An unsigned integer no larger than `max` read from `s` as Rust's
/// `from_str` reads one: an optional `+`, then decimal digits only.
pub open spec fn unsigned_parsed(s: Seq<char>, max: int) -> Result<int, Seq<char>> {
    if s.len() == 0 {
        Err(empty_text())
    } else if (s[0] == '+' || s[0] == '-') && s.len() == 1 {
        Err(invalid_digit_text())
    } else if s[0] == '+' {
        digits_value(s.drop_first(), 0, max)
    } else {
        digits_value(s, 0, max)
    }
}

proof fn lemma_digits_value_bound(s: Seq<char>, acc: int, max: int)
    requires
        0 <= acc <= max,
    ensures
        digits_value(s, acc, max) matches Ok(v) ==> 0 <= v <= max,
    decreases s.len(),
{
    if s.len() > 0 && is_digit(s[0]) && acc * 10 + digit_value(s[0]) <= max {
        lemma_digits_value_bound(s.drop_first(), acc * 10 + digit_value(s[0]), max);
    }
}

/// Reads an unsigned integer no larger than `max` from `raw`; an error
/// carries the reason text.
pub fn parse_unsigned(raw: &str, max: u64) -> (r: Result<u64, String>)
    requires
        max <= u32::MAX,
    ensures
        match r {
            Ok(v) => unsigned_parsed(raw@, max as int) == Ok::<int, Seq<char>>(v as int),
            Err(m) => unsigned_parsed(raw@, max as int) == Err::<int, Seq<char>>(m@),
        },
{
    let cs = chars_of(raw);
    let n = cs.len();
    if n == 0 {
        return Err(String::from_str("cannot parse integer from empty string"));
    }
    if (cs[0] == '+' || cs[0] == '-') && n == 1 {
        return Err(String::from_str("invalid digit found in string"));
    }
    let mut i: usize = if cs[0] == '+' {
        1
    } else {
        0
    };
    let ghost start = i as int;
    proof {
        if start == 1 {
            assert(raw@.drop_first() =~= raw@.skip(1));
        } else {
            assert(raw@ =~= raw@.skip(0));
        }
    }
    let mut acc: u64 = 0;
    while i < n
        invariant
            cs@ == raw@,
            n == cs.len(),
            start <= i <= n,
            acc <= max,
            max <= u32::MAX,
            unsigned_parsed(raw@, max as int) == digits_value(raw@.skip(i as int), acc as int, max as int),
        decreases n - i,
    {
        let c = cs[i];
        let ghost rest = raw@.skip(i as int);
        assert(rest[0] == c);
        if !(48 <= c as u32 && c as u32 <= 57) {
            return Err(String::from_str("invalid digit found in string"));
        }
        let d = (c as u32 - 48) as u64;
        let next = acc * 10 + d;
        if next > max {
            return Err(String::from_str("number too large to fit in target type"));
        }
        assert(rest.drop_first() =~= raw@.skip(i + 1));
        acc = next;
        i = i + 1;
    }
    assert(raw@.skip(n as int).len() == 0);
    Ok(acc)
}

/// Every character of `s` is one of `0`..`9`.
pub open spec fn all_digits(s: Seq<char>) -> bool {
    forall|k: int| 0 <= k < s.len() ==> is_digit(#[trigger] s[k])
}

/// The base-10 value of a string of digits, the last digit counting ones.
pub open spec fn decimal_value(s: Seq<char>) -> int
    decreases s.len(),
{
    if s.len() == 0 {
        0
    } else {
        decimal_value(s.drop_last()) * 10 + digit_value(s.last())
    }
}

proof fn lemma_digits_value_push(s: Seq<char>, d: char, acc: int, max: int)
    requires
        is_digit(d),
    ensures
        digits_value(s.push(d), acc, max) == match digits_value(s, acc, max) {
            Ok(v) => if v * 10 + digit_value(d) > max {
                Err(too_large_text())
            } else {
                Ok(v * 10 + digit_value(d))
            },
            Err(e) => Err(e),
        },
    decreases s.len(),
{
    let t = s.push(d);
    if s.len() == 0 {
        assert(t.drop_first() =~= Seq::<char>::empty());
        assert(t[0] == d);
        assert(digits_value(t.drop_first(), acc * 10 + digit_value(d), max) == Ok::<
            int,
            Seq<char>,
        >(acc * 10 + digit_value(d)));
        assert(digits_value(s, acc, max) == Ok::<int, Seq<char>>(acc));
    } else {
        assert(t[0] == s[0]);
        assert(t.drop_first() =~= s.drop_first().push(d));
        if is_digit(s[0]) && acc * 10 + digit_value(s[0]) <= max {
            lemma_digits_value_push(s.drop_first(), d, acc * 10 + digit_value(s[0]), max);
        }
    }
}

proof fn lemma_decimal_value_nonneg(s: Seq<char>)
    requires
        all_digits(s),
    ensures
        decimal_value(s) >= 0,
    decreases s.len(),
{
    if s.len() > 0 {
        assert(is_digit(s[s.len() - 1]));
        lemma_decimal_value_nonneg(s.drop_last());
    }
}

proof fn lemma_digits_read(s: Seq<char>, max: int)
    requires
        all_digits(s),
        0 <= max,
    ensures
        digits_value(s, 0, max) == if decimal_value(s) <= max {
            Ok::<int, Seq<char>>(decimal_value(s))
        } else {
            Err(too_large_text())
        },
    decreases s.len(),
{
    if s.len() > 0 {
        let p = s.drop_last();
        let d = s.last();
        assert(is_digit(s[s.len() - 1]));
        assert(all_digits(p)) by {
            assert forall|k: int| 0 <= k < p.len() implies is_digit(#[trigger] p[k]) by {
                assert(p[k] == s[k]);
            }
        }
        lemma_digits_read(p, max);
        lemma_decimal_value_nonneg(p);
        assert(p.push(d) =~= s);
        lemma_digits_value_push(p, d, 0, max);
    }
}

/// A non-empty string of decimal digits, with or without a leading `+`,
/// reads as its base-10 value when that fits in `max`, and is refused as
/// too large otherwise: every digit `0`..`9` is accepted.
pub proof fn digit_strings_read_as_their_value(s: Seq<char>, max: int)
    requires
        s.len() > 0,
        all_digits(s),
        0 <= max,
    ensures
        unsigned_parsed(s, max) == if decimal_value(s) <= max {
            Ok::<int, Seq<char>>(decimal_value(s))
        } else {
            Err(too_large_text())
        },
        unsigned_parsed(seq!['+'] + s, max) == unsigned_parsed(s, max),
{
    assert(is_digit(s[0]));
    lemma_digits_read(s, max);
    let t = seq!['+'] + s;
    assert(t[0] == '+');
    assert(t.drop_first() =~= s);
}

proof fn lemma_decimal_digits(n: nat)
    ensures
        all_digits(decimal(n)),
        decimal(n).len() > 0,
        decimal_value(decimal(n)) == n,
    decreases n,
{
    if n < 10 {
        let s = decimal(n);
        assert(s.drop_last() =~= Seq::<char>::empty());
        assert(decimal_value(s.drop_last()) == 0);
        assert(s.last() == digit_char(n));
        assert(digit_char(n) as u32 == 48 + n);
    } else {
        lemma_decimal_digits(n / 10);
        let p = decimal(n / 10);
        let s = decimal(n);
        assert(s.drop_last() =~= p);
        assert(digit_char(n % 10) as u32 == 48 + n % 10);
        assert forall|k: int| 0 <= k < s.len() implies is_digit(#[trigger] s[k]) by {
            if k < p.len() {
                assert(s[k] == p[k]);
            }
        }
        assert(s.last() == digit_char(n % 10));
        assert(decimal_value(s) == decimal_value(p) * 10 + digit_value(s.last()));
        assert(n == (n / 10) * 10 + n % 10);
    }
}

/// The decimal text of a number reads back as that number, for every value
/// of the type.
pub proof fn decimal_text_reads_back(n: u32)
    ensures
        <u32 as ConfigValue>::parsed(decimal(n as nat)) == Ok::<u32, Seq<char>>(n),
        n <= u16::MAX ==> <u16 as ConfigValue>::parsed(decimal(n as nat)) == Ok::<u16, Seq<char>>(
            n as u16,
        ),
{
    lemma_decimal_digits(n as nat);
    digit_strings_read_as_their_value(decimal(n as nat), u32::MAX as int);
    digit_strings_read_as_their_value(decimal(n as nat), u16::MAX as int);
}

/// A value that a setting can hold, and how it is read from text.
pub trait ConfigValue: Sized {
    /// What reading `raw` gives: the value, or the reason it is refused.
    spec fn parsed(raw: Seq<char>) -> Result<Self, Seq<char>>;

    /// Reads a value from `raw`.
    fn parse_value(raw: &str) -> (r: Result<Self, String>)
        ensures
            match r {
                Ok(v) => Self::parsed(raw@) == Ok::<Self, Seq<char>>(v),
                Err(m) => Self::parsed(raw@) == Err::<Self, Seq<char>>(m@),
            },
    ;
}

impl ConfigValue for u16 {
    open spec fn parsed(raw: Seq<char>) -> Result<u16, Seq<char>> {
        match unsigned_parsed(raw, u16::MAX as int) {
            Ok(v) => Ok(v as u16),
            Err(m) => Err(m),
        }
    }

    fn parse_value(raw: &str) -> (r: Result<u16, String>) {
        match parse_unsigned(raw, u16::MAX as u64) {
            Ok(v) => {
                proof {
                    let s = raw@;
                    if s[0] == '+' && s.len() > 1 {
                        lemma_digits_value_bound(s.drop_first(), 0, u16::MAX as int);
                    } else {
                        lemma_digits_value_bound(s, 0, u16::MAX as int);
                    }
                }
                Ok(v as u16)
            },
            Err(m) => Err(m),
        }
    }
}

impl ConfigValue for u32 {
    open spec fn parsed(raw: Seq<char>) -> Result<u32, Seq<char>> {
        match unsigned_parsed(raw, u32::MAX as int) {
            Ok(v) => Ok(v as u32),
            Err(m) => Err(m),
        }
    }

    fn parse_value(raw: &str) -> (r: Result<u32, String>) {
        match parse_unsigned(raw, u32::MAX as u64) {
            Ok(v) => {
                proof {
                    let s = raw@;
                    if s[0] == '+' && s.len() > 1 {
                        lemma_digits_value_bound(s.drop_first(), 0, u32::MAX as int);
                    } else {
                        lemma_digits_value_bound(s, 0, u32::MAX as int);
                    }
                }
                Ok(v as u32)
            },
            Err(m) => Err(m),
        }
    }
}


// ---------------------------------------------------------------------------
// Settings
// ---------------------------------------------------------------------------

/// An optional text as plain characters.
pub open spec fn text_opt(v: Option<String>) -> Option<Seq<char>> {
    match v {
        Some(s) => Some(s@),
        None => None,
    }
}

/// The error of a result, as plain text values.
pub open spec fn with_error_view<T>(r: Result<T, ConfigError>) -> Result<T, ConfigErrorView> {
    match r {
        Ok(v) => Ok(v),
        Err(e) => Err(e@),
    }
}

/// A setting of `key` whose value is `raw`: `default` when it is not set,
/// the value read from it, or an error naming the key, the value and the
/// reason.
pub open spec fn setting<T: ConfigValue>(key: Seq<char>, raw: Option<Seq<char>>, default: T) -> Result<
    T,
    ConfigErrorView,
> {
    match raw {
        None => Ok(default),
        Some(s) => match T::parsed(s) {
            Ok(v) => Ok(v),
            Err(why) => Err(ConfigErrorView::Invalid { key, value: s, reason: why }),
        },
    }
}

/// Not set, `default`; set, the value read from it; unreadable, an error
/// that names `key`, the value and the reason.
pub fn parse_or<T: ConfigValue>(key: &'static str, value: Option<String>, default: T) -> (r: Result<
    T,
    ConfigError,
>)
    ensures
        with_error_view(r) == setting(key@, text_opt(value), default),
{
    match value {
        None => Ok(default),
        Some(raw) => match T::parse_value(raw.as_str()) {
            Ok(parsed) => Ok(parsed),
            Err(reason) => Err(ConfigError::Invalid { key, value: raw, reason }),
        },
    }
}

/// The host setting: the default when `HOST` is not set (`raw` is `None`),
/// else what reading its value gave (`host`). `from_source` is only called
/// with `host` present exactly when `HOST` is set, so the last arm is not
/// reached from there.
pub open spec fn host_setting(raw: Option<Seq<char>>, host: Option<Result<HostAddr, Seq<char>>>) -> Result<
    HostAddr,
    ConfigErrorView,
> {
    match raw {
        None => Ok(spec_default_host()),
        Some(s) => match host {
            Some(Ok(h)) => Ok(h),
            Some(Err(why)) => Err(ConfigErrorView::Invalid { key: "HOST"@, value: s, reason: why }),
            None => Ok(spec_default_host()),
        },
    }
}

/// `raw`, or `default` when it is not set.
pub open spec fn or_default(raw: Option<Seq<char>>, default: Seq<char>) -> Seq<char> {
    match raw {
        Some(s) => s,
        None => default,
    }
}

/// The configuration that the pairs `vars` give, where `host` is what
/// reading the value of `HOST` gave: `DATABASE_URL` is required, then
/// `HOST`, `PORT` and `DATABASE_MAX_CONNECTIONS` are read in this order, the
/// first that cannot be read being reported; `LOG_DIR` and `RUST_LOG` are
/// taken as they are. Every key that is not set has its default.
pub open spec fn configured(
    vars: Seq<(Seq<char>, Seq<char>)>,
    host: Option<Result<HostAddr, Seq<char>>>,
) -> Result<ConfigView, ConfigErrorView> {
    match lookup(vars, "DATABASE_URL"@) {
        None => Err(ConfigErrorView::Missing("DATABASE_URL"@)),
        Some(url) => match host_setting(lookup(vars, "HOST"@), host) {
            Err(e) => Err(e),
            Ok(h) => match setting::<u16>("PORT"@, lookup(vars, "PORT"@), DEFAULT_PORT) {
                Err(e) => Err(e),
                Ok(p) => match setting::<u32>(
                    "DATABASE_MAX_CONNECTIONS"@,
                    lookup(vars, "DATABASE_MAX_CONNECTIONS"@),
                    DEFAULT_MAX_CONNECTIONS,
                ) {
                    Err(e) => Err(e),
                    Ok(m) => Ok(
                        ConfigView {
                            database_url: url,
                            max_connections: m,
                            bind_addr: BindAddr { host: h, port: p },
                            log_dir: or_default(lookup(vars, "LOG_DIR"@), DEFAULT_LOG_DIR@),
                            log_filter: or_default(lookup(vars, "RUST_LOG"@), DEFAULT_LOG_FILTER@),
                        },
                    ),
                },
            },
        },
    }
}

/// A built configuration takes each field from its own key alone: the URL
/// from `DATABASE_URL`; the port from `PORT` and the pool size from
/// `DATABASE_MAX_CONNECTIONS` (what reading them gave, their defaults only
/// when they are not set); the host from what reading `HOST` gave (the
/// default only when it is not set); the log directory and filter from
/// `LOG_DIR` and `RUST_LOG` as they are.
pub proof fn configured_fields_come_from_their_keys(
    vars: Seq<(Seq<char>, Seq<char>)>,
    host: Option<Result<HostAddr, Seq<char>>>,
)
    ensures
        configured(vars, host) matches Ok(c) ==> {
            &&& lookup(vars, "DATABASE_URL"@) == Some(c.database_url)
            &&& match lookup(vars, "PORT"@) {
                None => c.bind_addr.port == DEFAULT_PORT,
                Some(s) => <u16 as ConfigValue>::parsed(s) == Ok::<u16, Seq<char>>(
                    c.bind_addr.port,
                ),
            }
            &&& match lookup(vars, "DATABASE_MAX_CONNECTIONS"@) {
                None => c.max_connections == DEFAULT_MAX_CONNECTIONS,
                Some(s) => <u32 as ConfigValue>::parsed(s) == Ok::<u32, Seq<char>>(
                    c.max_connections,
                ),
            }
            &&& match lookup(vars, "HOST"@) {
                None => c.bind_addr.host == spec_default_host(),
                Some(_) => host is Some ==> host == Some(Ok::<HostAddr, Seq<char>>(c.bind_addr.host)),
            }
            &&& match lookup(vars, "LOG_DIR"@) {
                None => c.log_dir == DEFAULT_LOG_DIR@,
                Some(d) => c.log_dir == d,
            }
            &&& match lookup(vars, "RUST_LOG"@) {
                None => c.log_filter == DEFAULT_LOG_FILTER@,
                Some(f) => c.log_filter == f,
            }
        },
{
}

/// The configuration is built whenever `DATABASE_URL` is set and every
/// other value that is set can be read.
pub proof fn configured_succeeds_when_every_value_reads(
    vars: Seq<(Seq<char>, Seq<char>)>,
    host: Option<Result<HostAddr, Seq<char>>>,
)
    requires
        lookup(vars, "DATABASE_URL"@) is Some,
        lookup(vars, "HOST"@) is Some ==> host matches Some(Ok(_)),
        lookup(vars, "PORT"@) matches Some(s) ==> <u16 as ConfigValue>::parsed(s) is Ok,
        lookup(vars, "DATABASE_MAX_CONNECTIONS"@) matches Some(s)
            ==> <u32 as ConfigValue>::parsed(s) is Ok,
    ensures
        configured(vars, host) is Ok,
{
}

/// A configuration is refused only for a missing `DATABASE_URL`, or for a
/// value of `HOST`, `PORT` or `DATABASE_MAX_CONNECTIONS` that is set and
/// cannot be read; the error names that key and carries its value.
pub proof fn configuration_errors_name_the_key(
    vars: Seq<(Seq<char>, Seq<char>)>,
    host: Option<Result<HostAddr, Seq<char>>>,
)
    ensures
        configured(vars, host) matches Err(ConfigErrorView::Missing(k)) ==> k == "DATABASE_URL"@
            && lookup(vars, "DATABASE_URL"@) is None,
        configured(vars, host) matches Err(ConfigErrorView::Invalid { key, value, reason }) ==> {
            &&& lookup(vars, key) == Some(value)
            &&& (key == "HOST"@ && host == Some(Err::<HostAddr, Seq<char>>(reason)))
                || (key == "PORT"@ && <u16 as ConfigValue>::parsed(value) == Err::<u16, Seq<char>>(
                reason,
            )) || (key == "DATABASE_MAX_CONNECTIONS"@ && <u32 as ConfigValue>::parsed(value)
                == Err::<u32, Seq<char>>(reason))
        },
{
}

/// A parsed host as plain values.
pub open spec fn host_view(host: Option<Result<HostAddr, String>>) -> Option<Result<HostAddr, Seq<char>>> {
    match host {
        Some(Ok(h)) => Some(Ok(h)),
        Some(Err(why)) => Some(Err(why@)),
        None => None,
    }
}

/// A configuration result as plain values.
pub open spec fn config_view(r: Result<Config, ConfigError>) -> Result<ConfigView, ConfigErrorView> {
    match r {
        Ok(c) => Ok(c@),
        Err(e) => Err(e@),
    }
}

impl Config {
    /// Builds the configuration from key/value pairs (the first pair of a
    /// key counts). `host` is what reading the value of `HOST` as an IP
    /// address gave, present exactly when `HOST` is set.
    pub fn from_source(vars: &Vec<(String, String)>, host: Option<Result<HostAddr, String>>) -> (r: Result<
        Config,
        ConfigError,
    >)
        requires
            host is Some <==> lookup(pairs_view(vars@), "HOST"@) is Some,
        ensures
            config_view(r) == configured(pairs_view(vars@), host_view(host)),
    {
        let database_url = match lookup_value(vars, "DATABASE_URL") {
            Some(url) => url,
            None => return Err(ConfigError::Missing("DATABASE_URL")),
        };
        let host_addr = match lookup_value(vars, "HOST") {
            None => default_host(),
            Some(raw) => match host {
                Some(Ok(h)) => h,
                Some(Err(reason)) => return Err(ConfigError::Invalid { key: "HOST", value: raw, reason }),
                None => default_host(),
            },
        };
        let port = match parse_or("PORT", lookup_value(vars, "PORT"), DEFAULT_PORT) {
            Ok(p) => p,
            Err(e) => return Err(e),
        };
        let max_connections = match parse_or(
            "DATABASE_MAX_CONNECTIONS",
            lookup_value(vars, "DATABASE_MAX_CONNECTIONS"),
            DEFAULT_MAX_CONNECTIONS,
        ) {
            Ok(m) => m,
            Err(e) => return Err(e),
        };
        let log_dir = match lookup_value(vars, "LOG_DIR") {
            Some(d) => d,
            None => String::from_str(DEFAULT_LOG_DIR),
        };
        let log_filter = match lookup_value(vars, "RUST_LOG") {
            Some(f) => f,
            None => String::from_str(DEFAULT_LOG_FILTER),
        };
        Ok(
            Config {
                database_url,
                max_connections,
                bind_addr: BindAddr { host: host_addr, port },
                log_dir,
                log_filter,
            },
        )
    }
}

// ---------------------------------------------------------------------------
// Error text
// ---------------------------------------------------------------------------

/// What `format!("{:?}", s)` writes for a string `s`: the string in double
/// quotes, with escapes.
pub uninterp spec fn debug_text(s: Seq<char>) -> Seq<char>;

/// `<str as Debug>::fmt`, called through `format!("{:?}", s)`. The contract
/// only names the result as a function of the characters of `s`; which
/// escapes it writes is left unsaid.
#[verifier::external_body]
fn debug_quoted(s: &str) -> (r: String)
    ensures
        r@ == debug_text(s@),
{
    format!("{:?}", s)
}

/// The text of a configuration error: `{key} is not set`, or
/// `{key} is invalid: {value:?} ({reason})`.
pub open spec fn error_text(e: ConfigErrorView) -> Seq<char> {
    match e {
        ConfigErrorView::Missing(k) => k + " is not set"@,
        ConfigErrorView::Invalid { key, value, reason } => key + " is invalid: "@ + debug_text(value)
            + " ("@ + reason + ")"@,
    }
}

impl ConfigError {
    /// The text of this error, as the program prints it.
    pub fn to_string(&self) -> (r: String)
        ensures
            r@ == error_text(self@),
    {
        match self {
            ConfigError::Missing(k) => {
                let mut out = String::from_str(*k);
                out.append(" is not set");
                out
            },
            ConfigError::Invalid { key, value, reason } => {
                let mut out = String::from_str(*key);
                out.append(" is invalid: ");
                let quoted = debug_quoted(value.as_str());
                out.append(quoted.as_str());
                out.append(" (");
                out.append(reason.as_str());
                out.append(")");
                out
            },
        }
    }
}

} // verus!
