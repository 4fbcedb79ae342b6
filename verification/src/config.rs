//! Proxy configuration: defaults, construction from environment settings, and
//! validation.
use vstd::prelude::*;
use crate::parse::{
    all_ascii_digits, comma_free, decimal_value, is_ascii_digit, is_clean_entry, join_commas, law_server_list_round_trip, parse_server_list,
    parse_u64, parse_unsigned, parse_usize, server_list, unsigned_digits,
};
use crate::text::{has_prefix, has_prefix_chars, string_views};

verus! {

broadcast use vstd::string::group_string_axioms;

/// A socket address: an IP address and a port.
#[derive(Debug, Clone, Copy, PartialEq, Eq)]
pub enum SocketAddress {
    V4 { ip: [u8; 4], port: u16 },
    V6 { ip: [u16; 8], port: u16, flowinfo: u32, scope_id: u32 },
}

/// The address the proxy listens on when none is configured: `0.0.0.0:8081`.
pub open spec fn default_proxy_address() -> SocketAddress {
    SocketAddress::V4 { ip: [0u8, 0u8, 0u8, 0u8], port: 8081 }
}

/// The address of the user interface when none is configured: `0.0.0.0:9000`.
pub open spec fn default_ui_address() -> SocketAddress {
    SocketAddress::V4 { ip: [0u8, 0u8, 0u8, 0u8], port: 9000 }
}

/// Timeout, in seconds, of the requests to either group of servers when none is configured.
pub const DEFAULT_TIMEOUT_SECS: u64 = 15;

/// Number of requests handled at once when none is configured.
pub const DEFAULT_MAX_CONCURRENT: usize = 1000;

/// Returns the default proxy address, `0.0.0.0:8081`.
pub fn default_proxy_addr() -> (a: SocketAddress)
    ensures
        a == default_proxy_address(),
{
    SocketAddress::V4 { ip: [0u8, 0u8, 0u8, 0u8], port: 8081 }
}

/// Returns the default user-interface address, `0.0.0.0:9000`.
pub fn default_ui_addr() -> (a: SocketAddress)
    ensures
        a == default_ui_address(),
{
    SocketAddress::V4 { ip: [0u8, 0u8, 0u8, 0u8], port: 9000 }
}

/// Returns the default timeout in seconds.
pub fn default_timeout() -> (t: u64)
    ensures
        t == DEFAULT_TIMEOUT_SECS,
{
    DEFAULT_TIMEOUT_SECS
}

/// Returns the default bound on concurrent requests.
pub fn default_max_concurrent() -> (n: usize)
    ensures
        n == DEFAULT_MAX_CONCURRENT,
{
    DEFAULT_MAX_CONCURRENT
}

/// Settings of the proxy itself.
#[derive(Debug, Clone)]
pub struct ProxyConfig {
    pub address: SocketAddress,
    pub old_servers: Vec<String>,
    pub new_servers: Vec<String>,
    pub old_servers_timeout_secs: u64,
    pub new_servers_timeout_secs: u64,
    pub old_servers_additional_headers: Vec<(String, String)>,
    pub new_servers_additional_headers: Vec<(String, String)>,
    pub max_concurrent_requests: usize,
}

/// Settings of the user interface.
#[derive(Debug, Clone)]
pub struct UiConfig {
    pub address: SocketAddress,
}

/// The whole configuration.
#[derive(Debug, Clone)]
pub struct Config {
    pub proxy: ProxyConfig,
    pub ui: UiConfig,
}

/// The environment settings the configuration is built from, each as read from
/// the environment (`None` where the variable is unset or not Unicode).
/// Addresses arrive already parsed.
#[derive(Debug, Clone)]
pub struct EnvSettings {
    pub proxy_address: Option<SocketAddress>,
    pub ui_address: Option<SocketAddress>,
    pub old_servers: Option<String>,
    pub new_servers: Option<String>,
    pub old_timeout: Option<String>,
    pub new_timeout: Option<String>,
    pub max_concurrent: Option<String>,
}

/// The old servers when none are configured.
pub open spec fn default_old_servers_text() -> Seq<char> {
    "http://localhost:8080"@
}

/// The new servers when none are configured.
pub open spec fn default_new_servers_text() -> Seq<char> {
    "http://localhost:8082"@
}

/// A text setting, or `default` where it is unset.
pub open spec fn text_or(setting: Option<String>, default: Seq<char>) -> Seq<char> {
    match setting {
        Some(s) => s@,
        None => default,
    }
}

/// A timeout setting: its value where it parses as a `u64`, else the default.
pub open spec fn timeout_from(setting: Option<String>) -> u64 {
    match setting {
        Some(s) => match parse_unsigned(s@, u64::MAX as nat) {
            Some(n) => n as u64,
            None => DEFAULT_TIMEOUT_SECS,
        },
        None => DEFAULT_TIMEOUT_SECS,
    }
}

/// The concurrency setting: its value where it parses as a `usize`, else the default.
pub open spec fn max_concurrent_from(setting: Option<String>) -> usize {
    match setting {
        Some(s) => match parse_unsigned(s@, usize::MAX as nat) {
            Some(n) => n as usize,
            None => DEFAULT_MAX_CONCURRENT,
        },
        None => DEFAULT_MAX_CONCURRENT,
    }
}

/// An address setting, or `default` where it is unset.
pub open spec fn address_or(setting: Option<SocketAddress>, default: SocketAddress) -> SocketAddress {
    match setting {
        Some(a) => a,
        None => default,
    }
}

fn text_setting(setting: &Option<String>, default: &str) -> (r: Vec<String>)
    ensures
        string_views(r@) == server_list(text_or(*setting, default@)),
{
    match setting {
        Some(s) => parse_server_list(s.as_str()),
        None => parse_server_list(default),
    }
}

fn timeout_setting(setting: &Option<String>) -> (r: u64)
    ensures
        r == timeout_from(*setting),
{
    match setting {
        Some(s) => match parse_u64(s.as_str()) {
            Some(n) => n,
            None => default_timeout(),
        },
        None => default_timeout(),
    }
}

impl Config {
    /// Builds the configuration from environment settings: unset addresses take
    /// their defaults, server lists are split at commas, trimmed and stripped of
    /// empty entries, and numbers that are unset or do not parse take their defaults.
    pub fn from_env(env: &EnvSettings) -> (c: Config)
        ensures
            c.proxy.address == address_or(env.proxy_address, default_proxy_address()),
            c.ui.address == address_or(env.ui_address, default_ui_address()),
            string_views(c.proxy.old_servers@) == server_list(
                text_or(env.old_servers, default_old_servers_text()),
            ),
            string_views(c.proxy.new_servers@) == server_list(
                text_or(env.new_servers, default_new_servers_text()),
            ),
            c.proxy.old_servers_timeout_secs == timeout_from(env.old_timeout),
            c.proxy.new_servers_timeout_secs == timeout_from(env.new_timeout),
            c.proxy.old_servers_additional_headers@.len() == 0,
            c.proxy.new_servers_additional_headers@.len() == 0,
            c.proxy.max_concurrent_requests == max_concurrent_from(env.max_concurrent),
    {
        let proxy_address = match env.proxy_address {
            Some(a) => a,
            None => default_proxy_addr(),
        };
        let ui_address = match env.ui_address {
            Some(a) => a,
            None => default_ui_addr(),
        };
        let old_servers = text_setting(&env.old_servers, "http://localhost:8080");
        let new_servers = text_setting(&env.new_servers, "http://localhost:8082");
        let old_timeout = timeout_setting(&env.old_timeout);
        let new_timeout = timeout_setting(&env.new_timeout);
        let max_concurrent = match &env.max_concurrent {
            Some(s) => match parse_usize(s.as_str()) {
                Some(n) => n,
                None => default_max_concurrent(),
            },
            None => default_max_concurrent(),
        };
        Config {
            proxy: ProxyConfig {
                address: proxy_address,
                old_servers,
                new_servers,
                old_servers_timeout_secs: old_timeout,
                new_servers_timeout_secs: new_timeout,
                old_servers_additional_headers: Vec::new(),
                new_servers_additional_headers: Vec::new(),
                max_concurrent_requests: max_concurrent,
            },
            ui: UiConfig { address: ui_address },
        }
    }
}

/// Why a configuration was refused.
#[derive(Debug, Clone)]
pub enum ConfigError {
    NoOldServers,
    NoNewServers,
    InvalidOldServerUrl(String),
    InvalidNewServerUrl(String),
    /// The bound on requests handled at once is 0, so no request could ever be handled.
    NoConcurrency,
}

/// Whether `s` begins with `http://` or `https://`.
pub open spec fn is_http_url(s: Seq<char>) -> bool {
    ||| has_prefix_chars(s, seq!['h', 't', 't', 'p', ':', '/', '/'])
    ||| has_prefix_chars(s, seq!['h', 't', 't', 'p', 's', ':', '/', '/'])
}

/// The first entry of `list` that is not an HTTP(S) URL, if any.
pub open spec fn first_non_http(list: Seq<Seq<char>>) -> Option<Seq<char>>
    decreases list.len(),
{
    if list.len() == 0 {
        None
    } else if !is_http_url(list[0]) {
        Some(list[0])
    } else {
        first_non_http(list.drop_first())
    }
}

/// Whether a pair of server lists is acceptable: both non-empty, every entry an
/// HTTP(S) URL.
pub open spec fn servers_valid(old: Seq<Seq<char>>, new: Seq<Seq<char>>) -> bool {
    &&& old.len() > 0
    &&& new.len() > 0
    &&& first_non_http(old) is None
    &&& first_non_http(new) is None
}

proof fn lemma_first_non_http_skip(list: Seq<Seq<char>>, i: int)
    requires
        0 <= i <= list.len(),
        forall|j: int| 0 <= j < i ==> is_http_url(#[trigger] list[j]),
    ensures
        first_non_http(list) == first_non_http(list.subrange(i, list.len() as int)),
    decreases i,
{
    if i > 0 {
        assert(is_http_url(list[0]));
        let rest = list.drop_first();
        assert forall|j: int| 0 <= j < i - 1 implies is_http_url(#[trigger] rest[j]) by {
            assert(rest[j] == list[j + 1]);
        }
        lemma_first_non_http_skip(rest, i - 1);
        assert(rest.subrange(i - 1, rest.len() as int) =~= list.subrange(i, list.len() as int));
    } else {
        assert(list.subrange(0, list.len() as int) =~= list);
    }
}

/// Whether `server` is an HTTP(S) URL.
pub fn is_http_server(server: &str) -> (r: bool)
    ensures
        r == is_http_url(server@),
{
    proof {
        reveal_strlit("http://");
        reveal_strlit("https://");
        assert("http://"@ =~= seq!['h', 't', 't', 'p', ':', '/', '/']);
        assert("https://"@ =~= seq!['h', 't', 't', 'p', 's', ':', '/', '/']);
    }
    has_prefix(server, "http://") || has_prefix(server, "https://")
}

/// The first server of `servers` that is not an HTTP(S) URL, if any.
fn find_non_http(servers: &Vec<String>) -> (r: Option<String>)
    ensures
        match first_non_http(string_views(servers@)) {
            Some(u) => r matches Some(s) && s@ == u,
            None => r is None,
        },
{
    let ghost list = string_views(servers@);
    let mut i: usize = 0;
    while i < servers.len()
        invariant
            i <= servers@.len() == list.len(),
            list == string_views(servers@),
            forall|j: int| 0 <= j < i ==> is_http_url(#[trigger] list[j]),
        decreases servers.len() - i,
    {
        assert(list[i as int] == servers@[i as int]@);
        if !is_http_server(servers[i].as_str()) {
            proof {
                lemma_first_non_http_skip(list, i as int);
                assert(list.subrange(i as int, list.len() as int)[0] == list[i as int]);
            }
            return Some(servers[i].clone());
        }
        i = i + 1;
    }
    proof {
        lemma_first_non_http_skip(list, i as int);
        assert(list.subrange(i as int, list.len() as int).len() == 0);
    }
    None
}

impl Config {
    /// Accepts the configuration when both server lists are non-empty, every
    /// server begins with `http://` or `https://`, and at least one request may
    /// be handled at once. Otherwise reports, in this order of precedence, an
    /// empty old list, an empty new list, the first offending old server, the
    /// first offending new server, a bound of 0 on concurrent requests.
    pub fn validate(&self) -> (r: Result<(), ConfigError>)
        ensures
            ({
                let old = string_views(self.proxy.old_servers@);
                let new = string_views(self.proxy.new_servers@);
                &&& r is Ok <==> servers_valid(old, new) && self.proxy.max_concurrent_requests > 0
                &&& old.len() == 0 ==> r == Err::<(), ConfigError>(ConfigError::NoOldServers)
                &&& old.len() > 0 && new.len() == 0 ==> r == Err::<(), ConfigError>(ConfigError::NoNewServers)
                &&& old.len() > 0 && new.len() > 0 ==> match first_non_http(old) {
                    Some(u) => r matches Err(ConfigError::InvalidOldServerUrl(s)) && s@ == u,
                    None => match first_non_http(new) {
                        Some(u) => r matches Err(ConfigError::InvalidNewServerUrl(s)) && s@ == u,
                        None => if self.proxy.max_concurrent_requests == 0 {
                            r == Err::<(), ConfigError>(ConfigError::NoConcurrency)
                        } else {
                            r is Ok
                        },
                    },
                }
            }),
    {
        if self.proxy.old_servers.len() == 0 {
            return Err(ConfigError::NoOldServers);
        }
        if self.proxy.new_servers.len() == 0 {
            return Err(ConfigError::NoNewServers);
        }
        match find_non_http(&self.proxy.old_servers) {
            Some(s) => {
                return Err(ConfigError::InvalidOldServerUrl(s));
            },
            None => {},
        }
        match find_non_http(&self.proxy.new_servers) {
            Some(s) => Err(ConfigError::InvalidNewServerUrl(s)),
            None => if self.proxy.max_concurrent_requests == 0 {
                Err(ConfigError::NoConcurrency)
            } else {
                Ok(())
            },
        }
    }
}

impl ConfigError {
    /// The message that describes the error.
    pub fn message(&self) -> (m: String)
        ensures
            match self {
                ConfigError::NoOldServers => m@ == "At least one old server must be specified"@,
                ConfigError::NoNewServers => m@ == "At least one new server must be specified"@,
                ConfigError::InvalidOldServerUrl(u) => m@
                    == "Old server URL must start with http:// or https://: "@ + u@,
                ConfigError::InvalidNewServerUrl(u) => m@
                    == "New server URL must start with http:// or https://: "@ + u@,
                ConfigError::NoConcurrency => m@ == "Max concurrent requests must be at least 1"@,
            },
    {
        match self {
            ConfigError::NoOldServers => String::from_str("At least one old server must be specified"),
            ConfigError::NoNewServers => String::from_str("At least one new server must be specified"),
            ConfigError::InvalidOldServerUrl(u) => String::from_str(
                "Old server URL must start with http:// or https://: ",
            ).concat(u.as_str()),
            ConfigError::InvalidNewServerUrl(u) => String::from_str(
                "New server URL must start with http:// or https://: ",
            ).concat(u.as_str()),
            ConfigError::NoConcurrency => String::from_str("Max concurrent requests must be at least 1"),
        }
    }
}

impl ProxyConfig {
    /// The timeout of the shared HTTP client: the larger of the two groups' timeouts.
    pub fn client_timeout_secs(&self) -> (t: u64)
        ensures
            t == if self.old_servers_timeout_secs >= self.new_servers_timeout_secs {
                self.old_servers_timeout_secs
            } else {
                self.new_servers_timeout_secs
            },
    {
        if self.old_servers_timeout_secs >= self.new_servers_timeout_secs {
            self.old_servers_timeout_secs
        } else {
            self.new_servers_timeout_secs
        }
    }
}

/// With nothing set in the environment, the configuration is valid: the default
/// server lists each hold one HTTP URL, and the default bound on concurrent
/// requests is positive.
pub proof fn law_default_configuration_is_valid()
    ensures
        server_list(text_or(None, default_old_servers_text())) == seq![default_old_servers_text()],
        server_list(text_or(None, default_new_servers_text())) == seq![default_new_servers_text()],
        servers_valid(
            server_list(text_or(None, default_old_servers_text())),
            server_list(text_or(None, default_new_servers_text())),
        ),
        max_concurrent_from(None) > 0,
{
    reveal_strlit("http://localhost:8080");
    reveal_strlit("http://localhost:8082");
    let o = default_old_servers_text();
    let n = default_new_servers_text();
    assert(is_clean_entry(o)) by {
        assert(comma_free(o));
    }
    assert(is_clean_entry(n)) by {
        assert(comma_free(n));
    }
    law_server_list_round_trip(seq![o]);
    law_server_list_round_trip(seq![n]);
    assert(join_commas(seq![o]) == o);
    assert(join_commas(seq![n]) == n);
    assert(o.subrange(0, 7) =~= seq!['h', 't', 't', 'p', ':', '/', '/']);
    assert(n.subrange(0, 7) =~= seq!['h', 't', 't', 'p', ':', '/', '/']);
    assert(is_http_url(o));
    assert(is_http_url(n));
    assert(first_non_http(Seq::<Seq<char>>::empty()) is None);
    assert(seq![o].drop_first() =~= Seq::<Seq<char>>::empty());
    assert(seq![n].drop_first() =~= Seq::<Seq<char>>::empty());
    assert(first_non_http(seq![o]) is None);
    assert(first_non_http(seq![n]) is None);
}

/// A numeric setting is taken at its value, however large: a setting that is a
/// decimal number (optionally after one `+`) within the type's range gives that
/// number; only a setting that is unset or does not parse gives the default
/// (1000 requests at once, a 15-second timeout).
pub proof fn law_numeric_settings_taken_at_value(s: String)
    ensures
        s@.len() > 0 && all_ascii_digits(s@) && decimal_value(s@) <= usize::MAX
            ==> max_concurrent_from(Some(s)) == decimal_value(s@),
        s@.len() > 0 && all_ascii_digits(s@) && decimal_value(s@) <= u64::MAX
            ==> timeout_from(Some(s)) == decimal_value(s@),
        parse_unsigned(s@, usize::MAX as nat) matches Some(n) ==> max_concurrent_from(Some(s)) == n,
        parse_unsigned(s@, u64::MAX as nat) matches Some(n) ==> timeout_from(Some(s)) == n,
        parse_unsigned(s@, usize::MAX as nat) is None ==> max_concurrent_from(Some(s)) == 1000,
        parse_unsigned(s@, u64::MAX as nat) is None ==> timeout_from(Some(s)) == 15,
        max_concurrent_from(None) == 1000,
        timeout_from(None) == 15,
{
    if s@.len() > 0 && all_ascii_digits(s@) {
        assert(is_ascii_digit(s@[0]));
        assert(unsigned_digits(s@) == s@);
    }
}

/// A server address is accepted exactly when it begins with `http://` or
/// `https://`, whatever follows: a trailing slash, a path or nothing at all.
pub proof fn law_http_prefix_decides(s: Seq<char>, rest: Seq<char>)
    ensures
        is_http_url(seq!['h', 't', 't', 'p', ':', '/', '/'] + rest),
        is_http_url(seq!['h', 't', 't', 'p', 's', ':', '/', '/'] + rest),
        is_http_url(s) ==> is_http_url(s + rest),
        is_http_url(s) <==> (s.len() >= 7 && s.take(7) == seq!['h', 't', 't', 'p', ':', '/', '/'])
            || (s.len() >= 8 && s.take(8) == seq!['h', 't', 't', 'p', 's', ':', '/', '/']),
{
    let http = seq!['h', 't', 't', 'p', ':', '/', '/'];
    let https = seq!['h', 't', 't', 'p', 's', ':', '/', '/'];
    assert((http + rest).subrange(0, 7) =~= http);
    assert((https + rest).subrange(0, 8) =~= https);
    if is_http_url(s) {
        if has_prefix_chars(s, http) {
            assert((s + rest).subrange(0, 7) =~= s.subrange(0, 7));
        } else {
            assert((s + rest).subrange(0, 8) =~= s.subrange(0, 8));
        }
    }
    if s.len() >= 7 {
        assert(s.take(7) =~= s.subrange(0, 7));
    }
    if s.len() >= 8 {
        assert(s.take(8) =~= s.subrange(0, 8));
    }
}

proof fn lemma_first_non_http_none(list: Seq<Seq<char>>)
    ensures
        first_non_http(list) is None <==> forall|i: int| 0 <= i < list.len() ==> is_http_url(#[trigger] list[i]),
        first_non_http(list) is Some ==> exists|i: int|
            0 <= i < list.len() && #[trigger] list[i] == first_non_http(list)->0 && !is_http_url(list[i]),
    decreases list.len(),
{
    if list.len() > 0 {
        let rest = list.drop_first();
        lemma_first_non_http_none(rest);
        assert forall|i: int| 0 < i < list.len() implies list[i] == #[trigger] rest[i - 1] by {}
        if first_non_http(list) is None {
            assert forall|i: int| 0 <= i < list.len() implies is_http_url(#[trigger] list[i]) by {
                if i > 0 {
                    assert(list[i] == rest[i - 1]);
                }
            }
        }
        if first_non_http(list) is Some {
            if is_http_url(list[0]) {
                let j = choose|j: int|
                    0 <= j < rest.len() && #[trigger] rest[j] == first_non_http(rest)->0 && !is_http_url(rest[j]);
                assert(list[j + 1] == rest[j]);
            }
        }
    }
}

/// A pair of server lists is accepted exactly when both are non-empty and every
/// entry of each is an HTTP(S) URL; when one is refused, the entry it names is
/// one of its entries and is not such a URL.
pub proof fn law_servers_valid_exactly(old: Seq<Seq<char>>, new: Seq<Seq<char>>)
    ensures
        servers_valid(old, new) <==> {
            &&& old.len() > 0
            &&& new.len() > 0
            &&& forall|i: int| 0 <= i < old.len() ==> is_http_url(#[trigger] old[i])
            &&& forall|i: int| 0 <= i < new.len() ==> is_http_url(#[trigger] new[i])
        },
        first_non_http(old) is Some ==> exists|i: int|
            0 <= i < old.len() && #[trigger] old[i] == first_non_http(old)->0 && !is_http_url(old[i]),
        first_non_http(new) is Some ==> exists|i: int|
            0 <= i < new.len() && #[trigger] new[i] == first_non_http(new)->0 && !is_http_url(new[i]),
{
    lemma_first_non_http_none(old);
    lemma_first_non_http_none(new);
}

} // verus!
