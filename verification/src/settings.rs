//! What the gateway runs with: the environment, the configuration file, and
//! which of them decides.
use vstd::prelude::*;
use vstd::string::StringExecFns;

use crate::config::{
    is_valid, single_server_view, ConfigError, FileOutcome, GatewayConfig, GatewayView,
    ServerConfig, ServerView,
};
use crate::text::{
    decimal, decimal_text, digits_value, law_decimal_is_read_back, law_digits_are_a_number,
    law_other_texts_are_no_number, opt_text, parse_unsigned, same_text, unsigned_number,
};

verus! {

/// The environment variables that the gateway reads, each as it is set.
#[derive(Debug)]
pub struct Environment {
    /// `PORT`
    pub port: Option<String>,
    /// `RANCHER_TLS_VERIFY`
    pub rancher_tls_verify: Option<String>,
    /// `RANCHER_TIMEOUT_SECS`
    pub rancher_timeout_secs: Option<String>,
    /// `UPSTREAM_TIMEOUT_SECS`
    pub upstream_timeout_secs: Option<String>,
    /// `AUTH_CACHE_TTL_SECS`
    pub auth_cache_ttl_secs: Option<String>,
    /// `ROLE_CONFIG_FILE`
    pub role_config_file: Option<String>,
    /// `UPSTREAM_MCP_URL`
    pub upstream_mcp_url: Option<String>,
    /// `REQUIRED_ROLE`
    pub required_role: Option<String>,
}

/// The number that a variable is set to, or `default` where it is not set to a
/// number of at most `max`.
pub open spec fn number_or(value: Option<Seq<char>>, max: nat, default: nat) -> nat {
    match value {
        Some(text) => match unsigned_number(text, max) {
            Some(n) => n,
            None => default,
        },
        None => default,
    }
}

/// The text that a variable is set to, or `default` where it is not set.
pub open spec fn text_or(value: Option<Seq<char>>, default: Seq<char>) -> Seq<char> {
    match value {
        Some(text) => text,
        None => default,
    }
}

/// A variable leaves something switched on unless it is set to `false` or `0`.
pub open spec fn is_on(value: Option<Seq<char>>) -> bool {
    value != Some("false"@) && value != Some("0"@)
}

fn read_number(value: &Option<String>, max: u64, default: u64) -> (r: u64)
    ensures
        r as nat == number_or(opt_text(*value), max as nat, default as nat),
{
    match value {
        Some(text) => match parse_unsigned(text.as_str(), max) {
            Some(n) => n,
            None => default,
        },
        None => default,
    }
}

fn read_text(value: &Option<String>, default: &str) -> (r: String)
    ensures
        r@ == text_or(opt_text(*value), default@),
{
    match value {
        Some(text) => text.clone(),
        None => default.to_owned(),
    }
}

/// The address to listen on: all interfaces, at the port.
pub open spec fn address(port: nat) -> Seq<char> {
    "0.0.0.0:"@ + decimal(port)
}

impl Environment {
    /// The port to listen on.
    pub fn port(&self) -> (r: u16)
        ensures
            r as nat == number_or(opt_text(self.port), u16::MAX as nat, 3000),
    {
        read_number(&self.port, 65535, 3000) as u16
    }

    /// Whether certificates are verified.
    pub fn tls_verify(&self) -> (r: bool)
        ensures
            r == is_on(opt_text(self.rancher_tls_verify)),
    {
        match &self.rancher_tls_verify {
            Some(text) => !same_text(text.as_str(), "false") && !same_text(text.as_str(), "0"),
            None => true,
        }
    }

    /// How long a request to Rancher may take, in seconds, unless the
    /// configuration says otherwise.
    pub fn rancher_timeout_secs(&self) -> (r: u64)
        ensures
            r as nat == number_or(opt_text(self.rancher_timeout_secs), u64::MAX as nat, 5),
    {
        read_number(&self.rancher_timeout_secs, u64::MAX, 5)
    }

    /// The idle timeout of calls to upstream servers, in seconds, unless the
    /// configuration says otherwise.
    pub fn upstream_timeout_secs(&self) -> (r: u64)
        ensures
            r as nat == number_or(opt_text(self.upstream_timeout_secs), u64::MAX as nat, 30),
    {
        read_number(&self.upstream_timeout_secs, u64::MAX, 30)
    }

    /// How long an identity could be kept, in seconds, unless the configuration
    /// says otherwise.
    pub fn auth_cache_ttl_secs(&self) -> (r: u64)
        ensures
            r as nat == number_or(opt_text(self.auth_cache_ttl_secs), u64::MAX as nat, 60),
    {
        read_number(&self.auth_cache_ttl_secs, u64::MAX, 60)
    }

    /// The path of the configuration file.
    pub fn config_file(&self) -> (r: String)
        ensures
            r@ == text_or(
                opt_text(self.role_config_file),
                "/etc/rancher-mcp-proxy/config.yaml"@,
            ),
    {
        read_text(&self.role_config_file, "/etc/rancher-mcp-proxy/config.yaml")
    }

    /// The role that a single server's tools ask for.
    pub fn required_role(&self) -> (r: String)
        ensures
            r@ == text_or(opt_text(self.required_role), "mcp-user"@),
    {
        read_text(&self.required_role, "mcp-user")
    }

    /// The address to listen on.
    pub fn bind_address(&self) -> (r: String)
        ensures
            r@ == address(number_or(opt_text(self.port), u16::MAX as nat, 3000)),
    {
        let port: u16 = self.port();
        let mut r = "0.0.0.0:".to_owned();
        r.append(decimal_text(port as u64).as_str());
        r
    }

    /// The gateway's configuration. `file` is what came of reading the
    /// configuration file, where there is one: it then decides alone, and the
    /// address and the role in the environment are passed over.
    pub fn gateway_config(&self, file: Option<FileOutcome>) -> (r: Result<
        GatewayConfig,
        ConfigError,
    >)
        ensures
            match file {
                Some(FileOutcome::NotRead) => r matches Err(ConfigError::NotRead { path }) && path@
                    == text_or(
                    opt_text(self.role_config_file),
                    "/etc/rancher-mcp-proxy/config.yaml"@,
                ),
                Some(FileOutcome::NotParsed) => r matches Err(ConfigError::NotParsed { path })
                    && path@ == text_or(
                    opt_text(self.role_config_file),
                    "/etc/rancher-mcp-proxy/config.yaml"@,
                ),
                Some(FileOutcome::Parsed(config)) => match r {
                    Ok(c) => c == config && is_valid(config@.servers),
                    Err(e) => config.rejected_with(e),
                },
                None => match opt_text(self.upstream_mcp_url) {
                    Some(url) => r matches Ok(c) && c@ == single_server_view(
                        url,
                        text_or(opt_text(self.required_role), "mcp-user"@),
                    ),
                    None => r matches Err(e) && e is NoUpstream,
                },
            },
    {
        match file {
            Some(outcome) => GatewayConfig::from_file(self.config_file().as_str(), outcome),
            None => match &self.upstream_mcp_url {
                Some(url) => Ok(
                    GatewayConfig::single_server(url.as_str(), self.required_role().as_str()),
                ),
                None => Err(ConfigError::NoUpstream),
            },
        }
    }

    /// The timeouts to run with: what the configuration says, and else what the
    /// environment says.
    pub fn timeouts(&self, config: &GatewayConfig) -> (r: Timeouts)
        ensures
            r.upstream_secs as nat == first_given(
                config@.upstream_timeout_secs,
                number_or(opt_text(self.upstream_timeout_secs), u64::MAX as nat, 30),
            ),
            r.rancher_secs as nat == first_given(
                config@.rancher_timeout_secs,
                number_or(opt_text(self.rancher_timeout_secs), u64::MAX as nat, 5),
            ),
            r.auth_cache_ttl_secs as nat == first_given(
                config@.auth_cache_ttl_secs,
                number_or(opt_text(self.auth_cache_ttl_secs), u64::MAX as nat, 60),
            ),
    {
        Timeouts {
            upstream_secs: match config.upstream_timeout_secs {
                Some(secs) => secs,
                None => self.upstream_timeout_secs(),
            },
            rancher_secs: match config.rancher_timeout_secs {
                Some(secs) => secs,
                None => self.rancher_timeout_secs(),
            },
            auth_cache_ttl_secs: match config.auth_cache_ttl_secs {
                Some(secs) => secs,
                None => self.auth_cache_ttl_secs(),
            },
        }
    }
}

/// The value that is given, or else `default`.
pub open spec fn first_given(given: Option<u64>, default: nat) -> nat {
    match given {
        Some(n) => n as nat,
        None => default,
    }
}

/// The timeouts that the gateway runs with.
#[derive(Clone, Copy, Debug)]
pub struct Timeouts {
    /// The idle timeout of calls to servers without one of their own.
    pub upstream_secs: u64,
    /// How long a request to Rancher may take.
    pub rancher_secs: u64,
    /// How long an identity could be kept.
    pub auth_cache_ttl_secs: u64,
}

impl Timeouts {
    /// The idle timeout of calls to this server.
    pub fn upstream_timeout_secs(&self, server: &ServerConfig) -> (r: u64)
        ensures
            r as nat == first_given(server@.upstream_timeout_secs, self.upstream_secs as nat),
    {
        match server.upstream_timeout_secs {
            Some(secs) => secs,
            None => self.upstream_secs,
        }
    }
}

/// A server's own timeout comes first, then the gateway's, then the one in the
/// environment, and 30 seconds only where none of them is given.
pub proof fn law_nearest_timeout_wins(
    server: ServerView,
    gateway: GatewayView,
    variable: Option<Seq<char>>,
)
    ensures
        first_given(
            server.upstream_timeout_secs,
            first_given(gateway.upstream_timeout_secs, number_or(variable, u64::MAX as nat, 30)),
        ) == match (
            server.upstream_timeout_secs,
            gateway.upstream_timeout_secs,
        ) {
            (Some(own), _) => own as nat,
            (None, Some(shared)) => shared as nat,
            (None, None) => match variable {
                Some(text) if unsigned_number(text, u64::MAX as nat) is Some => unsigned_number(
                    text,
                    u64::MAX as nat,
                )->0,
                _ => 30,
            },
        },
{
}

/// What is said where a server's tools could not be discovered.
pub fn discovery_failure(server: &ServerConfig) -> (r: String)
    ensures
        r@ == "failed to discover tools from \""@ + server@.name + "\" at "@ + server@.url,
{
    let mut r = "failed to discover tools from \"".to_owned();
    r.append(server.name.as_str());
    r.append("\" at ");
    r.append(server.url.as_str());
    r
}

/// A variable that is set to a number, written in decimal, counts as that
/// number, unless it is too great.
pub proof fn law_numbers_are_taken(n: nat, max: nat, default: nat)
    ensures
        number_or(Some(decimal(n)), max, default) == if n <= max {
            n
        } else {
            default
        },
{
    law_decimal_is_read_back(n, max);
}

/// A variable that is not set, or not to a number, counts as its default: a text
/// with anything but digits in it, or without digits, is no number.
pub proof fn law_anything_else_is_the_default(
    value: Option<Seq<char>>,
    max: nat,
    default: nat,
    i: int,
)
    requires
        value matches Some(s) ==> s.len() == 0 || s == seq!['+'] || 0 <= i < s.len() && !('0'
            <= s[i] <= '9') && (i > 0 || s[0] != '+'),
    ensures
        number_or(value, max, default) == default,
{
    if let Some(s) = value {
        law_other_texts_are_no_number(s, max, i);
    }
}

/// Digits count as the number that they write, with or without a plus sign.
pub proof fn law_digits_are_taken(s: Seq<char>, max: nat, default: nat)
    requires
        s.len() > 0,
        forall|i: int| 0 <= i < s.len() ==> '0' <= #[trigger] s[i] <= '9',
    ensures
        number_or(Some(s), max, default) == if digits_value(s) <= max {
            digits_value(s)
        } else {
            default
        },
        number_or(Some(seq!['+'] + s), max, default) == number_or(Some(s), max, default),
{
    law_digits_are_a_number(s, max);
}

/// A text that is set is taken as it is, the empty one too; the default stands
/// only for one that is not set.
pub proof fn law_texts_are_taken_as_they_are(s: Seq<char>, default: Seq<char>)
    ensures
        text_or(Some(s), default) == s,
        text_or(None, default) == default,
{
}

/// Only `false` and `0`, written just so, switch something off.
pub proof fn law_false_and_zero_switch_off(s: Seq<char>)
    ensures
        is_on(None),
        is_on(Some(s)) <==> s != "false"@ && s != "0"@,
{
}

/// The gateway listens on all interfaces, at its port.
pub proof fn law_address_ends_in_the_port(port: nat)
    ensures
        address(port) == "0.0.0.0:"@ + decimal(port),
        decimal(port).is_suffix_of(address(port)),
{
    let all = address(port);
    let head = "0.0.0.0:"@.len() as int;
    assert(all.subrange(head, all.len() as int) =~= decimal(port));
}

/// What is given counts, and the default only where nothing is.
pub proof fn law_given_values_count(n: u64, default: nat)
    ensures
        first_given(Some(n), default) == n,
        first_given(None, default) == default,
{
}

} // verus!
