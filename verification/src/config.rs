//! The gateway's configuration: the upstream servers, and which role each of
//! their tools asks for.
use vstd::prelude::*;
use vstd::string::StringExecFns;

pub use crate::glob::glob_match;

use crate::glob::{law_single_token, pattern_matches};
use crate::outside::{debug_text, quoted};
use crate::text::{chars_of, opt_text, same_text, strings};

verus! {

/// A single access rule: glob patterns on tool names, and the role that they
/// ask for.
#[derive(Debug, Clone)]
pub struct RoleRule {
    /// Tool name glob patterns. Supports `*` (any sequence) and `?` (one
    /// character).
    pub tools: Vec<String>,
    /// Rancher GlobalRole the caller must hold to match this rule.
    pub role: String,
}

/// What a rule says.
#[verifier::ext_equal]
pub struct RuleView {
    pub tools: Seq<Seq<char>>,
    pub role: Seq<char>,
}

impl View for RoleRule {
    type V = RuleView;

    open spec fn view(&self) -> RuleView {
        RuleView { tools: strings(self.tools@), role: self.role@ }
    }
}

/// What a list of rules says.
pub open spec fn rule_views(rules: Seq<RoleRule>) -> Seq<RuleView> {
    Seq::new(rules.len(), |i: int| rules[i]@)
}

impl RuleView {
    /// One of the rule's patterns matches the tool's name.
    pub open spec fn applies_to(self, tool: Seq<char>) -> bool {
        exists|j: int| 0 <= j < self.tools.len() && pattern_matches(#[trigger] self.tools[j], tool)
    }
}

/// The role that `rules` ask for on a tool: that of the first rule that applies.
pub open spec fn required_role(rules: Seq<RuleView>, tool: Seq<char>) -> Option<Seq<char>>
    decreases rules.len(),
{
    if rules.len() == 0 {
        None
    } else if rules[0].applies_to(tool) {
        Some(rules[0].role)
    } else {
        required_role(rules.drop_first(), tool)
    }
}

impl RoleRule {
    fn applies_to(&self, tool_name: &str) -> (r: bool)
        ensures
            r == self@.applies_to(tool_name@),
    {
        for j in 0..self.tools.len()
            invariant
                forall|k: int|
                    0 <= k < j ==> !pattern_matches(#[trigger] self@.tools[k], tool_name@),
        {
            if glob_match(self.tools[j].as_str(), tool_name) {
                assert(pattern_matches(self@.tools[j as int], tool_name@));
                return true;
            }
        }
        false
    }
}

/// Configuration for one upstream MCP server.
#[derive(Debug, Clone)]
pub struct ServerConfig {
    /// Used as the URL path segment: `/<name>/mcp`.
    /// Use URL-safe characters (letters, digits, `-`, `_`).
    pub name: String,
    /// Full URL of the upstream MCP endpoint.
    pub url: String,
    /// Optional system prompt / personality shown to the AI agent. Different
    /// agents can be pointed at different `/<name>/mcp` endpoints to get
    /// different behaviours.
    pub instructions: Option<String>,
    /// Access rules evaluated in order; first match wins.
    /// If no rule matches a tool call, the call is denied.
    pub rules: Vec<RoleRule>,
    /// The idle timeout of this server's calls, where it has its own.
    pub upstream_timeout_secs: Option<u64>,
}

/// What a server's configuration says.
#[verifier::ext_equal]
pub struct ServerView {
    pub name: Seq<char>,
    pub url: Seq<char>,
    pub instructions: Option<Seq<char>>,
    pub rules: Seq<RuleView>,
    pub upstream_timeout_secs: Option<u64>,
}

impl View for ServerConfig {
    type V = ServerView;

    open spec fn view(&self) -> ServerView {
        ServerView {
            name: self.name@,
            url: self.url@,
            instructions: opt_text(self.instructions),
            rules: rule_views(self.rules@),
            upstream_timeout_secs: self.upstream_timeout_secs,
        }
    }
}

/// What a list of servers says.
pub open spec fn server_views(servers: Seq<ServerConfig>) -> Seq<ServerView> {
    Seq::new(servers.len(), |i: int| servers[i]@)
}

impl Default for ServerConfig {
    /// A server without a name, an address, or any rule.
    fn default() -> (r: ServerConfig)
        ensures
            r@ == (ServerView {
                name: Seq::empty(),
                url: Seq::empty(),
                instructions: None,
                rules: Seq::empty(),
                upstream_timeout_secs: None,
            }),
    {
        let r = ServerConfig {
            name: String::new(),
            url: String::new(),
            instructions: None,
            rules: Vec::new(),
            upstream_timeout_secs: None,
        };
        assert(r@.rules =~= Seq::empty());
        r
    }
}

impl ServerConfig {
    /// Return the required Rancher GlobalRole for `tool_name`, or `None` if
    /// no rule matches (call should be denied).
    pub fn required_role_for(&self, tool_name: &str) -> (r: Option<&str>)
        ensures
            match r {
                Some(role) => required_role(self@.rules, tool_name@) == Some(role@),
                None => required_role(self@.rules, tool_name@) is None,
            },
    {
        let ghost rules = self@.rules;
        assert(rules.skip(0) =~= rules);
        for i in 0..self.rules.len()
            invariant
                rules == self@.rules,
                required_role(rules, tool_name@) == required_role(rules.skip(i as int), tool_name@),
        {
            let ghost rest = rules.skip(i as int);
            assert(rest[0] == self.rules@[i as int]@);
            if self.rules[i].applies_to(tool_name) {
                return Some(self.rules[i].role.as_str());
            }
            assert(rest.drop_first() =~= rules.skip(i + 1));
        }
        None
    }

    /// The path at which the server is mounted: `/<name>/mcp`.
    pub fn mount_path(&self) -> (r: String)
        ensures
            r@ == mount_path(self@.name),
    {
        let mut r = "/".to_owned();
        r.append(self.name.as_str());
        r.append("/mcp");
        r
    }
}

/// The path at which a server of this name is mounted.
pub open spec fn mount_path(name: Seq<char>) -> Seq<char> {
    "/"@ + name + "/mcp"@
}

/// Any one of a rule's patterns makes it apply, wherever it stands in the list;
/// where none of them matches, the rule does not apply.
pub proof fn law_any_pattern_makes_a_rule_apply(rule: RuleView, tool: Seq<char>, j: int)
    ensures
        0 <= j < rule.tools.len() && pattern_matches(rule.tools[j], tool) ==> rule.applies_to(tool),
        (forall|k: int|
            0 <= k < rule.tools.len() ==> !pattern_matches(#[trigger] rule.tools[k], tool))
            ==> !rule.applies_to(tool),
{
}

/// Neither the order of a rule's patterns nor how often one is listed matters: a
/// rule with all the patterns of another applies wherever the other does.
pub proof fn law_more_patterns_apply_no_less(rule: RuleView, other: RuleView, tool: Seq<char>)
    requires
        rule.applies_to(tool),
        forall|k: int|
            0 <= k < rule.tools.len() ==> other.tools.contains(#[trigger] rule.tools[k]),
    ensures
        other.applies_to(tool),
{
    let k = choose|k: int|
        0 <= k < rule.tools.len() && pattern_matches(#[trigger] rule.tools[k], tool);
    assert(other.tools.contains(rule.tools[k]));
    let j = choose|j: int| 0 <= j < other.tools.len() && other.tools[j] == rule.tools[k];
    law_any_pattern_makes_a_rule_apply(other, tool, j);
}

/// The first rule with a pattern that matches a tool's name names the role,
/// whichever of its patterns that is.
pub proof fn law_first_matching_pattern_decides(
    rules: Seq<RuleView>,
    tool: Seq<char>,
    i: int,
    j: int,
)
    requires
        0 <= i < rules.len(),
        0 <= j < rules[i].tools.len(),
        pattern_matches(rules[i].tools[j], tool),
        forall|a: int, b: int|
            0 <= a < i && 0 <= b < rules[a].tools.len() ==> !pattern_matches(
                #[trigger] rules[a].tools[b],
                tool,
            ),
    ensures
        required_role(rules, tool) == Some(rules[i].role),
    decreases i,
{
    if i == 0 {
        law_any_pattern_makes_a_rule_apply(rules[0], tool, j);
    } else {
        let rest = rules.drop_first();
        assert forall|k: int| 0 <= k < rules[0].tools.len() implies !pattern_matches(
            #[trigger] rules[0].tools[k],
            tool,
        ) by {}
        law_any_pattern_makes_a_rule_apply(rules[0], tool, 0);
        assert forall|a: int, b: int|
            0 <= a < i - 1 && 0 <= b < rest[a].tools.len() implies !pattern_matches(
            #[trigger] rest[a].tools[b],
            tool,
        ) by {
            assert(!pattern_matches(rules[a + 1].tools[b], tool));
        }
        law_first_matching_pattern_decides(rest, tool, i - 1, j);
    }
}

/// A tool whose name no pattern of any rule matches has no role.
pub proof fn law_no_matching_pattern_no_role(rules: Seq<RuleView>, tool: Seq<char>)
    requires
        forall|a: int, b: int|
            0 <= a < rules.len() && 0 <= b < rules[a].tools.len() ==> !pattern_matches(
                #[trigger] rules[a].tools[b],
                tool,
            ),
    ensures
        required_role(rules, tool) is None,
    decreases rules.len(),
{
    if rules.len() > 0 {
        let rest = rules.drop_first();
        assert forall|k: int| 0 <= k < rules[0].tools.len() implies !pattern_matches(
            #[trigger] rules[0].tools[k],
            tool,
        ) by {}
        law_any_pattern_makes_a_rule_apply(rules[0], tool, 0);
        assert forall|a: int, b: int|
            0 <= a < rest.len() && 0 <= b < rest[a].tools.len() implies !pattern_matches(
            #[trigger] rest[a].tools[b],
            tool,
        ) by {
            assert(!pattern_matches(rules[a + 1].tools[b], tool));
        }
        law_no_matching_pattern_no_role(rest, tool);
    }
}

/// The first rule that applies to a tool decides: rules before it that do not
/// apply, and all rules after it, change nothing.
pub proof fn law_first_match_wins(rules: Seq<RuleView>, tool: Seq<char>, i: int)
    requires
        0 <= i < rules.len(),
        rules[i].applies_to(tool),
        forall|j: int| 0 <= j < i ==> !(#[trigger] rules[j]).applies_to(tool),
    ensures
        required_role(rules, tool) == Some(rules[i].role),
    decreases rules.len(),
{
    if i > 0 {
        let rest = rules.drop_first();
        assert(!rules[0].applies_to(tool));
        assert forall|j: int| 0 <= j < i - 1 implies !(#[trigger] rest[j]).applies_to(tool) by {
            assert(rest[j] == rules[j + 1]);
        }
        law_first_match_wins(rest, tool, i - 1);
    }
}

/// A tool that no rule applies to has no role that would allow it, and only
/// such a tool has none.
pub proof fn law_unmatched_tools_are_denied(rules: Seq<RuleView>, tool: Seq<char>)
    ensures
        required_role(rules, tool) is None <==> forall|i: int|
            0 <= i < rules.len() ==> !(#[trigger] rules[i]).applies_to(tool),
    decreases rules.len(),
{
    if rules.len() > 0 {
        let rest = rules.drop_first();
        law_unmatched_tools_are_denied(rest, tool);
        if required_role(rules, tool) is None {
            assert forall|i: int| 0 <= i < rules.len() implies !(#[trigger] rules[i]).applies_to(
                tool,
            ) by {
                if i > 0 {
                    assert(rest[i - 1] == rules[i]);
                }
            }
        }
        if forall|i: int| 0 <= i < rules.len() ==> !(#[trigger] rules[i]).applies_to(tool) {
            assert(!rules[0].applies_to(tool));
            assert forall|i: int| 0 <= i < rest.len() implies !(#[trigger] rest[i]).applies_to(
                tool,
            ) by {
                assert(rest[i] == rules[i + 1]);
            }
        }
    }
}

/// A catch-all rule at the end gives every tool a role: that of an earlier rule
/// that applies, or else its own.
pub proof fn law_catch_all_rule(rules: Seq<RuleView>, role: Seq<char>, tool: Seq<char>)
    ensures
        required_role(rules.push(RuleView { tools: seq![seq!['*']], role }), tool) == Some(
            match required_role(rules, tool) {
                Some(earlier) => earlier,
                None => role,
            },
        ),
    decreases rules.len(),
{
    let last = RuleView { tools: seq![seq!['*']], role };
    let all = rules.push(last);
    if rules.len() == 0 {
        law_single_token('*', tool);
        assert(pattern_matches(last.tools[0], tool));
        assert(all[0] == last);
    } else {
        assert(all.drop_first() =~= rules.drop_first().push(last));
        law_catch_all_rule(rules.drop_first(), role, tool);
    }
}

/// Why there is no configuration to run with.
#[derive(Debug)]
pub enum ConfigError {
    /// The configuration file could not be read.
    NotRead { path: String },
    /// The configuration file is not a gateway configuration in YAML.
    NotParsed { path: String },
    /// A server's name holds something else than ASCII letters, digits, `-` and
    /// `_`, or nothing.
    InvalidName { name: String },
    /// Two servers have the same name.
    DuplicateName { name: String },
    /// There is neither a configuration file nor the address of a server.
    NoUpstream,
}

impl ConfigError {
    /// The text of the error.
    pub open spec fn text(self) -> Seq<char> {
        match self {
            ConfigError::NotRead { path } => "failed to read gateway config from "@ + path@,
            ConfigError::NotParsed { path } => "failed to parse gateway config YAML from "@
                + path@,
            ConfigError::InvalidName { name } => "server name "@ + debug_text(name@)
                + " is invalid; use only ASCII letters, digits, `-`, and `_`"@,
            ConfigError::DuplicateName { name } => "duplicate server name "@ + debug_text(name@),
            ConfigError::NoUpstream =>
            "UPSTREAM_MCP_URL is required when no config file is present"@,
        }
    }

    /// The text of the error.
    pub fn message(&self) -> (r: String)
        ensures
            r@ == self.text(),
    {
        match self {
            ConfigError::NotRead { path } => {
                let mut r = "failed to read gateway config from ".to_owned();
                r.append(path.as_str());
                r
            },
            ConfigError::NotParsed { path } => {
                let mut r = "failed to parse gateway config YAML from ".to_owned();
                r.append(path.as_str());
                r
            },
            ConfigError::InvalidName { name } => {
                let mut r = "server name ".to_owned();
                r.append(quoted(name.as_str()).as_str());
                r.append(" is invalid; use only ASCII letters, digits, `-`, and `_`");
                r
            },
            ConfigError::DuplicateName { name } => {
                let mut r = "duplicate server name ".to_owned();
                r.append(quoted(name.as_str()).as_str());
                r
            },
            ConfigError::NoUpstream => {
                "UPSTREAM_MCP_URL is required when no config file is present".to_owned()
            },
        }
    }
}

/// A character that can stand in a server's name.
pub open spec fn is_name_char(c: char) -> bool {
    'a' <= c <= 'z' || 'A' <= c <= 'Z' || '0' <= c <= '9' || c == '-' || c == '_'
}

/// A name that a server can have.
pub open spec fn is_valid_name(name: Seq<char>) -> bool {
    name.len() > 0 && forall|i: int| 0 <= i < name.len() ==> is_name_char(#[trigger] name[i])
}

/// A server before the server `i` has the name of the server `i`.
pub open spec fn is_repeated(servers: Seq<ServerView>, i: int) -> bool {
    exists|j: int| 0 <= j < i && (#[trigger] servers[j]).name == servers[i].name
}

/// The server `i` has a name of its own that it can have.
pub open spec fn is_accepted(servers: Seq<ServerView>, i: int) -> bool {
    is_valid_name(servers[i].name) && !is_repeated(servers, i)
}

/// All servers have names of their own that they can have.
pub open spec fn is_valid(servers: Seq<ServerView>) -> bool {
    forall|i: int| 0 <= i < servers.len() ==> #[trigger] is_accepted(servers, i)
}

/// The server `i` is the first that is not accepted.
pub open spec fn is_first_rejected(servers: Seq<ServerView>, i: int) -> bool {
    &&& 0 <= i < servers.len()
    &&& !is_accepted(servers, i)
    &&& forall|j: int| 0 <= j < i ==> #[trigger] is_accepted(servers, j)
}

fn name_is_valid(name: &str) -> (r: bool)
    ensures
        r == is_valid_name(name@),
{
    let chars = chars_of(name);
    if chars.len() == 0 {
        return false;
    }
    for i in 0..chars.len()
        invariant
            chars@ == name@,
            forall|k: int| 0 <= k < i ==> is_name_char(#[trigger] name@[k]),
    {
        let c = chars[i];
        assert(c == name@[i as int]);
        if !(('a' <= c && c <= 'z') || ('A' <= c && c <= 'Z') || ('0' <= c && c <= '9') || c == '-'
            || c == '_') {
            return false;
        }
    }
    true
}

/// Top-level gateway configuration.
///
/// Example `config.yaml`:
/// ```yaml
/// servers:
///   - name: opencost
///     url: http://opencost.opencost.svc:9003/mcp
///     rules:
///       - tools: ["get_*", "list_*"]
///         role: cost-viewer
///       - tools: ["*"]
///         role: cost-admin
///   - name: another-mcp
///     url: http://another.svc:8080/mcp
///     rules:
///       - tools: ["*"]
///         role: mcp-user
/// ```
#[derive(Debug, Clone)]
pub struct GatewayConfig {
    pub servers: Vec<ServerConfig>,
    /// The idle timeout of calls to servers without one of their own.
    pub upstream_timeout_secs: Option<u64>,
    /// The timeout of calls to Rancher.
    pub rancher_timeout_secs: Option<u64>,
    /// How long an identity may be cached.
    pub auth_cache_ttl_secs: Option<u64>,
}

/// What a configuration says.
#[verifier::ext_equal]
pub struct GatewayView {
    pub servers: Seq<ServerView>,
    pub upstream_timeout_secs: Option<u64>,
    pub rancher_timeout_secs: Option<u64>,
    pub auth_cache_ttl_secs: Option<u64>,
}

impl View for GatewayConfig {
    type V = GatewayView;

    open spec fn view(&self) -> GatewayView {
        GatewayView {
            servers: server_views(self.servers@),
            upstream_timeout_secs: self.upstream_timeout_secs,
            rancher_timeout_secs: self.rancher_timeout_secs,
            auth_cache_ttl_secs: self.auth_cache_ttl_secs,
        }
    }
}

impl Default for GatewayConfig {
    /// A gateway without servers.
    fn default() -> (r: GatewayConfig)
        ensures
            r@ == (GatewayView {
                servers: Seq::empty(),
                upstream_timeout_secs: None,
                rancher_timeout_secs: None,
                auth_cache_ttl_secs: None,
            }),
    {
        let r = GatewayConfig {
            servers: Vec::new(),
            upstream_timeout_secs: None,
            rancher_timeout_secs: None,
            auth_cache_ttl_secs: None,
        };
        assert(r@.servers =~= Seq::empty());
        r
    }
}

/// What came of reading a configuration file.
pub enum FileOutcome {
    /// The file could not be read.
    NotRead,
    /// The file is not a gateway configuration in YAML.
    NotParsed,
    /// The configuration that the file holds.
    Parsed(GatewayConfig),
}

/// The configuration that a single server with one catch-all rule makes.
pub open spec fn single_server_view(url: Seq<char>, role: Seq<char>) -> GatewayView {
    GatewayView {
        servers: seq![
            ServerView {
                name: "upstream"@,
                url,
                instructions: None,
                rules: seq![RuleView { tools: seq!["*"@], role }],
                upstream_timeout_secs: None,
            },
        ],
        upstream_timeout_secs: None,
        rancher_timeout_secs: None,
        auth_cache_ttl_secs: None,
    }
}

impl GatewayConfig {
    /// The configuration that the file at `path` holds, if it is a valid one.
    pub fn from_file(path: &str, outcome: FileOutcome) -> (r: Result<GatewayConfig, ConfigError>)
        ensures
            match outcome {
                FileOutcome::NotRead => r matches Err(ConfigError::NotRead { path: p }) && p@
                    == path@,
                FileOutcome::NotParsed => r matches Err(ConfigError::NotParsed { path: p }) && p@
                    == path@,
                FileOutcome::Parsed(config) => match r {
                    Ok(c) => c == config && is_valid(config@.servers),
                    Err(e) => config.rejected_with(e),
                },
            },
    {
        match outcome {
            FileOutcome::NotRead => Err(ConfigError::NotRead { path: path.to_owned() }),
            FileOutcome::NotParsed => Err(ConfigError::NotParsed { path: path.to_owned() }),
            FileOutcome::Parsed(config) => match config.validate() {
                Ok(()) => Ok(config),
                Err(e) => Err(e),
            },
        }
    }

    /// The error tells of the first server that is not accepted; that its name
    /// is no name for a server comes before that it is taken.
    pub open spec fn rejected_with(&self, error: ConfigError) -> bool {
        exists|i: int|
            {
                &&& #[trigger] is_first_rejected(self@.servers, i)
                &&& if !is_valid_name(self@.servers[i].name) {
                    error matches ConfigError::InvalidName { name } && name@
                        == self@.servers[i].name
                } else {
                    error matches ConfigError::DuplicateName { name } && name@
                        == self@.servers[i].name
                }
            }
    }

    /// Checks that every server has a name of its own that can stand in a URL.
    pub fn validate(&self) -> (r: Result<(), ConfigError>)
        ensures
            r is Ok <==> is_valid(self@.servers),
            r matches Err(e) ==> self.rejected_with(e),
    {
        let ghost servers = self@.servers;
        for i in 0..self.servers.len()
            invariant
                servers == self@.servers,
                forall|k: int| 0 <= k < i ==> #[trigger] is_accepted(servers, k),
        {
            let name = &self.servers[i].name;
            assert(servers[i as int].name == name@);
            if !name_is_valid(name.as_str()) {
                assert(is_first_rejected(servers, i as int));
                return Err(ConfigError::InvalidName { name: name.clone() });
            }
            for j in 0..i
                invariant
                    servers == self@.servers,
                    i < self.servers.len(),
                    servers[i as int].name == name@,
                    is_valid_name(name@),
                    forall|k: int| 0 <= k < i ==> #[trigger] is_accepted(servers, k),
                    forall|k: int| 0 <= k < j ==> (#[trigger] servers[k]).name != name@,
            {
                assert(servers[j as int].name == self.servers@[j as int].name@);
                if same_text(self.servers[j].name.as_str(), name.as_str()) {
                    assert(is_repeated(servers, i as int));
                    assert(is_first_rejected(servers, i as int));
                    return Err(ConfigError::DuplicateName { name: name.clone() });
                }
            }
            assert(is_accepted(servers, i as int));
        }
        Ok(())
    }

    /// Single-server catch-all: used when no config file is present and the
    /// address of a server and the role that it asks for are given.
    pub fn single_server(url: &str, role: &str) -> (r: GatewayConfig)
        ensures
            r@ == single_server_view(url@, role@),
    {
        let mut tools: Vec<String> = Vec::new();
        tools.push("*".to_owned());
        let mut rules: Vec<RoleRule> = Vec::new();
        rules.push(RoleRule { tools, role: role.to_owned() });
        let mut servers: Vec<ServerConfig> = Vec::new();
        servers.push(
            ServerConfig {
                name: "upstream".to_owned(),
                url: url.to_owned(),
                instructions: None,
                rules,
                upstream_timeout_secs: None,
            },
        );
        let r = GatewayConfig {
            servers,
            upstream_timeout_secs: None,
            rancher_timeout_secs: None,
            auth_cache_ttl_secs: None,
        };
        proof {
            let server = r@.servers[0];
            assert(server.rules[0].tools =~= seq!["*"@]);
            assert(server.rules =~= seq![RuleView { tools: seq!["*"@], role: role@ }]);
            assert(r@.servers =~= single_server_view(url@, role@).servers);
        }
        r
    }
}

/// The configuration of a single server is valid, and asks for its role on
/// every tool. The server is mounted at `/upstream/mcp`.
pub proof fn law_single_server(url: Seq<char>, role: Seq<char>, tool: Seq<char>)
    ensures
        is_valid(single_server_view(url, role).servers),
        required_role(single_server_view(url, role).servers[0].rules, tool) == Some(role),
        mount_path(single_server_view(url, role).servers[0].name) == "/upstream/mcp"@,
{
    reveal_strlit("upstream");
    reveal_strlit("/");
    reveal_strlit("/mcp");
    reveal_strlit("/upstream/mcp");
    assert(mount_path("upstream"@) =~= "/upstream/mcp"@);
    reveal_strlit("*");
    assert("*"@ =~= seq!['*']);
    let rules = single_server_view(url, role).servers[0].rules;
    law_catch_all_rule(Seq::empty(), role, tool);
    assert(rules =~= Seq::empty().push(RuleView { tools: seq![seq!['*']], role }));
}

/// Different names have different mount paths.
proof fn lemma_mount_path_injective(a: Seq<char>, b: Seq<char>)
    requires
        mount_path(a) == mount_path(b),
    ensures
        a == b,
{
    reveal_strlit("/");
    reveal_strlit("/mcp");
    assert(mount_path(a).len() == a.len() + 5);
    assert(mount_path(b).len() == b.len() + 5);
    assert forall|i: int| 0 <= i < a.len() implies #[trigger] a[i] == b[i] by {
        assert(mount_path(a)[i + 1] == a[i]);
        assert(mount_path(b)[i + 1] == b[i]);
    }
    assert(a =~= b);
}

/// The servers of a valid configuration are mounted at paths that differ from
/// each other.
pub proof fn law_mount_paths_do_not_collide(servers: Seq<ServerView>, i: int, j: int)
    requires
        is_valid(servers),
        0 <= i < servers.len(),
        0 <= j < servers.len(),
        i != j,
    ensures
        mount_path(servers[i].name) != mount_path(servers[j].name),
{
    let (a, b) = if i < j {
        (i, j)
    } else {
        (j, i)
    };
    assert(is_accepted(servers, b));
    assert(servers[a].name != servers[b].name);
    if mount_path(servers[i].name) == mount_path(servers[j].name) {
        lemma_mount_path_injective(servers[i].name, servers[j].name);
    }
}

/// No server is mounted at the path of the health check.
pub proof fn law_health_check_stays_free(name: Seq<char>)
    ensures
        mount_path(name) != "/health"@,
{
    reveal_strlit("/");
    reveal_strlit("/mcp");
    reveal_strlit("/health");
    let path = mount_path(name);
    assert(path[path.len() - 1] == 'p');
    assert("/health"@[6] == 'h');
}

/// The mount path of a valid name has two segments of URL-safe characters, and
/// the first of them is the name: the only slashes are the one at the start and
/// the one after the name.
pub proof fn law_mount_path_is_url_safe(name: Seq<char>, i: int)
    requires
        is_valid_name(name),
        0 <= i < mount_path(name).len(),
    ensures
        is_name_char(mount_path(name)[i]) <==> i != 0 && i != name.len() + 1,
        mount_path(name)[i] == '/' <==> i == 0 || i == name.len() + 1,
{
    reveal_strlit("/");
    reveal_strlit("/mcp");
    if 0 < i <= name.len() {
        assert(mount_path(name)[i] == name[i - 1]);
        assert(is_name_char(name[i - 1]));
    }
}

/// A mount path is the name between `/` and `/mcp`.
pub proof fn law_mount_path_holds_the_name(name: Seq<char>)
    ensures
        mount_path(name).len() == name.len() + 5,
        mount_path(name).subrange(1, name.len() as int + 1) == name,
        mount_path(name)[0] == '/',
        mount_path(name).skip(name.len() as int + 1) == "/mcp"@,
{
    reveal_strlit("/");
    reveal_strlit("/mcp");
    assert(mount_path(name).subrange(1, name.len() as int + 1) =~= name);
    assert(mount_path(name).skip(name.len() as int + 1) =~= "/mcp"@);
}

/// A name is valid exactly if it holds something, and nothing else than ASCII
/// letters, digits, `-` and `_`.
pub proof fn law_names_hold_letters_digits_and_dashes(name: Seq<char>)
    ensures
        is_valid_name(name) <==> {
            &&& name.len() > 0
            &&& forall|i: int|
                0 <= i < name.len() ==> ('a' <= #[trigger] name[i] <= 'z' || 'A' <= name[i] <= 'Z'
                    || '0' <= name[i] <= '9' || name[i] == '-' || name[i] == '_')
        },
{
    if is_valid_name(name) {
        assert forall|i: int| 0 <= i < name.len() implies ('a' <= #[trigger] name[i] <= 'z' || 'A'
            <= name[i] <= 'Z' || '0' <= name[i] <= '9' || name[i] == '-' || name[i] == '_') by {
            assert(is_name_char(name[i]));
        }
    }
}

/// Two names one after the other make a valid name exactly if both are valid:
/// each character counts by itself, wherever it stands.
pub proof fn law_names_can_be_put_together(a: Seq<char>, b: Seq<char>)
    requires
        a.len() > 0,
        b.len() > 0,
    ensures
        is_valid_name(a + b) <==> is_valid_name(a) && is_valid_name(b),
{
    let all = a + b;
    if is_valid_name(all) {
        assert forall|i: int| 0 <= i < a.len() implies is_name_char(#[trigger] a[i]) by {
            assert(is_name_char(all[i]));
        }
        assert forall|i: int| 0 <= i < b.len() implies is_name_char(#[trigger] b[i]) by {
            assert(is_name_char(all[i + a.len()]));
        }
    }
}

/// A configuration is valid exactly if every server has a valid name, and no two
/// servers have the same, wherever they stand in the list.
pub proof fn law_valid_servers_have_names_of_their_own(servers: Seq<ServerView>)
    ensures
        is_valid(servers) <==> {
            &&& forall|i: int|
                0 <= i < servers.len() ==> is_valid_name((#[trigger] servers[i]).name)
            &&& forall|i: int, j: int|
                0 <= i < j < servers.len() ==> (#[trigger] servers[i]).name != (
                #[trigger] servers[j]).name
        },
{
    if is_valid(servers) {
        assert forall|i: int| 0 <= i < servers.len() implies is_valid_name(
            (#[trigger] servers[i]).name,
        ) by {
            assert(is_accepted(servers, i));
        }
        assert forall|i: int, j: int| 0 <= i < j < servers.len() implies (
        #[trigger] servers[i]).name != (#[trigger] servers[j]).name by {
            assert(is_accepted(servers, j));
        }
    } else {
        let i = choose|i: int| 0 <= i < servers.len() && !#[trigger] is_accepted(servers, i);
        assert(servers[i].name == servers[i].name);
    }
}

/// A configuration is rejected for the first server that gives a reason, with
/// that server's name: a name that no server can have, or one that an earlier
/// server has.
pub proof fn law_rejection_names_the_first_offender(config: GatewayConfig, error: ConfigError)
    requires
        config.rejected_with(error),
    ensures
        exists|i: int|
            {
                &&& 0 <= i < config.servers@.len()
                &&& is_valid(config@.servers.take(i))
                &&& match error {
                    ConfigError::InvalidName { name } => name@ == (
                    #[trigger] config.servers@[i]).name@ && !is_valid_name(name@),
                    ConfigError::DuplicateName { name } => {
                        &&& name@ == config.servers@[i].name@
                        &&& is_valid_name(name@)
                        &&& exists|j: int|
                            0 <= j < i && (#[trigger] config.servers@[j]).name@ == name@
                    },
                    _ => false,
                }
            },
{
    let servers = config@.servers;
    let i = choose|i: int|
        {
            &&& #[trigger] is_first_rejected(servers, i)
            &&& if !is_valid_name(servers[i].name) {
                error matches ConfigError::InvalidName { name } && name@ == servers[i].name
            } else {
                error matches ConfigError::DuplicateName { name } && name@ == servers[i].name
            }
        };
    let before = servers.take(i);
    assert forall|k: int| 0 <= k < before.len() implies #[trigger] is_accepted(before, k) by {
        assert(is_accepted(servers, k));
        if is_repeated(before, k) {
            let j = choose|j: int| 0 <= j < k && (#[trigger] before[j]).name == before[k].name;
            assert(servers[j].name == servers[k].name);
        }
    }
    assert(servers[i].name == config.servers@[i].name@);
    if is_valid_name(servers[i].name) {
        assert(is_repeated(servers, i));
        let j = choose|j: int| 0 <= j < i && (#[trigger] servers[j]).name == servers[i].name;
        assert(config.servers@[j].name@ == servers[j].name);
    }
}

/// A configuration says what its fields hold: every server, every rule of a
/// server and every pattern of a rule, each in its place.
pub proof fn law_configuration_says_what_it_holds(config: GatewayConfig, i: int, j: int, k: int)
    ensures
        config@.servers.len() == config.servers@.len(),
        config@.upstream_timeout_secs == config.upstream_timeout_secs,
        config@.rancher_timeout_secs == config.rancher_timeout_secs,
        config@.auth_cache_ttl_secs == config.auth_cache_ttl_secs,
        0 <= i < config.servers@.len() ==> {
            let view = config@.servers[i];
            let server = config.servers@[i];
            &&& view.name == server.name@
            &&& view.url == server.url@
            &&& view.instructions == match server.instructions {
                Some(text) => Some(text@),
                None => None,
            }
            &&& view.upstream_timeout_secs == server.upstream_timeout_secs
            &&& view.rules.len() == server.rules@.len()
            &&& 0 <= j < server.rules@.len() ==> {
                &&& view.rules[j].role == server.rules@[j].role@
                &&& view.rules[j].tools.len() == server.rules@[j].tools@.len()
                &&& 0 <= k < server.rules@[j].tools@.len() ==> view.rules[j].tools[k]
                    == server.rules@[j].tools@[k]@
            }
        },
{
}

/// A single server is the only one, at the given address, and sets nothing else.
pub proof fn law_single_server_is_alone(url: Seq<char>, role: Seq<char>)
    ensures
        single_server_view(url, role).servers.len() == 1,
        single_server_view(url, role).servers[0].url == url,
        single_server_view(url, role).servers[0].instructions is None,
        single_server_view(url, role).servers[0].upstream_timeout_secs is None,
        single_server_view(url, role).upstream_timeout_secs is None,
        single_server_view(url, role).rancher_timeout_secs is None,
        single_server_view(url, role).auth_cache_ttl_secs is None,
{
}

/// Each error says what went wrong and of what: the path of the file, or the
/// quoted name of the server.
pub proof fn law_errors_name_what_they_are_about(error: ConfigError)
    ensures
        match error {
            ConfigError::NotRead { path } => {
                &&& "failed to read gateway config from "@.is_prefix_of(error.text())
                &&& path@.is_suffix_of(error.text())
                &&& error.text().len() == "failed to read gateway config from "@.len() + path@.len()
            },
            ConfigError::NotParsed { path } => {
                &&& "failed to parse gateway config YAML from "@.is_prefix_of(error.text())
                &&& path@.is_suffix_of(error.text())
                &&& error.text().len() == "failed to parse gateway config YAML from "@.len()
                    + path@.len()
            },
            ConfigError::InvalidName { name } => error.text() == "server name "@ + debug_text(name@)
                + " is invalid; use only ASCII letters, digits, `-`, and `_`"@,
            ConfigError::DuplicateName { name } => error.text() == "duplicate server name "@
                + debug_text(name@),
            ConfigError::NoUpstream => error.text()
                == "UPSTREAM_MCP_URL is required when no config file is present"@,
        },
{
    let text = error.text();
    match error {
        ConfigError::NotRead { path } => {
            let head = "failed to read gateway config from "@;
            assert(text.subrange(0, head.len() as int) =~= head);
            assert(text.subrange(head.len() as int, text.len() as int) =~= path@);
        },
        ConfigError::NotParsed { path } => {
            let head = "failed to parse gateway config YAML from "@;
            assert(text.subrange(0, head.len() as int) =~= head);
            assert(text.subrange(head.len() as int, text.len() as int) =~= path@);
        },
        _ => {},
    }
}

} // verus!
