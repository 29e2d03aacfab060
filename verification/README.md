# Rancher MCP Proxy

An MCP gateway that enforces Rancher RBAC in front of one or more MCP servers.
Each upstream server gets its own endpoint, `/<name>/mcp`. Tools can be listed
without credentials; a tool can be called by who holds the Rancher GlobalRole
that the first matching rule asks for.

## Layout

- `src/` is the library: every decision of the gateway, with contracts that
  Verus proves. It does no I/O. `src/outside.rs` holds all that is believed
  without proof of other crates.
- `app/` is the program: it reads the environment and the configuration file,
  sends and serves HTTP, and asks the library what to do next.
- `tests/` runs the library on concrete values.

## What is proved

- `glob`: a pattern matches a name exactly if the name can be cut into one piece
  for each character of the pattern, each of which matches: any piece for `*`,
  one character for `?`, the character itself otherwise.
- `config`: the first rule that applies decides; a tool without one is denied;
  the servers of a valid configuration never collide.
- `rancher_auth`: a request gets an identity only from both of Rancher's answers
  to its own credentials; roles are those of the bindings that apply.
- `gateway`: a call is forwarded exactly if a rule applies and the caller holds
  its role; a known caller who may not make it gets a 403.
- `upstream` and `sse`: events do not depend on how the stream is cut; a call
  ends with the first response to its request; notifications are relayed in
  order, and only to a caller with a progress token.
- `settings`: a configuration file decides before the environment, and a
  server's own timeout before the gateway's.

## Configuration

| Variable | Default | Meaning |
|---|---|---|
| `UPSTREAM_MCP_URL` | | The single upstream server. Needed where there is no configuration file. |
| `ROLE_CONFIG_FILE` | `/etc/rancher-mcp-proxy/config.yaml` | The configuration file. Where it exists, it decides alone. |
| `REQUIRED_ROLE` | `mcp-user` | The role for the single upstream server. |
| `RANCHER_TLS_VERIFY` | `true` | `false` or `0` switches certificate checks off. |
| `RANCHER_TIMEOUT_SECS` | `5` | How long a request to Rancher may take. |
| `UPSTREAM_TIMEOUT_SECS` | `30` | The longest gap in an answer of an upstream server. |
| `AUTH_CACHE_TTL_SECS` | `60` | How long an identity could be kept. None is. |
| `PORT` | `3000` | The port to listen on. |
