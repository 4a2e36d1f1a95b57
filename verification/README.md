# tegata

A daemon that keeps credentials away from the agents that need them. An agent
names a credential; the daemon resolves it from a vault, logs a browser in, and
lends the agent a tab of that browser. Values never leave the daemon.

- `src/` is the library: everything the daemon, the bridge and the leak scanner
  decide. Its behaviour is stated in `requires` and `ensures` clauses and proved
  by Verus. Public proof functions whose names start with `law_` state what holds
  across functions.
- `app/` holds the programs around it: sockets, pipes, files, processes, timers,
  and the JSON and TOML forms of the library's types.
- `tests/` runs the library.

Where the daemon waits for the outside, the library has a small machine: it is
told what happened and says what is done next. `login`, `bitwarden`, `executor`,
`startup`, `vault_requests`, `audit`, `bridge` and `windows_service` work like that.

What is taken on trust stands in functions marked `external_body`, each with the
outside function it calls: `sha2`, `hmac` and `sha1` for digests, `data-encoding`
and `base64` for encodings, `serde_json` for JSON strings, `age` for decryption,
`toml` for the keys of the configuration, and `zeroize` for wiping. Of the
standard library, the reading of UTF-8, the debug form of a text and
`String::push` are taken on trust too.

| Modules | What they are about |
| --- | --- |
| `leakscan`, `encoding`, `registry` | Finding secrets in bytes, in any of their encodings |
| `totp`, `secret`, `credential` | One-time codes and secret values |
| `static_provider`, `file_provider`, `pass_provider`, `bitwarden`, `command` | Vaults |
| `sessions`, `login`, `executor` | Browsers, leases, and logins |
| `rpc`, `vault_requests`, `wire`, `error`, `audit` | Requests, answers, and records |
| `peers`, `transport`, `admission` | Who a client is, and who is let in |
| `config`, `startup`, `cli`, `bridge` | Programs and their configuration |
| `secure_fs`, `windows_instance`, `windows_service` | Windows |
| `text` | Characters and strings |
