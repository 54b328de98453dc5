# sock5s

A SOCKS5 proxy (RFC 1928, with the username/password method of RFC 1929)
whose logic is a Verus library: every function under `src/` carries a
contract that Verus proves.

## Layout

- `src/` — the verified library.
  - `acceptor` — the server side of the handshake as a state machine over
    the bytes received; laws: no request is reached without authentication,
    and under credentials only with an accepted one.
  - `target` — SOCKS5 addresses: parsing a request's target and encoding a
    reply's address; law: an encoded address decodes to itself.
  - `config` — the configuration and the rule sets built from it
    (credentials, blacklist/whitelist of IPs and CIDR networks).
  - `net` — IP addresses, CIDR networks and socket addresses as integers;
    laws: a network holds exactly the addresses that share its prefix.
  - `tcp` — the decisions of a CONNECT: which resolved address may be
    reached and what a refusal or a failure answers.
  - `logger` — log lines stamped with a moment of local time (which `app/`
    reads from the clock), daily files with a size limit, retention; laws:
    a log file's name gives back its date (years 0 to 9999), and a written
    file stays within the limit except as the law says.
  - `console` — the control console's logic: the configuration form, its
    checks, and the log view (reading lines back, filtering, summaries);
    laws: a line that the logger writes reads back with the first 19
    characters of its stamp and its fields when no field holds whitespace,
    and a configuration shown in the form reads back as it was when the
    address texts read back (the parsers of `std` and `ipnet` are trusted).
  - `text`, `event`, `error`, `server` — text helpers, log records, errors
    and the accept loop's stop decision.
- `tests/` — tests of the library on concrete values.
- `app/` — the program around it: command line, TOML configuration files,
  the Tokio server loop and sessions, log files on disk.

Calls into `ipnet`, `chrono` and `std` that the logic needs stand behind
small trusted wrappers in `src/`, each documented with what it claims.
