# frankenphp-check

Audits a server for FrankenPHP + Laravel performance settings and proposes
concrete fixes. The checking logic is a Verus-verified library; a thin
command-line program reads the server and prints the report.

## Layout

- `src/` – the verified library
  - `text.rs`, `line_edit.rs`, `order.rs` – a character-sequence model of the
    string operations used (trimming, `str::lines`, tokens, number parsing,
    joining lines, string order) with executable counterparts
  - `types.rs` – findings (`CheckResult`), statuses and the system context
  - `checks/` – one module per area (system, libc, FrankenPHP, PHP, Go
    runtime, Laravel, MySQL, Redis); each turns gathered facts into findings
  - `discover.rs` – web roots from nginx and Caddy configurations
  - `supervisor.rs` – Octane ports from process listings and Supervisor
    programs
  - `output.rs` – report sections, status counts, summary bars, recommended
    changes
  - `fixes.rs` – writing fix lines into configuration files and systemd
    overrides, and sorting the fixes of a run by how they get applied
  - `benchmark.rs` – which benchmark measures a fix
- `tests/` – tests of the library
- `app/` – the program: reads `/proc`, `/etc` and command output, prints
  with colors or as JSON, runs the fix dialogs and the benchmarks

## Usage

```
frankenphp-check [OPTIONS] [APP_PATH]

      --frankenphp <PATH>  Path to FrankenPHP binary [default: /usr/bin/frankenphp]
      --php-ini <PATH>     Path to php-zts php.ini [default: /etc/php-zts/php.ini]
      --json               Output as JSON
      --no-color           Disable ANSI colors
      --fix                Interactively apply suggested fixes
      --bench              Run all benchmarks (PHP + MySQL)
```

The exit code is 1 when any check fails.
