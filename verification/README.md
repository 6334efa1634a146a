# server_chronicle

A server activity logger and battery UPS monitor for headless Ubuntu hosts:
a background daemon that records power, container, SSH and resource events
into daily JSONL logs, a terminal dashboard, and a Markdown report for AI
assistants.

## Layout

- `src/` is the library, verified with Verus. It holds the parsers of the
  system tools' output (`/proc`, `/sys`, `docker`, `ps`, `w`, `ss`), the event
  rules of the daemon (power transitions, battery brackets, container and SSH
  session changes), the key handling of the dashboard, the event texts and
  the Base64 encoder used for clipboard export. Each public function states
  in its contract what it returns; the `lemma_*` proof functions state the
  laws that tie several functions together.
  - `text`, `table`: character-level text handling and association lists.
  - `power`: power states, outage and restore events, the ten-percent
    charge and drain brackets, the charge-speed window and sample history.
  - `containers`, `ssh`, `process`, `downloads`: what the daemon tracks.
  - `sysinfo`, `thermal`: host telemetry parsing and sensor choice.
  - `events`, `navigation`, `base64`: texts, dashboard keys, export.
- `app/` is the program around it: command line, file and network I/O,
  the terminal UI, serialisation, and the floating-point measurements.
- `tests/` exercises the library on concrete values.
