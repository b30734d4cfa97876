# ssh-autoport

Auto-discover and port-forward apps running on your active SSH connections — with a rich TUI.

Open an SSH session to a server. `ssh-autoport` notices it, finds every app listening on a TCP port
over there, forwards each one to a local port, and remembers the mapping — so `localhost:3000`
points at the same app tomorrow as it does today.

## Layout

- `src/` is the library, written and proved in Verus. It holds everything that is decided: how
  process tables, `ssh -G` output and scans are read, which local port an app gets, how a connection
  is brought up, what follows from every message and every key, and what is drawn. It starts no
  process and opens no file; what is to be done outside comes back as plain values (`Effect`,
  `Step`, `Invocation`, `Screen`).
- `src/laws.rs`, `src/worker_laws.rs` and `src/ui_laws.rs` state and prove what holds of all of
  this: a remembered port is asked for again, an app that is hidden, muted or on a paused host is
  never forwarded by itself, the user's own ControlMaster is never ended, and so on.
- `tests/` runs the library on concrete inputs.
- `app/` is the program around it: it runs `ssh` and `ps`, binds sockets to see whether ports are
  free, keeps `state.json`, and draws on the terminal.

## Keys

| Key | Action |
| --- | --- |
| `↑` `↓` / `j` `k` | select an app |
| `Enter` / `e` | type a local port for the app — checks availability, pins it |
| `f` | toggle forwarding for the selected app |
| `h` | hide an app, or unhide a port |
| `o` | open `http://127.0.0.1:<port>/` in your browser |
| `a` | show/hide system ports (sshd, DNS, …) |
| `p` | pause/resume auto-forwarding |
| `r` | rescan now |
| `q` | quit — cancels our forwards, closes our masters |
