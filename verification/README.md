# webterminal

The core of a self-hosted hub for terminal sessions, written in Rust and verified with Verus.
The server owns the terminals. Browsers watch them and type into them, come and go, and find
recent output when they come back. tmux keeps the sessions alive, on this machine or over SSH.

- `src/` is the verified library. It does no I/O: it takes what was read and gives what is to be
  written, told or run.
- `app/` is the server around it: HTTP and WebSocket endpoints, pseudo terminals, the file in which
  sessions are remembered.
- `tests/` runs the library on concrete values.

| Module | What it holds |
| --- | --- |
| `text`, `table`, `order` | text, maps keyed by text, stable sorting |
| `outside` | UTF-8 decoding, ids and time |
| `quote`, `keys`, `wire` | quoting for the shell and for tmux, keystrokes, tmux's line format |
| `replay` | the output that is held for viewers who come later |
| `transfer`, `commands` | files that go through the terminal |
| `panes`, `control` | windows and panes, and what is known of them |
| `launch`, `store`, `registry`, `lifecycle` | how sessions start, are remembered, come back and end |
| `session`, `requests`, `reader`, `viewer` | a session, what is asked of it, what it reads, who looks |
| `*_laws` | what holds of several of these together |
