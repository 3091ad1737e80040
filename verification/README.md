# pf

An SSH port-forward manager. Forwards to the same machine share one multiplexed
ssh connection. State is declarative: commands edit what a machine is *desired*
to forward, and one watcher per machine reconciles reality to match it.

## Layout

- `src/` is the library, written in Verus. Every function states what it does,
  and Verus proves it.
  - `session/` holds what a watcher decides: the difference between intent and
    reality (`reconcile`), carrying it out over ssh (`ssh`), the watcher as a
    state machine (`machine`), what it leaves behind (`watcher`), and which files
    a session owns (`store`).
  - `tui/` holds the dashboard: the tree of machines and its cursor (`tree`,
    `state`), what each key does (`keys`), and what is shown (`ui`).
  - The rest is what the commands need: paths and host keys, profiles, hosts from
    ssh's configuration, retry pacing, listings.
- `app/` is the program around it: arguments, files, processes, signals, and the
  terminal.
- `tests/` runs the library on concrete values.

Functions named `law_…` are proofs of what holds across several operations: one
pass over the difference leaves nothing to do, losing the master attaches
everything again, only a retired session loses its intent, the cursor stays on
what it stood on.

## What is not proved

A few functions are believed rather than proved, because they call code outside
the library: the clock and the calendar (`chrono`, `std::time`), the home
directory (`dirs`), whether a process is alive (`nix`), Unicode lowercase, the
text of bytes that may not be UTF-8, and appending a character to a `String`.
Each of them says in its comment what is claimed.
