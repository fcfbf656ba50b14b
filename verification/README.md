# ProxyPilot

ProxyPilot sits in the tray of a Windows machine and keeps a local proxy bridge
pointed at whichever upstream is reachable. This crate is its logic, written and
proved in [Verus](https://github.com/verus-lang/verus), with the program around it.

## Layout

- `src/` is the verified library. Every function states what it returns, and the
  public proof functions at the end of the modules state what holds of several
  of them together.
  - `model` — configuration, mode, route, network.
  - `text` — numbers, white space, splitting and joining.
  - `number` — numerals and the floating point numbers that they stand for.
  - `proxy` — taking over the proxy settings of the system and giving them back.
  - `doctor` — the self-diagnosis.
  - `tunnel` — what the log and the routes say of the tunnel.
  - `icons`, `tray` — the icon, the menu, the end of the session.
  - `settings_page` — the form, the page and its buttons.
  - `websrv` — who is answered what, tokens, bodies, responses.
  - `update` — JSON, versions, paths, releases, looking for an update, installing
    it.
  - `lifecycle` — arguments, start, commands, window messages, the way out.
- `tests/` runs the library on concrete values.
- `app/` is the program: it reads, writes, waits and shows. `app/platform.rs`
  lists what it needs of the system; `app/win32/` provides that on Windows.

Where work of the outside world and decisions take turns, the library holds the
decisions as a step from a state and an event to the next state and an action,
and the program carries the actions out.

## What is taken on trust

Five functions of the standard library, each declared next to its use:
`String::push`, `str::from_utf8`, `String::from_utf8_lossy`, `char::from_u32` and
`std::hint::black_box`.
