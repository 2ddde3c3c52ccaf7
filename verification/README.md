# copycopy

Turns a global **Ctrl/Cmd + C + C** gesture into a structured capture: the
clipboard content plus the foreground app (name, window title, browser URL, PID).
A single copy is never captured, which is proved of the library. That it is not
consumed either rests on the key hooks in `app/`, which only listen.

The decisions are made by a library verified with Verus; everything that touches
the operating system is ordinary Rust around it.

- `src/` is the library. Its contracts say exactly what each function returns, and
  the `law_*` proof functions state what holds of the library as a whole.
  - `detector`, `throttle`, `listener`, `listener_macos`: from key events to "start a
    capture now".
  - `capture`, `clipboard`: one capture, as a state machine that asks for the
    foreground window, for polls of the clipboard's change counter and for the
    clipboard's content, and ends with an event.
  - `path`, `rich`, `text`, `list`, `time`: file references as paths, markup that
    carries formatting, and helpers.
  - `gnome`: session detection, and installing, enabling and listening to the GNOME
    Shell extension.
- `app/` hooks the keyboard, looks at windows, reads the clipboard, talks to D-Bus
  and writes files. It also carries the types that are serialized.
- `tests/` runs the library on concrete values.

Three functions of the standard library are taken on trust, in `src/text.rs`:
`String::from_utf8_lossy`, `str::to_lowercase` and `str::to_uppercase`.
