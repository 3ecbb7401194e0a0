# snag

A local PTY session multiplexer: a daemon owns shells on pseudo-terminals,
keeps their recent output, and lets clients list, attach to, read, search
and drive them, or take over terminals that were started elsewhere.

- `src/` is the library, written in Verus: the scrollback buffer, the
  session registry and how names and ids resolve, the daemon's request
  handlers, terminal discovery from `/proc` text, message framing, key
  handling for `attach` and the session browser, report formatting, and
  the text processing they share. Verus proves each function there
  against its contract, except the few small wrappers marked
  `external_body` that call std, `getrandom` or `hex`: their contracts are
  trusted, and their doc comments say what they claim. The laws that
  relate several operations are public proof functions beside them.
- `app/` is the program around it: argument parsing, sockets, the event
  loops, pseudo-terminal system calls, serialisation and drawing.
- `tests/` runs the library on concrete values.
