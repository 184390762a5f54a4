# mpdpopm

A companion daemon for [MPD](https://www.musicpd.org/) that maintains ratings, play counts & last
played times, & a command-line client for it. The logic is a library that is verified with
[Verus](https://github.com/verus-lang/verus).

- `src/` is the library. What each function does is stated in its contract: operations on the server are
  functions from the conversation so far to an outcome & the conversation after it. Proof functions
  whose names start with `law_` state what holds across functions: that breaking a message up into tokens undoes
  quoting, that a play is counted once, that a filter selects just the songs that it describes, that what
  the client asks for is what the daemon does.
- `app/` is the programs around it, `mppopmd` & `mppopm`: sockets, signals, processes, configuration files
  & logging. The name that the program is started under decides which of the two it is.
- `tests/` exercises the library against a server that keeps to a script.

The library rests on a few functions of `std`, of `regex` & of `chrono`, whose behavior is stated where they are
declared: in `src/text.rs`, `src/fields.rs`, `src/calendar.rs` & `src/playcounts.rs`.
