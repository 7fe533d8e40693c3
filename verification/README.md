# haydn

A stack machine driven by musical events, with the pieces around it:

- `src/vm` — the machine: nineteen opcodes, loop recording and replay, edge cases that
  never stop it. `spec.rs` states what one step does; `laws.rs` holds properties of it.
- `src/tuning` — tuning files: validation, compilation into ordered rules, mapping notes
  to machine events, and the built-in piano tuning.
- `src/score` — a LilyPond-like note language read into notes and rests, playback
  positions, and the events of a MIDI file track.
- `src/session` — live MIDI input: decoding note messages, playing notes through a tuning
  and the machine, and the log lines and summary of a session.
- `src/performer` — synthesis choices and interpreting a score alongside playback.
- `app/` — the `haydn` command-line program: MIDI ports, the terminal dashboard, reading
  tuning files from TOML.
