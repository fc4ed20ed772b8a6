# Karaoke Booth

A live voice booth for Windows: microphone in, amplified and pitch-corrected
voice with reverb, echo and character effects out, optionally mixed with a
backing track and sent on to a virtual audio cable for Discord.

## Layout

- `src/` — the verified library (Verus):
  - `text` — ASCII case folding, infix search, name order and decimal
    rendering over the character view of strings;
  - `devices` — recognising virtual cables and loopback inputs by name, the
    device listing order (a proved stable sort), and the choice of cable;
  - `pitch` — pitch classes, scales, snapping a pitch to the nearest scale
    note and note names;
  - `pcm` — cutting captured bytes into frames, reading channel samples and
    laying out output frames, with the read-back laws;
  - `signal` — delay lines, sample-and-hold, the detection hop counter and the
    noise generator, with their history laws;
  - `track` — backing-track frame counts and the decoding loop's decisions;
  - `control` — routing, the wait for the output device, autosave timing and
    the shared key/scale slots.
- `app/` — the program: the egui window, the WASAPI threads, file decoding and
  all floating-point signal processing, calling into the library.
- `tests/` — tests of the library on concrete values.
