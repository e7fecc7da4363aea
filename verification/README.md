# Hookrunner

The rules of a small arena shooter, written in Verus and proved against
their contracts.

- `src/` is the verified library: nickname validation and the title-screen
  editor (keys and input-method text), the client session and the endpoint
  it connects to, the server's admission of players, the match clock,
  roster, scoreboard ranking, paging and text, the discrete per-tick player
  rules (health, death and respawn, jumps, dash charges, weapon cadence, map
  triggers), the compiled-map byte formats, the mip-atlas layout and mip
  chain, command-line options and the build check on the WebSocket upgrade.
  Laws that span several calls are public proof functions beside the code
  they speak of.
- `tests/` runs the library on concrete values.
- `app/` is the game and server around the library: Bevy and Lightyear
  wiring and UI, rendering, floating-point physics and geometry, random
  numbers, and I/O. It turns engine events into the library's plain values
  and carries out what the library decides.
