# PhiMakor

A chart editor for rhythm games. The logic of the editor is a library that is verified with Verus;
the program around it is ordinary Rust.

- `src/` holds the library. Every function in it has a contract that Verus proves, but for the few that
  only call into other crates and say so. Properties that
  relate several functions stand as proof functions whose names begin with `law_`.
- `tests/` runs the library on concrete values.
- `app/` is the program: windows, the graphics device, files and sockets, and all geometry, which
  is floating-point arithmetic.

Numbers that are not whole are held in the library as the bits of their single- or double-precision
form, times as nanoseconds, and places in beats as ticks of which a beat has 2^32.

| Modules | What they hold |
| --- | --- |
| `strings`, `bytes`, `digest`, `floats`, `single`, `order` | texts, byte order, SHA-1 and base64, bits of floating-point numbers, stable sorting |
| `websocket`, `http`, `mirror`, `player_page` | the mirror: frames of a WebSocket, requests, snapshots |
| `glsl`, `shaders`, `effects`, `post` | effects: shader sources, chains of effects, the passes of a frame |
| `text`, `fonts`, `texture`, `scene`, `fx`, `renderer`, `preview`, `engine`, `debug` | what a frame draws, and in which order |
| `library`, `loading`, `splash` | the chart library, reading charts in the background, the chart list |
| `beats`, `notes`, `events`, `timeline`, `loops`, `frame`, `panels`, `forms` | places on the grid, notes and events, the loop, the clock, the panels |
| `keys`, `editor`, `pointer`, `scripting` | keyboard, pointer, and the checks of scripts |
