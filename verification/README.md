# recurrent_visualizer

Recurrence plots of live audio. Three channels are drawn as
`|in1[x]-in2[y]| * |in1[x]-in3[y]| * |in3[x]-in2[y]|`, two as `|in1[x]-in2[y]|`,
over a sliding window of the most recent samples.

`src/` is the library, verified with Verus. It holds what decides what is drawn
and what the program does:

| module | what it holds |
|---|---|
| `bits`, `arith` | single-precision numbers as bit patterns, and the arithmetic unit |
| `lut` | the table that carries the contrast curve |
| `plot` | from windows of samples to pixels |
| `buffer`, `ring` | the windows, and the rings between the audio and the drawing thread |
| `app` | the state between two frames, and how a frame is made |
| `audio` | which device, which of its channels, and how its samples reach the rings |
| `config`, `text` | the command line |
| `osc` | remote control |
| `display`, `macos`, `session` | displays, fullscreen, and the event loop's decisions |

Numbers that round are asked of an arithmetic unit that the caller hands in: a
function from an operation and two bit patterns to a bit pattern. The contracts
hold for every such function; what they need of it, they say.

`app/` is the program: window, graphics, sockets and audio capture (JACK on
Linux, CoreAudio elsewhere). `tests/` run the library on concrete values.
