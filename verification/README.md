# WAVE

WAVE is an audio effect for inspecting kicks and other transients while
listening in a DAW. It passes stereo audio through unchanged and shows the
latest completed beat window as a peak-preserving min/max envelope of 1,024
columns.

The library in `src/` is written in Verus. It holds what the effect decides and
computes, with machine-checked contracts:

- `rounding`, `float`, `binary`, `decimal`: binary32 and binary64 arithmetic on
  bit patterns, exact to the last bit, and fixed-point text.
- `window`, `timing`, `envelope`: beat windows, transport, phases, min/max
  columns.
- `publication`, `view`, `coherence`: the double-buffered publication, the view
  that a reader takes of it, and why an accepted view is coherent.
- `engine`, `guarantees`: the capture engine block by block, and what holds of
  it over any number of blocks.
- `pacing`, `readers`: at most sixty previews a second, and what readers can
  rely on after any calls.
- `aliasing`, `ports`, `stereo`: the boundary to a host's buffers and buses.
- `geometry`, `offset`, `chart`, `display`, `paint`, `waveform`,
  `waveform_paint`, `panels`, `editor`: what the editor shows, paints and does
  with input.

`tests/` runs the library on concrete values. `app/` connects it to CLAP and
VST3 hosts (Toybox) and to the retained editor (Radiant).
