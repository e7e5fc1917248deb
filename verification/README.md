# terminal_display

A small terminal UI library: widgets draw styled characters into a `Buffer`,
stacks lay children out with a constraint solver, and the terminal front end
writes only the cells that changed since the previous frame.

## Layout

- `src/` — the library, verified with Verus. Every widget's `render` is proved to
  leave the buffer's size alone and every cell outside its area untouched; the
  leaf widgets (`Text`, `Block`, `Divider`, `Fill`, `ProgressBar`, `Spinner`,
  `Table`) state exactly which cells they write, and the composite widgets state
  what they draw in terms of what their children draw. `layout::solve`, `Buffer::diff`
  and the render-loop decisions in `terminal` carry exact contracts and laws.
- `app/` — the terminal front end: raw mode, the render and event threads, the
  crossterm output, the progress iterator adapter, the ring gauge (floating
  point) and the convenience macros.
- `tests/` — the test suite.
