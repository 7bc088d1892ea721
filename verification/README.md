# dbui-ui

The surfaces of a database client: grid, sidebar, editor, sheets, menus, palette
and panels. The library decides what each surface shows and what each key or
click does. Its functions carry contracts that Verus proves; only the few that
wrap a call into `std` or `serde_json` carry contracts that are believed.

- `src/`: the library. Each surface has a module; `text`, `keys`, `domain`,
  `text_input` and `text_field` hold what they share. A `render_*` function
  takes the state that a surface reads and returns what it draws; a `handle_*`
  or `run_*` function takes the state and an event and says what happens next.
  Public proof functions state what holds of a surface as a whole.
- `tests/`: the library run on concrete values.
- `app/`: what the library cannot hold: figures in floating point, easing and
  scrollbar geometry, files on disk, and what the system is asked.

Colours appear as tones and positions as whole numbers of pixels; painting is
left to the window toolkit.
