# tui_components

Layout engines and interaction state machines for terminal user interface components,
written in Verus: every function in `src/` carries a contract, and the verifier proves all of
them but those of a few trusted wrappers around calls into outside crates (see below).

## Layout

- `src/geometry.rs`, `src/space.rs`, `src/flex.rs`, `src/grid.rs`: rectangles, padding and
  gaps; sharing space among fixed, content-sized and filling children; flex rows and columns;
  grids with spans and separators.
- `src/keys.rs`, `src/text.rs`: key presses and bindings; display widths, truncation and the
  string helpers the views use.
- `src/list.rs`, `src/menu.rs`, `src/dropdown.rs`, `src/form_field.rs`: a scrolling list, a
  popup menu, a dropdown with search and single or multiple choice, a labelled form field.
- `src/list_control.rs`, `src/reorder.rs`, `src/tree_reorder.rs`: the add and edit form of a
  list control, where its parts go and which handlers an event is offered to, reading keys for
  a move of rows, picking rows and moving one row or a block of picked rows by keyboard in a
  flat list, and picking and moving sibling rows of a tree.
- `src/diff.rs`: a diff viewer: the line diff, hunks, raw patch, inline, side-by-side and
  word views, and wrapping.
- `src/image.rs`: image payloads, decoding them, and the terminal graphics commands that
  carry them.
- `app/`: what stays outside the verifier: drawing into ratatui buffers, reading images
  from files and the network and encoding them for terminal protocols, turning terminal key
  events into the library's keys.
- `tests/`: tests of the library on concrete values.

Where a computation rests on an outside crate (text widths and layout splits from ratatui, base64 decoding, image decoding), a small trusted wrapper makes the call
and its contract says what the crate's source shows, naming the result where it takes more
than a few lines to state; everything around it is verified. `String::push` is the one std
call given such a wrapper.
