# anytask

The logic of a desktop task client for Anytype spaces, written in Verus.

- `src/` is the verified library: the ordered state that the engine's
  subscription events keep (`spaces`, `sets`, `list_objects`,
  `relation_options`, `set_meta`, routed by `dispatch`), the tiling layout
  in which an object's relations are shown (`tile_tree`, with its laws in
  `tile_laws`), the navigation history (`history`), the parsing of space
  invite links (`invite`, which calls the `url` crate), the account that
  recovery selects (`session`), and the small rules
  of the interface (`property_rows`, `styles`, `actions`, `action_bar`).
- `tests/` exercises the library on concrete values.
- `app/` is the program around it: starting the embedded engine, settings
  files, the credential store, and the conversion of the engine's protobuf
  values and of the stored JSON into the library's types.
