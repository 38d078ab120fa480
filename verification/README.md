# rcat

A terminal file viewer for text, hex and beyond, whose logic is verified with Verus.

- `src/` is the library. Its functions carry `requires`/`ensures` contracts
  that Verus proves; the trait methods left to implementations (those of
  `FileProbe`, and `name`, `can_handle` and `dump` of `FileViewer`) promise
  nothing beyond their types, and the library states what it does with their
  answers. The contracts cover text layout and
  wrapping, hex rows, dumps, file classification, the JSON viewer's tiers and line/byte mapping, the plugin
  protocol's decisions on both sides, the viewer registry and the interactive
  viewer's state machine. Public `proof fn`s state the laws that span functions
  (for example, that switching between byte viewers keeps the byte offset, that
  wrapped rows concatenate back to the line, and that a session's `read_bytes`
  can be read back).
- `app/` is the program around it: the command line, files and processes, the
  terminal and its drawing, and the few numbers computed with floating point.
- `tests/` runs the library on concrete inputs.

Calls into `serde_json`, `memmap2` and std that the library makes go through a
small set of trusted wrappers, each documented with what its contract claims.
