# actool

A compiler for asset catalogs and `.icon` bundles, written in Rust and verified
with Verus.

- `src/` is the library.  It works on values in memory: a folder tree goes in,
  the bytes of a `.car` archive and of the files beside it come out.  Each
  function states what it returns; the modules whose names end in `_laws` state
  what holds of several of them together, such as what a reader finds in a
  written archive.
- `app/` is the command-line tool: arguments, files and JSON, the drawing of
  icons in floating point, and the system frameworks that are loaded while it
  runs.
- `tests/` runs the library on small catalogs, images and bundles.

What is not proved is what the library takes from other crates: integers in
bytes (byteorder), LZFSE and gzip streams, the decoding, measuring, scaling and
encoding of images (image, png), property lists (plist), regular expressions
(regex) and ordered maps (indexmap).  Each
such call stands behind one small function or declaration whose comment says
what is relied on.
