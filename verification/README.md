# linear-tools

A library for Minecraft region files in the Linear format, verified with
Verus, and a small command-line program around it.

- `src/bytes.rs` — big-endian integers: specifications, verified readers and
  writers, and the byteorder calls.
- `src/parse.rs` — splitting a path and reading a decimal `i32`.
- `src/compression.rs` — the zstd calls and the names of their results.
- `src/converter.rs` — regions and chunks, the region file name, and the
  whole Linear file: decoding, encoding and header checks.
- `src/converter/linear_v1.rs` — the Linear file taken apart into superblock,
  chunk data and footer.
- `src/converter/linear_v2.rs` — the version 2 superblock and chunk bitmap.
- `src/laws.rs` — properties that relate writing, reading and checking files.
- `app/` — the command-line program: argument parsing, file input and
  output, and the thread pool.
