# executorch_prebuilt

Fetches the prebuilt ExecuTorch runtime for Apple and Android targets and
emits the cargo directives that link it.

- `src/` is the library, verified with Verus: the Swift package manifest
  grammar, the release locations and file names, the listing of a release
  archive (through the `zip` crate) and which of its entries are unpacked
  and where, the SHA-256 check of a streamed download,
  target and feature selection, and the link and archive-merge steps of a
  build script.
- `app/` is the program around it: HTTP downloads, the file system, environment variables and the `libtool` and `xcode-select`
  processes. It hands the library plain values and carries out the steps the
  library returns.
- `tests/` runs the library on concrete inputs, and checks the manifest
  matcher against the `regex` crate on the same patterns.
