# rmd5

A verified library for an `md5sum`-compatible checksum tool: MD5 digests
(computed by the RustCrypto `md-5` crate), their hexadecimal text, the
`md5sum` line format with its escaping of file names, the `md5sum -c` line
reader, command-line parsing, and the bookkeeping of a check run.

- `src/` is the library, verified with Verus. Modules: `md5` (hasher and hex
  text), `format` (checksum lines), `check` (reading entries, outcomes,
  warnings), `cli` (arguments), `number` (decimal text), `file_hash` and
  `cache` (read buffers, read plans, chunked hashing, cache decisions), `jobs`
  (worker count and results in task order), `text` (string helpers and UTF-8
  facts).
- `app/` is the program around it: argument and file I/O, threads, and the
  operating-system cache calls.
- `tests/` exercises the library on concrete values.
