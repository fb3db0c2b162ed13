# mcap

A reader for [MCAP](https://mcap.dev) files that yields one record at a time, verified with Verus.

The library does no I/O. `read::RecordReader` is a state machine: it says which read comes next, is
told how the read went, and goes on to the next read, to a chunk that has to be opened or closed, or
to a record. A host performs the reads and puts the decompressors in place; `app/` is one on top of
tokio.

- `read`: the reader, and the footer at the end of a file.
- `chunk_header`: the header of a chunk record, read piece by piece.
- `records`, `parse`, `cursor`: the records and the meaning of their contents.
- `encode`: how records are written down, and the proof that `parse_record` reads them back.
- `stream`, `laws`: a model of a host and its input, which gives its bytes in pieces of any size,
  and what the reader makes of whole files. `lemmas` holds the proofs.
- `codec`, `error`: integers and texts, and the ways in which reading can fail.

What is taken on trust is in `codec` (little-endian integers from `byteorder`, UTF-8 from the
standard library) and in `error` (two error types that are passed on unseen).
