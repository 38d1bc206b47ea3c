# search

The backend of the Stork static-site search tool, as a verified library.

- `src/cli.rs`: the command-line parser (`Argparse`). `exec` decides what an
  argument vector asks for (help, a registered command, or an error message);
  its contract states the decision and every message exactly.
- `src/index/v1/file_format.rs`: the index file framing (two blocks, each
  preceded by its big-endian length), with the proof that reading a framed
  file gives back what was framed.
- `src/index/v1/structs.rs`, `src/searcher/mod.rs`, `src/config/file.rs`:
  the data model of an index, of search output and of an input file.
- `src/text.rs`: decimal rendering and thousands grouping.
- `app/`: the `stork` binary and the serialization (MessagePack, JSON) of
  the library's types.
