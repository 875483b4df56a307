# htipc

Talking to other processes on the same machine through Windows named pipes and
through shared (memory-mapped) pixel buffers.

- `src/` is the library, verified with Verus:
  - `plain`: values stored as little-endian bytes, with a proved round trip;
  - `memorymappedfile`: bounds-checked typed reads and writes of a shared
    region, its 32-byte header and its pixels, with laws such as "a read gives
    back what a write wrote";
  - `canvas`: one-byte-per-pixel drawing (fill, copy, lattice pattern);
  - `pipe_args`: the arguments of a pipe request, the text it sends, and the
    command lines built from host-language values;
  - `namedpipe`: requests, connect timeouts, reply accumulation, line joining
    and wildcard search of pipe names;
  - `pipe_line`: the errors of a one-shot line exchange (connect, write one
    line, read to the end);
  - `control`: the Ctrl-C handler and bounded waits of the tool.
- `app/` is the command-line tool: argument parsing, opening mappings and
  pipes, printing.
- `tests/` runs the library on concrete values.
