# rustanium

A verified model of a small fault-tolerant kernel: page frames protected by
SECDED error-correcting codes, a background scrubber that repairs single-bit
flips and moves pages with uncorrectable words to fresh frames, a process
dispatcher that hot-swaps a process onto a new frame when its page fails,
triple-modular-redundant execution with a majority voter, an inode-based
file system stored in protected frames, and the shell, terminal and
dashboard logic around them.

Layout:

- `src/` is the library. Every function in it is verified with Verus against
  its `requires`/`ensures` contract; the public proof functions named `law_*`
  state properties that span several calls (ECC round trips, read after
  write, path normalization, and so on).
- `tests/` runs the library on concrete values.
- `app/` is the thin executable around the library: console I/O, the
  interactive loop and the x86 port access that cannot be verified.
