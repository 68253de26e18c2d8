# rustlab

A Verus-verified library of small system-programming tools, with a thin command-line
program around it.

- `src/` — the verified library:
  - `tp_alloc`: the block table of a first-fit arena allocator (find, mark, allocate,
    free) with its laws (freeing undoes an allocation, allocations never overlap);
  - `pwdchk::account`: `login:password` accounts, their parsing and grouping by
    password;
  - `pwdchk::hibp`: the computing side of a "Have I been pwned?" range check
    (SHA-1 prefix/suffix split, grouping by prefix, reading `SUFFIX:COUNT` pages,
    the sorted report);
  - `pwdchk::scanner`: host/port planning for a TCP scan, CIDR expansion, port lists
    and the verdict on a connection attempt;
  - `check_elf`, `french`, `zero_arith`, `text`, `counting`: an ELF sniffer, numbers
    in French words, zero-on-failure arithmetic, verified text helpers and counting
    lemmas.
- `app/` — ordinary Rust: the command line, file and network I/O, timing, the
  parallel hashing, the `GlobalAlloc` impl over a static arena and token-stream
  transformations.
- `tests/` — tests run against the compiled library.
