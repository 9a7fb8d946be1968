# open_rdma_driver

A user space driver for an RDMA card.

- `src/` is the library. It is written in Verus: what each function does is
  stated in its `requires` and `ensures` clauses and proved. It holds the
  driver's data types, the layout of descriptors and packets, the bookkeeping of
  messages that are received, sent and sent again, the rings, the scheduler, and
  a card in software.
- `tests/` holds tests of the library.
- `app/` is ordinary Rust around the library: threads, sockets, registers and
  memory.

Two functions of other crates are called from the library, and believed rather
than proved: `crc32fast::hash` in `responser`, and the random numbers of `rand`
in `pd`.
