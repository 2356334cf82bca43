# cscp_connector

The verified core of the CSCP shared-memory transport, which connects a
simulator (the environment side) and a controller through one POSIX shared
memory region holding a header and two bounded single-producer /
single-consumer rings of 128-byte frames.

- `src/` is the library, checked with Verus:
  - `ipc/spsc_queue.rs` — the frame type, the ring index arithmetic
    (`plan_push`, `plan_pop`, `queue_len`) and the ring itself, `SpscQueue`,
    whose contracts describe it as a FIFO queue of at most `N` frames;
  - `ipc/layout.rs` — the region header (signature, ABI version, shutdown
    flag), the region size, and the endpoint decisions on publish and receive;
  - `ipc/shm_region.rs` — the POSIX object name of a region;
  - `ipc/controller.rs` — the controller tool's per-frame decision and the
    tools' logging cadence;
  - `latency.rs` — the benchmark's round-trip report reader;
  - `error.rs`, `shm.rs` — the error type and the frame dimensions.
- `app/` is the operating-system side: `shm_open`/`mmap` through `libc`, the
  atomic counters and slots in the mapped region, the floating-point leaky
  bucket, the `EnvSide`/`CtrlSide` handles and the three command-line tools.
- `tests/` exercises the library.
