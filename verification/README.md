# tessera

Shared-memory primitives for processes on one machine, verified with Verus.

| Module | What it is |
|---|---|
| `pool` | fixed slots handed out under leases; readers consume payloads by descriptor |
| `channel` | bounded, non-lossy byte channel: many senders, one receiver |
| `ring` | lossy broadcast ring: many writers, many readers, gap counting |
| `sink` | atomic file writing by worker processes, on top of pool and channel |
| `facade` | what language bindings need beside the handles |

Shared parts are `bytes` (little-endian integers in byte strings), `text`
(numbers in words), `digest` (BLAKE3), `namespace` (segment names) and
`lifecycle` (creating a segment, giving its name back).

## How it is laid out

The library in `src/` is a set of functions on plain values. A mapped segment
is a byte slice; a clock reading, a random draw or the outcome of a system call
is an argument. Every contract is stated over mathematical views: a pool is its
free list and its slot table, a channel is a queue, a ring is a log per
section.

Channel and ring are used by many processes at once. Their operations are step
machines (`channel::protocol`, `ring::protocol`) that say which word of the
segment is accessed next and what follows from what was seen. The sequential
operations run these machines on a slice; `channel::concurrent` and
`ring::concurrent` let any number of them run interleaved, one access at a
time, and prove what holds of every run.

The modules named `laws` state what holds across operations: that a read gives
back the write, that stale handles are refused, that messages arrive in the
order in which their places were claimed, that a payload is committed as it was
submitted.

`app/` maps segments, performs the accesses with atomic operations, runs the
worker processes and exposes the Python modules. `tests/` runs the library on
plain memory.

## What is trusted

* `blake3`: a hasher's digest is a function of the bytes it was fed.
* `crossbeam-queue`: the free list is a first-in, first-out queue.
* std: UTF-8 decoding, reading a `u32`, `{:?}` of strings and paths, and
  sharing through `Arc`.

Each is wrapped in one function whose contract says what is taken for granted.
