# TLS handshake benchmarking

Per-message and operation-level timing of s2n-tls and rustls TLS 1.3 handshakes.

The library in `src/` holds what the benchmark computes and decides, verified with
Verus. The program in `app/` reads and writes files, runs the profiling tools, reads
the clock and prints; it also does the floating-point arithmetic of the statistics.

## What is proved

- `durations`: the checkpoints of a handshake, put in chronological order, become one
  duration for each message. `duration_laws` states what holds of all of them: the
  durations fill the span between the first and the last checkpoint, they do not
  depend on when the clock was started, nor, where no two checkpoints have the same
  time, on the order in which they arrived, every handshake is measured under its own
  number, joined buffers are measured like each alone, and the two sides of a rustls handshake do not influence each other.
- `groups`, `summary`: every sample lands in exactly one group, no group mixes the two
  implementations, and the tables list the groups in the order of the handshake with
  the median of each.
- `keys`, `certs`, `rustls_run`, `s2n_run`: which calls a set of certificates, a pair of
  configurations and a handshake come from, and at which steps an error can come up. The
  rustls configurations offer `TLS13_AES_128_GCM_SHA256` alone and never resume a
  session. The s2n-tls configurations have a policy that prefers this suite, and a
  handshake that comes to another one counts as failed.
- `hotloop`: what a run does, step by step: 200 handshakes, a look at the clock, and
  then batches of 50 with a look behind each, until one is not before the deadline.
  Without time there is no batch, and with time there is at least one.
- `microbench`: how often a message is signed and checked, between which readings of the
  clock, and that a signature is accepted under its own key.
- `cli`, `profile`, `compare`: how the command line is read, which files and arguments
  the tools are given, and what follows each step.
- `text`, `order`, `cpuinfo`, `units`: numerals, the byte order of strings, stable
  sorting, the processor's model name, and the unit of a duration.

What rcgen, rustls, s2n-tls, aws-lc-rs and the clock do is stated in the modules whose
names end in `_backend`, and in `clock`. Keys, signatures and handshakes are random, so
most of these statements say of a result which call it came from and with which
arguments.

## Running

Per-message timing of rustls needs a rustls that emits checkpoints (its `timing`
module); s2n-tls emits them with the feature `unstable-events`.

```
tls-handshake-benchmarking [rsa2048|rsa3072|rsa4096|ecdsa256|ecdsa384] [output.json]
tls-handshake-benchmarking --compare <cert>
tls-handshake-benchmarking --flamegraph [--impl] <s2n-tls|rustls> <cert>
tls-handshake-benchmarking --microbench <rsa cert>
```

Profiling needs `perf` and the FlameGraph scripts on the path; a comparison also needs
`python3` and `analyze_fg.py`.
