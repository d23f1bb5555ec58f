# gemma4_fixture

The host-side logic of the Gemma 4 decoder-kernel fixture test, verified with Verus.

- `src/prng.rs` — the input generator: FNV-1a seed hashing, the per-element 64-bit word,
  bf16 rounding of f32 bit patterns, and the integer tensor synthesizers (random-sign bf16,
  banded f8 E4M3, packed f4 E2M1).
- `src/checksum.rs` — the weighted little-endian word checksum stored for every input, and
  the law that checksums compose over concatenation.
- `src/keys.rs`, `src/suite.rs` — the `run{N}.{test}.{label}` naming scheme and the tests it
  names.
- `src/header.rs` — the safetensors framing, and the test, made before a file reaches the
  safetensors crate, of whether the end of its declared tensor data plus its header length
  passes `usize::MAX` (where the crate's unchecked addition would overflow).
- `src/fixture.rs` — reading the reference safetensors file into expectations and checksums,
  and confirming synthesized inputs against it.
- `src/runs.rs` — the per-run RoPE position and the median cycle count.
- `src/profile.rs`, `src/text.rs` — cycle-window bookkeeping per NPU cluster and the
  environment settings of the profiler.
- `src/tables.rs` — byte layout of the RoPE tables and the KV-cache ring.
- `src/report.rs` — output labels in the report, pass/fail verdicts and the exit status.
- `app/` — the test binary: file and device I/O, kernel launches, floating-point synthesis
  and comparison, and the `tracing` subscriber; `app/device/` holds the NPU kernels, which
  are `furiosa-opt-std` device programs on floating-point tensors.
