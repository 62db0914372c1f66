# comms_rs

Building blocks for DSP communication pipelines, with the integer and
control logic verified by Verus.

## Layout

- `src/` is the verified library:
  - `prn`: pseudo-random bit generators built on a Fibonacci LFSR.
  - `modulation`: BPSK and QPSK mapping of bits and bytes to symbols.
  - `filter`, `fir`: complex FIR filtering on 8, 16 and 32-bit integer
    samples, sample by sample and in batches, and the nodes that keep the
    filter state.
  - `pulse`: pulse shaping (symbol followed by zeros, then a FIR filter).
  - `util`: decimation and zero-stuffing upsampling, collecting samples into
    fixed-size blocks, rectangular taps, errors.
  - `io`: the raw IQ byte format (interleaved 16-bit parts, in the host's
    byte order or in a given one).
  - `hardware`: nodes around generic radios, and the command sequencing of an
    RTL-SDR tuner.
  - `node`: node errors, the node interface, and `NodeCycle`, which decides
    the order of receives, the run and the sends of one node cycle.
- `app/` is ordinary Rust around the library: threads and channels that run
  the nodes, files, ZeroMQ, the RTL-SDR device, plotting, random sources,
  and the floating-point signal processing (mixers, FFTs, tap design,
  estimators, FM demodulation).
- `tests/` runs the library on concrete values.

Each public function in `src/` states its result in its `ensures`; the
properties that relate several calls (a decimation undoes an upsampling,
filtering in two batches equals filtering in one, decoding in a byte order
what was encoded in the same order gives it back, a tuner request ends at
its first failing command, and so on) are public proof functions next to the code they
describe.
