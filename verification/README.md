# signal_filters

Filters and buffers for digital signal processing, verified with Verus:
first-, second- and third-order low-pass filters (`Pt1Filter`, `Pt2Filter`,
`Pt3Filter`), a biquad filter usable as low-pass or notch filter, median
filters, a slew rate limiter, a moving average filter, and circular and
rolling buffers.

## Layout

- `src/` — the verified library.
  - `numeric.rs`: the arithmetic traits the filters are generic over, each
    operation with a spec function naming its result and a predicate saying
    when it is defined; exact, verified implementations for `i32`.
  - `filters.rs`: the `SignalFilter` interface and `filter_using`.
  - one module per filter or buffer, each with its contracts and the laws
    that hold of it (proof functions named `lemma_*`).
- `app/` — the floating-point and vector instances: `F32`, `F64` and wrappers
  of `vqm` vectors implementing the arithmetic traits, the `Pt1Filterf32`-style
  aliases, and a `serde` copy of `BiquadFilterCoefficients`.  Floating point
  is not modelled by the verified library.
- `tests/` — tests of the filters over `f32` (through a thin wrapper) and
  over `vqm` vectors (through wrappers), and tests of the `i32` instances and
  of the laws on concrete values.
