# Polarity-SC Dark

A spectral compressor: every bin of an FFT has its own upwards and downwards compressor, whose
thresholds follow a curve that can be drawn, matched to a signal or taken from a sidechain.

- `src/` is the logic, verified with Verus: the threshold curve, the compressors, the bank that runs
  them, the matching of levels and curves, frozen gains and their impulse response, the presets, and
  what the editor decides and draws.
- `app/` is the plugin around it: the host's parameters and audio, the GUI, files and FFTs.
- `tests/` runs the library on concrete values.

Floating-point values are held by their encodings. Comparing and selecting them is integer work;
computing new ones goes through the `Arithmetic` trait, of which nothing is assumed: contracts say
which operation was applied to which operands. Laws that need more of it, such as that sums keep the
order of their operands, name that as a condition.
