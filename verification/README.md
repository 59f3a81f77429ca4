# ndir_sensor

Verified signal processing for an NDIR (non-dispersive infrared) gas sensor
whose IR lamp is toggled ON and OFF every half-period.

- `src/filter.rs` — rail detection on raw ADC readings and the median-of-5
  sliding window (`Median5`), with its laws: the window holds the last five
  samples, the median is one of them, does not depend on arrival order, and
  a value held by more than half of the window wins over short spikes.
- `src/sensor.rs` — the lamp pairing state machine (`NdirState`): ON samples
  pair with the next OFF sample, pairs whose reference channel barely moved
  are dropped, and the first valid pairs build the ambient baseline until it
  locks.
- `src/report.rs` — the integer side of the log formatting: `s.mmm` time
  stamps and fixed-decimal numbers with exactly the requested digits.
- `app/` — the Teensy 4.1 firmware (RTIC tasks, ADC, lamp and LED pins, USB
  logging) and the floating-point stages: EMA smoothing, the ratio, baseline
  mean, response and absorbance.
