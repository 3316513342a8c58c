# scky-fc

Flight-controller firmware for the DAKEFPVH743 board, with its core as a
verified library.

- `src/` is the library, written and proved in Verus: the serial decoders (CRSF,
  MSP v2, TF-Luna, NMEA, ESC telemetry), the ESC manager and the DShot frames and
  waveforms, the MAVLink 2 encoder and the telemetry schedule, the bring-up of the
  IMUs, the compass and the barometer, and the rules that say when a sensor is
  used. Public proof functions named `law_...` state what holds of several
  functions together.
- `app/` is the firmware around it: the RTIC tasks, the buses, the registers, and
  the floating-point filters. `app/bin/` holds the bring-up images, each a program
  of its own.
- `tests/` run the library on concrete values.

Single-precision numbers travel through the library as bit patterns
(`float::F32Bits`), which it moves, negates and compares. Arithmetic on them is
handed in by the caller as a function.

The library rests on `heapless::Vec` for its frames; what it takes for granted of
it is stated at the top of `src/mavlink.rs`.
