# SimTrace

SimTrace shows the pedal, steering and speed telemetry of a racing simulator in
an overlay. It listens for the UDP telemetry of EA SPORTS F1 (formats 2025 and
2026), keeps a sliding window of samples, detects locking front wheels, and
draws traces, meters and shift lights.

The library in `src/` is verified with Verus. It neither draws nor receives:
`app/` owns the window, the socket, the graphics device and the settings, hands
the library plain values, and paints the shapes that it returns.

## Layout

- `binary32`, `arithmetic`, `exactness`, `length`, `direction`, `numeral`: single-precision
  numbers as bit patterns, with correctly rounded operations. Nearly all numbers
  of the library are of this kind, so every result is stated exactly.
- `double`: rounding to double precision, for the capacity of the buffer and the
  marks of the time axis.
- `time`, `text`: spans and moments, and text built from numbers.
- `model`, `buffer`: telemetry samples and the sliding window over them.
- `plugins`: the providers of telemetry and their configuration.
- `f1`: headers, packet layouts, the pairing of packets by frame, the choice of a
  decoder by packet format, and diagnostics of what was received.
- `renderer::brake_limit`: the detector of locking front wheels.
- `renderer::hud` and the modules around it: the F1 display as shapes, light and
  labels.
- `renderer::overlay`, `window`, `classic`, `track_strip`, `config_panel`: the
  state of the overlay window and its classic layout.

Modules named `*_laws`, and functions named `law_*`, state what holds across
several operations.

## What is taken on trust

The clock (`std::time::Instant`), `str::trim`, `str::to_lowercase`, and
`egui::Color32::from_rgba_unmultiplied`. Powers, exponentials, sines and cosines
are computed in `app/` and handed to the library as numbers.
