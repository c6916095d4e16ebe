# epd-waveshare

Verified driver logic for the Waveshare 7.5" (V2) e-paper panel, 800x480, UC8179
controller.

- `src/operation.rs`: device operations as resumable state machines. A driver
  method lays out a `Plan`; the caller performs the `Action`s of the resulting
  `Operation` and answers with `Reply`s.
- `src/interface.rs`, `src/script.rs`: commands, data, waits and resets, and the
  pin changes, writes and delays that they stand for.
- `src/epd7in5_v2/`: the panel. `sequences.rs` holds its command sequences,
  `laws.rs` what is proved of each, and `session.rs` what is proved of any sequence of
  calls.
- `src/runs.rs`, `src/wire.rs`, `src/packets.rs`, `src/stops.rs`,
  `src/spacing.rs`, `src/timing.rs`, `src/caps.rs`: theory of whole runs. What reaches
  the panel, how an operation can be cancelled or time out, how long it takes, and what a
  time cap changes.
- `app/`: performs operations on `embedded-hal` and `embedded-hal-async`
  peripherals.
