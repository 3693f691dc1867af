# embassy-defmt-usb

A verified drain transport for [defmt] logs over a USB CDC-ACM port of an [embassy] device, with
SEGGER RTT as a second way out.

```
defmt frame
    └─ encoder::MultiEncoder
            ├─ rtt::RttChannel   →  debug probe
            └─ buffer::Controller (double buffer)
                    └─ drain::UsbDefmtTask  →  CDC-ACM bulk IN  →  host
```

## Layout

- `src/`: the library, verified with Verus. It does no I/O and holds no shared state.
- `app/`: the shared state, the USB builder and endpoint calls, and a ready-made global logger.
- `tests/`: tests of the library on concrete values.

## Loggers

A binary brings its own `#[defmt::global_logger]` and calls `write` and `swap` of `app/` from
within it, or it invokes `register_global_logger!()` once. The latter registers a logger that
writes every frame to SEGGER RTT and to USB, for Cortex-M boards debugged via probe-rs or OpenOCD.

## What is assumed

The contracts of the outside functions that the library calls stand with their declarations in
`src/time.rs` (`embassy_time::Duration`) and `src/encoder.rs` (`defmt::Encoder`). The `defmt`
encoding is fixed to `encoding-rzcobs` in `Cargo.toml`, because the library states how that
encoding separates frames.

A caller that shares a `Controller` between contexts holds a critical section around each call.

[defmt]: https://defmt.ferrous-systems.com
[embassy]: https://embassy.dev
