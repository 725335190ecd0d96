# flexaudio

The deterministic heart of a desktop audio capture pipeline, written in Verus:
executable Rust whose behaviour is stated in contracts and proved.

```text
device --raw ring--> intake --> normalizer --> chunk rings --> owner
                       ^                                         |
                       +------- shared state <-------------------+
                       +------- watchdog
```

* `src/` is the verified library. Its state machines ask for what has to be
  computed in floating point, and for every act on the outside world, with
  steps; the caller answers with the outcome.
  * `normalizer`, `tap`, `resampler`, `frames`, `sample`: from device frames to
    chunks of one or two output formats.
  * `intake`: numbers, times, marks and delivers the chunks.
  * `stream`, `shared`, `chunk_ring`: what the owner sees and shares.
  * `watchdog`: finds stalls and paces the attempts to reopen a device.
  * `normalizer_laws`, `split_laws`, `intake_laws`, `delivery_laws`,
    `shape_laws`, `progress_laws`, `watchdog_laws`: what holds over whole
    histories of events.
* `app/` is ordinary Rust around it: devices, threads, the clock, and the rate
  conversion by `rubato`.
* `tests/` runs the library, with real rate conversions and in virtual time.
