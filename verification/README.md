# nrf52840_aht20

Verified logic of a battery-powered nRF52840 + AHT20 temperature/humidity
sensor node (Embassy firmware).

- `src/` — the Verus library:
  - `aht20` — CRC-8 (poly 0x31, init 0xFF), frame decoding to centi-degrees and
    centi-%RH, and the measurement cycle as a state machine (`MeasureCycle`)
    with proofs that a cycle always starts from a power-on reset, always ends
    powered down, takes at most 33 steps, and reports a reading only from a
    ready frame whose CRC matches.
  - `battery` — divider arithmetic and the plausibility window.
  - `sensors` — folding one cycle's outcomes into a `Sample` that never fails.
  - `diagnostic` — the bring-up I2C sweep, its report line, the rail-polarity
    verdict, probe tallies and the `dfu` reboot request.
  - `bus` — the `embassy_nrf` TWIM error type, carried through unchanged.
- `app/` — the firmware around it: drivers that own the pins, the SAADC and the
  TWIM, perform what the state machines ask for, and log.
- `tests/` — executable tests of the library.
