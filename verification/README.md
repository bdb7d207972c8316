# brandelier

Controller of a kinetic chandelier: nineteen bulbs on cords, each with its
own small controller on a shared i2c bus, driven from a web UI.

The crate is split in two.

- `src/` is the library, verified with Verus:
  - `bulb`: the four-byte command encoding, telemetry parsing and the
    bookkeeping of one bulb;
  - `i2c`: CRC-16/XMODEM framing of transfers and the per-address rate limit;
  - `config`: bus and driver settings, topology validation, and the
    annotated rendering of the merged configuration;
  - `topology`: the canonical bulb slots (center, inner ring, outer ring);
  - `driver`: the bulbs the driver drives, its mode machine (idle,
    zeroing, cycling) and the refresh schedule of the cycle;
  - `wave`: target selection and ring grouping of the wave patterns;
  - `server`: preset-name checks, the sorted listing of stored presets,
    the disable-all switch and the rest
    detection that decides when bulb positions may be stored.
- `app/` is the program around it: the HTTP API (axum), the actors (kameo),
  the hardware bus (i2cdev), configuration loading (figment, validator), and
  every computation in floating point (physical units, trigonometry of bulb
  positions and waves).

`tests/` exercises the library on concrete values.
