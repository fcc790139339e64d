# ble_medium

The BLE receive medium of a Nearby / Quick Share endpoint, with its byte formats
and decisions verified by Verus.

- `src/` is the library. `varint`, `fields` and `control` hold the protobuf
  control messages; `framing` and `command` the frames and commands of the L2CAP
  channel; `advertisement`, `digest` and `server` what is advertised; `psm` and
  `bridge` the decisions of the listener and of a connection. What rests on
  `sha2`, `rand` and `uuid` stands behind trusted functions, each documented
  where it is declared.
- `app/` runs the medium on a BlueZ adapter: it performs the I/O and hands the
  results to the library.
- `tests/` checks the formats against worked examples and captured vectors.
