# am02_service

Service for the 2.8" secondary screen of the AYANEO AM02 mini PC on Linux:
it speaks the screen's serial protocol (253-byte host frames with a CRC-32,
29-byte screen responses), pushes system information, weather and the clock,
and takes preset/display settings from a settings plugin over a Unix socket.

The library in `src/` is written in Verus and verified:

- `protocol` — frame layout and encoder, response decoding, handshake check,
  the preset/language/theme/clock enums; laws on the checksum, field offsets,
  response round trip and handshake echo.
- `crc` — CRC-32 (IEEE) written out as a spec function, and the call into
  `crc32fast` that computes it.
- `state` — the connection state machine, the handshake's retry decision, and
  their laws (bounded retries, shutdown, running state).
- `power` — the TDP preset table and the screen's preset commands.
- `ipc` — how each plugin command changes the shared state and what is
  answered; read-back laws.
- `weather` — URL encoding, exact and ranked lookups in the region table,
  assembling the weather shown.
- `collector`, `lexer`, `text` — parsing of /proc and /sys text (`str::lines`,
  `split_whitespace`, `trim` and integer parsing, specified over characters),
  device selection, and the baselines behind the rates.
- `bytes` — little-endian encoding.

`app/` is the program around it: serial port, files, sockets, HTTP, threads,
`ryzenadj`, and the floating-point conversions.
