# aetherpose

Full-body tracking backend: inertial trackers stream their readings over
Bluetooth LE, USB serial or UDP; the backend fuses them into a skeleton pose,
records it, and serves it over OSC and a WebSocket.

## Layout

- `src/` — the verified library (Verus). It holds the wire protocol (framing,
  CRC, decoding, notification-stream reassembly), link statistics and the
  choice of orientation source, reconnect back-off, tracker bookkeeping,
  tracker-to-bone assignment and the fusion rules that decide which bones take
  position goals, translation tables and the translation-key sweep, recorder
  planning (CSV header, batching policy, reconfiguration), the bone
  hierarchy of the humanoid skeleton, configuration
  defaults and status-log rotation. Readings travel through the library as
  IEEE-754 bit patterns; the library never does floating-point arithmetic.
- `tests/` — tests of the library.
- `app/` — the program around it: sockets, serial ports, Bluetooth, files,
  the Tokio runtime and the WebSocket server, and the floating-point pose
  pipeline (orientation filters, inverse kinematics, smoothing, OSC output).

`aetherpose` runs the backend, headless, with its WebSocket interface for a
separate front end; there is no built-in desktop window. `aetherpose
i18n-sweep` adds missing translation keys to the files under `i18n/`.
