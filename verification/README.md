# plate-studio

A desktop tool and local HTTP/WebSocket service that makes images of Chinese
licence plates: plate numbers are checked or drawn at random, drawn onto
template images, kept in a short history and announced to subscribers.

## Layout

- `src/` — the verified library (Verus):
  - `plate_number` — the plate rules: provinces, serial letters and digits,
    ordinary and new-energy formats, error messages, the background colour a
    plate implies, and random plates of each colour style.
  - `state` — the shared application state: the latest plate, a history of
    at most 100 records, a log of at most 200 entries, the full-screen switch.
  - `api` — the request handling of the HTTP API and the WebSocket loop rule,
    from parsed requests to results and state changes.
  - `generator` — plate sizes, glyph boxes and colours, asset names.
  - `netutil` — LAN addresses read from `ip` output and probes, ranked into
    the URLs the service announces.
  - `encoding` — Base64 and PNG framing of rendered images.
  - `ui` — the window's labels and status rules.
  - `clock`, `rng`, `text` — local time, randomness and string helpers.
- `app/` — the program around it: the egui window, the axum server, file and
  network I/O, and the floating-point image work.
- `tests/` — tests of the library.
