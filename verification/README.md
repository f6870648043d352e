# rtcm_view

A viewer for RTCM3 correction streams: it connects to a caster over TCP,
shows the raw bytes as a hex dump and lists the RTCM3 messages that the
RTKLIB decoder finds in the stream, with per-type counts.

- `src/` is the verified library (Verus):
  - `rtcm.rs` – the decoder's records as plain values, the decision taken on
    each decoder result, and C-string conversion;
  - `log.rs` – the log entry of each decoded message;
  - `hexdump.rs` – the sixteen-bytes-per-line hex dump;
  - `config.rs` – reading and writing the `host=` / `port=` configuration;
  - `viewer.rs` – the viewer's state and how it answers stream events;
  - `reader.rs` – the stream reader's decision after each read;
  - `text.rs` – numerals, padding and joining.
- `app/` is the program around it: the egui window, the TCP reader thread,
  the configuration file, and the binding to the RTKLIB C decoder.
- `tests/` exercises the library on concrete values.
