# vban_emitter

Streams captured system audio over UDP as VBAN packets.

- `src/` is the verified library (Verus):
  - `vban.rs`: the sample-rate table, its lookup, and the 28-byte VBAN
    header with the packet builder;
  - `ring.rs`: a bounded byte FIFO with a drop-oldest policy;
  - `stream.rs`: the packet plan of a capture stream and the state machine
    that queues captured bytes and cuts them into numbered packets;
  - `icon.rs`: the tray icon bitmap.
- `app/` is the program around it: WASAPI capture, float-to-16-bit
  conversion, the UDP socket, the tray icon and menu, the status text, and
  the sine and capture-dump tools.
- `tests/` runs the library on concrete values.
