# voicelink

The core of a two-way voice link over UDP, verified with Verus, and a program around it.

- `src/header.rs`, `src/bytes.rs`: the header of a datagram, written and read back.
- `src/sequence.rs`: sequence numbers that wrap around.
- `src/codec.rs`, `src/opus.rs`: uncompressed samples, and what surrounds an Opus encoder.
- `src/link.rs`: from a frame to a datagram and back.
- `src/jitter.rs`: the jitter buffer between the network and the speaker.
- `src/ring.rs`: rings of samples between threads, on top of `ringbuf`.
- `src/audio.rs`: the choice of a format, the rings of a call, and what passes a device.
- `app/`: devices, sockets, clock and ticks.

Functions named `law_` state what holds of the library as a whole.

What is trusted stands in `src/ring.rs`, about `ringbuf`: the functions `sample_ring`, `try_push` and
`try_pop`, which call it; the opaque types `SampleProducer` and `SampleConsumer` around its two
halves; and the names `pushes`, `pops`, `ring_capacity`, `stream_in` and `stream_out`, over which the
three functions are specified.

The program binds the address in `LOCAL` (`0.0.0.0:40000` by default) and sends to the one in
`REMOTE` (`127.0.0.1:40000` by default).
