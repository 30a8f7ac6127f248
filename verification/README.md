# moq

A small Media over QUIC Transport system: publishers send the objects of a track
to a server, the server passes them on through Redis, and subscribers receive
them. The library under `src/` is written in Rust with contracts that Verus
proves; `app/` holds the programs around it.

## What is proved

- `wire`, `varint`, `message`, `object`: which bytes every value is written as,
  and what any byte string is read as, failures and the bytes they leave
  included.
- `laws`, `rewriting`: what is written is read back, whatever follows it; a part
  of a message is never taken for a message; what was read can be written again;
  setup parameters whose keys are unknown are left out of what is written.
- `session`: a message comes out of the control stream in whichever pieces it
  arrives, and the setup exchange completes.
- `publisher`, `subscriber`, `relay`: what is sent and answered, which channel an
  object goes to, and that it reaches a subscriber unchanged but for the numbers
  that are the subscriber's own.
- `http`, `settings`, `video`: the `/config` resource, ports and arguments, the
  test pattern, and what a viewer does with what it receives.
- `jpeg`: a walk over the segments of a received frame, which tells the frames
  that the JPEG decoder can be given. The decoder may panic on others: the program
  hands those to it itself.

`buffer`, `text`, `error` and `video` also declare what is taken on trust: the
byte buffers of `bytes`; of the standard library, two conversions from UTF-8 and
`String::push`; and the JPEG codec of `image`. Each such declaration says what it
claims.

## The programs

`app/main.rs` is the server when it is started as `moq-server`, and the client
under any other name:

    moq-client <publish|subscribe|video-publish|video-subscribe>

The server listens for WebTransport on port 4433 (`QUIC_PORT`), serves
`http://localhost:8080/config` (`HTTP_PORT`) and connects to Redis at
`redis://127.0.0.1/` (`REDIS_URL`). The objects of a track travel through the
channel `moq:track:{namespace}:{track_name}` as MessagePack.
