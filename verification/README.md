# nbe

The decision logic of a broadcast playout engine, written in Verus: the
executable functions carry contracts, and the contracts are proved. Two
outside calls, to the machine's clock and to a thread that is waited for, promise
nothing.

- `src/` is the library. It decides what a directive does to a show, what the
  picture and the sound of a frame are made of, how a recording is framed as
  fragmented MP4, how a stream is published over RTMP, and what is refused.
  Numbers that the mixer and the compositor compute with as floating point are
  carried through as bits or as ratios.
- `tests/` runs the library on concrete values.
- `app/` is the program around it: the control plane's WebSocket, files, threads,
  the GPU and the platform's codecs.

The properties that span functions stand beside the code they speak of, as proof
functions whose names begin with `law_`. What is taken on trust from outside
crates is marked `external_body`, and says what it claims.
