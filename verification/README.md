# tchannel_rs

TChannel is a network multiplexing and framing RPC protocol created by Uber.
This crate holds the protocol's logic, verified with Verus:

- `frames`: frame types, the frame codec (a frame's length, type, message id
  and payload) and the payloads of init, call, continuation, cancel, claim and
  error frames, each with a parser that gives back what the encoder wrote;
- `fragmentation`: splitting a message's arguments into a call frame and its
  continuations, within the room each frame has;
- `defragmentation`: reading the frames of a message as they arrive, and
  gathering its arguments back (proved to undo the splitting);
- `messages`: raw and JSON messages and the arguments that carry them;
- `handler`, `subchannel`, `channel`: request handlers, their registry per
  service and endpoint, and the channel that keeps subchannels and the server
  task's handle;
- `connection`, `server`: the checks of the init handshake and of pings, the
  dispatch of frames to pending messages, and the frames a handled request is
  answered with.

`app/` runs it over tokio: the TCP server and client, connection pools (bb8),
the tasks that read and write frames, and asynchronous handlers.
