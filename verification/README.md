# chaoslab

A Verus-verified library for the ChaosLab operating-system experiments,
and the programs around it.

`src/` holds the verified library:

- `chaos`: kernel handles, error codes and event kinds, the bytes of every
  kernel call and the decoding of the kernel's replies, and the registry of
  clients that servers keep.
- `console`: the message queue of a protocol channel (two buffers, each a
  header and a linked queue of messages, with its exact byte layout), the
  console protocol's messages, and its server and client sides.
- `data`, `filesystem`: the data and filesystem protocols on the same
  channels.
- `layout`, `wire`: the message format (fixed parts, then referenced lists
  and texts) and its byte-level building blocks.
- `host_console`: the decisions of the console host server: which client is
  shown, where text goes, what an input does.
- `cluido`: line editing and command choice of the Cluido shell.
- `graphics`: painting boxes and frames into an image.
- `bogus`: the components of the experimental user-interface protocol.

`app/` holds the programs: the console host server (SDL) and the Cluido
shell. They connect to the kernel, map the channel buffers shared with other
processes, and hand every message and event to the library, which decides
what it means.

`tests/` runs the library on concrete values.
