# mounter

Mounts a directory of a remote host as a local network share. A small SMB2
server on the loopback interface answers the operating system's file requests
and turns them into SFTP operations, which run over `ssh`.

The logic is a library whose contracts are proved with Verus; the program around
it does the input and output.

- `src/` — the verified library
  - `bytes`, `text`, `utf16`, `wire` — integers, text and fields as bytes
  - `sftp` — packets, multi-packet operations, sessions and the pool of sessions
  - `smb2` — headers, framing and the fixed parts of the protocol
  - `server` — the session of an SMB2 client, as a state machine: a message gives
    a reply, or an SFTP call and what to do with its outcome
  - `cli`, `mounts` — the command line, and what is known of mounted shares
  - `clock` — the time, as the caches need it
- `app/` — the program: sockets, processes, threads, printing
- `tests/` — tests of the library

What is relied on without proof stands in the library under
`assume_specification` and `external_body`, each with a comment that says what
it claims.
