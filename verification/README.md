# SyncMob

Encrypted file and message exchange between devices of one local network, with
the protocol and its decisions proved in Verus.

* `src/` is the library. Every function in it is verified; what it takes from
  cryptographic and other crates is stated in small wrappers (`crypto`, `codec`,
  `noise`, `qr`, `text`).
  * `util`, `text`, `bytes`, `codec`: names of files, text, numbers, encodings.
  * `proto`: the messages and how they are framed.
  * `security`: identities, the keystore, the trust list, fingerprints.
  * `net`: beacons, rate limits, the Noise handshake and the secure channel.
  * `engine`: connections, pairing, transfers. It holds no socket, file or
    thread: a method takes what happened and returns what is to be done.
  * `board`: what the window shows.
* `app/` is the desktop program: sockets, files, threads and the window.
* `tests/` runs the library: two engines in one process pair, talk and exchange
  files over real Noise sessions.

Public proof functions named `law_…` state what holds of several functions
together: that both sides of a handshake see one code, that one approval never
pairs two devices, that a received file is published only if what was written to
it has the size and the hash that were offered, that publishing it overwrites
nothing, and that what is sent can be read by the peer.
