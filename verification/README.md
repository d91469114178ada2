# hidamari

A companion daemon for the Music Player Daemon (MPD): a web front end,
Bluetooth audio control, album art lookup and a spectrum feed from MPD's
FIFO output.

## Layout

- `src/` — the library, written in Verus. Its functions carry
  contracts that Verus proves: the MPD protocol (quoting, response
  parsing, status decoration, request planning), configuration rules
  (URL lists, names, normalisation, test sounds), path and range rules of
  the web server, Bluetooth agent and command steps, the I/O list, the
  WebSocket session rules, album-art search and cache steps, and the
  FIFO sample handling. Calls into outside crates (`url`, `rand`, `lru`,
  `roxmltree`, `mime`, `mime_guess`) and a few std calls stand behind
  small trusted wrappers: their contracts are believed, not proved, and
  each is documented where it is declared.
- `tests/` — tests of the library on concrete values.
- `app/` — the program around the library: the HTTP and WebSocket server,
  MPD and D-Bus connections, file access, JSON forms of the library's
  types and the FFT of the spectrum feed.
