# rustibia

The rules of a tile-based multiplayer game server, and the bots that log into it to load-test it,
as a library whose behaviour is stated in contracts and proved with Verus.

- `src/entities`: the map with its tiles, items and agents, conditions, areas of effect, and the
  record of what changed in a tick.
- `src/game`: what happens in a tick: walking, casting, healing, creatures' abilities, fields,
  using and decaying items, expiring conditions, and which events follow.
- `src/actors`: who is told of what, and how a session turns events and changes into messages.
- `src/wire`: the bytes of the protocol, with the law that a decoder reads back what was encoded.
- `src/loadtest`: a bot's picture of the world, its decisions, its timing probes, the metrics of a
  run, and how characters are named and stocked.
- `src/doubles.rs`: double-precision numbers worked out on whole numbers, where a rule turns on how
  they round.
- `app`: the command line, sockets, the account site, the database, files, and the rest of
  the arithmetic that is floating point.
- `tests`: the library on concrete values.

Randomness, ticks of the clock and what is read from files come into the library as arguments. The
items marked `external_body` call `bytes`, `hdrhistogram`, `imbl`, `rand`, `slotmap`, `smallvec` or
the standard library; each says above it what is believed of the call.
