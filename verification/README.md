# convlog

Conversion of tenhou.net/6 mahjong logs into mjai events, for three- and four-player
games, with the contracts of every step proved by Verus.

## Layout

- `src/tile.rs`: mjai tiles and their numbering.
- `src/event.rs`: mjai events and their mathematical values.
- `src/error.rs`: the conversion errors.
- `src/text.rs`: byte and string helpers (decimal numbers, substring search).
- `src/tenhou.rs`: the log as written, the overview structure read from it, and kyoku
  filters.
- `src/naki.rs`: reading a player's take and discard lists into events.
- `src/kyoku_end.rs`: the result events that close a kyoku.
- `src/tile_map.rs`: counters keyed by tile, held in `ahash::AHashMap`.
- `src/sanma.rs`: the three-player replay, which explores every legal interleaving of
  the players' streams and converts a kyoku only when exactly one exists.
- `src/sanma_laws.rs`: every complete three-player replay is one whole kyoku, and each
  tsumogiri in it discards the tile its player drew last.
- `src/sanma_order.rs`: each seat's draws, calls and discards appear in a converted
  three-player kyoku in the order of its streams.
- `src/yonma.rs`: the four-player replay, with its retry over ambiguous calls, which stops
  where a retry would repeat choices already tried.
- `src/yonma_laws.rs`: every successful four-player replay is one whole kyoku.
- `src/yonma_calls.rs`: every call in a converted four-player kyoku claims the latest
  dahai, from the seat that discarded last.
- `src/validate.rs`: the checks a converted three-player game must pass.
- `src/conv.rs`: the whole log.
- `src/rankings.rs`: placings of players by score.
- `src/consts.rs`: sizes of the model's observation and action encodings.
- `app/`: a command-line program that converts a directory of JSON logs into JSONL
  files of mjai events (JSON reading and writing, files, threads).
- `tests/`: tests run against the compiled library.
