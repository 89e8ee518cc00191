# vivotk

A toolkit for volumetric (point-cloud) video: DASH manifests and segment
fetching, the playback buffer, rate-adaptation bookkeeping and point-cloud
helpers. The library in `src/` is verified with Verus; `app/` is the player
program around it.

## Layout

- `src/dash/` — the manifest model and its lookups (`parser.rs`), `xs:duration`
  parsing (`duration.rs`), what the segment fetcher downloads and its bitrate
  statistics (`fetcher.rs`), and the playback buffer (`buffer.rs`).
- `src/playback.rs` — the buffer manager's decisions: which frames to fetch,
  when a renderer's request is answered, what becomes of the buffer as
  downloads and decoded streams arrive; and looping traces.
- `src/abr/` — bitrate sums shared by the rate-adaptation rules.
- `src/formats/`, `src/materials/`, `src/color.rs` — point clouds and their
  segments, colours, triangle faces, `.ply` directories.
- `src/io/`, `src/player.rs`, `src/convert.rs` — recognising `.ply` files,
  choosing a format to play or convert to, and the `.ply` encoding to write.
- `src/text.rs`, `src/utils.rs` — character and averaging helpers.
- `app/` — the player: manifest XML, HTTP downloads, the event loop that runs
  the buffer manager, and the floating-point parts (rate adaptation, throughput
  prediction, colours, coordinates, boxes) with `.ply` reading and writing.
- `tests/` — tests of the library.
