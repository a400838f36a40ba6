# furumi

The verified core of a federated terminal music player: the local library,
playlists and likes that several devices of one person keep in step, the cards
and searches that peers of the network answer each other, and Jam sessions in
which several people listen together.

- `src/` is the library. Its functions carry contracts that Verus proves.
  - `library/` holds the tables of the local library, importing, editing,
    listing, playlists, likes and what is known of other peers' artists.
  - `devices/` holds pairing, trust, the log of operations, how it is exchanged
    and compacted, and the snapshots that bring a new device up to date.
  - `federation/` holds what peers publish, search, serve and fetch.
  - `player/` holds the playback engine, the cursor over decoded audio and the
    counters of the level meter.
  - `jam.rs`, `share.rs`, `media.rs` and `cli.rs` hold Jam sessions, share links,
    media keys and the command line.
  - The other modules hold texts, lists, encodings and frames.
- `tests/` runs the library.
- `app/` is the program around it: SQLite, audio files, the audio device, JSON,
  streams and the network.

Statements that span several functions are public proof functions whose names
begin with `law_`.
