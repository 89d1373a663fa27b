# ytamp

The verified core of ytamp, a YouTube Music client: the rules the player
and the library follow, each stated as a Verus contract and proved.

- `src/queue.rs`, `src/queue_view.rs`, `src/queue_laws.rs`: the playback
  queue (context, user queue, manual order, shuffle, repeat) over a
  mathematical view, with the laws every operation keeps.
- `src/cookie_paste.rs`, `src/sign_in.rs`, `src/sign_out.rs`,
  `src/auth_flow.rs`: reading the sign-in paste, classifying sign-in
  failures, the sign-in flow's steps, and what signing out keeps.
- `src/app_state.rs`, `src/reducer.rs`, `src/reply.rs`, `src/effect.rs`: the
  application state without audio settings, signing out of it, and the
  reducer: one rule per action, the gates that make a stale player report
  or a result for an earlier session change nothing, the
  playback-generation and lyrics rules every action keeps, and the answer a
  failed request gets.
- `src/domains.rs`, `src/navigation.rs`, `src/library_loads.rs`,
  `src/library_writes.rs`, `src/discovery_flow.rs`: the reducer's rules by
  domain: player reports, notices, skins, lyrics; pages, search, Back;
  library lists, pages, covers and cache hits; likes, playlist rows and new
  playlists; the home and collection feeds.
- `src/library.rs`, `src/discovery.rs`, `src/listening_history.rs`,
  `src/imports.rs`, `src/durations.rs`: the library, feed, history, import
  and metadata-lookup state rules.
- `src/prefetch.rs`: the player's warm cache of buffers for upcoming
  tracks (most recently used first, bounded, one entry per id) and the
  rule for starting a prefetch.
- `src/stream/`: the download buffer's state and read decisions, the
  resolver chain and its circuit breakers, the disk cache's naming and
  eviction, and the sources' parsing.
- `src/lyrics.rs`, `src/thumbnails.rs`, `src/player.rs`, `src/text.rs`,
  `src/numbers.rs`: LRC text, thumbnail choice and sizing, playback
  position arithmetic, and the string and number reading they share.
- `app/`: the file, process and terminal side around the library.
