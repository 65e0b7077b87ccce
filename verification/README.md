# corvus_tui

The state model behind the corvus terminal dashboard, verified with Verus.

- `src/ja4.rs` reads the readable parts of JA4 fingerprints: the cipher and
  extension counts of a hash, the cipher and extension lists of a field list.
- `src/model.rs` holds what the producer thread sends: the fingerprint event,
  its intel reports and its alerts.
- `src/state.rs` is the dashboard state: the stream rows, alerts, the
  constellation points, throughput and divergence history, the cursor and the
  key handling, with its invariant and the laws the operations keep.
- `src/view.rs` and `src/text.rs` are the renderer's decisions: colours, cell
  text, clock readings, the visible window.
- `src/feed.rs` and `src/time.rs` are the channel and the clock.
- `app/` is the terminal front end: the frame loop and the ratatui drawing.
