# pcplayerpicker

The verified core of PCPlayerPicker, a player-ranking app for small-sided
sports sessions: the coach's device runs the session, and a Cloudflare
Worker stores event logs so that assistants can enter scores and players can
follow their schedule.

`src/` is the library, written in Verus; every function there carries a
contract that Verus proves:

- `api`, `admin`, `admin_page`: the worker's decisions — routing, request
  checks, who may write to a session, what a share token reveals, salted
  hashes of PINs and coach keys, CORS, event pages and the admin page.
- `sync`, `json`, `read_only`, `follow`, `online`: the browser's side of
  online sessions — endpoints, error messages, pushing and pulling events,
  the read-only views, share links and PIN fields.
- `share`, `roster_edit`, `coach`, `setup`, `score_entry`: the coach screens —
  shared round schedules, editing the players of a round, rankings input,
  the new-session form and score entry fields.
- `storage`, `browser`: storage keys, the session index, dark mode, the
  device id and what the user agent says.
- `text`, `models`: text helpers and the session data the logic reads.

`app/` holds what reads and writes the outside world: the Worker's handlers
and D1 queries, browser storage, `fetch`, and the few computations on
JavaScript floating-point times.

`tests/` runs the library on concrete values.
