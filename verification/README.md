# netplay

The rooms of a netplay server for a shared campaign: players open and join
rooms, the owner of a room decides whose controller commands reach the others,
and chat, connection signals, data and snapshots are passed on.

- `src/` is the library, verified with Verus. `steps.rs` says what each request
  does, `server.rs` does it, and `laws.rs` proves what holds of the server as a
  whole. A request is answered in one step that changes the state and returns
  the list of things to send.
- `tests/` runs the library on concrete values.
- `app/` is the server itself: sockets, HTTP routes and timers around the
  library. It listens on the port in `PORT`, or on 3000.
