# bvchat

An IRC-style chat server and client. The library (`src/`) holds the logic,
verified with Verus; the program (`app/`) holds the sockets, threads, files
and terminal around it.

- `src/counter.rs` — the rate limiter used against spam and repeated failed logins.
- `src/users.rs` — the logged-in users and the admin (the lowest login number).
- `src/server.rs` — the server's state machine: messages in, actions out.
- `src/connection.rs` — what a client's line becomes (chat, commands, spam notices).
- `src/login.rs` — ban list, stored credentials, failed-login counting per address.
- `src/client.rs` — the client's typed commands, senders and block list.
- `src/text.rs` — character-level text helpers.

Run `app` without arguments for the server (port 3000), or with an address
and a port for a client.

Note on logins: a second login under a name already in use is told the name
is taken and its connection is shut down, yet it still replaces the earlier
connection of that name (see `spec_handle` in `src/server.rs`).
