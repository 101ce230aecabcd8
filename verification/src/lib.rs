//! bvchat: the decision logic of a small IRC-style chat server and its
//! client, verified with Verus.
//!
//! The sockets, files, threads and the terminal live in the program around
//! this library; here stand the rate limiter, the parsing of what a client
//! sends, the server's state machine (who is logged in, who is admin, which
//! direct messages wait for delivery), the login and ban checks, and the
//! client's command parsing and block list.
pub mod client;
pub mod connection;
pub mod counter;
pub mod login;
pub mod server;
pub mod text;
pub mod users;
