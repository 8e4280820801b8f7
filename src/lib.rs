//! The logic of a line-based bridge between this process and a Node.js peer:
//! the record codec, and the dispatcher that routes channel deliveries to
//! waiters and reassembles chunked function calls. The runtime around it
//! (threads, tasks, standard input and output) lives outside this library and
//! hands it one event at a time.

pub mod codec;
pub mod dispatcher;
pub mod error;
pub mod facade;
pub mod table;
pub mod text;

pub use codec::{
    decode, encode_channel_send, encode_exit, encode_registration, encode_response, is_exit_line,
    decode_outgoing, Arg, Incoming, Outgoing,
};
pub use dispatcher::{Action, Dispatcher, Event, PendingCall};
pub use error::BridgeClosedError;
pub use facade::{receive_result, send_line};
