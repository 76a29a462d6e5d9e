//! LNemail, a disposable mailbox that is paid for over the Lightning Network
//! and reached over a REST API with a bearer token.
//!
//! [`call`] checks the calls that a mail client makes, plans their requests and
//! makes the answers of the replies. It rests on [`params`] for the parameters,
//! on [`http`] for the requests, on [`resource`] for the messages that a client
//! is shown and on [`outgoing`] for those that it sends. [`qr`] draws an
//! invoice, and [`sent_cache`] keeps what was sent from this device, in the
//! bounded set of [`entries`].
//!
//! What each of them is for stands in laws: of the calls in [`laws`] and
//! [`call_laws`], of the parameters in [`param_laws`], of the requests in
//! [`http_laws`], of the messages in [`message_laws`] and [`outgoing_laws`], of
//! the drawing in [`drawing_laws`] and of what is kept in [`cache_laws`].
//!
//! Nothing here reads or writes anything: a transport, a store of credentials
//! and a file are handed in as values, and what is to be sent or written is
//! handed back.
pub mod cache_laws;
pub mod call;
pub mod call_laws;
pub mod codec;
pub mod crypto;
pub mod dates;
pub mod drawing_laws;
pub mod entries;
pub mod http;
pub mod http_laws;
pub mod json;
pub mod laws;
pub mod message_laws;
pub mod outgoing;
pub mod outgoing_laws;
pub mod param_laws;
pub mod params;
pub mod qr;
pub mod resource;
pub mod sent_cache;
pub mod text;
