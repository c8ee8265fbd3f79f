//! A small NNTP client library: the protocol text that goes over the wire and
//! the decisions taken on what comes back, with their contracts proved.

pub mod capabilities;
pub mod command;
pub mod decimal;
pub mod error;
pub mod response;
pub mod terminal;
pub mod text;

pub use error::NNTPError;
pub use response::Response;
