//! Handshake protocol for a System Management Controller behind two legacy I/O ports.
//!
//! The library is layered. [`port`] names the ports and the transport that reaches them,
//! [`handshake`] moves single bytes with polling and backoff, and [`frame`] builds the
//! read and write frames and the two register operations on top of that. [`register`]
//! holds what a register gives, [`request`] what is asked of it, [`error`] the failures
//! and [`text`] how numbers are written out.
//!
//! The controller answers as it pleases, so no operation can promise what it returns.
//! What each operation promises is stated over a ghost record of the handshakes it
//! made, [`history`]: which handshakes were made, in which order, what the controller
//! answered to each, and what is returned for those answers. The handshakes in turn
//! say which ports were accessed with which delays.

pub mod error;
pub mod frame;
pub mod handshake;
pub mod history;
pub mod port;
pub mod register;
pub mod request;
pub mod text;

pub use error::SmcError;
pub use frame::SmcOperation;
pub use handshake::{DefaultSmcRw, SmcPrimitive};
pub use history::{Handshake, Step};
pub use port::{IoPortRw, PortAccess, Recorded};
pub use register::{DisplayedValue, SmcData};
pub use request::{Code, Request};
