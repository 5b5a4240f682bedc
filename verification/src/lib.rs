//! A latest-value channel with epoch-based reclamation, as a verified sequential model.
//!
//! One sender publishes successive values; receivers clone or borrow the newest one. A value
//! that has been replaced is retired, not freed: it is freed only once the global epoch has
//! moved two steps past its retirement, which cannot happen while a pin that may still see
//! it is held. The state that the handles share is an explicit [`Channel`], and every
//! operation is a step of the state machine in [`model`].

pub mod channel;
pub mod epoch;
pub mod garbage;
pub mod heap;
pub mod model;
pub mod slot;
pub mod trace;

pub use channel::{empty, new, Borrow, Channel, Receiver, Sender};
