//! A request engine: named calls from a front-end, answered over a text
//! session in escaped, size-bounded chunks.
pub mod codec;
pub mod defaults;
pub mod engine;
pub mod message;
pub mod wire;

pub use engine::{Handler, Outcome, RequestEngine};
pub use message::{Message, MessageContext, Transport};
