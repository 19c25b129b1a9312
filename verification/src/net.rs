//! Network layer: wire format and protocol messages.

pub mod buf;
pub mod decimal;
pub mod error;
pub mod messages;
pub mod parameter;
pub mod text;
pub mod wire;

pub use error::Error;
pub use parameter::{Parameter, Parameters};
