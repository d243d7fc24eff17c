//! Engine.IO / Socket.IO long-polling protocol core: packet codec and session state.

pub mod json;
pub mod text;
pub mod packet;
pub mod socketio;
pub mod engineio;
