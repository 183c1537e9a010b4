//! Client-side MQTT 3.1.1 protocol engine: inbound publish handshakes,
//! subscription requests and the framing of the packets they send.

pub mod types;
pub mod codec;
pub mod receives;
pub mod sub;
pub mod dispatch;
