pub mod payloads_generations;
pub mod signalr_message;

pub use payloads_generations::generate_negotiate_response;
pub use payloads_generations::get_ping_payload;
pub use signalr_message::PayloadField;
pub use signalr_message::SignalrMessage;
pub use signalr_message::SignalrMessageError;
