//! Server side of a real-time hub protocol over a WebSocket transport:
//! connection registry, per-connection state machine, tag index,
//! action table, framing and liveness decisions.
//!
//! The library decides and keeps state; it does no input or output. What is
//! to be sent, closed or announced comes back from its functions as values.

pub mod decimal;
pub mod messages;
pub mod middleware;
pub mod middleware_builder;
pub mod my_signal_r_action_callback;
pub mod my_signal_r_actions;
pub mod process_connect;
pub mod process_disconnect;
pub mod signal_r_connection;
pub mod signal_r_connections_list;
pub mod signal_r_list;
pub mod signal_r_message_publisher;
pub mod signal_r_param;
pub mod signalr_liveness_loop;
pub mod string_map;
pub mod tag_model;
pub mod tags;
pub mod web_socket_callbacks;

pub use middleware::MySignalrMiddleware;
pub use middleware_builder::MiddlewareBuilder;
pub use my_signal_r_action_callback::MySignalrCallbacksInstance;
pub use my_signal_r_action_callback::SignalrContractDeserializer;
pub use my_signal_r_actions::MySignalrActions;
pub use process_connect::process_connect;
pub use process_disconnect::process_disconnect;
pub use signal_r_connection::MySignalrConnection;
pub use signal_r_connections_list::SignalrConnectionsList;
pub use signal_r_list::SignalrList;
pub use signal_r_message_publisher::SignalrContractSerializer;
pub use signal_r_message_publisher::SignalrMessagePublisher;
pub use signal_r_param::SignalRParam;
pub use tags::Tags;
pub use web_socket_callbacks::WebSocketCallbacks;
