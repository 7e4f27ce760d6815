//! Connection core of a multiplexed HTTP/2 transport: buffered outbound
//! chunks, flow-control window accounting and the outbound data pump.

pub mod buf_vec_deque;
pub mod chunk;
pub mod client_types;
pub mod conn;
pub mod pump;
pub mod stream;
pub mod window;
