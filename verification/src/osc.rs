//! The OSC side of the bridge: decoding datagrams, the touchpoints that turn
//! their messages into command states, and the store that holds those.

pub mod osc;
pub mod store;
pub mod touchpoints;
