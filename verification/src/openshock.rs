//! The OpenShock backend. It is known to the router and sends nothing yet.

pub mod handler;
