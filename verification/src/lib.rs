//! Sender authentication, transport policy and connection policy for the Snail
//! mail server.

pub mod assoc;
pub mod bytes;
pub mod clock;
pub mod ip;
pub mod ip_laws;
pub mod ip_net_laws;
pub mod network;
pub mod ring;
pub mod security;
pub mod text;
pub mod text_laws;
pub mod utilities;
