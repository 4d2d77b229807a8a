//! A relay from an IRC channel to channels of a chat platform: the protocol
//! session, its reconnection policy, the rewriting of chat lines and the
//! fan-out of finished messages, each stated as a contract and proved.

pub mod text;
pub mod reconnect;
pub mod protocol;
pub mod transform;
pub mod session;
pub mod dispatch;
pub mod config;
pub mod safety;
