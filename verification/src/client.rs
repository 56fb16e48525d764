//! The client side: the event stream and its decoder, the events it carries,
//! and the follower that turns append notifications into a stream of turns.

pub mod events;
pub mod follow;
pub mod local;
pub mod options;
pub mod subscribe;
pub mod turn;
