//! The program guide: events by service, what is on and what comes next, and
//! the packets that say so.

pub mod event_laws;
pub mod events;
pub mod laws;
pub mod muxer;
