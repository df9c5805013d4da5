//! Task scheduling engines: the verified dispatch core of an event-loop
//! scheduler and of a channel-fed cooperative scheduler.

pub mod event_loop;
pub mod host_loop;
pub mod laws;
pub mod time;
