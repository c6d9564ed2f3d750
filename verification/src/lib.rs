//! Long-running task coordination with correlation-id based event routing.
//!
//! A coordinator owns background processes and drives each one through its
//! lifecycle; a client-side router matches the results that are pushed back
//! to the subscribers that asked for them. Around the two stand the messages
//! that cross the boundary between them, and the small state machines of the
//! front end that uses them: a session timer and a heartbeat control.

pub mod channel;
pub mod coordinator;
pub mod heartbeat;
pub mod ids;
mod lookup;
pub mod messages;
pub mod process;
pub mod router;
pub mod timer;
