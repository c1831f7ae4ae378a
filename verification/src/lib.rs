//! Incremental decoder for the server-sent-event wire format, together with
//! the single-slot store that hands the latest decoded payload to readers.
//!
//! The decoder works line by line: [`event::EventLine`] classifies one raw
//! line into a field tag and value, [`event::EventBuilder`] accumulates field
//! values until a terminator line completes an [`event::Event`], and
//! [`stream::StreamHandler`] owns one builder across chunk boundaries so that
//! callers never see partial state. [`store::Store`] is the single-slot cell
//! that keeps the most recently decoded payload.

pub mod error;
pub mod event;
pub mod store;
pub mod stream;
