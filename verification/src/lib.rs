//! Reconstruction of I2C traffic from recorded clock and data edges.
//!
//! A capture records every transition of the two bus lines, in the order
//! in which they happened, into a bounded [`log::EdgeLog`]. Once the
//! capture is over, [`decoder`] replays the log and recovers the protocol:
//! START and STOP conditions, the sampled bits, and every byte together
//! with its acknowledge bit. [`render`] turns events and symbols into the
//! text lines of a diagnostic transcript, and [`laws`] states what holds
//! of the decoder and of the log for every input.

pub mod capture;
pub mod decoder;
pub mod event;
pub mod laws;
pub mod log;
pub mod render;
