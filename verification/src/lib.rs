//! Turns an annotated plain-text script into one synthesized audio buffer.
//!
//! Each input line may start with a bracketed voice directive such as
//! `[en-US-GuyNeural]`; the directive switches the active voice for that
//! line and all following lines until the next directive. Every line whose
//! remaining text is non-blank becomes one synthesis request; the responses
//! are concatenated, in line order, into a single byte buffer.
//!
//! The crate holds the segmentation state machine, the markup builder, the
//! request construction and the ordered audio accumulation. Performing the
//! network exchange and persisting the final buffer are left to the caller.

pub mod markup;
pub mod request;
pub mod run;
pub mod scanner;
pub mod segment;
pub mod text;
